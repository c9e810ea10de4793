use landmass::error::Error;
use landmass::rng::{step_knuth, step_salted, NotchRng, KNUTH_A, KNUTH_C};

#[test]
fn golden_bounded_draw() {
    let mut rng = NotchRng::new(1, 100);
    rng.init_at(0, 0);
    assert_eq!(rng.next_i32(100), Ok(51));
}

#[test]
fn golden_draw_is_reproducible() {
    for _ in 0..3 {
        let mut rng = NotchRng::new(1, 100);
        rng.init_at(0, 0);
        assert_eq!(rng.next_i32(100), Ok(51));
    }
}

#[test]
fn constants_are_knuths() {
    assert_eq!(KNUTH_A, 6364136223846793005);
    assert_eq!(KNUTH_C, 1442695040888963407);
}

#[test]
fn plain_step_values() {
    assert_eq!(step_knuth(0), 1442695040888963407);
    assert_eq!(step_knuth(1), 7806831264735756412);
    assert_eq!(step_knuth(-1), -4921441182957829598);
}

#[test]
fn plain_step_wraps() {
    assert_eq!(step_knuth(i64::MAX), i64::MAX.wrapping_mul(KNUTH_A).wrapping_add(KNUTH_C));
    assert_eq!(step_knuth(i64::MIN), i64::MIN.wrapping_mul(KNUTH_A).wrapping_add(KNUTH_C));
}

#[test]
fn salted_step_values() {
    assert_eq!(step_salted(1, 1), 7806831264735756413);
    assert_eq!(step_salted(0, 5), 5);
    assert_eq!(step_salted(-7, 3), 6595904502917287543);
}

#[test]
fn salted_step_multiplies_by_plain_step() {
    for state in [0i64, 1, -1, 42, i64::MAX, i64::MIN, 192857809901069572] {
        for c in [0i64, 1, -1, i64::MAX, i64::MIN] {
            assert_eq!(step_salted(state, c), state.wrapping_mul(step_knuth(state)).wrapping_add(c));
        }
    }
}

#[test]
fn new_derives_base_from_salt_and_seed() {
    let rng = NotchRng::new(1, 100);
    assert_eq!(rng.initial, -1884428780835672815);
    assert_eq!(rng.state, 0);
    assert_eq!(NotchRng::new(2000, 100).initial, -1941642057640098900);
    assert_eq!(NotchRng::new(0, 0).initial, 0);
    assert_eq!(NotchRng::new(-1, -1).initial, -3955970602384365589);
    assert_eq!(NotchRng::new(i64::MIN, i64::MAX).initial, -1603873254564653890);
}

#[test]
fn salt_and_seed_are_not_interchangeable() {
    assert_ne!(NotchRng::new(1, 100).initial, NotchRng::new(100, 1).initial);
}

#[test]
fn init_at_sets_cursor_from_base_and_position() {
    let mut rng = NotchRng::new(1, 100);
    rng.init_at(0, 0);
    assert_eq!(rng.state, 192857809901069572);
    assert_eq!(rng.initial, -1884428780835672815);
    rng.init_at(1, 2);
    assert_eq!(rng.state, 4405718168902024348);
    rng.init_at(2, 1);
    assert_eq!(rng.state, -1680414064246700487);
}

#[test]
fn init_at_mixes_x_z_x_z() {
    let mut rng = NotchRng::new(7, 9);
    rng.init_at(-3, 11);
    let mut state = rng.initial;
    state = step_salted(state, -3);
    state = step_salted(state, 11);
    state = step_salted(state, -3);
    state = step_salted(state, 11);
    assert_eq!(rng.state, state);
}

#[test]
fn next_returns_top_bits_and_advances() {
    let mut rng = NotchRng::new(1, 100);
    rng.init_at(0, 0);
    let drawn: Vec<i64> = (0..5).map(|_| rng.next()).collect();
    assert_eq!(drawn, vec![11495221251, -224562664521, 437479185965, -449134123746, -334287163386]);
}

#[test]
fn next_advances_by_a_salted_step() {
    let mut rng = NotchRng::new(1, 100);
    rng.init_at(5, 6);
    let before = rng.state;
    let value = rng.next();
    assert_eq!(value, before >> 24);
    assert_eq!(rng.state, step_salted(before, rng.initial));
}

#[test]
fn next_keeps_the_sign() {
    let mut rng = NotchRng { initial: 3, state: -1 };
    assert_eq!(rng.next(), -1);
    let mut rng = NotchRng { initial: 3, state: -(1 << 24) };
    assert_eq!(rng.next(), -1);
    let mut rng = NotchRng { initial: 3, state: -(1 << 24) - 1 };
    assert_eq!(rng.next(), -2);
    let mut rng = NotchRng { initial: 3, state: i64::MIN };
    assert_eq!(rng.next(), -(1 << 39));
    let mut rng = NotchRng { initial: 3, state: i64::MAX };
    assert_eq!(rng.next(), (1 << 39) - 1);
}

#[test]
fn bounded_draw_of_negative_value() {
    let mut rng = NotchRng { initial: 3, state: -1 };
    assert_eq!(rng.next_i32(100), Ok(99));
    let mut rng = NotchRng { initial: 3, state: -(100 << 24) };
    assert_eq!(rng.next_i32(100), Ok(0));
    let mut rng = NotchRng { initial: 3, state: -(101 << 24) };
    assert_eq!(rng.next_i32(100), Ok(99));
    let mut rng = NotchRng { initial: 3, state: 250 << 24 };
    assert_eq!(rng.next_i32(100), Ok(50));
    let mut rng = NotchRng { initial: 3, state: i64::MIN };
    assert_eq!(rng.next_i32(i32::MAX), Ok((i32::MAX as i64 - (1i64 << 39) % i32::MAX as i64) as i32));
}

#[test]
fn bounded_draws_at_a_position() {
    let mut rng = NotchRng::new(2000, 100);
    rng.init_at(-8, -8);
    assert_eq!(rng.state, -6573739576681109332);
    assert_eq!(rng.next_i32(2), Ok(1));
    assert_eq!(rng.next_i32(4), Ok(3));
    assert_eq!(rng.next_i32(100), Ok(38));
    assert_eq!(rng.next_i32(7), Ok(6));
    assert_eq!(rng.next_i32(i32::MAX), Ok(1748887260));
}

#[test]
fn bounded_draw_lies_below_the_bound() {
    let bounds = [1, 2, 3, 7, 100, 1000, 65536, i32::MAX - 1, i32::MAX];
    let mut state: i64 = 0x1234_5678_9abc_def0;
    let mut negative = 0;
    for i in 0..12_000 {
        state = step_salted(state, i);
        if state >> 24 < 0 {
            negative += 1;
        }
        for max in bounds {
            let mut rng = NotchRng { initial: 17, state };
            let value = rng.next_i32(max).unwrap();
            assert!(0 <= value && value < max);
            assert_eq!(value as i64, (state >> 24).rem_euclid(max as i64));
        }
    }
    assert!(negative > 1000);
}

#[test]
fn bounded_draw_advances_like_a_draw() {
    let mut a = NotchRng::new(4, 5);
    let mut b = NotchRng::new(4, 5);
    a.init_at(9, 9);
    b.init_at(9, 9);
    a.next_i32(10).unwrap();
    b.next();
    assert_eq!(a.state, b.state);
}

#[test]
fn bound_must_be_positive() {
    let mut rng = NotchRng::new(1, 100);
    rng.init_at(3, -4);
    let before = rng.state;
    assert_eq!(rng.next_i32(0), Err(Error::InvalidArgument));
    assert_eq!(rng.next_i32(-1), Err(Error::InvalidArgument));
    assert_eq!(rng.next_i32(-5), Err(Error::InvalidArgument));
    assert_eq!(rng.next_i32(i32::MIN), Err(Error::InvalidArgument));
    assert_eq!(rng.state, before);
    assert_eq!(rng.initial, NotchRng::new(1, 100).initial);
}

#[test]
fn same_seed_and_position_give_same_sequence() {
    let mut first = NotchRng::new(12, 3456);
    let mut second = NotchRng::new(12, 3456);
    first.init_at(-17, 40);
    second.init_at(-17, 40);
    for _ in 0..64 {
        assert_eq!(first.next(), second.next());
    }
}

#[test]
fn history_does_not_reach_past_a_reinitialization() {
    let mut fresh = NotchRng::new(12, 3456);
    let mut used = NotchRng::new(12, 3456);
    used.init_at(1, 1);
    for _ in 0..10 {
        used.next();
    }
    used.init_at(-1000, 2000);
    used.next_i32(9).unwrap();
    used.init_at(i64::MIN, i64::MAX);
    used.next();

    fresh.init_at(-17, 40);
    used.init_at(-17, 40);
    assert_eq!(fresh.state, used.state);
    for _ in 0..64 {
        assert_eq!(fresh.next(), used.next());
    }
}

#[test]
fn order_of_coordinates_matters() {
    let mut a = NotchRng::new(1, 100);
    let mut b = NotchRng::new(1, 100);
    a.init_at(1, 2);
    b.init_at(2, 1);
    assert_ne!(a.state, b.state);
}

#[test]
fn draws_before_reinitialization_are_defined() {
    let mut rng = NotchRng::new(1, 100);
    assert_eq!(rng.next(), 0);
    assert_eq!(rng.state, rng.initial);
}
