use landmass::blur::{Blur, BoolMix, BLUR_MARGIN};
use landmass::error::Error;
use landmass::image::Image;
use landmass::rng::NotchRng;
use landmass::window::{Position, Size};

fn rows_of(image: &Image) -> Vec<String> {
    (0..image.z_size())
        .map(|z| (0..image.x_size()).map(|x| if image.cell(x, z) { '#' } else { '.' }).collect())
        .collect()
}

fn image_of(rows: &[&str]) -> Image {
    let mut image = Image::new(false, rows[0].len(), rows.len()).unwrap();
    for (z, row) in rows.iter().enumerate() {
        for (x, glyph) in row.chars().enumerate() {
            image.set(x, z, glyph == '#').unwrap();
        }
    }
    image
}

fn blur() -> Blur {
    Blur::new(NotchRng::new(1, 100), BoolMix::new(4, 2).unwrap())
}

#[test]
fn weights_must_make_a_coin() {
    assert!(BoolMix::new(4, 2).is_ok());
    assert!(BoolMix::new(0, 1).is_ok());
    assert!(BoolMix::new(1, 0).is_ok());
    assert!(BoolMix::new(i32::MAX, 0).is_ok());
    assert!(BoolMix::new(i32::MAX - 1, 1).is_ok());
    assert!(matches!(BoolMix::new(0, 0), Err(Error::InvalidArgument)));
    assert!(matches!(BoolMix::new(-1, 2), Err(Error::InvalidArgument)));
    assert!(matches!(BoolMix::new(2, -1), Err(Error::InvalidArgument)));
    assert!(matches!(BoolMix::new(i32::MAX, 1), Err(Error::InvalidArgument)));
    assert!(matches!(BoolMix::new(i32::MAX, i32::MAX), Err(Error::InvalidArgument)));
}

#[test]
fn coin_keeps_its_weights() {
    let mix = BoolMix::new(4, 2).unwrap();
    assert_eq!(mix.true_chance(), 4);
    assert_eq!(mix.false_chance(), 2);
}

#[test]
fn blur_margin_is_one_cell() {
    assert_eq!(BLUR_MARGIN, 1);
}

#[test]
fn blur_input_position_steps_back_by_the_margin() {
    assert_eq!(blur().input_position(Position { x: -8, z: -8 }), Ok(Position { x: -9, z: -9 }));
    assert_eq!(blur().input_position(Position { x: 0, z: 5 }), Ok(Position { x: -1, z: 4 }));
    assert_eq!(
        blur().input_position(Position { x: i64::MIN + 1, z: i64::MAX }),
        Ok(Position { x: i64::MIN, z: i64::MAX - 1 })
    );
}

#[test]
fn blur_input_position_off_the_plane_is_refused() {
    assert_eq!(blur().input_position(Position { x: i64::MIN, z: 0 }), Err(Error::InvalidArgument));
    assert_eq!(blur().input_position(Position { x: 0, z: i64::MIN }), Err(Error::InvalidArgument));
}

#[test]
fn blur_input_size_adds_the_margin_twice() {
    assert_eq!(blur().input_size(Size { width: 16, depth: 16 }), Ok(Size { width: 18, depth: 18 }));
    assert_eq!(blur().input_size(Size { width: 0, depth: 3 }), Ok(Size { width: 2, depth: 5 }));
    assert_eq!(
        blur().input_size(Size { width: usize::MAX - 2, depth: 0 }),
        Ok(Size { width: usize::MAX, depth: 2 })
    );
}

#[test]
fn blur_input_size_too_large_is_refused() {
    assert_eq!(blur().input_size(Size { width: usize::MAX - 1, depth: 0 }), Err(Error::InvalidArgument));
    assert_eq!(blur().input_size(Size { width: 0, depth: usize::MAX }), Err(Error::InvalidArgument));
}

const INPUT: [&str; 6] =
    ["########", "..#..#..", ".######.", "...#.#..", ".####.#.", "....##.#"];

#[test]
fn blur_mixes_each_cell_with_the_one_before() {
    let input = image_of(&INPUT);
    let mut output = Image::new(false, 6, 4).unwrap();
    assert_eq!(blur().filter(Position { x: -3, z: -2 }, &input, &mut output), Ok(()));
    assert_eq!(rows_of(&output), vec!["..#.##", ".#####", "..###.", ".#####"]);
}

#[test]
fn blur_keeps_cells_that_agree_with_the_one_before() {
    let input = image_of(&INPUT);
    let mut output = Image::new(false, 6, 4).unwrap();
    blur().filter(Position { x: -3, z: -2 }, &input, &mut output).unwrap();
    for z in 0..4 {
        for x in 0..6 {
            let own = input.cell(x + 1, z + 1);
            let side = input.cell(x, z + 1);
            if own == side {
                assert_eq!(output.cell(x, z), own);
            }
        }
    }
}

#[test]
fn blur_flips_the_weighted_coin_where_cells_differ() {
    let mix = BoolMix::new(4, 2).unwrap();
    let stage = Blur::new(NotchRng::new(9, 9), mix);
    let input = image_of(&[".#.#.#.#", "#.#.#.#.", ".#.#.#.#", "#.#.#.#.", ".#.#.#.#"]);
    let mut output = Image::new(false, 6, 3).unwrap();
    stage.filter(Position { x: 40, z: -40 }, &input, &mut output).unwrap();
    let mut rng = NotchRng::new(9, 9);
    for z in 0..3 {
        for x in 0..6 {
            rng.init_at(40 + x as i64, -40 + z as i64);
            let expected = rng.next_i32(6).unwrap() < 4;
            assert_eq!(output.get(x, z), Some(expected));
        }
    }
}

#[test]
fn certain_coins_always_land_one_way() {
    let input = image_of(&[".#.#.#.#", "#.#.#.#.", ".#.#.#.#"]);
    let mut output = Image::new(false, 6, 1).unwrap();
    let always = Blur::new(NotchRng::new(9, 9), BoolMix::new(1, 0).unwrap());
    always.filter(Position { x: 0, z: 0 }, &input, &mut output).unwrap();
    assert_eq!(rows_of(&output), vec!["######"]);
    let never = Blur::new(NotchRng::new(9, 9), BoolMix::new(0, 1).unwrap());
    never.filter(Position { x: 0, z: 0 }, &input, &mut output).unwrap();
    assert_eq!(rows_of(&output), vec!["......"]);
}

#[test]
fn blur_refuses_an_input_of_another_size() {
    let mut output = Image::new(false, 6, 4).unwrap();
    for (width, depth) in [(6, 4), (7, 6), (8, 5), (8, 7), (9, 6)] {
        let input = Image::new(true, width, depth).unwrap();
        assert_eq!(
            blur().filter(Position { x: 0, z: 0 }, &input, &mut output),
            Err(Error::ContractViolation)
        );
    }
    assert!(rows_of(&output).iter().all(|row| row == "......"));
}

#[test]
fn blur_refuses_a_window_beyond_the_plane() {
    let input = Image::new(true, 8, 6).unwrap();
    let mut output = Image::new(false, 6, 4).unwrap();
    assert_eq!(
        blur().filter(Position { x: 0, z: i64::MAX - 2 }, &input, &mut output),
        Err(Error::InvalidArgument)
    );
    assert!(rows_of(&output).iter().all(|row| row == "......"));
    assert_eq!(blur().filter(Position { x: 0, z: i64::MAX - 3 }, &input, &mut output), Ok(()));
}
