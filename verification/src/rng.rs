//! A pseudorandom generator whose stream is addressed by an absolute
//! two-dimensional coordinate.

use crate::error::Error;
use vstd::prelude::*;

verus! {

/// Multiplier of Knuth's 64-bit linear congruential generator (MMIX).
pub const KNUTH_A: i64 = 6364136223846793005;

/// Increment of Knuth's 64-bit linear congruential generator (MMIX).
pub const KNUTH_C: i64 = 1442695040888963407;

/// The signed 64-bit integer that is congruent to `v` modulo 2^64.
pub open spec fn wrap64(v: int) -> int {
    let r = v % 0x1_0000_0000_0000_0000;
    if r >= 0x8000_0000_0000_0000 {
        r - 0x1_0000_0000_0000_0000
    } else {
        r
    }
}

/// One step of the linear congruential generator: `state * A + C` modulo 2^64.
#[verifier::opaque]
pub open spec fn plain_step(state: int) -> int {
    wrap64(state * KNUTH_A + KNUTH_C)
}

/// One mixing step: the multiplier is a plain step of the state itself and
/// the increment is the perturbation `p`.
#[verifier::opaque]
pub open spec fn salted_step(state: int, p: int) -> int {
    wrap64(state * plain_step(state) + p)
}

/// `wrap64` lands in the range of `i64` and leaves that range fixed.
pub proof fn lemma_wrap64_range(v: int)
    ensures
        i64::MIN <= wrap64(v) <= i64::MAX,
        i64::MIN <= v <= i64::MAX ==> wrap64(v) == v,
{
}

/// Wrapping a sum may be done before or after wrapping its first term.
pub proof fn lemma_wrap64_add(a: int, b: int)
    ensures
        wrap64(wrap64(a) + b) == wrap64(a + b),
{
}

/// Advances a linear congruential generator by one plain step.
pub fn step_knuth(state: i64) -> (next: i64)
    ensures
        next == plain_step(state as int),
{
    proof {
        reveal(plain_step);
        lemma_wrap64_add(state * KNUTH_A, KNUTH_C as int);
    }
    state.wrapping_mul(KNUTH_A).wrapping_add(KNUTH_C)
}

/// Advances a state by one salted step with perturbation `c`.
pub fn step_salted(state: i64, c: i64) -> (next: i64)
    ensures
        next == salted_step(state as int, c as int),
{
    let a = step_knuth(state);
    proof {
        reveal(salted_step);
        lemma_wrap64_add(state * a, c as int);
    }
    state.wrapping_mul(a).wrapping_add(c)
}

/// The base value of a generator made from `salt` and `seed`: three salted
/// steps from `salt`, each perturbed by `salt`, give the primary value; three
/// salted steps from `seed`, each perturbed by the primary value, give the base.
pub open spec fn base_of(salt: int, seed: int) -> int {
    let primary = salted_step(salted_step(salted_step(salt, salt), salt), salt);
    salted_step(salted_step(salted_step(seed, primary), primary), primary)
}

/// The cursor of a generator with base `base` right after it was
/// reinitialized at `(x, z)`: salted steps perturbed by `x`, `z`, `x`, `z`.
pub open spec fn cursor_at(base: int, x: int, z: int) -> int {
    salted_step(salted_step(salted_step(salted_step(base, x), z), x), z)
}

/// The value that a draw returns for a cursor: the cursor shifted right by 24
/// bits with its sign kept, which is the floor of `cursor / 2^24`.
pub open spec fn top_bits(cursor: int) -> int {
    cursor / 0x100_0000
}

/// The cursor after `n` draws from `cursor`.
pub open spec fn advance(base: int, cursor: int, n: nat) -> int
    decreases n,
{
    if n == 0 {
        cursor
    } else {
        salted_step(advance(base, cursor, (n - 1) as nat), base)
    }
}

/// The value of a bounded draw for a cursor: the draw reduced into `[0, max)`.
pub open spec fn bounded(cursor: int, max: int) -> int {
    top_bits(cursor) % max
}

/// The value that the first bounded draw returns after a generator with base
/// `base` was reinitialized at `(x, z)`.
pub open spec fn bounded_at(base: int, x: int, z: int, max: int) -> int {
    bounded(cursor_at(base, x, z), max)
}

/// A generator that can be reset to any position of the plane.
///
/// `initial` is fixed when the generator is made. `state` is the cursor: it
/// is reset by `init_at` and advanced by every draw.
#[derive(Debug, Clone, Copy)]
pub struct NotchRng {
    /// The base value, mixed from salt and seed.
    pub initial: i64,
    /// The cursor.
    pub state: i64,
}

impl NotchRng {
    /// The generator that `init_at(x, z)` leaves behind.
    pub open spec fn reinit(self, x: int, z: int) -> NotchRng {
        NotchRng { initial: self.initial, state: cursor_at(self.initial as int, x, z) as i64 }
    }

    /// The generator after `n` draws.
    pub open spec fn after(self, n: nat) -> NotchRng {
        NotchRng {
            initial: self.initial,
            state: advance(self.initial as int, self.state as int, n) as i64,
        }
    }

    /// The values of the next `n` draws, in the order in which they come.
    pub open spec fn draws(self, n: nat) -> Seq<int> {
        Seq::new(n, |i: int| top_bits(self.after(i as nat).state as int))
    }

    /// Makes the generator for `seed` that `salt` tells apart from the other
    /// generators for the same seed. The cursor starts at zero and has no
    /// meaning for any position until `init_at` is called.
    pub fn new(salt: i64, seed: i64) -> (rng: NotchRng)
        ensures
            rng.initial == base_of(salt as int, seed as int),
            rng.state == 0,
    {
        let mut primary = salt;

        primary = step_salted(primary, salt);
        primary = step_salted(primary, salt);
        primary = step_salted(primary, salt);

        let mut initial = seed;

        initial = step_salted(initial, primary);
        initial = step_salted(initial, primary);
        initial = step_salted(initial, primary);

        NotchRng { initial, state: 0 }
    }

    /// Resets the cursor for the position `(x, z)`.
    pub fn init_at(&mut self, x: i64, z: i64)
        ensures
            *final(self) == old(self).reinit(x as int, z as int),
            final(self).state == cursor_at(old(self).initial as int, x as int, z as int),
    {
        self.state = self.initial;

        self.state = step_salted(self.state, x);
        self.state = step_salted(self.state, z);
        self.state = step_salted(self.state, x);
        self.state = step_salted(self.state, z);
    }

    /// Draws the next value, which holds 40 bits, and advances the cursor by a
    /// salted step perturbed by the base.
    pub fn next(&mut self) -> (value: i64)
        ensures
            value == top_bits(old(self).state as int),
            -0x80_0000_0000 <= value < 0x80_0000_0000,
            *final(self) == old(self).after(1),
            final(self).state == salted_step(old(self).state as int, old(self).initial as int),
    {
        let result = self.state >> 24;
        proof {
            let s = self.state;
            assert(s >> 24 == s / 0x100_0000) by (bit_vector);
            assert(advance(self.initial as int, self.state as int, 0) == self.state);
        }

        self.state = step_salted(self.state, self.initial);

        result
    }

    /// Draws a value in `[0, max)`.
    ///
    /// A bound that is not positive is refused, and the cursor stays where it
    /// was. Call `init_at` first when the value is meant for a position.
    pub fn next_i32(&mut self, max: i32) -> (drawn: Result<i32, Error>)
        ensures
            max <= 0 ==> drawn == Err::<i32, Error>(Error::InvalidArgument) && *final(self) == *old(
                self,
            ),
            max > 0 ==> drawn == Ok::<i32, Error>(bounded(old(self).state as int, max as int) as i32)
                && *final(self) == old(self).after(1),
            drawn matches Ok(v) ==> 0 <= v < max,
    {
        if max <= 0 {
            return Err(Error::InvalidArgument);
        }
        let draw = self.next();

        // A value in the range (-max, max)
        let result = (draw % (max as i64)) as i32;
        proof {
            lemma_signed_remainder(draw as int, max as int);
        }

        // Shift the result into the range [0, max)
        Ok(result + if result < 0 { max } else { 0 })
    }
}

/// Reinitializes `rng` at `(x, z)` and draws a value in `[0, max)`.
pub(crate) fn roll_at(rng: &mut NotchRng, x: i64, z: i64, max: i32) -> (roll: i32)
    requires
        max > 0,
    ensures
        roll == bounded_at(old(rng).initial as int, x as int, z as int, max as int),
        0 <= roll < max,
        final(rng).initial == old(rng).initial,
{
    rng.init_at(x, z);
    rng.next_i32(max).unwrap()
}

/// The remainder that keeps the sign of the dividend differs from the
/// remainder in `[0, m)` by `m` exactly when it is negative.
pub proof fn lemma_signed_remainder(d: int, m: int)
    requires
        m > 0,
    ensures
        d >= 0 ==> 0 <= d % m < m,
        d < 0 && (-d) % m == 0 ==> d % m == 0,
        d < 0 && (-d) % m != 0 ==> d % m == m - (-d) % m,
        0 <= (-d) % m < m,
{
    vstd::arithmetic::div_mod::lemma_mod_bound(d, m);
    vstd::arithmetic::div_mod::lemma_mod_bound(-d, m);
    vstd::arithmetic::div_mod::lemma_fundamental_div_mod(d, m);
    vstd::arithmetic::div_mod::lemma_fundamental_div_mod(-d, m);
    let q1 = d / m;
    let q2 = (-d) / m;
    let r1 = d % m;
    let r2 = (-d) % m;
    // m * (q1 + q2) + r1 + r2 == 0, with 0 <= r1 + r2 < 2m
    assert(m * (q1 + q2) == m * q1 + m * q2) by (nonlinear_arith);
    assert(m * (q1 + q2) + (r1 + r2) == 0);
    assert(r1 + r2 == 0 || r1 + r2 == m) by (nonlinear_arith)
        requires
            m > 0,
            0 <= r1 + r2 < 2 * m,
            m * (q1 + q2) + (r1 + r2) == 0,
    ;
}

/// The values of the first `n` draws of a generator made from `salt` and
/// `seed`, counted from its reinitialization at `(x, z)`.
pub open spec fn stream(salt: int, seed: int, x: int, z: int, n: nat) -> Seq<int> {
    let base = base_of(salt, seed);
    Seq::new(n, |i: int| top_bits(advance(base, cursor_at(base, x, z), i as nat)))
}

/// A salted step yields a signed 64-bit integer.
pub proof fn lemma_salted_step_in_range(state: int, p: int)
    ensures
        i64::MIN <= salted_step(state, p) <= i64::MAX,
{
    reveal(salted_step);
    lemma_wrap64_range(state * plain_step(state) + p);
}

/// The cursor of a reinitialized generator is a signed 64-bit integer.
pub proof fn lemma_cursor_at_in_range(base: int, x: int, z: int)
    ensures
        i64::MIN <= cursor_at(base, x, z) <= i64::MAX,
{
    lemma_salted_step_in_range(salted_step(salted_step(salted_step(base, x), z), x), z);
}

/// The cursor stays a signed 64-bit integer however many values are drawn.
pub proof fn lemma_advance_in_range(base: int, cursor: int, n: nat)
    requires
        i64::MIN <= cursor <= i64::MAX,
    ensures
        i64::MIN <= advance(base, cursor, n) <= i64::MAX,
    decreases n,
{
    if n > 0 {
        lemma_advance_in_range(base, cursor, (n - 1) as nat);
        lemma_salted_step_in_range(advance(base, cursor, (n - 1) as nat), base);
    }
}

/// Drawing `m` values and then `n` more leaves the generator where `m + n`
/// draws leave it.
pub proof fn lemma_after_add(rng: NotchRng, m: nat, n: nat)
    ensures
        rng.after(m).after(n) == rng.after(m + n),
    decreases n,
{
    lemma_advance_in_range(rng.initial as int, rng.state as int, m);
    if n > 0 {
        lemma_after_add(rng, m, (n - 1) as nat);
        lemma_advance_in_range(rng.initial as int, rng.state as int, (m + n - 1) as nat);
        lemma_advance_in_range(rng.initial as int, rng.after(m).state as int, (n - 1) as nat);
    }
}

/// The first draw returns the value of the cursor, and the draws after it
/// are those of the generator that the first draw leaves behind.
pub proof fn lemma_draws_unfold(rng: NotchRng, n: nat)
    ensures
        rng.draws(n + 1) == seq![top_bits(rng.state as int)] + rng.after(1).draws(n),
{
    let rest = rng.after(1);
    assert forall|i: int| 0 <= i < n + 1 implies rng.draws(n + 1)[i] == (seq![
        top_bits(rng.state as int),
    ] + rest.draws(n))[i] by {
        if i > 0 {
            lemma_after_add(rng, 1, (i - 1) as nat);
        }
    }
    assert(rng.draws(n + 1) =~= seq![top_bits(rng.state as int)] + rest.draws(n));
}

/// Once a generator made from `salt` and `seed` is reinitialized at
/// `(x, z)`, the values it draws are those of `stream`, which knows nothing
/// of the cursor the generator had before: the same salt, seed and position
/// give the same values in every run.
pub proof fn lemma_draws_fixed_by_seed_and_position(
    rng: NotchRng,
    salt: int,
    seed: int,
    x: int,
    z: int,
    n: nat,
)
    requires
        rng.initial == base_of(salt, seed),
    ensures
        rng.reinit(x, z).draws(n) == stream(salt, seed, x, z, n),
{
    let base = base_of(salt, seed);
    let start = rng.reinit(x, z);
    lemma_cursor_at_in_range(base, x, z);
    assert forall|i: int| 0 <= i < n implies start.draws(n)[i] == stream(salt, seed, x, z, n)[i] by {
        lemma_advance_in_range(base, start.state as int, i as nat);
    }
    assert(start.draws(n) =~= stream(salt, seed, x, z, n));
}

/// Two generators with one base that are reinitialized at one position draw
/// the same values from then on, whatever positions either of them visited
/// before and however many values either of them drew there.
pub proof fn lemma_reinit_forgets_history(a: NotchRng, b: NotchRng, x: int, z: int, n: nat)
    requires
        a.initial == b.initial,
    ensures
        a.reinit(x, z) == b.reinit(x, z),
        a.reinit(x, z).draws(n) == b.reinit(x, z).draws(n),
        a.reinit(x, z).after(n) == b.reinit(x, z).after(n),
{
}

/// A bounded draw lies in `[0, max)` for every cursor and every positive bound.
pub proof fn lemma_bounded_range(cursor: int, max: int)
    requires
        max > 0,
    ensures
        0 <= bounded(cursor, max) < max,
{
    vstd::arithmetic::div_mod::lemma_mod_bound(top_bits(cursor), max);
}

} // verus!
