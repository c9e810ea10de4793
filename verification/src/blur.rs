//! The stage that keeps the resolution of a field and lets each cell take
//! after the cell beside it.

use crate::error::Error;
use crate::image::{Image, ImageView};
use crate::rng::{bounded_at, roll_at, NotchRng};
use crate::window::{agree_on, in_rect, offset, span_fits, Field, Position, Size, Window};
use vstd::prelude::*;

verus! {

/// The cells of margin that a blur reads on each side of its output window.
pub const BLUR_MARGIN: usize = 1;

/// A weighted coin: `true` comes up `true_chance` times in
/// `true_chance + false_chance`.
#[derive(Debug, Clone, Copy)]
pub struct BoolMix {
    true_chance: i32,
    false_chance: i32,
}

impl BoolMix {
    #[verifier::type_invariant]
    spec fn well_formed(self) -> bool {
        &&& 0 <= self.true_chance
        &&& 0 <= self.false_chance
        &&& 0 < self.true_chance + self.false_chance <= i32::MAX
    }

    /// The weight of `true`.
    pub closed spec fn weight_true(self) -> int {
        self.true_chance as int
    }

    /// The weight of `false`.
    pub closed spec fn weight_false(self) -> int {
        self.false_chance as int
    }

    /// The sum of the two weights.
    pub open spec fn total(self) -> int {
        self.weight_true() + self.weight_false()
    }

    /// The mix of two candidates for a roll in `[0, total)`: the candidates'
    /// own value where they are equal, else `true` where the roll is below
    /// the weight of `true`.
    pub open spec fn mixed(self, roll: int, own: bool, side: bool) -> bool {
        if own == side {
            own
        } else {
            roll < self.weight_true()
        }
    }

    /// Makes a coin with the weights `true_chance` and `false_chance`.
    /// Neither may be negative, and their sum must be positive and no more
    /// than `i32::MAX`.
    pub fn new(true_chance: i32, false_chance: i32) -> (made: Result<BoolMix, Error>)
        ensures
            made is Ok <==> 0 <= true_chance && 0 <= false_chance && 0 < true_chance + false_chance
                <= i32::MAX,
            made is Err ==> made == Err::<BoolMix, Error>(Error::InvalidArgument),
            made matches Ok(mix) ==> mix.weight_true() == true_chance && mix.weight_false()
                == false_chance,
    {
        if true_chance < 0 || false_chance < 0 {
            return Err(Error::InvalidArgument);
        }
        match true_chance.checked_add(false_chance) {
            Some(total) if total > 0 => Ok(BoolMix { true_chance, false_chance }),
            _ => Err(Error::InvalidArgument),
        }
    }

    /// The weight of `true`.
    pub fn true_chance(&self) -> (weight: i32)
        ensures
            weight == self.weight_true(),
    {
        self.true_chance
    }

    /// The weight of `false`.
    pub fn false_chance(&self) -> (weight: i32)
        ensures
            weight == self.weight_false(),
    {
        self.false_chance
    }

    /// Mixes the two candidates for the cell `(x, z)`, with a draw at that
    /// cell where they differ.
    fn mix(&self, rng: &mut NotchRng, x: i64, z: i64, own: bool, side: bool) -> (value: bool)
        ensures
            final(rng).initial == old(rng).initial,
            value == self.mixed(
                bounded_at(old(rng).initial as int, x as int, z as int, self.total()),
                own,
                side,
            ),
    {
        proof {
            use_type_invariant(self);
        }
        if own == side {
            own
        } else {
            roll_at(rng, x, z, self.true_chance + self.false_chance) < self.true_chance
        }
    }
}

/// The coordinate at which the input of a blur starts when its output starts
/// at `c`.
pub open spec fn blur_coord(c: int) -> int {
    c - BLUR_MARGIN
}

/// The extent of the input that a blur needs for `n` cells of output.
pub open spec fn blur_extent(n: int) -> int {
    n + 2 * BLUR_MARGIN
}

/// The value of the output cell `(x, z)` of a blur over the input field `up`:
/// the mix of the cell's own input value and that of the cell before it
/// along `x`.
pub open spec fn blur_cell(base: int, mix: BoolMix, up: Field, x: int, z: int) -> bool {
    mix.mixed(bounded_at(base, x, z, mix.total()), up(x, z), up(x - 1, z))
}

/// The field that a blur makes of the input field `up`.
pub open spec fn blur_field(base: int, mix: BoolMix, up: Field) -> Field {
    |x: int, z: int| blur_cell(base, mix, up, x, z)
}

/// A blur reads no cell outside the window it asks for: where two input
/// fields agree on the window that a blur asks for to make an output window,
/// the two output fields agree on that output window.
pub proof fn lemma_blur_reads_its_window(
    base: int,
    mix: BoolMix,
    f: Field,
    g: Field,
    x0: int,
    z0: int,
    width: int,
    depth: int,
)
    requires
        agree_on(f, g, blur_coord(x0), blur_coord(z0), blur_extent(width), blur_extent(depth)),
    ensures
        agree_on(blur_field(base, mix, f), blur_field(base, mix, g), x0, z0, width, depth),
{
    let ix0 = blur_coord(x0);
    let iz0 = blur_coord(z0);
    let iw = blur_extent(width);
    let id = blur_extent(depth);
    assert forall|x: int, z: int| #[trigger] in_rect(x0, z0, width, depth, x, z) implies blur_field(
        base,
        mix,
        f,
    )(x, z) == blur_field(base, mix, g)(x, z) by {
        assert(in_rect(ix0, iz0, iw, id, x, z));
        assert(in_rect(ix0, iz0, iw, id, x - 1, z));
    }
}

/// A blur invents no value: every output cell has the value that the input
/// has at the cell or at the cell before it along `x`.
pub proof fn lemma_blur_takes_a_candidate(base: int, mix: BoolMix, up: Field, x: int, z: int)
    ensures
        blur_field(base, mix, up)(x, z) == up(x, z) || blur_field(base, mix, up)(x, z) == up(
            x - 1,
            z,
        ),
        up(x, z) == up(x - 1, z) ==> blur_field(base, mix, up)(x, z) == up(x, z),
{
}

/// A stage that makes one cell of every cell of its input, and reads one
/// cell of margin around the window it fills.
#[derive(Debug, Clone, Copy)]
pub struct Blur {
    pub rng: NotchRng,
    pub mix: BoolMix,
}

impl Blur {
    /// The field that the stage makes of the input field `up`.
    pub open spec fn field(self, up: Field) -> Field {
        blur_field(self.rng.initial as int, self.mix, up)
    }

    /// Whether `input` has the size that the stage asks for to make an output
    /// of the size of `output`.
    pub open spec fn accepts(self, input: ImageView, output: ImageView) -> bool {
        input.has_size(blur_extent(output.width as int), blur_extent(output.depth as int))
    }

    /// Makes a blur that draws from `rng` and mixes by `mix`.
    pub fn new(rng: NotchRng, mix: BoolMix) -> (blur: Blur)
        ensures
            blur.rng == rng,
            blur.mix == mix,
    {
        Blur { rng, mix }
    }

    /// The position at which the input starts for an output that starts at
    /// `position`. It is refused where a `Position` cannot hold it.
    pub fn input_position(&self, position: Position) -> (input: Result<Position, Error>)
        ensures
            input is Ok <==> position.x > i64::MIN && position.z > i64::MIN,
            input is Err ==> input == Err::<Position, Error>(Error::InvalidArgument),
            input matches Ok(p) ==> p.x == blur_coord(position.x as int) && p.z == blur_coord(
                position.z as int,
            ),
    {
        if position.x > i64::MIN && position.z > i64::MIN {
            Ok(Position { x: position.x - 1, z: position.z - 1 })
        } else {
            Err(Error::InvalidArgument)
        }
    }

    /// The size of the input that an output of the size `size` is made from.
    /// It is refused where a `Size` cannot hold it.
    pub fn input_size(&self, size: Size) -> (input: Result<Size, Error>)
        ensures
            input is Ok <==> blur_extent(size.width as int) <= usize::MAX && blur_extent(
                size.depth as int,
            ) <= usize::MAX,
            input is Err ==> input == Err::<Size, Error>(Error::InvalidArgument),
            input matches Ok(s) ==> s.width == blur_extent(size.width as int) && s.depth
                == blur_extent(size.depth as int),
    {
        match (size.width.checked_add(2 * BLUR_MARGIN), size.depth.checked_add(2 * BLUR_MARGIN)) {
            (Some(width), Some(depth)) => Ok(Size { width, depth }),
            _ => Err(Error::InvalidArgument),
        }
    }

    /// Fills `output` with the values of the blurred field on the window
    /// whose first cell is `position` and whose size is that of `output`.
    /// `input` holds the input field on the window that `input_position` and
    /// `input_size` give for that output window.
    ///
    /// An `input` of another size is a contract violation. A window that
    /// reaches beyond the coordinates that a `Position` can hold is an invalid
    /// argument. Either way `output` stays as it was.
    pub fn filter(&self, position: Position, input: &Image, output: &mut Image) -> (done: Result<
        (),
        Error,
    >)
        ensures
            final(output)@.width == old(output)@.width,
            final(output)@.depth == old(output)@.depth,
            !self.accepts(input@, old(output)@) ==> done == Err::<(), Error>(
                Error::ContractViolation,
            ),
            self.accepts(input@, old(output)@) && !old(output)@.fits_at(position) ==> done == Err::<
                (),
                Error,
            >(Error::InvalidArgument),
            self.accepts(input@, old(output)@) && old(output)@.fits_at(position) ==> done is Ok,
            done is Err ==> final(output)@ == old(output)@,
            done is Ok ==> final(output)@.shows(
                self.field(input@.field(blur_coord(position.x as int), blur_coord(position.z as int))),
                position.x as int,
                position.z as int,
            ),
    {
        let size = output.size();
        let given = input.size();
        let accepted = match self.input_size(size) {
            Ok(expected) => expected == given,
            Err(_) => false,
        };
        if !accepted {
            return Err(Error::ContractViolation);
        }
        if !(Window { position, size }).check_fits() {
            return Err(Error::InvalidArgument);
        }
        let mut rng = self.rng;
        let ghost up = input@.field(blur_coord(position.x as int), blur_coord(position.z as int));
        let ghost f = self.field(up);
        let mut lz: usize = 0;
        while lz < size.depth
            invariant
                lz <= size.depth,
                output@.width == size.width,
                output@.depth == size.depth,
                self.accepts(input@, output@),
                span_fits(position.x as int, size.width as int),
                span_fits(position.z as int, size.depth as int),
                rng.initial == self.rng.initial,
                up == input@.field(blur_coord(position.x as int), blur_coord(position.z as int)),
                f == self.field(up),
                forall|x: int, z: int|
                    0 <= x < size.width && 0 <= z < lz ==> #[trigger] output@.at(x, z) == f(
                        position.x + x,
                        position.z + z,
                    ),
            decreases size.depth - lz,
        {
            let oz = offset(position.z, lz);
            let mut lx: usize = 0;
            while lx < size.width
                invariant
                    lx <= size.width,
                    lz < size.depth,
                    oz == position.z + lz,
                    output@.width == size.width,
                    output@.depth == size.depth,
                    self.accepts(input@, output@),
                    span_fits(position.x as int, size.width as int),
                    rng.initial == self.rng.initial,
                    up == input@.field(blur_coord(position.x as int), blur_coord(position.z as int)),
                    f == self.field(up),
                    forall|x: int, z: int|
                        0 <= x < size.width && 0 <= z < lz ==> #[trigger] output@.at(x, z) == f(
                            position.x + x,
                            position.z + z,
                        ),
                    forall|x: int|
                        0 <= x < lx ==> #[trigger] output@.at(x, lz as int) == f(
                            position.x + x,
                            position.z + lz,
                        ),
                decreases size.width - lx,
            {
                let ox = offset(position.x, lx);
                let own = input.cell(lx + 1, lz + 1);
                let side = input.cell(lx, lz + 1);
                let value = self.mix.mix(&mut rng, ox, oz, own, side);
                let _ = output.set(lx, lz, value);
                lx = lx + 1;
            }
            lz = lz + 1;
        }
        Ok(())
    }
}

} // verus!
