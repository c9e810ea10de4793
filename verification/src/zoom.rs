//! The stage that doubles the resolution of a field.

use crate::error::Error;
use crate::image::{Image, ImageView};
use crate::rng::{bounded_at, roll_at, NotchRng};
use crate::window::{
    agree_on, floor_half, in_rect, is_odd, offset, span_fits, Field, Position, Size, Window,
};
use vstd::prelude::*;

verus! {

/// How a zoom settles a cell that lies between four cells of its input.
#[derive(Clone, Copy, Debug, PartialEq, Eq, Structural)]
pub enum Candidate {
    /// One of the four, each with the same chance.
    Random,
    /// The value that more than two of the four hold; one of the four, each
    /// with the same chance, where two hold one value and two the other.
    Best,
}

/// The number of output cells that a zoom makes of one input cell along
/// each axis.
pub const ZOOM_FACTOR: usize = 2;

/// The cells of margin that a zoom reads along each axis beyond the input
/// cells that its output window lies on: half of them before, half after.
pub const ZOOM_MARGIN: usize = 2;

/// The coordinate at which the input of a zoom starts when its output starts
/// at `c`: `c` divided by the factor, rounded down, less half the margin.
pub open spec fn zoom_coord(c: int) -> int {
    c / ZOOM_FACTOR as int - ZOOM_MARGIN as int / 2
}

/// The extent of the input that a zoom needs for `n` cells of output: `n`
/// divided by the factor, rounded up, and the margin.
pub open spec fn zoom_extent(n: int) -> int {
    (n + ZOOM_FACTOR as int - 1) / ZOOM_FACTOR as int + ZOOM_MARGIN as int
}

/// The one of two candidates that the roll `roll` picks.
pub open spec fn pick2(roll: int, a: bool, b: bool) -> bool {
    if roll == 0 {
        a
    } else {
        b
    }
}

/// The one of four candidates that the roll `roll` picks.
pub open spec fn pick4(roll: int, a: bool, b: bool, c: bool, d: bool) -> bool {
    if roll == 0 {
        a
    } else if roll == 1 {
        b
    } else if roll == 2 {
        c
    } else {
        d
    }
}

/// How many of four values are `true`.
pub open spec fn count4(a: bool, b: bool, c: bool, d: bool) -> int {
    (if a { 1int } else { 0 }) + (if b { 1int } else { 0 }) + (if c { 1int } else { 0 }) + (if d {
        1int
    } else {
        0
    })
}

/// The value of the output cell `(x, z)` of a zoom over the input field `up`.
///
/// The cell `(x, z)` lies over the input cell `(x / 2, z / 2)`, halves rounded
/// down. A cell with two even coordinates has the value of that input cell.
/// A cell with one odd coordinate lies between that input cell and the next
/// one along the odd axis, and takes the value of one of the two. A cell with
/// two odd coordinates lies between four input cells and is settled by
/// `policy`. Every pick is made by a bounded draw at `(x, z)`.
pub open spec fn zoom_cell(base: int, policy: Candidate, up: Field, x: int, z: int) -> bool {
    let ux = x / 2;
    let uz = z / 2;
    if x % 2 == 0 && z % 2 == 0 {
        up(ux, uz)
    } else if z % 2 == 0 {
        pick2(bounded_at(base, x, z, 2), up(ux, uz), up(ux + 1, uz))
    } else if x % 2 == 0 {
        pick2(bounded_at(base, x, z, 2), up(ux, uz), up(ux, uz + 1))
    } else {
        let a = up(ux, uz);
        let b = up(ux + 1, uz);
        let c = up(ux, uz + 1);
        let d = up(ux + 1, uz + 1);
        if policy == Candidate::Best && count4(a, b, c, d) != 2 {
            count4(a, b, c, d) > 2
        } else {
            pick4(bounded_at(base, x, z, 4), a, b, c, d)
        }
    }
}

/// The field that a zoom makes of the input field `up`.
pub open spec fn zoom_field(base: int, policy: Candidate, up: Field) -> Field {
    |x: int, z: int| zoom_cell(base, policy, up, x, z)
}

/// A zoom reads no cell outside the window it asks for: where two input
/// fields agree on the window that a zoom asks for to make an output window,
/// the two output fields agree on that output window.
pub proof fn lemma_zoom_reads_its_window(
    base: int,
    policy: Candidate,
    f: Field,
    g: Field,
    x0: int,
    z0: int,
    width: int,
    depth: int,
)
    requires
        agree_on(f, g, zoom_coord(x0), zoom_coord(z0), zoom_extent(width), zoom_extent(depth)),
    ensures
        agree_on(zoom_field(base, policy, f), zoom_field(base, policy, g), x0, z0, width, depth),
{
    let ix0 = zoom_coord(x0);
    let iz0 = zoom_coord(z0);
    let iw = zoom_extent(width);
    let id = zoom_extent(depth);
    assert forall|x: int, z: int| #[trigger] in_rect(x0, z0, width, depth, x, z) implies zoom_field(
        base,
        policy,
        f,
    )(x, z) == zoom_field(base, policy, g)(x, z) by {
        let ux = x / 2;
        let uz = z / 2;
        assert(in_rect(ix0, iz0, iw, id, ux, uz));
        if x % 2 == 1 {
            assert(in_rect(ix0, iz0, iw, id, ux + 1, uz));
        }
        if z % 2 == 1 {
            assert(in_rect(ix0, iz0, iw, id, ux, uz + 1));
        }
        if x % 2 == 1 && z % 2 == 1 {
            assert(in_rect(ix0, iz0, iw, id, ux + 1, uz + 1));
        }
    }
}

/// A zoom keeps its input: the output cell that lies on an input cell has
/// the value of that input cell.
pub proof fn lemma_zoom_keeps_input_cells(base: int, policy: Candidate, up: Field, ux: int, uz: int)
    ensures
        zoom_field(base, policy, up)(2 * ux, 2 * uz) == up(ux, uz),
{
}

/// A zoom invents no value: every output cell has the value of one of the
/// input cells that it lies on or between.
pub proof fn lemma_zoom_takes_a_neighbour(base: int, policy: Candidate, up: Field, x: int, z: int)
    ensures
        ({
            let value = zoom_field(base, policy, up)(x, z);
            let along_x = if x % 2 == 0 {
                0int
            } else {
                1int
            };
            let along_z = if z % 2 == 0 {
                0int
            } else {
                1int
            };
            ||| value == up(x / 2, z / 2)
            ||| value == up(x / 2 + along_x, z / 2)
            ||| value == up(x / 2, z / 2 + along_z)
            ||| value == up(x / 2 + along_x, z / 2 + along_z)
        }),
{
}

/// Along an axis a zoom asks for half the cells of its output, rounded up,
/// and two more; that is fewer cells than the output has, once the output
/// has more than five.
pub proof fn lemma_zoom_extent_bounds(n: int)
    requires
        0 <= n,
    ensures
        (n + 1) / 2 <= zoom_extent(n) <= (n + 1) / 2 + 2,
        n > 5 ==> zoom_extent(n) < n,
{
}

/// A stage that makes two cells of every cell of its input, along both axes.
#[derive(Debug, Clone, Copy)]
pub struct Zoom {
    pub rng: NotchRng,
    pub policy: Candidate,
}

impl Zoom {
    /// The field that the stage makes of the input field `up`.
    pub open spec fn field(self, up: Field) -> Field {
        zoom_field(self.rng.initial as int, self.policy, up)
    }

    /// Makes a zoom that picks by `rng` and settles by `policy`.
    pub fn new(rng: NotchRng, policy: Candidate) -> (zoom: Zoom)
        ensures
            zoom.rng == rng,
            zoom.policy == policy,
    {
        Zoom { rng, policy }
    }

    /// The position at which the input starts for an output that starts at
    /// `position`.
    pub fn input_position(&self, position: Position) -> (input: Position)
        ensures
            input.x == zoom_coord(position.x as int),
            input.z == zoom_coord(position.z as int),
    {
        Position {
            x: floor_half(position.x) - (ZOOM_MARGIN / 2) as i64,
            z: floor_half(position.z) - (ZOOM_MARGIN / 2) as i64,
        }
    }

    /// The size of the input that an output of the size `size` is made from.
    pub fn input_size(&self, size: Size) -> (input: Size)
        ensures
            input.width == zoom_extent(size.width as int),
            input.depth == zoom_extent(size.depth as int),
    {
        Size {
            width: size.width / ZOOM_FACTOR + size.width % ZOOM_FACTOR + ZOOM_MARGIN,
            depth: size.depth / ZOOM_FACTOR + size.depth % ZOOM_FACTOR + ZOOM_MARGIN,
        }
    }

    /// Whether `input` has the size that the stage asks for to make an output
    /// of the size of `output`.
    pub open spec fn accepts(self, input: ImageView, output: ImageView) -> bool {
        input.has_size(zoom_extent(output.width as int), zoom_extent(output.depth as int))
    }

    /// Fills `output` with the values of the zoomed field on the window whose
    /// first cell is `position` and whose size is that of `output`. `input`
    /// holds the input field on the window that `input_position` and
    /// `input_size` give for that output window.
    ///
    /// An `input` of another size is a contract violation. A window that
    /// reaches beyond the coordinates that a `Position` can hold is an invalid
    /// argument. Either way `output` stays as it was.
    pub fn filter(&self, position: Position, input: &Image, output: &mut Image) -> (done: Result<
        (),
        Error,
    >)
        ensures
            final(output)@.width == old(output)@.width,
            final(output)@.depth == old(output)@.depth,
            !self.accepts(input@, old(output)@) ==> done == Err::<(), Error>(
                Error::ContractViolation,
            ),
            self.accepts(input@, old(output)@) && !old(output)@.fits_at(position) ==> done == Err::<
                (),
                Error,
            >(Error::InvalidArgument),
            self.accepts(input@, old(output)@) && old(output)@.fits_at(position) ==> done is Ok,
            done is Err ==> final(output)@ == old(output)@,
            done is Ok ==> final(output)@.shows(
                self.field(input@.field(zoom_coord(position.x as int), zoom_coord(position.z as int))),
                position.x as int,
                position.z as int,
            ),
    {
        let size = output.size();
        if input.size() != self.input_size(size) {
            return Err(Error::ContractViolation);
        }
        if !(Window { position, size }).check_fits() {
            return Err(Error::InvalidArgument);
        }
        let start = self.input_position(position);
        let mut rng = self.rng;
        let ghost up = input@.field(start.x as int, start.z as int);
        let ghost f = self.field(up);
        let mut lz: usize = 0;
        while lz < size.depth
            invariant
                lz <= size.depth,
                output@.width == size.width,
                output@.depth == size.depth,
                self.accepts(input@, output@),
                span_fits(position.x as int, size.width as int),
                span_fits(position.z as int, size.depth as int),
                start.x == zoom_coord(position.x as int),
                start.z == zoom_coord(position.z as int),
                rng.initial == self.rng.initial,
                up == input@.field(start.x as int, start.z as int),
                f == self.field(up),
                forall|x: int, z: int|
                    0 <= x < size.width && 0 <= z < lz ==> #[trigger] output@.at(x, z) == f(
                        position.x + x,
                        position.z + z,
                    ),
            decreases size.depth - lz,
        {
            let oz = offset(position.z, lz);
            let iz = (floor_half(oz) as i128 - start.z as i128) as usize;
            let odd_z = is_odd(oz);
            let mut lx: usize = 0;
            while lx < size.width
                invariant
                    lx <= size.width,
                    lz < size.depth,
                    oz == position.z + lz,
                    iz == oz / 2 - start.z,
                    odd_z == (oz % 2 == 1),
                    output@.width == size.width,
                    output@.depth == size.depth,
                    self.accepts(input@, output@),
                    span_fits(position.x as int, size.width as int),
                    start.x == zoom_coord(position.x as int),
                    start.z == zoom_coord(position.z as int),
                    rng.initial == self.rng.initial,
                    up == input@.field(start.x as int, start.z as int),
                    f == self.field(up),
                    forall|x: int, z: int|
                        0 <= x < size.width && 0 <= z < lz ==> #[trigger] output@.at(x, z) == f(
                            position.x + x,
                            position.z + z,
                        ),
                    forall|x: int|
                        0 <= x < lx ==> #[trigger] output@.at(x, lz as int) == f(
                            position.x + x,
                            position.z + lz,
                        ),
                decreases size.width - lx,
            {
                let ox = offset(position.x, lx);
                let ix = (floor_half(ox) as i128 - start.x as i128) as usize;
                let odd_x = is_odd(ox);
                let here = input.cell(ix, iz);
                let value = if !odd_x && !odd_z {
                    here
                } else if !odd_z {
                    let east = input.cell(ix + 1, iz);
                    if roll_at(&mut rng, ox, oz, 2) == 0 {
                        here
                    } else {
                        east
                    }
                } else if !odd_x {
                    let south = input.cell(ix, iz + 1);
                    if roll_at(&mut rng, ox, oz, 2) == 0 {
                        here
                    } else {
                        south
                    }
                } else {
                    let east = input.cell(ix + 1, iz);
                    let south = input.cell(ix, iz + 1);
                    let far = input.cell(ix + 1, iz + 1);
                    self.settle(&mut rng, ox, oz, here, east, south, far)
                };
                let _ = output.set(lx, lz, value);
                lx = lx + 1;
            }
            lz = lz + 1;
        }
        Ok(())
    }

    /// Settles the cell `(x, z)`, which lies between four input cells with
    /// the values `a`, `b`, `c` and `d`.
    fn settle(&self, rng: &mut NotchRng, x: i64, z: i64, a: bool, b: bool, c: bool, d: bool) -> (value:
        bool)
        requires
            old(rng).initial == self.rng.initial,
        ensures
            final(rng).initial == old(rng).initial,
            value == if self.policy == Candidate::Best && count4(a, b, c, d) != 2 {
                count4(a, b, c, d) > 2
            } else {
                pick4(bounded_at(self.rng.initial as int, x as int, z as int, 4), a, b, c, d)
            },
    {
        let mut count: u8 = 0;
        if a {
            count = count + 1;
        }
        if b {
            count = count + 1;
        }
        if c {
            count = count + 1;
        }
        if d {
            count = count + 1;
        }
        match self.policy {
            Candidate::Best if count != 2 => count > 2,
            _ => {
                let roll = roll_at(rng, x, z, 4);
                if roll == 0 {
                    a
                } else if roll == 1 {
                    b
                } else if roll == 2 {
                    c
                } else {
                    d
                }
            },
        }
    }
}

} // verus!
