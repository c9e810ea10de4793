//! Positions, sizes and windows, and the fields of values that grids show.

use vstd::prelude::*;

verus! {

/// An absolute position on the plane. Coordinates may be negative.
#[derive(Clone, Copy, Debug, PartialEq, Eq, Structural)]
pub struct Position {
    pub x: i64,
    pub z: i64,
}

/// The extent of a rectangle, in cells of the resolution of the stage it is
/// meant for.
#[derive(Clone, Copy, Debug, PartialEq, Eq, Structural)]
pub struct Size {
    pub width: usize,
    pub depth: usize,
}

/// A rectangle in the coordinate space of one stage: the cells
/// `(position.x + i, position.z + j)` for `i < size.width`, `j < size.depth`.
#[derive(Clone, Copy, Debug, PartialEq, Eq, Structural)]
pub struct Window {
    pub position: Position,
    pub size: Size,
}

/// A value for every cell of the plane.
pub type Field = spec_fn(int, int) -> bool;

/// Whether `c` is a coordinate that a `Position` can hold.
pub open spec fn is_coord(c: int) -> bool {
    i64::MIN <= c <= i64::MAX
}

/// Whether `n` is an extent that a `Size` can hold.
pub open spec fn is_extent(n: int) -> bool {
    0 <= n <= usize::MAX
}

/// Whether the `n` cells from `c` on all have coordinates that a `Position`
/// can hold.
pub open spec fn span_fits(c: int, n: int) -> bool {
    is_coord(c) && 0 <= n && c + n <= i64::MAX + 1
}

/// Whether the cell `(x, z)` lies in the rectangle of `width` by `depth` cells
/// whose first cell is `(x0, z0)`.
pub open spec fn in_rect(x0: int, z0: int, width: int, depth: int, x: int, z: int) -> bool {
    x0 <= x < x0 + width && z0 <= z < z0 + depth
}

/// Whether two fields have the same value on every cell of a rectangle.
pub open spec fn agree_on(f: Field, g: Field, x0: int, z0: int, width: int, depth: int) -> bool {
    forall|x: int, z: int| #[trigger] in_rect(x0, z0, width, depth, x, z) ==> f(x, z) == g(x, z)
}

/// The coordinate of the cell that lies `i` cells after the cell with the
/// coordinate `c`.
pub fn offset(c: i64, i: usize) -> (coord: i64)
    requires
        c + i <= i64::MAX,
    ensures
        coord == c + i,
{
    (c as i128 + i as i128) as i64
}

/// Half of `c`, rounded down, so that cells on both sides of zero halve alike.
pub fn floor_half(c: i64) -> (half: i64)
    ensures
        half == c / 2,
{
    assert(c >> 1 == c / 2) by (bit_vector);
    c >> 1
}

/// Tells whether `c` is odd.
pub fn is_odd(c: i64) -> (odd: bool)
    ensures
        odd == (c % 2 == 1),
{
    assert((c & 1 == 1) == (c % 2 == 1)) by (bit_vector);
    c & 1 == 1
}

impl Window {
    /// Whether every cell of the window has coordinates that a `Position`
    /// can hold.
    pub open spec fn fits(self) -> bool {
        &&& span_fits(self.position.x as int, self.size.width as int)
        &&& span_fits(self.position.z as int, self.size.depth as int)
    }

    /// Whether an image can hold the window: every cell has coordinates that
    /// a `Position` can hold, and the cells can be counted in a `usize`.
    pub open spec fn holdable(self) -> bool {
        self.fits() && self.size.width * self.size.depth <= usize::MAX
    }

    /// Tells whether every cell of the window has coordinates that a
    /// `Position` can hold.
    pub fn check_fits(&self) -> (fits: bool)
        ensures
            fits == self.fits(),
    {
        self.position.x as i128 + self.size.width as i128 <= i64::MAX as i128 + 1
            && self.position.z as i128 + self.size.depth as i128 <= i64::MAX as i128 + 1
    }

    /// Tells whether an image can hold the window.
    pub fn check_holdable(&self) -> (holdable: bool)
        ensures
            holdable == self.holdable(),
    {
        self.check_fits() && self.size.width.checked_mul(self.size.depth).is_some()
    }
}

} // verus!
