//! A dense grid of boolean cells of a size fixed when it is made.

use crate::error::Error;
use crate::window::{agree_on, in_rect, span_fits, Field, Position, Size};
use vstd::prelude::*;

verus! {

/// What an `Image` is: its extent and the value of each of its cells.
pub struct ImageView {
    pub width: nat,
    pub depth: nat,
    /// The cells, by their local coordinates `(x, z)`.
    pub cells: Map<(int, int), bool>,
}

impl ImageView {
    /// Whether `(x, z)` are the local coordinates of a cell.
    pub open spec fn has(self, x: int, z: int) -> bool {
        0 <= x < self.width && 0 <= z < self.depth
    }

    /// The value of the cell with the local coordinates `(x, z)`.
    #[verifier::inline]
    pub open spec fn at(self, x: int, z: int) -> bool {
        self.cells[(x, z)]
    }

    /// The field that has the values of the image where the image is laid on
    /// the plane with its first cell at `(x0, z0)`.
    pub open spec fn field(self, x0: int, z0: int) -> Field {
        |x: int, z: int| self.at(x - x0, z - z0)
    }

    /// Whether the image holds the values of `f` on the rectangle that it
    /// covers once its first cell is laid at `(x0, z0)`.
    pub open spec fn shows(self, f: Field, x0: int, z0: int) -> bool {
        forall|x: int, z: int|
            #![trigger self.has(x, z)]
            #![trigger self.at(x, z)]
            self.has(x, z) ==> self.at(x, z) == f(x0 + x, z0 + z)
    }

    /// Whether the window that the image covers once its first cell is laid
    /// at `position` holds only cells with coordinates that a `Position` can
    /// hold.
    pub open spec fn fits_at(self, position: Position) -> bool {
        span_fits(position.x as int, self.width as int) && span_fits(
            position.z as int,
            self.depth as int,
        )
    }

    /// Whether the image has the extent `size`.
    pub open spec fn has_size(self, width: int, depth: int) -> bool {
        self.width == width && self.depth == depth
    }
}

/// An image that is laid on the plane agrees, as a field, with every field
/// that it shows there.
pub proof fn lemma_field_of_shown(image: ImageView, f: Field, x0: int, z0: int)
    requires
        image.shows(f, x0, z0),
    ensures
        agree_on(image.field(x0, z0), f, x0, z0, image.width as int, image.depth as int),
{
    assert forall|x: int, z: int| #[trigger]
        in_rect(x0, z0, image.width as int, image.depth as int, x, z) implies image.field(x0, z0)(
        x,
        z,
    ) == f(x, z) by {
        assert(image.has(x - x0, z - z0));
    }
}

/// An image that shows a field shows every field that agrees with it on the
/// rectangle that the image covers.
pub proof fn lemma_shows_agreeing(image: ImageView, f: Field, g: Field, x0: int, z0: int)
    requires
        image.shows(f, x0, z0),
        agree_on(f, g, x0, z0, image.width as int, image.depth as int),
    ensures
        image.shows(g, x0, z0),
{
    assert forall|x: int, z: int| #[trigger] image.has(x, z) implies image.at(x, z) == g(
        x0 + x,
        z0 + z,
    ) by {
        assert(in_rect(x0, z0, image.width as int, image.depth as int, x0 + x, z0 + z));
    }
}

/// Two images that show one field, wherever each is laid, have the same
/// value at every cell of the plane that both cover.
pub proof fn lemma_shown_cells_agree(
    a: ImageView,
    xa: int,
    za: int,
    b: ImageView,
    xb: int,
    zb: int,
    f: Field,
    x: int,
    z: int,
)
    requires
        a.shows(f, xa, za),
        b.shows(f, xb, zb),
        a.has(x - xa, z - za),
        b.has(x - xb, z - zb),
    ensures
        a.at(x - xa, z - za) == b.at(x - xb, z - zb),
{
}

/// A grid of `width` by `depth` boolean cells, stored row by row. It knows
/// nothing of where on the plane it lies.
pub struct Image {
    width: usize,
    depth: usize,
    cells: Vec<bool>,
}

/// Rows of `width` cells do not overlap: a cell's place in the storage
/// determines the cell, and lies within `width * depth`.
proof fn lemma_row_major(width: int, depth: int, x: int, z: int)
    requires
        0 <= x < width,
        0 <= z < depth,
    ensures
        0 <= z * width <= z * width + x < width * depth,
        (z * width + x) % width == x,
        (z * width + x) / width == z,
{
    assert(z * width + width <= depth * width) by (nonlinear_arith)
        requires
            0 <= z < depth,
            0 < width,
    ;
    assert(depth * width == width * depth) by (nonlinear_arith);
    assert(z * width >= 0) by (nonlinear_arith)
        requires
            0 <= z,
            0 < width,
    ;
    vstd::arithmetic::div_mod::lemma_fundamental_div_mod_converse(z * width + x, width, z, x);
}

impl View for Image {
    type V = ImageView;

    closed spec fn view(&self) -> ImageView {
        ImageView {
            width: self.width as nat,
            depth: self.depth as nat,
            cells: Map::new(
                |p: (int, int)| 0 <= p.0 < self.width && 0 <= p.1 < self.depth,
                |p: (int, int)| self.cells@[p.1 * self.width + p.0],
            ),
        }
    }
}

/// The view of an image holds a value for each cell of the image and for
/// nothing else.
pub proof fn lemma_view_holds_the_cells(image: Image, x: int, z: int)
    ensures
        image@.cells.dom().contains((x, z)) <==> image@.has(x, z),
{
}

impl Image {
    #[verifier::type_invariant]
    spec fn well_formed(self) -> bool {
        self.cells@.len() == self.width * self.depth <= usize::MAX
    }

    /// Makes an image of `width` by `depth` cells that all hold `default`.
    ///
    /// An extent whose cells cannot be counted in a `usize` is refused.
    pub fn new(default: bool, width: usize, depth: usize) -> (made: Result<Image, Error>)
        ensures
            width * depth <= usize::MAX ==> made is Ok,
            width * depth > usize::MAX ==> made == Err::<Image, Error>(Error::InvalidArgument),
            made matches Ok(image) ==> {
                &&& image@.has_size(width as int, depth as int)
                &&& forall|x: int, z: int|
                    #![trigger image@.has(x, z)]
                    #![trigger image@.at(x, z)]
                    image@.has(x, z) ==> image@.at(x, z) == default
            },
    {
        let count = match width.checked_mul(depth) {
            Some(count) => count,
            None => {
                return Err(Error::InvalidArgument);
            },
        };
        let mut cells: Vec<bool> = Vec::new();
        let mut i: usize = 0;
        while i < count
            invariant
                i <= count,
                cells@.len() == i,
                forall|k: int| 0 <= k < i ==> cells@[k] == default,
            decreases count - i,
        {
            cells.push(default);
            i = i + 1;
        }
        let image = Image { width, depth, cells };
        proof {
            assert forall|x: int, z: int| #[trigger] image@.has(x, z) implies image@.at(x, z)
                == default by {
                lemma_row_major(width as int, depth as int, x, z);
            }
        }
        Ok(image)
    }

    /// The number of cells in a row.
    pub fn x_size(&self) -> (width: usize)
        ensures
            width == self@.width,
    {
        self.width
    }

    /// The number of rows.
    pub fn z_size(&self) -> (depth: usize)
        ensures
            depth == self@.depth,
    {
        self.depth
    }

    /// The extent of the image.
    pub fn size(&self) -> (size: Size)
        ensures
            size.width == self@.width,
            size.depth == self@.depth,
    {
        Size { width: self.width, depth: self.depth }
    }

    /// The value of the cell `(x, z)`, which must be a cell of the image.
    pub fn cell(&self, x: usize, z: usize) -> (value: bool)
        requires
            self@.has(x as int, z as int),
        ensures
            value == self@.at(x as int, z as int),
    {
        proof {
            use_type_invariant(self);
            lemma_row_major(self.width as int, self.depth as int, x as int, z as int);
        }
        self.cells[z * self.width + x]
    }

    /// The value of the cell `(x, z)`, or `None` where the image has no such
    /// cell.
    pub fn get(&self, x: usize, z: usize) -> (value: Option<bool>)
        ensures
            value == if self@.has(x as int, z as int) {
                Some(self@.at(x as int, z as int))
            } else {
                None
            },
    {
        if x < self.width && z < self.depth {
            Some(self.cell(x, z))
        } else {
            None
        }
    }

    /// Gives every cell the value that the cell has in `source`. A `source`
    /// of another size is a contract violation, and the image stays as it
    /// was.
    pub fn copy_from(&mut self, source: &Image) -> (done: Result<(), Error>)
        ensures
            source@.has_size(old(self)@.width as int, old(self)@.depth as int) ==> done is Ok
                && final(self)@ == source@,
            !source@.has_size(old(self)@.width as int, old(self)@.depth as int) ==> done == Err::<
                (),
                Error,
            >(Error::ContractViolation) && final(self)@ == old(self)@,
    {
        if self.width != source.width || self.depth != source.depth {
            return Err(Error::ContractViolation);
        }
        proof {
            use_type_invariant(&*self);
            use_type_invariant(source);
        }
        let count = self.cells.len();
        let mut i: usize = 0;
        while i < count
            invariant
                i <= count,
                count == self.cells@.len() == source.cells@.len(),
                self.width == source.width,
                self.depth == source.depth,
                self.cells@.len() == self.width * self.depth <= usize::MAX,
                forall|k: int| 0 <= k < i ==> self.cells@[k] == source.cells@[k],
            decreases count - i,
        {
            self.cells[i] = source.cells[i];
            i = i + 1;
        }
        proof {
            assert(self.cells@ =~= source.cells@);
            assert(self@.cells =~= source@.cells);
        }
        Ok(())
    }

    /// Gives the cell `(x, z)` the value `value`. Where the image has no such
    /// cell the call is refused and the image stays as it was.
    pub fn set(&mut self, x: usize, z: usize, value: bool) -> (done: Result<(), Error>)
        ensures
            final(self)@.width == old(self)@.width,
            final(self)@.depth == old(self)@.depth,
            old(self)@.has(x as int, z as int) ==> done is Ok && final(self)@.cells == old(
                self,
            )@.cells.insert((x as int, z as int), value),
            !old(self)@.has(x as int, z as int) ==> done == Err::<(), Error>(Error::InvalidArgument)
                && final(self)@ == old(self)@,
    {
        if x < self.width && z < self.depth {
            proof {
                use_type_invariant(&*self);
                lemma_row_major(self.width as int, self.depth as int, x as int, z as int);
            }
            let ghost before = *self;
            let index = z * self.width + x;
            self.cells[index] = value;
            proof {
                let w = self.width as int;
                let d = self.depth as int;
                assert forall|p: (int, int)| 0 <= p.0 < w && 0 <= p.1 < d implies #[trigger] self@.cells[p]
                    == before@.cells.insert((x as int, z as int), value)[p] by {
                    lemma_row_major(w, d, p.0, p.1);
                }
                assert(self@.cells =~= before@.cells.insert((x as int, z as int), value));
            }
            Ok(())
        } else {
            Err(Error::InvalidArgument)
        }
    }
}

} // verus!
