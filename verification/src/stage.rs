//! The closed set of stages that a chain is made of.

use crate::blur::{blur_coord, blur_extent, lemma_blur_reads_its_window, Blur};
use crate::error::Error;
use crate::image::{Image, ImageView};
use crate::window::{agree_on, is_coord, is_extent, Field, Position, Size};
use crate::zoom::{lemma_zoom_reads_its_window, zoom_coord, zoom_extent, Zoom};
use vstd::prelude::*;

verus! {

/// One stage of a chain. Every stage tells which window of its input it
/// reads to fill a window of its output, and fills such a window.
#[derive(Debug, Clone, Copy)]
pub enum Stage {
    /// A stage that doubles the resolution.
    Zoom(Zoom),
    /// A stage that keeps the resolution.
    Blur(Blur),
}

impl Stage {
    /// The coordinate at which the input starts when the output starts at `c`.
    pub open spec fn coord(self, c: int) -> int {
        match self {
            Stage::Zoom(_) => zoom_coord(c),
            Stage::Blur(_) => blur_coord(c),
        }
    }

    /// The extent of the input that `n` cells of output are made from.
    pub open spec fn extent(self, n: int) -> int {
        match self {
            Stage::Zoom(_) => zoom_extent(n),
            Stage::Blur(_) => blur_extent(n),
        }
    }

    /// The field that the stage makes of the input field `up`.
    pub open spec fn field(self, up: Field) -> Field {
        match self {
            Stage::Zoom(zoom) => zoom.field(up),
            Stage::Blur(blur) => blur.field(up),
        }
    }

    /// Whether `input` has the size that the stage asks for to make an output
    /// of the size of `output`.
    pub open spec fn accepts(self, input: ImageView, output: ImageView) -> bool {
        input.has_size(self.extent(output.width as int), self.extent(output.depth as int))
    }

    /// A stage reads no cell outside the window it asks for: where two input
    /// fields agree on the window that the stage asks for to make an output
    /// window, the two output fields agree on that output window.
    pub proof fn lemma_reads_its_window(
        self,
        f: Field,
        g: Field,
        x0: int,
        z0: int,
        width: int,
        depth: int,
    )
        requires
            agree_on(f, g, self.coord(x0), self.coord(z0), self.extent(width), self.extent(depth)),
        ensures
            agree_on(self.field(f), self.field(g), x0, z0, width, depth),
    {
        match self {
            Stage::Zoom(zoom) => {
                lemma_zoom_reads_its_window(
                    zoom.rng.initial as int,
                    zoom.policy,
                    f,
                    g,
                    x0,
                    z0,
                    width,
                    depth,
                );
            },
            Stage::Blur(blur) => {
                lemma_blur_reads_its_window(blur.rng.initial as int, blur.mix, f, g, x0, z0, width, depth);
            },
        }
    }

    /// A window of input is no smaller along an axis than half the window of
    /// output, and larger by two cells at most.
    pub proof fn lemma_extent_bounds(self, n: int)
        requires
            0 <= n,
        ensures
            (n + 1) / 2 <= self.extent(n) <= n + 2,
            self is Zoom ==> self.extent(n) == (n + 1) / 2 + 2,
            self is Blur ==> self.extent(n) == n + 2,
    {
    }

    /// The coordinate at which the input starts when the output starts at
    /// `c`, for coordinates beyond those that a `Position` can hold.
    pub(crate) fn wide_coord(&self, c: i128) -> (input: i128)
        requires
            -0x1_0000_0000_0000_0000_0000 <= c <= 0x1_0000_0000_0000_0000_0000,
        ensures
            input == self.coord(c as int),
    {
        match self {
            Stage::Zoom(_) => if c >= 0 {
                c / 2 - 1
            } else {
                (c - 1) / 2 - 1
            },
            Stage::Blur(_) => c - 1,
        }
    }

    /// The extent of the input that `n` cells of output are made from, for
    /// extents beyond those that a `Size` can hold.
    pub(crate) fn wide_extent(&self, n: i128) -> (input: i128)
        requires
            0 <= n <= 0x1_0000_0000_0000_0000_0000,
        ensures
            input == self.extent(n as int),
    {
        match self {
            Stage::Zoom(_) => (n + 1) / 2 + 2,
            Stage::Blur(_) => n + 2,
        }
    }

    /// The position at which the input starts for an output that starts at
    /// `position`. It is refused where a `Position` cannot hold it.
    pub fn input_position(&self, position: Position) -> (input: Result<Position, Error>)
        ensures
            input is Ok <==> is_coord(self.coord(position.x as int)) && is_coord(
                self.coord(position.z as int),
            ),
            input is Err ==> input == Err::<Position, Error>(Error::InvalidArgument),
            input matches Ok(p) ==> p.x == self.coord(position.x as int) && p.z == self.coord(
                position.z as int,
            ),
    {
        match self {
            Stage::Zoom(zoom) => Ok(zoom.input_position(position)),
            Stage::Blur(blur) => blur.input_position(position),
        }
    }

    /// The size of the input that an output of the size `size` is made from.
    /// It is refused where a `Size` cannot hold it.
    pub fn input_size(&self, size: Size) -> (input: Result<Size, Error>)
        ensures
            input is Ok <==> is_extent(self.extent(size.width as int)) && is_extent(
                self.extent(size.depth as int),
            ),
            input is Err ==> input == Err::<Size, Error>(Error::InvalidArgument),
            input matches Ok(s) ==> s.width == self.extent(size.width as int) && s.depth
                == self.extent(size.depth as int),
    {
        match self {
            Stage::Zoom(zoom) => Ok(zoom.input_size(size)),
            Stage::Blur(blur) => blur.input_size(size),
        }
    }

    /// Fills `output` with the values of the stage's output field on the
    /// window whose first cell is `position` and whose size is that of
    /// `output`. `input` holds the input field on the window that
    /// `input_position` and `input_size` give for that output window.
    ///
    /// An `input` of another size is a contract violation. A window that
    /// reaches beyond the coordinates that a `Position` can hold is an invalid
    /// argument. Either way `output` stays as it was.
    pub fn filter(&self, position: Position, input: &Image, output: &mut Image) -> (done: Result<
        (),
        Error,
    >)
        ensures
            final(output)@.width == old(output)@.width,
            final(output)@.depth == old(output)@.depth,
            !self.accepts(input@, old(output)@) ==> done == Err::<(), Error>(
                Error::ContractViolation,
            ),
            self.accepts(input@, old(output)@) && !old(output)@.fits_at(position) ==> done == Err::<
                (),
                Error,
            >(Error::InvalidArgument),
            self.accepts(input@, old(output)@) && old(output)@.fits_at(position) ==> done is Ok,
            done is Err ==> final(output)@ == old(output)@,
            done is Ok ==> final(output)@.shows(
                self.field(
                    input@.field(self.coord(position.x as int), self.coord(position.z as int)),
                ),
                position.x as int,
                position.z as int,
            ),
    {
        match self {
            Stage::Zoom(zoom) => zoom.filter(position, input, output),
            Stage::Blur(blur) => blur.filter(position, input, output),
        }
    }
}

} // verus!
