//! The source of the pipeline: a field of scattered land.

use crate::error::Error;
use crate::image::Image;
use crate::rng::{bounded_at, NotchRng};
use crate::window::{offset, span_fits, Field, Position, Window};
use vstd::prelude::*;

verus! {

/// Whether the cell `(x, z)` is land for a generator with base `base` and a
/// threshold of `chance` in a hundred: the first bounded draw at the cell,
/// with the bound 100, is below the threshold.
pub open spec fn land_at(base: int, chance: int, x: int, z: int) -> bool {
    bounded_at(base, x, z, 100) < chance
}

/// A source that makes each cell land with a chance of `chance` in a
/// hundred, each cell by a draw of its own.
#[derive(Debug, Clone, Copy)]
pub struct Continents {
    chance: i32,
    rng: NotchRng,
}

impl Continents {
    #[verifier::type_invariant]
    spec fn well_formed(self) -> bool {
        0 <= self.chance <= 100
    }

    /// The threshold, in a hundred.
    pub closed spec fn threshold(self) -> int {
        self.chance as int
    }

    /// The base of the generator.
    pub closed spec fn base(self) -> int {
        self.rng.initial as int
    }

    /// The field that the source fills windows from.
    pub open spec fn field(self) -> Field {
        |x: int, z: int| land_at(self.base(), self.threshold(), x, z)
    }

    /// Makes a source with the threshold `chance`, which must lie in
    /// `[0, 100]`, and the generator `rng`.
    pub fn new(chance: i32, rng: NotchRng) -> (made: Result<Continents, Error>)
        ensures
            0 <= chance <= 100 ==> made is Ok,
            !(0 <= chance <= 100) ==> made == Err::<Continents, Error>(Error::InvalidArgument),
            made matches Ok(source) ==> source.threshold() == chance && source.base() == rng.initial,
    {
        if 0 <= chance && chance <= 100 {
            Ok(Continents { chance, rng })
        } else {
            Err(Error::InvalidArgument)
        }
    }

    /// The threshold, in a hundred.
    pub fn chance(&self) -> (chance: i32)
        ensures
            chance == self.threshold(),
            0 <= chance <= 100,
    {
        proof {
            use_type_invariant(self);
        }
        self.chance
    }

    /// The generator, as it was given to `new`.
    pub fn rng(&self) -> (rng: NotchRng)
        ensures
            rng.initial == self.base(),
    {
        self.rng
    }

    /// Fills `image` with the values of the source's field on the window
    /// whose first cell is `position` and whose size is that of `image`.
    ///
    /// A window that reaches beyond the coordinates that a `Position` can
    /// hold is refused, and `image` stays as it was.
    pub fn fill(&self, position: Position, image: &mut Image) -> (done: Result<(), Error>)
        ensures
            final(image)@.width == old(image)@.width,
            final(image)@.depth == old(image)@.depth,
            done is Ok <==> old(image)@.fits_at(position),
            done is Ok ==> final(image)@.shows(self.field(), position.x as int, position.z as int),
            done is Err ==> done == Err::<(), Error>(Error::InvalidArgument) && final(image)@ == old(
                image,
            )@,
    {
        let size = image.size();
        if !(Window { position, size }).check_fits() {
            return Err(Error::InvalidArgument);
        }
        let mut rng = self.rng;
        let ghost f = self.field();
        let mut lz: usize = 0;
        while lz < size.depth
            invariant
                lz <= size.depth,
                image@.width == size.width,
                image@.depth == size.depth,
                span_fits(position.x as int, size.width as int),
                span_fits(position.z as int, size.depth as int),
                rng.initial == self.base(),
                f == self.field(),
                forall|x: int, z: int|
                    0 <= x < size.width && 0 <= z < lz ==> #[trigger] image@.at(x, z) == f(
                        position.x + x,
                        position.z + z,
                    ),
            decreases size.depth - lz,
        {
            let oz = offset(position.z, lz);
            let mut lx: usize = 0;
            while lx < size.width
                invariant
                    lx <= size.width,
                    lz < size.depth,
                    oz == position.z + lz,
                    image@.width == size.width,
                    image@.depth == size.depth,
                    span_fits(position.x as int, size.width as int),
                    rng.initial == self.base(),
                    f == self.field(),
                    forall|x: int, z: int|
                        0 <= x < size.width && 0 <= z < lz ==> #[trigger] image@.at(x, z) == f(
                            position.x + x,
                            position.z + z,
                        ),
                    forall|x: int|
                        0 <= x < lx ==> #[trigger] image@.at(x, lz as int) == f(
                            position.x + x,
                            position.z + lz,
                        ),
                decreases size.width - lx,
            {
                let ox = offset(position.x, lx);
                rng.init_at(ox, oz);
                let land = rng.next_i32(100).unwrap() < self.chance;
                let _ = image.set(lx, lz, land);
                lx = lx + 1;
            }
            lz = lz + 1;
        }
        Ok(())
    }
}

} // verus!
