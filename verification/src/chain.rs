//! Chains of stages: how the windows that the stages ask for compose, and how
//! a chain fills a window of its output.

use crate::continents::Continents;
use crate::error::Error;
use crate::image::{lemma_field_of_shown, lemma_shows_agreeing, Image, ImageView};
use crate::stage::Stage;
use crate::window::{agree_on, is_coord, is_extent, span_fits, Field, Position, Size, Window};
use vstd::prelude::*;

verus! {

/// The coordinate at which the input of a chain starts when its output
/// starts at `c`: the stages are asked from the last one back to the first,
/// each for the start of the window that the stage after it asked for.
pub open spec fn chain_coord(stages: Seq<Stage>, c: int) -> int
    decreases stages.len(),
{
    if stages.len() == 0 {
        c
    } else {
        chain_coord(stages.drop_last(), stages.last().coord(c))
    }
}

/// The extent of the input that a chain needs for `n` cells of output: the
/// stages are asked from the last one back to the first, each for the extent
/// of the window that the stage after it asked for.
pub open spec fn chain_extent(stages: Seq<Stage>, n: int) -> int
    decreases stages.len(),
{
    if stages.len() == 0 {
        n
    } else {
        chain_extent(stages.drop_last(), stages.last().extent(n))
    }
}

/// The field that a chain makes of the field `source`: the stages work from
/// the first one on to the last, each on the field that the stage before it
/// made.
pub open spec fn chain_field(stages: Seq<Stage>, source: Field) -> Field
    decreases stages.len(),
{
    if stages.len() == 0 {
        source
    } else {
        stages.last().field(chain_field(stages.drop_last(), source))
    }
}

/// Whether an image can hold the window of `width` by `depth` cells whose
/// first cell is `(x, z)`: every cell has coordinates that a `Position` can
/// hold, and the cells can be counted in a `usize`.
pub open spec fn holdable(x: int, z: int, width: int, depth: int) -> bool {
    &&& span_fits(x, width)
    &&& span_fits(z, depth)
    &&& is_extent(width)
    &&& is_extent(depth)
    &&& width * depth <= usize::MAX
}

/// Whether `input` is the window that `stage` reads to fill `output`.
pub open spec fn reads(stage: Stage, output: Window, input: Window) -> bool {
    &&& input.position.x == stage.coord(output.position.x as int)
    &&& input.position.z == stage.coord(output.position.z as int)
    &&& input.size.width == stage.extent(output.size.width as int)
    &&& input.size.depth == stage.extent(output.size.depth as int)
}

/// Whether `levels` lists the windows on the way to the window `output` of
/// a chain: `levels[i]` is the window that stage `i` reads, the last entry
/// is `output`, and an image can hold each of them.
pub open spec fn is_plan(stages: Seq<Stage>, output: Window, levels: Seq<Window>) -> bool {
    &&& levels.len() == stages.len() + 1
    &&& levels[stages.len() as int] == output
    &&& forall|i: int| 0 <= i < levels.len() ==> (#[trigger] levels[i]).holdable()
    &&& forall|i: int|
        0 <= i < stages.len() ==> reads(#[trigger] stages[i], levels[i + 1], levels[i])
}

/// Whether a chain can fill the window of `width` by `depth` cells whose
/// first cell is `(x, z)`: an image can hold that window and every window
/// that a stage of the chain has to read on the way.
pub open spec fn feasible(stages: Seq<Stage>, x: int, z: int, width: int, depth: int) -> bool
    decreases stages.len(),
{
    &&& holdable(x, z, width, depth)
    &&& stages.len() > 0 ==> feasible(
        stages.drop_last(),
        stages.last().coord(x),
        stages.last().coord(z),
        stages.last().extent(width),
        stages.last().extent(depth),
    )
}

/// Windows compose: what two chains one after the other ask for is what the
/// first asks for to make what the second asks for.
pub proof fn lemma_chain_window_composes(first: Seq<Stage>, second: Seq<Stage>, c: int, n: int)
    ensures
        chain_coord(first + second, c) == chain_coord(first, chain_coord(second, c)),
        chain_extent(first + second, n) == chain_extent(first, chain_extent(second, n)),
    decreases second.len(),
{
    if second.len() == 0 {
        assert(first + second =~= first);
    } else {
        assert((first + second).drop_last() =~= first + second.drop_last());
        assert((first + second).last() == second.last());
        lemma_chain_window_composes(
            first,
            second.drop_last(),
            second.last().coord(c),
            second.last().extent(n),
        );
    }
}

/// Fields compose: what two chains one after the other make of a field is
/// what the second makes of what the first makes of it.
pub proof fn lemma_chain_field_composes(first: Seq<Stage>, second: Seq<Stage>, source: Field)
    ensures
        chain_field(first + second, source) == chain_field(second, chain_field(first, source)),
    decreases second.len(),
{
    if second.len() == 0 {
        assert(first + second =~= first);
    } else {
        assert((first + second).drop_last() =~= first + second.drop_last());
        assert((first + second).last() == second.last());
        lemma_chain_field_composes(first, second.drop_last(), source);
    }
}

/// A chain reads no cell outside the window it asks for: where two source
/// fields agree on the window that the chain asks for to make an output
/// window, the two output fields agree on that output window.
pub proof fn lemma_chain_reads_its_window(
    stages: Seq<Stage>,
    f: Field,
    g: Field,
    x0: int,
    z0: int,
    width: int,
    depth: int,
)
    requires
        agree_on(
            f,
            g,
            chain_coord(stages, x0),
            chain_coord(stages, z0),
            chain_extent(stages, width),
            chain_extent(stages, depth),
        ),
    ensures
        agree_on(chain_field(stages, f), chain_field(stages, g), x0, z0, width, depth),
    decreases stages.len(),
{
    if stages.len() > 0 {
        let last = stages.last();
        lemma_chain_reads_its_window(
            stages.drop_last(),
            f,
            g,
            last.coord(x0),
            last.coord(z0),
            last.extent(width),
            last.extent(depth),
        );
        last.lemma_reads_its_window(
            chain_field(stages.drop_last(), f),
            chain_field(stages.drop_last(), g),
            x0,
            z0,
            width,
            depth,
        );
    }
}

/// Whether every stage keeps the resolution.
pub open spec fn all_blur(stages: Seq<Stage>) -> bool {
    forall|i: int| 0 <= i < stages.len() ==> #[trigger] stages[i] is Blur
}

/// A chain of stages that all keep the resolution asks for the output window
/// and one cell of margin on each side for every stage.
pub proof fn lemma_blur_chain_window(stages: Seq<Stage>, c: int, n: int)
    requires
        all_blur(stages),
    ensures
        chain_coord(stages, c) == c - stages.len(),
        chain_extent(stages, n) == n + 2 * stages.len(),
    decreases stages.len(),
{
    if stages.len() > 0 {
        assert(stages.last() is Blur);
        lemma_blur_chain_window(stages.drop_last(), c - 1, n + 2);
    }
}

/// A chain of one zoom asks, along each axis, for no fewer cells than half
/// the output, rounded up, and for two cells more than that at most; it
/// starts one cell before half the start of the output, rounded down.
pub proof fn lemma_single_zoom_window(stages: Seq<Stage>, c: int, n: int)
    requires
        stages.len() == 1,
        stages[0] is Zoom,
        0 <= n,
    ensures
        chain_extent(stages, n) == (n + 1) / 2 + 2,
        (n + 1) / 2 <= chain_extent(stages, n) <= (n + 1) / 2 + 2,
        chain_coord(stages, c) == c / 2 - 1,
{
    assert(stages.last() == stages[0]);
    assert(stages.drop_last().len() == 0);
    assert(chain_extent(stages.drop_last(), stages.last().extent(n)) == stages.last().extent(n));
    assert(chain_coord(stages.drop_last(), stages.last().coord(c)) == stages.last().coord(c));
}

/// A chain that has no stage, and so none that changes the resolution, asks
/// for a window of the size of the output. Every stage that keeps the
/// resolution adds its margin, as `lemma_blur_chain_window` tells.
pub proof fn lemma_blur_chain_without_growth(stages: Seq<Stage>, n: int)
    requires
        all_blur(stages),
        stages.len() == 0,
    ensures
        chain_extent(stages, n) == n,
{
}

/// A chain without stages asks for the output window itself and hands the
/// source field on as it is.
pub proof fn lemma_empty_chain(stages: Seq<Stage>, c: int, n: int, source: Field)
    requires
        stages.len() == 0,
    ensures
        chain_coord(stages, c) == c,
        chain_extent(stages, n) == n,
        chain_field(stages, source) == source,
{
}

/// Along each axis, the window that a chain asks for holds no more than two
/// cells for every stage beyond the cells of the output window.
pub proof fn lemma_chain_extent_bounds(stages: Seq<Stage>, n: int)
    requires
        0 <= n,
    ensures
        0 <= chain_extent(stages, n) <= n + 2 * stages.len(),
    decreases stages.len(),
{
    if stages.len() > 0 {
        stages.last().lemma_extent_bounds(n);
        lemma_chain_extent_bounds(stages.drop_last(), stages.last().extent(n));
    }
}

/// An ordered list of stages downstream of a source. The first stage reads
/// the source; the last stage makes the output of the chain.
#[derive(Debug)]
pub struct Chain(pub Vec<Stage>);

impl View for Chain {
    type V = Seq<Stage>;

    open spec fn view(&self) -> Seq<Stage> {
        self.0@
    }
}

impl Chain {
    /// Makes a chain without stages.
    pub fn new() -> (chain: Chain)
        ensures
            chain@.len() == 0,
    {
        Chain(Vec::new())
    }

    /// The coordinate at which the input of the chain starts when its output
    /// starts at `c`.
    fn wide_coord(&self, c: i64) -> (input: i128)
        ensures
            input == chain_coord(self@, c as int),
    {
        let n = self.0.len();
        let mut cur: i128 = c as i128;
        let mut i: usize = n;
        assert(self@.take(n as int) =~= self@);
        while i > 0
            invariant
                i <= n,
                n == self@.len(),
                chain_coord(self@, c as int) == chain_coord(self@.take(i as int), cur as int),
                -0x8000_0000_0000_0000 - (n - i) <= cur <= 0x8000_0000_0000_0000 + (n - i),
            decreases i,
        {
            i = i - 1;
            assert(self@.take(i + 1).drop_last() =~= self@.take(i as int));
            cur = self.0[i].wide_coord(cur);
        }
        cur
    }

    /// The extent of the input that the chain needs for `n` cells of output.
    fn wide_extent(&self, n: usize) -> (input: i128)
        ensures
            input == chain_extent(self@, n as int),
            0 <= input,
    {
        let count = self.0.len();
        let mut cur: i128 = n as i128;
        let mut i: usize = count;
        assert(self@.take(count as int) =~= self@);
        while i > 0
            invariant
                i <= count,
                count == self@.len(),
                chain_extent(self@, n as int) == chain_extent(self@.take(i as int), cur as int),
                0 <= cur <= n + 2 * (count - i),
            decreases i,
        {
            i = i - 1;
            assert(self@.take(i + 1).drop_last() =~= self@.take(i as int));
            cur = self.0[i].wide_extent(cur);
        }
        cur
    }

    /// The windows on the way to the window `output`, or `None` where the
    /// chain cannot fill that window.
    fn windows(&self, output: Window) -> (plan: Option<Vec<Window>>)
        ensures
            plan is Some <==> feasible(
                self@,
                output.position.x as int,
                output.position.z as int,
                output.size.width as int,
                output.size.depth as int,
            ),
            plan matches Some(levels) ==> {
                &&& is_plan(self@, output, levels@)
                &&& levels@[0].position.x == chain_coord(self@, output.position.x as int)
                &&& levels@[0].position.z == chain_coord(self@, output.position.z as int)
                &&& levels@[0].size.width == chain_extent(self@, output.size.width as int)
                &&& levels@[0].size.depth == chain_extent(self@, output.size.depth as int)
            },
    {
        let n = self.0.len();
        if !output.check_holdable() {
            return None;
        }
        let mut levels: Vec<Window> = Vec::new();
        let mut k: usize = 0;
        while k < n
            invariant
                k <= n,
                levels@.len() == k,
                forall|j: int| 0 <= j < k ==> levels@[j] == output,
            decreases n - k,
        {
            levels.push(output);
            k = k + 1;
        }
        levels.push(output);
        let ghost x = output.position.x as int;
        let ghost z = output.position.z as int;
        let ghost w = output.size.width as int;
        let ghost d = output.size.depth as int;
        let mut i: usize = n;
        assert(self@.take(n as int) =~= self@);
        while i > 0
            invariant
                i <= n,
                n == self@.len(),
                levels@.len() == n + 1,
                levels@[n as int] == output,
                x == output.position.x,
                z == output.position.z,
                w == output.size.width,
                d == output.size.depth,
                forall|j: int| i <= j <= n ==> (#[trigger] levels@[j]).holdable(),
                forall|j: int| i <= j < n ==> reads(#[trigger] self@[j], levels@[j + 1], levels@[j]),
                feasible(self@, x, z, w, d) == feasible(
                    self@.take(i as int),
                    levels@[i as int].position.x as int,
                    levels@[i as int].position.z as int,
                    levels@[i as int].size.width as int,
                    levels@[i as int].size.depth as int,
                ),
                chain_coord(self@, x) == chain_coord(
                    self@.take(i as int),
                    levels@[i as int].position.x as int,
                ),
                chain_coord(self@, z) == chain_coord(
                    self@.take(i as int),
                    levels@[i as int].position.z as int,
                ),
                chain_extent(self@, w) == chain_extent(
                    self@.take(i as int),
                    levels@[i as int].size.width as int,
                ),
                chain_extent(self@, d) == chain_extent(
                    self@.take(i as int),
                    levels@[i as int].size.depth as int,
                ),
            decreases i,
        {
            let above = levels[i];
            i = i - 1;
            assert(self@.take(i + 1).drop_last() =~= self@.take(i as int));
            assert(self@.take(i + 1).last() == self@[i as int]);
            proof {
                let stage = self@[i as int];
                let bx = stage.coord(above.position.x as int);
                let bz = stage.coord(above.position.z as int);
                let bw = stage.extent(above.size.width as int);
                let bd = stage.extent(above.size.depth as int);
                assert(feasible(self@.take(i as int), bx, bz, bw, bd) ==> holdable(bx, bz, bw, bd));
            }
            let position = self.0[i].input_position(above.position);
            let size = self.0[i].input_size(above.size);
            let below = match (position, size) {
                (Ok(position), Ok(size)) => Window { position, size },
                _ => {
                    return None;
                },
            };
            if !below.check_holdable() {
                return None;
            }
            levels[i] = below;
        }
        Some(levels)
    }

    /// Whether `input` has the size that the chain asks for to make an output
    /// of the size of `output`.
    pub open spec fn accepts(self, input: ImageView, output: ImageView) -> bool {
        input.has_size(
            chain_extent(self@, output.width as int),
            chain_extent(self@, output.depth as int),
        )
    }

    /// Whether the chain can fill the window of the size `size` whose first
    /// cell is `position`.
    pub open spec fn can_fill(self, position: Position, width: nat, depth: nat) -> bool {
        feasible(self@, position.x as int, position.z as int, width as int, depth as int)
    }

    /// Fills `output` with the values of the chain's output field on the
    /// window whose first cell is `position` and whose size is that of
    /// `output`. `input` holds the source field on the window that
    /// `input_position` and `input_size` give for that output window.
    ///
    /// An `input` of another size is a contract violation. A window that the
    /// chain cannot fill is an invalid argument. Either way `output` stays as
    /// it was.
    pub fn filter(&self, position: Position, input: &Image, output: &mut Image) -> (done: Result<
        (),
        Error,
    >)
        ensures
            final(output)@.width == old(output)@.width,
            final(output)@.depth == old(output)@.depth,
            !self.accepts(input@, old(output)@) ==> done == Err::<(), Error>(
                Error::ContractViolation,
            ),
            self.accepts(input@, old(output)@) && !self.can_fill(
                position,
                old(output)@.width,
                old(output)@.depth,
            ) ==> done == Err::<(), Error>(Error::InvalidArgument),
            self.accepts(input@, old(output)@) && self.can_fill(
                position,
                old(output)@.width,
                old(output)@.depth,
            ) ==> done is Ok,
            done is Err ==> final(output)@ == old(output)@,
            done is Ok ==> final(output)@.shows(
                chain_field(
                    self@,
                    input@.field(
                        chain_coord(self@, position.x as int),
                        chain_coord(self@, position.z as int),
                    ),
                ),
                position.x as int,
                position.z as int,
            ),
    {
        let size = output.size();
        let given = input.size();
        if given.width as i128 != self.wide_extent(size.width) || given.depth as i128
            != self.wide_extent(size.depth) {
            return Err(Error::ContractViolation);
        }
        let levels = match self.windows(Window { position, size }) {
            Some(levels) => levels,
            None => {
                return Err(Error::InvalidArgument);
            },
        };
        let n = self.0.len();
        let ghost source = input@.field(levels@[0].position.x as int, levels@[0].position.z as int);
        let mut held: Option<Image> = None;
        let mut i: usize = 0;
        assert(self@.take(0) =~= Seq::<Stage>::empty());
        while i < n
            invariant
                i <= n,
                n == self@.len(),
                is_plan(self@, Window { position, size }, levels@),
                source == input@.field(levels@[0].position.x as int, levels@[0].position.z as int),
                input@.has_size(levels@[0].size.width as int, levels@[0].size.depth as int),
                held is None ==> i == 0,
                ({
                    let current = if held is Some {
                        held->Some_0@
                    } else {
                        input@
                    };
                    &&& current.has_size(
                        levels@[i as int].size.width as int,
                        levels@[i as int].size.depth as int,
                    )
                    &&& current.shows(
                        chain_field(self@.take(i as int), source),
                        levels@[i as int].position.x as int,
                        levels@[i as int].position.z as int,
                    )
                }),
            decreases n - i,
        {
            let below = levels[i];
            let above = levels[i + 1];
            assert(reads(self@[i as int], above, below));
            assert(above.holdable());
            let mut next = match Image::new(false, above.size.width, above.size.depth) {
                Ok(image) => image,
                Err(error) => {
                    return Err(error);
                },
            };
            let current: &Image = match &held {
                Some(image) => image,
                None => input,
            };
            match self.0[i].filter(above.position, current, &mut next) {
                Ok(()) => {},
                Err(error) => {
                    return Err(error);
                },
            }
            proof {
                let stage = self@[i as int];
                let before = chain_field(self@.take(i as int), source);
                let x0 = below.position.x as int;
                let z0 = below.position.z as int;
                lemma_field_of_shown(current@, before, x0, z0);
                stage.lemma_reads_its_window(
                    current@.field(x0, z0),
                    before,
                    above.position.x as int,
                    above.position.z as int,
                    above.size.width as int,
                    above.size.depth as int,
                );
                lemma_shows_agreeing(
                    next@,
                    stage.field(current@.field(x0, z0)),
                    stage.field(before),
                    above.position.x as int,
                    above.position.z as int,
                );
                assert(self@.take(i + 1).drop_last() =~= self@.take(i as int));
                assert(self@.take(i + 1).last() == stage);
            }
            held = Some(next);
            i = i + 1;
        }
        assert(self@.take(n as int) =~= self@);
        match held {
            Some(image) => {
                *output = image;
            },
            None => {
                let _ = output.copy_from(input);
            },
        }
        Ok(())
    }

    /// Makes the image of the window of the size `size` whose first cell is
    /// `position`: `source` fills the window that the chain asks for, and the
    /// stages make the output of it, one after the other.
    ///
    /// The image holds the values of the field that the chain makes of the
    /// whole field of `source`: a cell has the same value in every window that
    /// holds it. A window that the chain cannot fill is refused.
    pub fn evaluate(&self, source: &Continents, position: Position, size: Size) -> (made: Result<
        Image,
        Error,
    >)
        ensures
            made is Ok <==> self.can_fill(position, size.width as nat, size.depth as nat),
            made is Err ==> made matches Err(Error::InvalidArgument),
            made matches Ok(image) ==> {
                &&& image@.has_size(size.width as int, size.depth as int)
                &&& image@.shows(
                    chain_field(self@, source.field()),
                    position.x as int,
                    position.z as int,
                )
            },
    {
        let levels = match self.windows(Window { position, size }) {
            Some(levels) => levels,
            None => {
                return Err(Error::InvalidArgument);
            },
        };
        let n = self.0.len();
        let first = levels[0];
        assert(first.holdable());
        assert(levels@[n as int].holdable());
        let mut input = match Image::new(false, first.size.width, first.size.depth) {
            Ok(image) => image,
            Err(error) => {
                return Err(error);
            },
        };
        match source.fill(first.position, &mut input) {
            Ok(()) => {},
            Err(error) => {
                return Err(error);
            },
        }
        let mut output = match Image::new(false, size.width, size.depth) {
            Ok(image) => image,
            Err(error) => {
                return Err(error);
            },
        };
        match self.filter(position, &input, &mut output) {
            Ok(()) => {},
            Err(error) => {
                return Err(error);
            },
        }
        proof {
            let x0 = first.position.x as int;
            let z0 = first.position.z as int;
            lemma_field_of_shown(input@, source.field(), x0, z0);
            lemma_chain_reads_its_window(
                self@,
                input@.field(x0, z0),
                source.field(),
                position.x as int,
                position.z as int,
                size.width as int,
                size.depth as int,
            );
            lemma_shows_agreeing(
                output@,
                chain_field(self@, input@.field(x0, z0)),
                chain_field(self@, source.field()),
                position.x as int,
                position.z as int,
            );
        }
        Ok(output)
    }

    /// The position at which the source is read for an output that starts at
    /// `position`. It is refused where a `Position` cannot hold it.
    pub fn input_position(&self, position: Position) -> (input: Result<Position, Error>)
        ensures
            input is Ok <==> is_coord(chain_coord(self@, position.x as int)) && is_coord(
                chain_coord(self@, position.z as int),
            ),
            input is Err ==> input == Err::<Position, Error>(Error::InvalidArgument),
            input matches Ok(p) ==> p.x == chain_coord(self@, position.x as int) && p.z
                == chain_coord(self@, position.z as int),
    {
        let x = self.wide_coord(position.x);
        let z = self.wide_coord(position.z);
        if i64::MIN as i128 <= x && x <= i64::MAX as i128 && i64::MIN as i128 <= z && z
            <= i64::MAX as i128 {
            Ok(Position { x: x as i64, z: z as i64 })
        } else {
            Err(Error::InvalidArgument)
        }
    }

    /// The size of the window of the source that an output of the size `size`
    /// is made from. It is refused where a `Size` cannot hold it.
    pub fn input_size(&self, size: Size) -> (input: Result<Size, Error>)
        ensures
            input is Ok <==> is_extent(chain_extent(self@, size.width as int)) && is_extent(
                chain_extent(self@, size.depth as int),
            ),
            input is Err ==> input == Err::<Size, Error>(Error::InvalidArgument),
            input matches Ok(s) ==> s.width == chain_extent(self@, size.width as int) && s.depth
                == chain_extent(self@, size.depth as int),
    {
        let width = self.wide_extent(size.width);
        let depth = self.wide_extent(size.depth);
        if width <= usize::MAX as i128 && depth <= usize::MAX as i128 {
            Ok(Size { width: width as usize, depth: depth as usize })
        } else {
            Err(Error::InvalidArgument)
        }
    }
}

} // verus!
