//! The picture of an image as text, for a terminal.

use crate::image::{Image, ImageView};
use vstd::prelude::*;

verus! {

/// The byte of a cell of land, `#`.
pub const LAND: u8 = 0x23;

/// The byte of a cell of sea, `.`.
pub const SEA: u8 = 0x2e;

/// The byte that marks the middle of a row, `|`.
pub const BAR: u8 = 0x7c;

/// The byte that the rule below the middle row is drawn with, `=`.
pub const RULE: u8 = 0x3d;

/// The byte of the gap in the middle of the rule, a space.
pub const GAP: u8 = 0x20;

/// The byte that ends a line.
pub const NEWLINE: u8 = 0x0a;

/// The number of bytes on each side of the gap of the rule.
pub const RULE_SIDE: usize = 8;

/// The byte of a cell.
pub open spec fn glyph(land: bool) -> u8 {
    if land {
        LAND
    } else {
        SEA
    }
}

/// The line of the rule: `RULE_SIDE` bytes of rule, a gap, `RULE_SIDE` bytes
/// of rule, and the end of the line.
pub open spec fn rule_text() -> Seq<u8> {
    Seq::new(
        2 * RULE_SIDE as nat + 2,
        |i: int|
            if i == RULE_SIDE {
                GAP
            } else if i == 2 * RULE_SIDE + 1 {
                NEWLINE
            } else {
                RULE
            },
    )
}

/// The text of the cell `(x, z)`: its byte, behind a bar where the cell is
/// the middle one of its row.
pub open spec fn cell_text(image: ImageView, x: int, z: int) -> Seq<u8> {
    if x == image.width / 2 {
        seq![BAR, glyph(image.at(x, z))]
    } else {
        seq![glyph(image.at(x, z))]
    }
}

/// The text of the first `count` cells of the row `z`.
pub open spec fn row_text(image: ImageView, z: int, count: int) -> Seq<u8>
    decreases count,
{
    if count <= 0 {
        Seq::empty()
    } else {
        row_text(image, z, count - 1) + cell_text(image, count - 1, z)
    }
}

/// The text of the row `z`: its cells, the end of the line, and the rule
/// where the row is the middle one.
pub open spec fn line_text(image: ImageView, z: int) -> Seq<u8> {
    let cells = row_text(image, z, image.width as int).push(NEWLINE);
    if z == image.depth / 2 {
        cells + rule_text()
    } else {
        cells
    }
}

/// The text of the first `count` lines of the picture. The picture starts
/// with the last row of the image and ends with its first.
pub open spec fn picture(image: ImageView, count: int) -> Seq<u8>
    decreases count,
{
    if count <= 0 {
        Seq::empty()
    } else {
        picture(image, count - 1) + line_text(image, image.depth - count)
    }
}

/// Appends the line of the rule to `text`.
fn push_rule(text: &mut Vec<u8>)
    ensures
        final(text)@ == old(text)@ + rule_text(),
{
    let ghost start = text@;
    let mut i: usize = 0;
    while i < 2 * RULE_SIDE + 1
        invariant
            i <= 2 * RULE_SIDE + 1,
            text@ == start + rule_text().take(i as int),
        decreases 2 * RULE_SIDE + 1 - i,
    {
        text.push(if i == RULE_SIDE { GAP } else { RULE });
        i = i + 1;
        assert(text@ =~= start + rule_text().take(i as int));
    }
    text.push(NEWLINE);
    assert(text@ =~= start + rule_text());
}

/// The picture of `image`, one line of text for each row, the last row
/// first. A bar stands before the middle cell of each row, and a rule
/// follows the middle row.
pub fn render(image: &Image) -> (text: Vec<u8>)
    ensures
        text@ == picture(image@, image@.depth as int),
{
    let width = image.x_size();
    let depth = image.z_size();
    let mut text: Vec<u8> = Vec::new();
    let mut count: usize = 0;
    while count < depth
        invariant
            count <= depth,
            width == image@.width,
            depth == image@.depth,
            text@ == picture(image@, count as int),
        decreases depth - count,
    {
        let z = depth - 1 - count;
        let ghost start = text@;
        let mut x: usize = 0;
        while x < width
            invariant
                x <= width,
                z < depth,
                width == image@.width,
                depth == image@.depth,
                text@ == start + row_text(image@, z as int, x as int),
            decreases width - x,
        {
            if x == width / 2 {
                text.push(BAR);
            }
            text.push(if image.cell(x, z) { LAND } else { SEA });
            x = x + 1;
            assert(text@ =~= start + row_text(image@, z as int, x as int));
        }
        text.push(NEWLINE);
        if z == depth / 2 {
            push_rule(&mut text);
        }
        count = count + 1;
        assert(text@ =~= start + line_text(image@, z as int));
    }
    text
}

} // verus!
