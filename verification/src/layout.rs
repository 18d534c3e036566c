use vstd::prelude::*;
use crate::crop::{CropRect, crop, is_crop};
use crate::grid::PixelGrid;

verus! {

/// Left edge of the inventory grid on a reference screen, in pixels.
pub const INVENTORY_LEFT: u32 = 76;

/// Top edge of the first inventory row on a reference screen, in pixels.
pub const INVENTORY_TOP: u32 = 199;

/// Side of a square inventory block, in pixels.
pub const INVENTORY_BLOCK: u32 = 169;

/// Gap between two inventory blocks of a row, in pixels.
pub const INVENTORY_COLUMN_GAP: u32 = 42;

/// Gap between two inventory rows, in pixels.
pub const INVENTORY_ROW_GAP: u32 = 31;

/// Number of inventory rows read from one screen.
pub const INVENTORY_ROWS: u32 = 4;

/// Number of blocks in one inventory row.
pub const INVENTORY_BLOCKS_PER_ROW: u32 = 6;

/// Which screen dimension sets the scale against the reference screen:
/// the height against 1080 on a screen wider than 16:9, else the width
/// against 1920. The scale is the first number over the second.
pub open spec fn spec_scaling_basis(width: u32, height: u32) -> (u32, u32) {
    if width * 9 > height * 16 {
        (height, 1080)
    } else {
        (width, 1920)
    }
}

/// The screen dimension and the matching reference dimension whose
/// quotient is the screen's scale.
pub fn scaling_basis(width: u32, height: u32) -> (basis: (u32, u32))
    requires
        width * 9 <= u32::MAX,
        height * 16 <= u32::MAX,
    ensures
        basis == spec_scaling_basis(width, height),
        basis == (width, 1920u32) || basis == (height, 1080u32),
        basis.0 * 1920 <= width * basis.1,
        basis.0 * 1080 <= height * basis.1,
        width * 9 == height * 16 ==> basis == (width, 1920u32),
{
    proof {
        lemma_scaling_is_smaller_ratio(width, height);
    }
    if width * 9 > height * 16 {
        (height, 1080)
    } else {
        (width, 1920)
    }
}

/// The scale is the smaller of the two ratios width / 1920 and
/// height / 1080, so that the reference screen fits inside the screen;
/// where they are equal (a 16:9 screen), the width sets it.
pub proof fn lemma_scaling_is_smaller_ratio(width: u32, height: u32)
    ensures
        spec_scaling_basis(width, height) == (width, 1920u32) || spec_scaling_basis(width, height)
            == (height, 1080u32),
        spec_scaling_basis(width, height).0 * 1920 <= width * spec_scaling_basis(width, height).1,
        spec_scaling_basis(width, height).0 * 1080 <= height * spec_scaling_basis(width, height).1,
        width * 9 == height * 16 ==> spec_scaling_basis(width, height) == (width, 1920u32),
{
    let w = width as int;
    let h = height as int;
    if w * 9 > h * 16 {
        assert(h * 1920 <= w * 1080) by (nonlinear_arith)
            requires
                w * 9 > h * 16,
        ;
    } else {
        assert(w * 1080 <= h * 1920) by (nonlinear_arith)
            requires
                w * 9 <= h * 16,
        ;
    }
}

/// How the parts of a reward panel sit in their box: four across the
/// whole box, or three centred in it.
#[derive(Clone, Copy, Debug, PartialEq, Eq, Structural)]
pub enum PartLayout {
    Four,
    Three,
}

/// How many parts a layout holds.
pub open spec fn part_count(layout: PartLayout) -> int {
    match layout {
        PartLayout::Four => 4,
        PartLayout::Three => 3,
    }
}

/// The rectangle of part `i` in a box of the given size: a quarter of the
/// width each, the full height, starting at the left edge, or half a part
/// in from it for three parts.
pub open spec fn part_rect(width: u32, height: u32, layout: PartLayout, i: int) -> CropRect {
    let part_width = width / 4;
    let left = match layout {
        PartLayout::Four => 0,
        PartLayout::Three => part_width / 2,
    };
    CropRect { x: (left + i * part_width) as u32, y: 0, width: part_width, height }
}

/// The rectangles of the parts of a reward box, left to right.
pub fn part_box_rects(width: u32, height: u32, layout: PartLayout) -> (rects: Vec<CropRect>)
    ensures
        rects.len() == part_count(layout),
        forall|i: int| 0 <= i < rects.len() ==> #[trigger] rects[i] == part_rect(width, height, layout, i),
{
    let part_width = width / 4;
    let (left, count) = match layout {
        PartLayout::Four => (0, 4),
        PartLayout::Three => (part_width / 2, 3),
    };
    let mut rects: Vec<CropRect> = Vec::new();
    let mut i: u32 = 0;
    while i < count
        invariant
            part_width == width / 4,
            count == part_count(layout),
            left == match layout {
                PartLayout::Four => 0,
                PartLayout::Three => part_width / 2,
            },
            i <= count,
            rects.len() == i,
            forall|k: int| 0 <= k < i ==> #[trigger] rects[k] == part_rect(width, height, layout, k),
        decreases count - i,
    {
        assert(left + i * part_width <= width) by (nonlinear_arith)
            requires
                i < count,
                count <= 4,
                part_width == width / 4,
                count == 4 ==> left == 0,
                left <= part_width / 2,
                count == 3 || left == 0,
        ;
        rects.push(CropRect { x: left + i * part_width, y: 0, width: part_width, height });
        i = i + 1;
    }
    rects
}

/// The parts of a reward box, left to right, that lie side by side
/// inside the box without overlap.
pub proof fn lemma_part_rects_tile(width: u32, height: u32, layout: PartLayout, i: int)
    requires
        0 <= i < part_count(layout),
    ensures
        part_rect(width, height, layout, i).x + part_rect(width, height, layout, i).width <= width,
        i + 1 < part_count(layout) ==> part_rect(width, height, layout, i + 1).x == part_rect(
            width,
            height,
            layout,
            i,
        ).x + part_rect(width, height, layout, i).width,
{
    let pw = (width / 4) as int;
    let left: int = match layout {
        PartLayout::Four => 0,
        PartLayout::Three => pw / 2,
    };
    assert(left + i * pw + pw <= width && left + (i + 1) * pw == left + i * pw + pw) by (nonlinear_arith)
        requires
            0 <= i < part_count(layout),
            part_count(layout) <= 4,
            pw == width / 4,
            part_count(layout) == 4 ==> left == 0,
            0 <= left <= pw / 2,
    ;
}

/// Each part is a quarter of the box wide (rounded down) and the box's
/// height, from the top; four parts start at the left edge, and three
/// parts are centred, their margins left and right differing by at most
/// four pixels.
pub proof fn lemma_part_rects_shape(width: u32, height: u32, layout: PartLayout, i: int)
    requires
        0 <= i < part_count(layout),
    ensures
        4 * part_rect(width, height, layout, i).width <= width < 4 * (part_rect(
            width,
            height,
            layout,
            i,
        ).width + 1),
        part_rect(width, height, layout, i).y == 0,
        part_rect(width, height, layout, i).height == height,
        layout == PartLayout::Four ==> part_rect(width, height, layout, 0).x == 0,
        layout == PartLayout::Three ==> {
            let left = part_rect(width, height, layout, 0).x as int;
            let right = width - (part_rect(width, height, layout, 2).x + part_rect(
                width,
                height,
                layout,
                2,
            ).width);
            0 <= right - left <= 4
        },
{
    let pw = (width / 4) as int;
    lemma_part_rects_tile(width, height, layout, i);
    if layout == PartLayout::Three {
        lemma_part_rects_tile(width, height, layout, 2);
        assert(pw / 2 + 2 * pw == pw / 2 + 2 * pw);
    }
}

/// Splits a reward box into the images of its parts, left to right.
pub fn split_part_box(part_box: &PixelGrid, layout: PartLayout) -> (parts: Vec<PixelGrid>)
    ensures
        parts.len() == part_count(layout),
        forall|i: int|
            0 <= i < parts.len() ==> is_crop(
                #[trigger] parts[i],
                *part_box,
                part_rect(part_box.width(), part_box.height(), layout, i),
            ),
{
    let rects = part_box_rects(part_box.width(), part_box.height(), layout);
    let mut parts: Vec<PixelGrid> = Vec::new();
    let mut i: usize = 0;
    while i < rects.len()
        invariant
            rects.len() == part_count(layout),
            forall|k: int|
                0 <= k < rects.len() ==> #[trigger] rects[k] == part_rect(
                    part_box.width(),
                    part_box.height(),
                    layout,
                    k,
                ),
            i <= rects.len(),
            parts.len() == i,
            forall|k: int|
                0 <= k < i ==> is_crop(
                    #[trigger] parts[k],
                    *part_box,
                    part_rect(part_box.width(), part_box.height(), layout, k),
                ),
        decreases rects.len() - i,
    {
        parts.push(crop(part_box, rects[i]));
        i = i + 1;
    }
    parts
}

/// The rectangle of inventory row `i` on a reference screen, `width`
/// pixels wide.
pub open spec fn inventory_row_rect(i: int, width: u32) -> CropRect {
    CropRect {
        x: INVENTORY_LEFT,
        y: (INVENTORY_TOP + i * (INVENTORY_BLOCK + INVENTORY_ROW_GAP)) as u32,
        width,
        height: INVENTORY_BLOCK,
    }
}

/// The rectangles of the inventory rows, top to bottom, each `width`
/// pixels wide.
pub fn inventory_row_rects(width: u32) -> (rects: Vec<CropRect>)
    ensures
        rects.len() == INVENTORY_ROWS,
        forall|i: int| 0 <= i < rects.len() ==> #[trigger] rects[i] == inventory_row_rect(i, width),
        rects[0].y == INVENTORY_TOP,
        forall|i: int|
            0 <= i < rects.len() ==> (#[trigger] rects[i]).x == INVENTORY_LEFT && rects[i].width
                == width && rects[i].height == INVENTORY_BLOCK,
        forall|i: int|
            0 <= i < rects.len() - 1 ==> #[trigger] rects[i + 1].y == rects[i].y + INVENTORY_BLOCK
                + INVENTORY_ROW_GAP,
{
    let mut rects: Vec<CropRect> = Vec::new();
    let mut i: u32 = 0;
    while i < INVENTORY_ROWS
        invariant
            i <= INVENTORY_ROWS,
            rects.len() == i,
            forall|k: int| 0 <= k < i ==> #[trigger] rects[k] == inventory_row_rect(k, width),
        decreases INVENTORY_ROWS - i,
    {
        assert(INVENTORY_TOP + i * (INVENTORY_BLOCK + INVENTORY_ROW_GAP) <= 1000) by (nonlinear_arith)
            requires
                i < 4,
                INVENTORY_TOP == 199,
                INVENTORY_BLOCK == 169,
                INVENTORY_ROW_GAP == 31,
        ;
        rects.push(
            CropRect {
                x: INVENTORY_LEFT,
                y: INVENTORY_TOP + i * (INVENTORY_BLOCK + INVENTORY_ROW_GAP),
                width,
                height: INVENTORY_BLOCK,
            },
        );
        i = i + 1;
    }
    proof {
        assert forall|i: int| 0 <= i < rects.len() - 1 implies #[trigger] rects[i + 1].y == rects[i].y
            + INVENTORY_BLOCK + INVENTORY_ROW_GAP by {
            lemma_inventory_rows_step(width, i);
        }
        lemma_inventory_rows_step(width, 0);
    }
    rects
}

/// The inventory rows are block-high, start at the grid's top-left
/// corner, and each lies one block and one row gap below the last.
pub proof fn lemma_inventory_rows_step(width: u32, i: int)
    requires
        0 <= i < INVENTORY_ROWS,
    ensures
        inventory_row_rect(0, width).y == INVENTORY_TOP,
        inventory_row_rect(i, width).x == INVENTORY_LEFT,
        inventory_row_rect(i, width).width == width,
        inventory_row_rect(i, width).height == INVENTORY_BLOCK,
        i + 1 < INVENTORY_ROWS ==> inventory_row_rect(i + 1, width).y == inventory_row_rect(i, width).y
            + INVENTORY_BLOCK + INVENTORY_ROW_GAP,
{
    assert(INVENTORY_TOP + (i + 1) * 200 == INVENTORY_TOP + i * 200 + 200) by (nonlinear_arith);
    assert(0 <= INVENTORY_TOP + i * 200 <= 799) by (nonlinear_arith)
        requires
            0 <= i < 4,
            INVENTORY_TOP == 199,
    ;
    assert(0 <= INVENTORY_TOP + (i + 1) * 200 <= 999) by (nonlinear_arith)
        requires
            0 <= i < 4,
            INVENTORY_TOP == 199,
    ;
}

/// The rectangle of block `i` in an inventory row.
pub open spec fn inventory_block_rect(i: int) -> CropRect {
    CropRect {
        x: (i * (INVENTORY_BLOCK + INVENTORY_COLUMN_GAP)) as u32,
        y: 0,
        width: INVENTORY_BLOCK,
        height: INVENTORY_BLOCK,
    }
}

/// The rectangles of the blocks of an inventory row, left to right.
pub fn inventory_block_rects() -> (rects: Vec<CropRect>)
    ensures
        rects.len() == INVENTORY_BLOCKS_PER_ROW,
        forall|i: int| 0 <= i < rects.len() ==> #[trigger] rects[i] == inventory_block_rect(i),
        rects[0].x == 0,
        forall|i: int|
            0 <= i < rects.len() ==> (#[trigger] rects[i]).y == 0 && rects[i].width
                == INVENTORY_BLOCK && rects[i].height == INVENTORY_BLOCK,
        forall|i: int|
            0 <= i < rects.len() - 1 ==> #[trigger] rects[i + 1].x == rects[i].x + INVENTORY_BLOCK
                + INVENTORY_COLUMN_GAP,
{
    let mut rects: Vec<CropRect> = Vec::new();
    let mut i: u32 = 0;
    while i < INVENTORY_BLOCKS_PER_ROW
        invariant
            i <= INVENTORY_BLOCKS_PER_ROW,
            rects.len() == i,
            forall|k: int| 0 <= k < i ==> #[trigger] rects[k] == inventory_block_rect(k),
        decreases INVENTORY_BLOCKS_PER_ROW - i,
    {
        assert(i * (INVENTORY_BLOCK + INVENTORY_COLUMN_GAP) <= 2000) by (nonlinear_arith)
            requires
                i < 6,
                INVENTORY_BLOCK == 169,
                INVENTORY_COLUMN_GAP == 42,
        ;
        rects.push(
            CropRect {
                x: i * (INVENTORY_BLOCK + INVENTORY_COLUMN_GAP),
                y: 0,
                width: INVENTORY_BLOCK,
                height: INVENTORY_BLOCK,
            },
        );
        i = i + 1;
    }
    proof {
        assert forall|i: int| 0 <= i < rects.len() - 1 implies #[trigger] rects[i + 1].x == rects[i].x
            + INVENTORY_BLOCK + INVENTORY_COLUMN_GAP by {
            lemma_inventory_blocks_step(i);
        }
        lemma_inventory_blocks_step(0);
    }
    rects
}

/// The blocks of an inventory row are square, block-sided, start at the
/// row's left edge, and each lies one block and one column gap right of
/// the last.
pub proof fn lemma_inventory_blocks_step(i: int)
    requires
        0 <= i < INVENTORY_BLOCKS_PER_ROW,
    ensures
        inventory_block_rect(0).x == 0,
        inventory_block_rect(i).y == 0,
        inventory_block_rect(i).width == INVENTORY_BLOCK,
        inventory_block_rect(i).height == INVENTORY_BLOCK,
        i + 1 < INVENTORY_BLOCKS_PER_ROW ==> inventory_block_rect(i + 1).x == inventory_block_rect(i).x
            + INVENTORY_BLOCK + INVENTORY_COLUMN_GAP,
{
    assert((i + 1) * 211 == i * 211 + 211) by (nonlinear_arith);
    assert(0 <= i * 211 <= 1055) by (nonlinear_arith)
        requires
            0 <= i < 6,
    ;
    assert(0 <= (i + 1) * 211 <= 1266) by (nonlinear_arith)
        requires
            0 <= i < 6,
    ;
}

/// Splits an inventory row into the images of its blocks, left to right.
pub fn split_inventory_row(row: &PixelGrid) -> (blocks: Vec<PixelGrid>)
    ensures
        blocks.len() == INVENTORY_BLOCKS_PER_ROW,
        forall|i: int|
            0 <= i < blocks.len() ==> is_crop(#[trigger] blocks[i], *row, inventory_block_rect(i)),
{
    let rects = inventory_block_rects();
    let mut blocks: Vec<PixelGrid> = Vec::new();
    let mut i: usize = 0;
    while i < rects.len()
        invariant
            rects.len() == INVENTORY_BLOCKS_PER_ROW,
            forall|k: int| 0 <= k < rects.len() ==> #[trigger] rects[k] == inventory_block_rect(k),
            i <= rects.len(),
            blocks.len() == i,
            forall|k: int|
                0 <= k < i ==> is_crop(#[trigger] blocks[k], *row, inventory_block_rect(k)),
        decreases rects.len() - i,
    {
        blocks.push(crop(row, rects[i]));
        i = i + 1;
    }
    blocks
}

} // verus!
