use vstd::prelude::*;
use crate::grid::{Color, PixelGrid, has_shape, rows_view};

verus! {

/// A rectangle of an image: its top-left corner and its size, in pixels.
#[derive(Clone, Copy, Debug, PartialEq, Eq, Structural)]
pub struct CropRect {
    pub x: u32,
    pub y: u32,
    pub width: u32,
    pub height: u32,
}

/// Where a span that asks to start at `start` starts once held inside
/// `0..total`.
pub open spec fn clamped_start(total: int, start: int) -> int {
    if start < total { start } else { total }
}

/// How long a span that asks to start at `start` and run `len` is once
/// held inside `0..total`.
pub open spec fn clamped_len(total: int, start: int, len: int) -> int {
    let s = clamped_start(total, start);
    if len < total - s { len } else { total - s }
}

/// `out` is the part of `src` under `rect`, the rectangle first cut down
/// to the image (its corner moved onto the image, its size shortened to
/// what remains).
pub open spec fn is_crop(out: PixelGrid, src: PixelGrid, rect: CropRect) -> bool {
    let x0 = clamped_start(src.width() as int, rect.x as int);
    let y0 = clamped_start(src.height() as int, rect.y as int);
    &&& out.width() == clamped_len(src.width() as int, rect.x as int, rect.width as int)
    &&& out.height() == clamped_len(src.height() as int, rect.y as int, rect.height as int)
    &&& forall|i: int, j: int|
        0 <= i < out.width() && 0 <= j < out.height() ==> #[trigger] out.at(i, j) == src.at(
            x0 + i,
            y0 + j,
        )
}

/// A crop never exceeds the rectangle or the image; a rectangle inside
/// the image is cut out whole, pixel for pixel; one that runs past the
/// right or bottom edge stops there; one that starts past an edge is
/// empty.
pub proof fn lemma_crop_bounds(out: PixelGrid, src: PixelGrid, rect: CropRect)
    requires
        is_crop(out, src, rect),
    ensures
        out.width() <= rect.width && out.width() <= src.width(),
        out.height() <= rect.height && out.height() <= src.height(),
        rect.x + rect.width <= src.width() ==> out.width() == rect.width,
        rect.y + rect.height <= src.height() ==> out.height() == rect.height,
        rect.x <= src.width() < rect.x + rect.width ==> out.width() == src.width() - rect.x,
        rect.y <= src.height() < rect.y + rect.height ==> out.height() == src.height() - rect.y,
        rect.x >= src.width() ==> out.width() == 0,
        rect.y >= src.height() ==> out.height() == 0,
        forall|i: int, j: int|
            0 <= i < out.width() && 0 <= j < out.height() ==> #[trigger] out.at(i, j) == src.at(
                rect.x + i,
                rect.y + j,
            ),
{
    assert forall|i: int, j: int|
        0 <= i < out.width() && 0 <= j < out.height() implies #[trigger] out.at(i, j) == src.at(
        rect.x + i,
        rect.y + j,
    ) by {
        assert(out.at(i, j) == src.at(
            clamped_start(src.width() as int, rect.x as int) + i,
            clamped_start(src.height() as int, rect.y as int) + j,
        ));
    }
}

/// The part of the image under the rectangle, cut down to the image as
/// `image::imageops::crop_imm` does.
pub fn crop(src: &PixelGrid, rect: CropRect) -> (out: PixelGrid)
    ensures
        is_crop(out, *src, rect),
{
    let sw = src.width();
    let sh = src.height();
    let x0 = if rect.x < sw { rect.x } else { sw };
    let y0 = if rect.y < sh { rect.y } else { sh };
    let w = if rect.width < sw - x0 { rect.width } else { sw - x0 };
    let h = if rect.height < sh - y0 { rect.height } else { sh - y0 };
    let mut rows: Vec<Vec<Color>> = Vec::new();
    let mut j: u32 = 0;
    while j < h
        invariant
            sw == src.width(),
            sh == src.height(),
            x0 + w <= sw,
            y0 + h <= sh,
            j <= h,
            rows.len() == j,
            forall|k: int| 0 <= k < j ==> (#[trigger] rows@[k])@.len() == w,
            forall|i: int, k: int|
                0 <= i < w && 0 <= k < j ==> #[trigger] rows@[k]@[i] == src.at(
                    x0 + i,
                    y0 + k,
                ),
        decreases h - j,
    {
        let mut row: Vec<Color> = Vec::new();
        let mut i: u32 = 0;
        while i < w
            invariant
                sw == src.width(),
                sh == src.height(),
                x0 + w <= sw,
                y0 + h <= sh,
                j < h,
                i <= w,
                row.len() == i,
                forall|a: int| 0 <= a < i ==> #[trigger] row@[a] == src.at(x0 + a, y0 + j),
            decreases w - i,
        {
            row.push(src.get(x0 + i, y0 + j));
            i = i + 1;
        }
        rows.push(row);
        j = j + 1;
    }
    proof {
        assert(has_shape(rows_view(rows@), w as int, h as int));
    }
    PixelGrid::from_rows(w, h, rows)
}

} // verus!
