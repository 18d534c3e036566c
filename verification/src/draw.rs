use vstd::prelude::*;
use crate::grid::{Color, PixelGrid, rgb};

verus! {

/// Green.
pub open spec fn green() -> Color {
    rgb(0, 255, 0)
}

/// The colour of rank line `k`: red, darker for each later line.
pub open spec fn rank_line_color(k: int) -> Color {
    rgb((255 - 50 * k) as u8, 0, 0)
}

/// Histograms are pure green; the first rank line is pure red, and each
/// later one is 50 darker in red, with no green or blue.
pub proof fn lemma_drawing_colors(k: int)
    requires
        0 <= k < 4,
    ensures
        green() == (Color { r: 0, g: 255, b: 0 }),
        rank_line_color(0) == (Color { r: 255, g: 0, b: 0 }),
        rank_line_color(k + 1).r + 50 == rank_line_color(k).r,
        rank_line_color(k + 1).g == 0 && rank_line_color(k + 1).b == 0,
{
}

/// The last of the first `k` rank lines drawn across row `y`, or `-1`
/// where none of them is.
pub open spec fn last_line_at(lines: Seq<isize>, y: int, k: int) -> int
    decreases k,
{
    if k <= 0 {
        -1
    } else if lines[k - 1] == y {
        k - 1
    } else {
        last_line_at(lines, y, k - 1)
    }
}

/// Draws a row histogram over the image: in each row `y`, the first
/// `counts[y]` pixels turn green.
pub fn draw_histogram(grid: &mut PixelGrid, counts: &Vec<usize>)
    requires
        forall|y: int|
            0 <= y < counts.len() ==> #[trigger] counts[y] <= old(grid).width() && (counts[y] > 0
                ==> y < old(grid).height()),
    ensures
        final(grid).width() == old(grid).width(),
        final(grid).height() == old(grid).height(),
        forall|i: int, j: int|
            0 <= i < final(grid).width() && 0 <= j < final(grid).height() ==> #[trigger] final(grid).at(i, j) == if j < counts.len() && i < counts[j] {
                green()
            } else {
                old(grid).at(i, j)
            },
{
    let ghost start = *grid;
    let mut y: usize = 0;
    while y < counts.len()
        invariant
            0 <= y <= counts.len(),
            grid.width() == start.width(),
            grid.height() == start.height(),
            forall|k: int|
                0 <= k < counts.len() ==> #[trigger] counts[k] <= start.width() && (counts[k] > 0
                    ==> k < start.height()),
            forall|i: int, j: int|
                0 <= i < grid.width() && 0 <= j < grid.height() ==> #[trigger] grid.at(i, j) == if j
                    < y && i < counts[j] {
                    green()
                } else {
                    start.at(i, j)
                },
        decreases counts.len() - y,
    {
        let count = counts[y];
        let mut x: usize = 0;
        while x < count
            invariant
                0 <= y < counts.len(),
                count == counts[y as int],
                x <= count,
                grid.width() == start.width(),
                grid.height() == start.height(),
                count <= start.width(),
                count > 0 ==> y < start.height(),
                forall|i: int, j: int|
                    0 <= i < grid.width() && 0 <= j < grid.height() ==> #[trigger] grid.at(i, j)
                        == if (j < y && i < counts[j]) || (j == y && i < x) {
                        green()
                    } else {
                        start.at(i, j)
                    },
            decreases count - x,
        {
            grid.put_pixel(x as u32, y as u32, Color { r: 0, g: 255, b: 0 });
            x = x + 1;
        }
        y = y + 1;
    }
}

/// Draws the rank lines over the image: line `k` paints all of row
/// `lines[k]` in `rank_line_color(k)`, later lines over earlier ones.
pub fn draw_rank_lines(grid: &mut PixelGrid, lines: &Vec<isize>)
    requires
        lines.len() <= 5,
        old(grid).width() > 0 ==> forall|k: int|
            0 <= k < lines.len() ==> 0 <= #[trigger] lines[k] < old(grid).height(),
    ensures
        final(grid).width() == old(grid).width(),
        final(grid).height() == old(grid).height(),
        forall|i: int, j: int|
            0 <= i < final(grid).width() && 0 <= j < final(grid).height() ==> #[trigger] final(grid).at(i, j) == if last_line_at(lines@, j, lines.len() as int) >= 0 {
                rank_line_color(last_line_at(lines@, j, lines.len() as int))
            } else {
                old(grid).at(i, j)
            },
{
    let ghost start = *grid;
    let width = grid.width();
    let mut k: usize = 0;
    while k < lines.len()
        invariant
            0 <= k <= lines.len(),
            lines.len() <= 5,
            width == start.width(),
            grid.width() == start.width(),
            grid.height() == start.height(),
            width > 0 ==> forall|n: int| 0 <= n < lines.len() ==> 0 <= #[trigger] lines[n] < start.height(),
            forall|i: int, j: int|
                0 <= i < grid.width() && 0 <= j < grid.height() ==> #[trigger] grid.at(i, j) == if last_line_at(
                    lines@,
                    j,
                    k as int,
                ) >= 0 {
                    rank_line_color(last_line_at(lines@, j, k as int))
                } else {
                    start.at(i, j)
                },
        decreases lines.len() - k,
    {
        let row = lines[k];
        let shade: u8 = 255 - (k as u8) * 50;
        let ghost mid = *grid;
        let mut x: u32 = 0;
        while x < width
            invariant
                0 <= k < lines.len(),
                lines.len() <= 5,
                row == lines[k as int],
                shade == (255 - 50 * k) as u8,
                x <= width,
                width == start.width(),
                width > 0 ==> 0 <= row < start.height(),
                mid.width() == start.width(),
                mid.height() == start.height(),
                grid.width() == start.width(),
                grid.height() == start.height(),
                forall|i: int, j: int|
                    0 <= i < grid.width() && 0 <= j < grid.height() ==> #[trigger] grid.at(i, j)
                        == if j == row && i < x {
                        rank_line_color(k as int)
                    } else {
                        mid.at(i, j)
                    },
            decreases width - x,
        {
            grid.put_pixel(x, row as u32, Color { r: shade, g: 0, b: 0 });
            x = x + 1;
        }
        assert forall|i: int, j: int|
            0 <= i < grid.width() && 0 <= j < grid.height() implies #[trigger] grid.at(i, j) == if last_line_at(
                lines@,
                j,
                k + 1,
            ) >= 0 {
                rank_line_color(last_line_at(lines@, j, k + 1))
            } else {
                start.at(i, j)
            } by {
            assert(mid.at(i, j) == if last_line_at(lines@, j, k as int) >= 0 {
                rank_line_color(last_line_at(lines@, j, k as int))
            } else {
                start.at(i, j)
            });
        }
        k = k + 1;
    }
}

} // verus!
