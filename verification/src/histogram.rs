use vstd::prelude::*;
use crate::grid::{Color, Mask, PixelGrid, rgb, has_shape, rows_view};

verus! {

/// How many of the first `k` pixels of row `y` of the mask are set.
pub open spec fn row_count(mask: Mask, y: int, k: int) -> nat
    decreases k,
{
    if k <= 0 {
        0
    } else {
        row_count(mask, y, k - 1) + if mask.at(k - 1, y) { 1nat } else { 0nat }
    }
}

/// How many of the first `k` pixels of column `x` of the mask are set.
pub open spec fn column_count(mask: Mask, x: int, k: int) -> nat
    decreases k,
{
    if k <= 0 {
        0
    } else {
        column_count(mask, x, k - 1) + if mask.at(x, k - 1) { 1nat } else { 0nat }
    }
}

/// A column count is the number of set flags among the column's first
/// `k` pixels: every set pixel of the column counts once, whatever its row.
pub proof fn lemma_column_count_counts_set_pixels(mask: Mask, x: int, k: int)
    requires
        0 <= k,
    ensures
        column_count(mask, x, k) == Seq::new(k as nat, |y: int| mask.at(x, y)).filter(
            |b: bool| b,
        ).len(),
    decreases k,
{
    reveal_with_fuel(Seq::filter, 1);
    let col = Seq::new(k as nat, |y: int| mask.at(x, y));
    if k > 0 {
        lemma_column_count_counts_set_pixels(mask, x, k - 1);
        assert(col.drop_last() =~= Seq::new((k - 1) as nat, |y: int| mask.at(x, y)));
    } else {
        assert(col =~= Seq::<bool>::empty());
    }
}

/// A row count is the number of set flags among the row's first `k`
/// pixels: every set pixel of the row counts once, whatever its column.
pub proof fn lemma_row_count_counts_set_pixels(mask: Mask, y: int, k: int)
    requires
        0 <= k,
    ensures
        row_count(mask, y, k) == Seq::new(k as nat, |x: int| mask.at(x, y)).filter(|b: bool| b).len(),
    decreases k,
{
    reveal_with_fuel(Seq::filter, 1);
    let row = Seq::new(k as nat, |x: int| mask.at(x, y));
    if k > 0 {
        lemma_row_count_counts_set_pixels(mask, y, k - 1);
        assert(row.drop_last() =~= Seq::new((k - 1) as nat, |x: int| mask.at(x, y)));
    } else {
        assert(row =~= Seq::<bool>::empty());
    }
}

proof fn lemma_row_count_bounded(mask: Mask, y: int, k: int)
    requires
        0 <= k,
    ensures
        row_count(mask, y, k) <= k,
    decreases k,
{
    if k > 0 {
        lemma_row_count_bounded(mask, y, k - 1);
    }
}

proof fn lemma_column_count_bounded(mask: Mask, x: int, k: int)
    requires
        0 <= k,
    ensures
        column_count(mask, x, k) <= k,
    decreases k,
{
    if k > 0 {
        lemma_column_count_bounded(mask, x, k - 1);
    }
}

/// The number of set pixels in each row of the mask, top to bottom.
pub fn row_counts(mask: &Mask) -> (rows: Vec<usize>)
    ensures
        rows.len() == mask.height(),
        forall|y: int|
            0 <= y < rows.len() ==> #[trigger] rows[y] == row_count(*mask, y, mask.width() as int),
        forall|y: int| 0 <= y < rows.len() ==> #[trigger] rows[y] <= mask.width(),
        forall|y: int|
            0 <= y < rows.len() ==> #[trigger] rows[y] == Seq::new(
                mask.width() as nat,
                |x: int| mask.at(x, y),
            ).filter(|b: bool| b).len(),
{
    let width = mask.width();
    let height = mask.height();
    let mut rows: Vec<usize> = Vec::new();
    let mut y: u32 = 0;
    while y < height
        invariant
            width == mask.width(),
            height == mask.height(),
            y <= height,
            rows.len() == y,
            forall|k: int| 0 <= k < y ==> #[trigger] rows[k] == row_count(*mask, k, width as int),
            forall|k: int| 0 <= k < y ==> #[trigger] rows[k] <= width,
            forall|k: int|
                0 <= k < y ==> #[trigger] rows[k] == Seq::new(width as nat, |x: int| mask.at(x, k)).filter(
                    |b: bool| b,
                ).len(),
        decreases height - y,
    {
        let mut count: usize = 0;
        let mut x: u32 = 0;
        while x < width
            invariant
                width == mask.width(),
                height == mask.height(),
                y < height,
                x <= width,
                count == row_count(*mask, y as int, x as int),
            decreases width - x,
        {
            proof {
                lemma_row_count_bounded(*mask, y as int, x as int);
            }
            if mask.get(x, y) {
                count = count + 1;
            }
            x = x + 1;
        }
        proof {
            lemma_row_count_bounded(*mask, y as int, width as int);
        }
        rows.push(count);
        proof {
            assert forall|k: int| 0 <= k < rows.len() implies #[trigger] rows[k] == Seq::new(
                width as nat,
                |x: int| mask.at(x, k),
            ).filter(|b: bool| b).len() by {
                lemma_row_count_counts_set_pixels(*mask, k, width as int);
            }
        }
        y = y + 1;
    }
    rows
}

/// The number of set pixels in each column of the mask, left to right,
/// capped at a third of the mask's height.
pub fn clamped_column_counts(mask: &Mask) -> (cols: Vec<u32>)
    ensures
        cols.len() == mask.width(),
        forall|x: int|
            0 <= x < cols.len() ==> #[trigger] cols[x] == if column_count(
                *mask,
                x,
                mask.height() as int,
            ) < mask.height() / 3 {
                column_count(*mask, x, mask.height() as int)
            } else {
                (mask.height() / 3) as nat
            },
        forall|x: int|
            0 <= x < cols.len() ==> {
                let set_in_column = Seq::new(mask.height() as nat, |y: int| mask.at(x, y)).filter(
                    |b: bool| b,
                ).len();
                #[trigger] cols[x] == if set_in_column < mask.height() / 3 {
                    set_in_column
                } else {
                    (mask.height() / 3) as nat
                }
            },
{
    let width = mask.width();
    let height = mask.height();
    let mut cols: Vec<u32> = Vec::new();
    let mut x: u32 = 0;
    while x < width
        invariant
            width == mask.width(),
            height == mask.height(),
            x <= width,
            cols.len() == x,
            forall|k: int|
                0 <= k < x ==> #[trigger] cols[k] == if column_count(*mask, k, height as int)
                    < height / 3 {
                    column_count(*mask, k, height as int)
                } else {
                    (height / 3) as nat
                },
        decreases width - x,
    {
        let mut count: u32 = 0;
        let mut y: u32 = 0;
        while y < height
            invariant
                width == mask.width(),
                height == mask.height(),
                x < width,
                y <= height,
                count == column_count(*mask, x as int, y as int),
            decreases height - y,
        {
            proof {
                lemma_column_count_bounded(*mask, x as int, y as int);
            }
            if mask.get(x, y) {
                count = count + 1;
            }
            y = y + 1;
        }
        let cap = height / 3;
        let clamped = if count < cap { count } else { cap };
        cols.push(clamped);
        x = x + 1;
    }
    proof {
        assert forall|k: int| 0 <= k < cols.len() implies #[trigger] cols[k] == if Seq::new(
            height as nat,
            |y: int| mask.at(k, y),
        ).filter(|b: bool| b).len() < height / 3 {
            Seq::new(height as nat, |y: int| mask.at(k, y)).filter(|b: bool| b).len()
        } else {
            (height / 3) as nat
        } by {
            lemma_column_count_counts_set_pixels(*mask, k, height as int);
        }
    }
    cols
}

/// Black.
pub open spec fn black() -> Color {
    rgb(0, 0, 0)
}

/// White.
pub open spec fn white() -> Color {
    rgb(255, 255, 255)
}

/// The two-tone image of a mask: set pixels black, the others white.
pub fn binarize(mask: &Mask) -> (g: PixelGrid)
    ensures
        g.width() == mask.width(),
        g.height() == mask.height(),
        forall|x: int, y: int|
            0 <= x < g.width() && 0 <= y < g.height() ==> #[trigger] g.at(x, y) == if mask.at(
                x,
                y,
            ) {
                black()
            } else {
                white()
            },
        forall|x: int, y: int|
            0 <= x < g.width() && 0 <= y < g.height() ==> #[trigger] g.at(x, y) == if mask.at(
                x,
                y,
            ) {
                Color { r: 0, g: 0, b: 0 }
            } else {
                Color { r: 255, g: 255, b: 255 }
            },
{
    let width = mask.width();
    let height = mask.height();
    let mut rows: Vec<Vec<Color>> = Vec::new();
    let mut y: u32 = 0;
    while y < height
        invariant
            width == mask.width(),
            height == mask.height(),
            y <= height,
            rows.len() == y,
            forall|k: int| 0 <= k < y ==> (#[trigger] rows@[k])@.len() == width,
            forall|i: int, k: int|
                0 <= i < width && 0 <= k < y ==> #[trigger] rows@[k]@[i] == if mask.at(i, k) {
                    black()
                } else {
                    white()
                },
        decreases height - y,
    {
        let mut row: Vec<Color> = Vec::new();
        let mut x: u32 = 0;
        while x < width
            invariant
                width == mask.width(),
                height == mask.height(),
                y < height,
                x <= width,
                row.len() == x,
                forall|i: int| 0 <= i < x ==> #[trigger] row@[i] == if mask.at(i, y as int) {
                    black()
                } else {
                    white()
                },
            decreases width - x,
        {
            if mask.get(x, y) {
                row.push(Color { r: 0, g: 0, b: 0 });
            } else {
                row.push(Color { r: 255, g: 255, b: 255 });
            }
            x = x + 1;
        }
        rows.push(row);
        y = y + 1;
    }
    proof {
        assert(has_shape(rows_view(rows@), width as int, height as int));
    }
    PixelGrid::from_rows(width, height, rows)
}

} // verus!
