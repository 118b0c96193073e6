//! Normalized correlation with summed-area tables.
//!
//! A summed-area table holds in each cell the sum of all cells above and to
//! the left of it, itself included. From four of its cells comes the sum of
//! any rectangle, and from those sums the mean and the variance of the
//! frame cells under a template at every offset.

use vstd::prelude::*;
use crate::error::MatchError;
use crate::grid::{Grid, array_dim, array_get, array_clone, set_cell, image_of};
use crate::image::ImageView;
use crate::matching::{area, total, energy, pearson, template_energy, correlation, score_rows,
    pearson_score, raw_scores, score_at, template_sums};
use crate::sample::{Sample, value, fits, sample_of, sample_sub, sample_mul, narrow, sub_samples,
    mul_samples};
use crate::search::Extremes;
use crate::window::{is_grid, Kernel, score};

verus! {

/// The sum of the first `i` cells of a row.
pub open spec fn row_prefix(row: Seq<Sample>, i: int) -> int
    decreases i,
{
    if i <= 0 {
        0
    } else {
        row_prefix(row, i - 1) + value(row[i - 1])
    }
}

/// The sum of the first `i` cells of each of the first `j` rows.
pub open spec fn area_sum(rows: Seq<Seq<Sample>>, i: int, j: int) -> int
    decreases j,
{
    if j <= 0 {
        0
    } else {
        area_sum(rows, i, j - 1) + row_prefix(rows[j - 1], i)
    }
}

/// Whether the summed-area table is defined in column `x` of row `y`: every
/// cell above and to the left is defined, and the sum up to each of them
/// fits a sample.
pub open spec fn prefix_ok(rows: Seq<Seq<Sample>>, x: int, y: int) -> bool {
    forall|i: int, j: int|
        0 <= i <= x && 0 <= j <= y ==> (#[trigger] rows[j][i]) is Some && fits(
            area_sum(rows, i + 1, j + 1),
        )
}

/// The cell in column `x` of row `y` of the summed-area table of `rows`.
pub open spec fn integral_cell(rows: Seq<Seq<Sample>>, x: int, y: int) -> Sample {
    if prefix_ok(rows, x, y) {
        Some(area_sum(rows, x + 1, y + 1) as i64)
    } else {
        None
    }
}

/// Whether `table` is the summed-area table of `rows`, a grid `width` wide.
pub open spec fn is_integral(table: Seq<Seq<Sample>>, rows: Seq<Seq<Sample>>, width: int) -> bool {
    &&& table.len() == rows.len()
    &&& is_grid(table, width)
    &&& forall|x: int, y: int|
        0 <= x < width && 0 <= y < rows.len() ==> #[trigger] table[y][x] == integral_cell(
            rows,
            x,
            y,
        )
}

/// No cells sum to zero.
pub proof fn lemma_area_sum_empty(rows: Seq<Seq<Sample>>, j: int)
    ensures
        area_sum(rows, 0, j) == 0,
    decreases j,
{
    if j > 0 {
        lemma_area_sum_empty(rows, j - 1);
    }
}

/// The inclusion-exclusion step of a summed-area table: the sum up to a
/// cell is the cell, plus the sum up to the cell above, plus the sum up to
/// the cell to the left, less the sum up to the cell diagonally above.
pub proof fn lemma_area_sum_step(rows: Seq<Seq<Sample>>, x: int, y: int)
    requires
        0 <= x,
        0 <= y,
    ensures
        area_sum(rows, x + 1, y + 1) == value(rows[y][x]) + area_sum(rows, x + 1, y) + area_sum(
            rows,
            x,
            y + 1,
        ) - area_sum(rows, x, y),
{
}

/// The cell that the inclusion-exclusion step gives from a cell of the
/// source and its three neighbours in the table. A neighbour outside the
/// table counts as zero.
pub open spec fn step_cell(cur: Sample, up: Sample, left: Sample, diagonal: Sample) -> Sample {
    if cur is Some && up is Some && left is Some && diagonal is Some {
        sample_of(value(cur) + value(up) + value(left) - value(diagonal))
    } else {
        None
    }
}

/// A cell of the table, or zero outside it.
pub open spec fn integral_or_zero(rows: Seq<Seq<Sample>>, x: int, y: int) -> Sample {
    if x < 0 || y < 0 {
        Some(0i64)
    } else {
        integral_cell(rows, x, y)
    }
}

/// The inclusion-exclusion step yields the next cell of the table.
pub proof fn lemma_integral_step(rows: Seq<Seq<Sample>>, x: int, y: int)
    requires
        0 <= x,
        0 <= y,
    ensures
        integral_cell(rows, x, y) == step_cell(
            rows[y][x],
            integral_or_zero(rows, x, y - 1),
            integral_or_zero(rows, x - 1, y),
            integral_or_zero(rows, x - 1, y - 1),
        ),
{
    lemma_area_sum_step(rows, x, y);
    lemma_area_sum_empty(rows, y + 1);
    lemma_area_sum_empty(rows, y);
    let up = integral_or_zero(rows, x, y - 1);
    let left = integral_or_zero(rows, x - 1, y);
    let diagonal = integral_or_zero(rows, x - 1, y - 1);
    if prefix_ok(rows, x, y) {
        assert(rows[y][x] is Some && fits(area_sum(rows, x + 1, y + 1)));
        if y > 0 {
            assert(prefix_ok(rows, x, y - 1));
        }
        if x > 0 {
            assert(prefix_ok(rows, x - 1, y));
        }
        if x > 0 && y > 0 {
            assert(prefix_ok(rows, x - 1, y - 1));
        }
    } else if rows[y][x] is Some && up is Some && left is Some && diagonal is Some {
        assert(!fits(area_sum(rows, x + 1, y + 1))) by {
            if fits(area_sum(rows, x + 1, y + 1)) {
                assert forall|i: int, j: int| 0 <= i <= x && 0 <= j <= y implies (
                #[trigger] rows[j][i]) is Some && fits(area_sum(rows, i + 1, j + 1)) by {
                    if j < y {
                        assert(prefix_ok(rows, x, y - 1));
                    } else if i < x {
                        assert(prefix_ok(rows, x - 1, y));
                    }
                }
                assert(false);
            }
        }
    }
}

/// Builds the summed-area table of a grid: each cell holds the sum of the
/// cells above and to the left of it, itself included. A cell is undefined
/// where one of those cells is, or where the sum up to one of them does not
/// fit a sample.
pub fn integral_arr2(mat: &Grid) -> (res: Grid)
    ensures
        is_integral(res.rows(), mat.rows(), mat.width() as int),
        res.width() == mat.width(),
{
    let (y_len, x_len) = array_dim(mat);
    let mut res = array_clone(mat);
    let ghost rows = mat.rows();
    let mut cur_y: usize = 0;
    while cur_y < y_len
        invariant
            cur_y <= y_len,
            rows == mat.rows(),
            y_len == rows.len(),
            x_len == mat.width(),
            is_grid(rows, x_len as int),
            res.rows().len() == y_len,
            res.width() == x_len,
            is_grid(res.rows(), x_len as int),
            forall|x: int, y: int|
                0 <= x < x_len && 0 <= y < cur_y ==> #[trigger] res.rows()[y][x] == integral_cell(
                    rows,
                    x,
                    y,
                ),
            forall|x: int, y: int|
                0 <= x < x_len && cur_y <= y < y_len ==> #[trigger] res.rows()[y][x] == rows[y][x],
        decreases y_len - cur_y,
    {
        let mut cur_x: usize = 0;
        while cur_x < x_len
            invariant
                cur_x <= x_len,
                cur_y < y_len,
                rows == mat.rows(),
                y_len == rows.len(),
                x_len == mat.width(),
                is_grid(rows, x_len as int),
                res.rows().len() == y_len,
                res.width() == x_len,
                is_grid(res.rows(), x_len as int),
                forall|x: int, y: int|
                    0 <= x < x_len && 0 <= y < cur_y ==> #[trigger] res.rows()[y][x]
                        == integral_cell(rows, x, y),
                forall|x: int|
                    0 <= x < cur_x ==> #[trigger] res.rows()[cur_y as int][x] == integral_cell(
                        rows,
                        x,
                        cur_y as int,
                    ),
                forall|x: int|
                    cur_x <= x < x_len ==> #[trigger] res.rows()[cur_y as int][x]
                        == rows[cur_y as int][x],
                forall|x: int, y: int|
                    0 <= x < x_len && cur_y < y < y_len ==> #[trigger] res.rows()[y][x]
                        == rows[y][x],
            decreases x_len - cur_x,
        {
            let cur = array_get(&res, cur_y, cur_x);
            let up = if cur_y > 0 {
                array_get(&res, cur_y - 1, cur_x)
            } else {
                Some(0)
            };
            let left = if cur_x > 0 {
                array_get(&res, cur_y, cur_x - 1)
            } else {
                Some(0)
            };
            let diagonal = if cur_x > 0 && cur_y > 0 {
                array_get(&res, cur_y - 1, cur_x - 1)
            } else {
                Some(0)
            };
            proof {
                lemma_integral_step(rows, cur_x as int, cur_y as int);
            }
            let v = match (cur, up, left, diagonal) {
                (Some(c), Some(u), Some(l), Some(d)) => narrow(
                    c as i128 + u as i128 + l as i128 - d as i128,
                ),
                _ => None,
            };
            set_cell(&mut res, cur_y, cur_x, v);
            cur_x = cur_x + 1;
        }
        cur_y = cur_y + 1;
    }
    res
}

/// A cell of a table, or zero for a column or a row before the first.
pub open spec fn table_corner(table: Seq<Seq<Sample>>, x: int, y: int) -> Sample {
    if x < 0 || y < 0 {
        Some(0i64)
    } else {
        table[y][x]
    }
}

/// The sum that a summed-area table gives for the rectangle `w` wide and
/// `h` high with its top left cell at (`x`, `y`): the table's cell at the
/// bottom right corner, plus the one diagonally before the top left, less
/// the one left of the bottom left and the one above the top right. It is
/// undefined where one of the four cells is. An empty rectangle sums to 0.
pub open spec fn subsum_wide(table: Seq<Seq<Sample>>, x: int, y: int, w: int, h: int) -> Option<
    int,
> {
    if w <= 0 || h <= 0 {
        Some(0int)
    } else {
        let bottom_right = table_corner(table, x + w - 1, y + h - 1);
        let top_left = table_corner(table, x - 1, y - 1);
        let bottom_left = table_corner(table, x - 1, y + h - 1);
        let top_right = table_corner(table, x + w - 1, y - 1);
        if bottom_right is Some && top_left is Some && bottom_left is Some && top_right is Some {
            Some(value(bottom_right) + value(top_left) - value(bottom_left) - value(top_right))
        } else {
            None
        }
    }
}

/// `subsum_wide` as a sample: undefined also where the sum does not fit.
pub open spec fn subsum(table: Seq<Seq<Sample>>, x: int, y: int, w: int, h: int) -> Sample {
    match subsum_wide(table, x, y, w, h) {
        Some(v) => sample_of(v),
        None => None,
    }
}

/// Whether the rectangle lies inside a grid `cols` wide and `rows` high.
pub open spec fn rect_inside(x: int, y: int, w: int, h: int, cols: int, rows: int) -> bool {
    x + w <= cols && y + h <= rows
}

/// The sum of a rectangle from a summed-area table, in double width: it is
/// defined wherever the four cells of the table are. A rectangle that
/// reaches past the table is refused.
pub fn subsum_from_integral_arrf64(
    integral_mat: &Grid,
    x: usize,
    y: usize,
    width: usize,
    height: usize,
) -> (r: Result<Option<i128>, MatchError>)
    ensures
        r is Ok <==> rect_inside(
            x as int,
            y as int,
            width as int,
            height as int,
            integral_mat.width() as int,
            integral_mat.height() as int,
        ),
        r is Err ==> r->Err_0 == MatchError::OutOfBounds,
        r is Ok ==> match subsum_wide(
            integral_mat.rows(),
            x as int,
            y as int,
            width as int,
            height as int,
        ) {
            Some(v) => r->Ok_0 == Some(v as i128) && v == v as i128,
            None => r->Ok_0 is None,
        },
{
    let (rows, cols) = array_dim(integral_mat);
    if x > cols || width > cols - x || y > rows || height > rows - y {
        return Err(MatchError::OutOfBounds);
    }
    if width == 0 || height == 0 {
        return Ok(Some(0));
    }
    let right: usize = x + width - 1;
    let bottom: usize = y + height - 1;
    let bottom_right = array_get(integral_mat, bottom, right);
    let top_left = if x > 0 && y > 0 {
        array_get(integral_mat, y - 1, x - 1)
    } else {
        Some(0)
    };
    let bottom_left = if x > 0 {
        array_get(integral_mat, bottom, x - 1)
    } else {
        Some(0)
    };
    let top_right = if y > 0 {
        array_get(integral_mat, y - 1, right)
    } else {
        Some(0)
    };
    match (bottom_right, top_left, bottom_left, top_right) {
        (Some(br), Some(tl), Some(bl), Some(tr)) => Ok(
            Some(br as i128 + tl as i128 - bl as i128 - tr as i128),
        ),
        _ => Ok(None),
    }
}

/// The sum of a rectangle from a summed-area table, as a sample: it is
/// undefined where one of the four cells of the table is, or where the sum
/// does not fit. A rectangle that reaches past the table is refused.
pub fn subsum_from_integral_arrf32(
    integral_mat: &Grid,
    x: usize,
    y: usize,
    width: usize,
    height: usize,
) -> (r: Result<Sample, MatchError>)
    ensures
        r is Ok <==> rect_inside(
            x as int,
            y as int,
            width as int,
            height as int,
            integral_mat.width() as int,
            integral_mat.height() as int,
        ),
        r is Err ==> r->Err_0 == MatchError::OutOfBounds,
        r is Ok ==> r->Ok_0 == subsum(
            integral_mat.rows(),
            x as int,
            y as int,
            width as int,
            height as int,
        ),
{
    match subsum_from_integral_arrf64(integral_mat, x, y, width, height) {
        Ok(Some(v)) => Ok(narrow(v)),
        Ok(None) => Ok(None),
        Err(e) => Err(e),
    }
}

/// The sum of the `w` cells of a row from column `x` on.
pub open spec fn row_span(row: Seq<Sample>, x: int, w: int) -> int
    decreases w,
{
    if w <= 0 {
        0
    } else {
        row_span(row, x, w - 1) + value(row[x + w - 1])
    }
}

/// The sum of the cells of the rectangle `w` wide and `h` high with its
/// top left cell at (`x`, `y`).
pub open spec fn rect_sum(rows: Seq<Seq<Sample>>, x: int, y: int, w: int, h: int) -> int
    decreases h,
{
    if h <= 0 {
        0
    } else {
        rect_sum(rows, x, y, w, h - 1) + row_span(rows[y + h - 1], x, w)
    }
}

/// A span of a row is the difference of two of its prefixes.
pub proof fn lemma_row_span(row: Seq<Sample>, x: int, w: int)
    requires
        0 <= x,
        0 <= w,
    ensures
        row_span(row, x, w) == row_prefix(row, x + w) - row_prefix(row, x),
    decreases w,
{
    if w > 0 {
        lemma_row_span(row, x, w - 1);
    }
}

/// The sum of a rectangle by inclusion and exclusion of four sums that
/// start at the top left cell of the grid.
pub proof fn lemma_rect_sum(rows: Seq<Seq<Sample>>, x: int, y: int, w: int, h: int)
    requires
        0 <= x,
        0 <= y,
        0 <= w,
        0 <= h,
    ensures
        rect_sum(rows, x, y, w, h) == area_sum(rows, x + w, y + h) - area_sum(rows, x, y + h)
            - area_sum(rows, x + w, y) + area_sum(rows, x, y),
    decreases h,
{
    if h > 0 {
        lemma_rect_sum(rows, x, y, w, h - 1);
        lemma_row_span(rows[y + h - 1], x, w);
    }
}

/// A rectangle sum read off a summed-area table is the sum of the cells of
/// the rectangle, wherever the table is defined at the rectangle's bottom
/// right corner.
pub proof fn lemma_subsum_is_rect_sum(
    table: Seq<Seq<Sample>>,
    rows: Seq<Seq<Sample>>,
    width: int,
    x: int,
    y: int,
    w: int,
    h: int,
)
    requires
        is_integral(table, rows, width),
        0 <= x,
        0 <= y,
        0 < w,
        0 < h,
        x + w <= width,
        y + h <= rows.len(),
        prefix_ok(rows, x + w - 1, y + h - 1),
    ensures
        subsum_wide(table, x, y, w, h) == Some(rect_sum(rows, x, y, w, h)),
{
    lemma_rect_sum(rows, x, y, w, h);
    lemma_area_sum_empty(rows, y + h);
    lemma_area_sum_empty(rows, y);
    let r = x + w - 1;
    let b = y + h - 1;
    assert(table[b][r] == integral_cell(rows, r, b));
    if x > 0 {
        assert(prefix_ok(rows, x - 1, b));
        assert(table[b][x - 1] == integral_cell(rows, x - 1, b));
    }
    if y > 0 {
        assert(prefix_ok(rows, r, y - 1));
        assert(table[y - 1][r] == integral_cell(rows, r, y - 1));
    }
    if x > 0 && y > 0 {
        assert(prefix_ok(rows, x - 1, y - 1));
        assert(table[y - 1][x - 1] == integral_cell(rows, x - 1, y - 1));
    }
}

/// Whether `rows` is a grid `width` wide whose cells all hold 1.
pub open spec fn all_ones(rows: Seq<Seq<Sample>>, width: int) -> bool {
    &&& is_grid(rows, width)
    &&& forall|x: int, y: int|
        0 <= x < width && 0 <= y < rows.len() ==> #[trigger] rows[y][x] == Some(1i64)
}

/// The first `i` cells of a row of ones sum to `i`.
pub proof fn lemma_ones_row_prefix(row: Seq<Sample>, i: int)
    requires
        0 <= i <= row.len(),
        forall|k: int| 0 <= k < i ==> #[trigger] row[k] == Some(1i64),
    ensures
        row_prefix(row, i) == i,
    decreases i,
{
    if i > 0 {
        lemma_ones_row_prefix(row, i - 1);
    }
}

/// In a grid of ones the first `i` cells of the first `j` rows sum to
/// `i * j`.
pub proof fn lemma_ones_area_sum(rows: Seq<Seq<Sample>>, width: int, i: int, j: int)
    requires
        all_ones(rows, width),
        0 <= i <= width,
        0 <= j <= rows.len(),
    ensures
        area_sum(rows, i, j) == i * j,
    decreases j,
{
    if j > 0 {
        lemma_ones_area_sum(rows, width, i, j - 1);
        let row = rows[j - 1];
        assert forall|k: int| 0 <= k < i implies #[trigger] row[k] == Some(1i64) by {
            assert(rows[j - 1][k] == Some(1i64));
        }
        lemma_ones_row_prefix(row, i);
        assert(i * j == i * (j - 1) + i) by (nonlinear_arith);
    } else {
        assert(i * j == 0) by (nonlinear_arith)
            requires
                j == 0,
        ;
    }
}

/// The summed-area table of a grid of ones holds `(x + 1) * (y + 1)` in
/// column `x` of row `y`: as a sample, so the cell is undefined only where
/// that number is no sample.
pub proof fn lemma_integral_of_ones(rows: Seq<Seq<Sample>>, width: int, x: int, y: int)
    requires
        all_ones(rows, width),
        0 <= x < width,
        0 <= y < rows.len(),
    ensures
        integral_cell(rows, x, y) == sample_of((x + 1) * (y + 1)),
{
    lemma_ones_area_sum(rows, width, x + 1, y + 1);
    if fits((x + 1) * (y + 1)) {
        assert forall|i: int, j: int| 0 <= i <= x && 0 <= j <= y implies (#[trigger] rows[j][i])
            is Some && fits(area_sum(rows, i + 1, j + 1)) by {
            lemma_ones_area_sum(rows, width, i + 1, j + 1);
            assert(0 <= (i + 1) * (j + 1) <= (x + 1) * (y + 1)) by (nonlinear_arith)
                requires
                    0 <= i <= x,
                    0 <= j <= y,
            ;
            assert(rows[j][i] == Some(1i64));
        }
    } else {
        if prefix_ok(rows, x, y) {
            assert(rows[y][x] is Some && fits(area_sum(rows, x + 1, y + 1)));
        }
    }
}

/// Read off the summed-area table of a grid of ones, the sum of any
/// rectangle inside the grid is its area. The one exception is a rectangle
/// with cells whose far corner lies where the table is undefined, because
/// `(x + w) * (y + h)` is no sample: its sum is undefined. No grid with as
/// many cells as a sample can count has such a corner.
pub proof fn lemma_subsum_of_ones(
    table: Seq<Seq<Sample>>,
    rows: Seq<Seq<Sample>>,
    width: int,
    x: int,
    y: int,
    w: int,
    h: int,
)
    requires
        all_ones(rows, width),
        is_integral(table, rows, width),
        0 <= x,
        0 <= y,
        0 <= w,
        0 <= h,
        x + w <= width,
        y + h <= rows.len(),
    ensures
        subsum(table, x, y, w, h) == (if w == 0 || h == 0 || fits((x + w) * (y + h)) {
            sample_of(w * h)
        } else {
            None
        }),
        fits((x + w) * (y + h)) ==> subsum(table, x, y, w, h) == Some((w * h) as i64),
{
    assert(0 <= w * h <= (x + w) * (y + h)) by (nonlinear_arith)
        requires
            0 <= x,
            0 <= y,
            0 <= w,
            0 <= h,
    ;
    if w > 0 && h > 0 {
        lemma_integral_of_ones(rows, width, x + w - 1, y + h - 1);
        assert(table[y + h - 1][x + w - 1] == integral_cell(rows, x + w - 1, y + h - 1));
        if fits((x + w) * (y + h)) {
            lemma_subsum_is_rect_sum(table, rows, width, x, y, w, h);
            lemma_rect_sum(rows, x, y, w, h);
            lemma_ones_area_sum(rows, width, x + w, y + h);
            lemma_ones_area_sum(rows, width, x, y + h);
            lemma_ones_area_sum(rows, width, x + w, y);
            lemma_ones_area_sum(rows, width, x, y);
            assert((x + w) * (y + h) - x * (y + h) - (x + w) * y + x * y == w * h)
                by (nonlinear_arith);
        }
    } else {
        assert(w * h == 0) by (nonlinear_arith)
            requires
                w == 0 || h == 0,
        ;
    }
}

/// The summed-area table of a grid `width` wide, as rows.
pub open spec fn integral_rows(rows: Seq<Seq<Sample>>, width: int) -> Seq<Seq<Sample>> {
    Seq::new(rows.len(), |y: int| Seq::new(width as nat, |x: int| integral_cell(rows, x, y)))
}

/// A grid `width` wide with every cell squared, as rows.
pub open spec fn square_rows(rows: Seq<Seq<Sample>>, width: int) -> Seq<Seq<Sample>> {
    Seq::new(
        rows.len(),
        |y: int| Seq::new(width as nat, |x: int| sample_mul(rows[y][x], rows[y][x])),
    )
}

/// The normalized score at offset (`x`, `y`) from the cross-correlation
/// `raw` at that offset: the sums of the frame cells under the kernel and
/// of their squares come from summed-area tables, and the score is the
/// correlation coefficient of kernel and cells in fixed point.
pub open spec fn normalized_cell(
    rows: Seq<Seq<Sample>>,
    width: int,
    kernel: ImageView,
    raw: Sample,
    x: int,
    y: int,
) -> Sample {
    let n = area(kernel);
    let w = kernel.width as int;
    let h = kernel.height as int;
    let value_sum = subsum(integral_rows(rows, width), x, y, w, h);
    let value_square_sum = subsum(integral_rows(square_rows(rows, width), width), x, y, w, h);
    pearson(
        sample_sub(sample_mul(raw, n), sample_mul(value_sum, total(kernel))),
        energy(n, value_sum, value_square_sum),
        template_energy(kernel),
    )
}

/// A grid with every cell of `mat` squared.
pub fn squared(mat: &Grid) -> (res: Grid)
    ensures
        res.rows() == square_rows(mat.rows(), mat.width() as int),
        res.width() == mat.width(),
        is_grid(res.rows(), mat.width() as int),
{
    let (y_len, x_len) = array_dim(mat);
    let mut res = array_clone(mat);
    let ghost rows = mat.rows();
    let mut cur_y: usize = 0;
    while cur_y < y_len
        invariant
            cur_y <= y_len,
            rows == mat.rows(),
            y_len == rows.len(),
            x_len == mat.width(),
            is_grid(rows, x_len as int),
            res.rows().len() == y_len,
            res.width() == x_len,
            is_grid(res.rows(), x_len as int),
            forall|x: int, y: int|
                0 <= x < x_len && 0 <= y < cur_y ==> #[trigger] res.rows()[y][x] == sample_mul(
                    rows[y][x],
                    rows[y][x],
                ),
            forall|x: int, y: int|
                0 <= x < x_len && cur_y <= y < y_len ==> #[trigger] res.rows()[y][x] == rows[y][x],
        decreases y_len - cur_y,
    {
        let mut cur_x: usize = 0;
        while cur_x < x_len
            invariant
                cur_x <= x_len,
                cur_y < y_len,
                rows == mat.rows(),
                y_len == rows.len(),
                x_len == mat.width(),
                is_grid(rows, x_len as int),
                res.rows().len() == y_len,
                res.width() == x_len,
                is_grid(res.rows(), x_len as int),
                forall|x: int, y: int|
                    0 <= x < x_len && 0 <= y < cur_y ==> #[trigger] res.rows()[y][x]
                        == sample_mul(rows[y][x], rows[y][x]),
                forall|x: int|
                    0 <= x < cur_x ==> #[trigger] res.rows()[cur_y as int][x] == sample_mul(
                        rows[cur_y as int][x],
                        rows[cur_y as int][x],
                    ),
                forall|x: int|
                    cur_x <= x < x_len ==> #[trigger] res.rows()[cur_y as int][x]
                        == rows[cur_y as int][x],
                forall|x: int, y: int|
                    0 <= x < x_len && cur_y < y < y_len ==> #[trigger] res.rows()[y][x]
                        == rows[y][x],
            decreases x_len - cur_x,
        {
            let cur = array_get(&res, cur_y, cur_x);
            set_cell(&mut res, cur_y, cur_x, mul_samples(cur, cur));
            cur_x = cur_x + 1;
        }
        cur_y = cur_y + 1;
    }
    proof {
        let want = square_rows(rows, x_len as int);
        let got = res.rows();
        assert forall|y: int| 0 <= y < got.len() implies #[trigger] got[y] =~= want[y] by {
            assert(got[y].len() == x_len);
        }
        assert(got =~= want);
    }
    res
}

/// The sum of the squares of all cells of a grid. It is undefined where a
/// cell is, or where the sum exceeds `i64::MAX`. A grid with more than
/// `u32::MAX` rows or columns is refused.
pub fn square_sum_arr2f32(mat: &Grid) -> (r: Result<Sample, MatchError>)
    ensures
        r is Ok <==> (mat.width() <= u32::MAX && mat.height() <= u32::MAX),
        r is Err ==> r->Err_0 == MatchError::OutOfBounds,
        r is Ok ==> r->Ok_0 == score(
            mat.rows(),
            mat.rows(),
            Kernel::Product,
            0,
            0,
            mat.width() as int,
            mat.height() as int,
        ),
{
    match mat.to_image() {
        Ok(image) => Ok(score_at(&image, &image, Kernel::Product, 0, 0)),
        Err(e) => Err(e),
    }
}

/// Finds the smallest and the largest value of a grid and the first cell,
/// row by row, that holds each. A grid with more than `u32::MAX` rows or
/// columns is refused.
pub fn find_extremes(input: &Grid) -> (r: Result<Extremes, MatchError>)
    ensures
        r is Ok <==> (input.width() <= u32::MAX && input.height() <= u32::MAX),
        r is Err ==> r->Err_0 == MatchError::OutOfBounds,
        r is Ok ==> crate::search::is_extremes(
            r->Ok_0,
            image_of(input.rows(), input.width() as int),
        ),
{
    match input.to_image() {
        Ok(image) => Ok(crate::search::find_extremes(&image)),
        Err(e) => Err(e),
    }
}

/// Why a grid of cross-correlations cannot be normalized, if it cannot: a
/// kernel with more than `u32::MAX` rows or columns is out of bounds; a
/// kernel without cells or larger than the image, and a grid that has not
/// one cell for each offset of the kernel, are mismatches.
pub open spec fn normalize_error(raw: Grid, image: Grid, kernel: Grid) -> Option<MatchError> {
    if kernel.width() > u32::MAX || kernel.height() > u32::MAX {
        Some(MatchError::OutOfBounds)
    } else if !(0 < kernel.width() <= image.width() && 0 < kernel.height() <= image.height()) {
        Some(MatchError::DimensionMismatch)
    } else if raw.width() != image.width() - kernel.width() + 1 || raw.height() != image.height()
        - kernel.height() + 1 {
        Some(MatchError::DimensionMismatch)
    } else {
        None
    }
}

/// Whether `out` is the grid `raw` with each cross-correlation normalized.
pub open spec fn is_normalized(out: Grid, raw: Grid, image: Grid, kernel: Grid) -> bool {
    &&& out.width() == raw.width()
    &&& out.height() == raw.height()
    &&& is_grid(out.rows(), raw.width() as int)
    &&& forall|x: int, y: int|
        0 <= x < raw.width() && 0 <= y < raw.height() ==> #[trigger] out.rows()[y][x]
            == normalized_cell(
            image.rows(),
            image.width() as int,
            image_of(kernel.rows(), kernel.width() as int),
            raw.rows()[y][x],
            x,
            y,
        )
}

/// Normalizes a grid of cross-correlations of `kernel` over `image`, cell
/// by cell: with the sum and the sum of squares of the image cells under
/// the kernel, read off two summed-area tables, each cross-correlation
/// becomes the correlation coefficient of the kernel and those cells.
pub fn normalize_correlation(raw: Grid, image: &Grid, kernel: &Grid) -> (r: Result<
    Grid,
    MatchError,
>)
    ensures
        match normalize_error(raw, *image, *kernel) {
            Some(e) => r is Err && r->Err_0 == e,
            None => r is Ok && is_normalized(r->Ok_0, raw, *image, *kernel),
        },
{
    let ker = match kernel.to_image() {
        Ok(k) => k,
        Err(e) => {
            return Err(e);
        },
    };
    let (image_h, image_w) = array_dim(image);
    let (kernel_h, kernel_w) = array_dim(kernel);
    if kernel_w == 0 || kernel_h == 0 || kernel_w > image_w || kernel_h > image_h {
        return Err(MatchError::DimensionMismatch);
    }
    let (y_len, x_len) = array_dim(&raw);
    if x_len == 0 || y_len == 0 || x_len - 1 != image_w - kernel_w || y_len - 1 != image_h
        - kernel_h {
        return Err(MatchError::DimensionMismatch);
    }
    let table = integral_arr2(image);
    let squares_grid = squared(image);
    let table_sq = integral_arr2(&squares_grid);
    let (n, kernel_sum, e_t) = template_sums(&ker);
    let ghost rows = image.rows();
    let ghost w = image_w as int;
    let ghost k = ker@;
    let ghost source = raw.rows();
    proof {
        let t = table.rows();
        let want = integral_rows(rows, w);
        assert forall|y: int| 0 <= y < t.len() implies #[trigger] t[y] =~= want[y] by {
            assert(t[y].len() == w);
        }
        assert(t =~= want);
        let t2 = table_sq.rows();
        let want2 = integral_rows(square_rows(rows, w), w);
        assert forall|y: int| 0 <= y < t2.len() implies #[trigger] t2[y] =~= want2[y] by {
            assert(t2[y].len() == w);
        }
        assert(t2 =~= want2);
    }
    let mut res = raw;
    let mut cur_y: usize = 0;
    while cur_y < y_len
        invariant
            cur_y <= y_len,
            x_len - 1 == image_w - kernel_w,
            y_len - 1 == image_h - kernel_h,
            0 < kernel_w <= image_w,
            0 < kernel_h <= image_h,
            table.rows() == integral_rows(rows, w),
            table_sq.rows() == integral_rows(square_rows(rows, w), w),
            table.width() == image_w,
            table_sq.width() == image_w,
            table.height() == image_h,
            table_sq.height() == image_h,
            w == image_w,
            k == ker@,
            k.width == kernel_w,
            k.height == kernel_h,
            n == area(k),
            kernel_sum == total(k),
            e_t == template_energy(k),
            res.rows().len() == y_len,
            res.width() == x_len,
            is_grid(res.rows(), x_len as int),
            is_grid(source, x_len as int),
            source.len() == y_len,
            forall|x: int, y: int|
                0 <= x < x_len && 0 <= y < cur_y ==> #[trigger] res.rows()[y][x] == normalized_cell(
                    rows,
                    w,
                    k,
                    source[y][x],
                    x,
                    y,
                ),
            forall|x: int, y: int|
                0 <= x < x_len && cur_y <= y < y_len ==> #[trigger] res.rows()[y][x]
                    == source[y][x],
        decreases y_len - cur_y,
    {
        let mut cur_x: usize = 0;
        while cur_x < x_len
            invariant
                cur_x <= x_len,
                cur_y < y_len,
                x_len - 1 == image_w - kernel_w,
                y_len - 1 == image_h - kernel_h,
                0 < kernel_w <= image_w,
                0 < kernel_h <= image_h,
                table.rows() == integral_rows(rows, w),
                table_sq.rows() == integral_rows(square_rows(rows, w), w),
                table.width() == image_w,
                table_sq.width() == image_w,
                table.height() == image_h,
                table_sq.height() == image_h,
                w == image_w,
                k == ker@,
                k.width == kernel_w,
                k.height == kernel_h,
                n == area(k),
                kernel_sum == total(k),
                e_t == template_energy(k),
                res.rows().len() == y_len,
                res.width() == x_len,
                is_grid(res.rows(), x_len as int),
                is_grid(source, x_len as int),
                source.len() == y_len,
                forall|x: int, y: int|
                    0 <= x < x_len && 0 <= y < cur_y ==> #[trigger] res.rows()[y][x]
                        == normalized_cell(rows, w, k, source[y][x], x, y),
                forall|x: int|
                    0 <= x < cur_x ==> #[trigger] res.rows()[cur_y as int][x] == normalized_cell(
                        rows,
                        w,
                        k,
                        source[cur_y as int][x],
                        x,
                        cur_y as int,
                    ),
                forall|x: int|
                    cur_x <= x < x_len ==> #[trigger] res.rows()[cur_y as int][x]
                        == source[cur_y as int][x],
                forall|x: int, y: int|
                    0 <= x < x_len && cur_y < y < y_len ==> #[trigger] res.rows()[y][x]
                        == source[y][x],
            decreases x_len - cur_x,
        {
            let v = array_get(&res, cur_y, cur_x);
            let value_sum = subsum_from_integral_arrf32(
                &table,
                cur_x,
                cur_y,
                kernel_w,
                kernel_h,
            ).unwrap();
            let value_sq = subsum_from_integral_arrf32(
                &table_sq,
                cur_x,
                cur_y,
                kernel_w,
                kernel_h,
            ).unwrap();
            let numerator = sub_samples(mul_samples(v, n), mul_samples(value_sum, kernel_sum));
            let e_i = sub_samples(mul_samples(value_sq, n), mul_samples(value_sum, value_sum));
            let cell = pearson_score(numerator, e_i, e_t);
            set_cell(&mut res, cur_y, cur_x, cell);
            cur_x = cur_x + 1;
        }
        cur_y = cur_y + 1;
    }
    Ok(res)
}

/// Why a kernel cannot be matched over an image, if it cannot: an image or
/// a kernel with more than `u32::MAX` rows or columns is out of bounds, and
/// so is a grid of scores with more than `isize::MAX`; a kernel without
/// cells or larger than the image is a mismatch.
pub open spec fn match_error(image: Grid, kernel: Grid) -> Option<MatchError> {
    if image.width() > u32::MAX || image.height() > u32::MAX || kernel.width() > u32::MAX
        || kernel.height() > u32::MAX {
        Some(MatchError::OutOfBounds)
    } else if !(0 < kernel.width() <= image.width() && 0 < kernel.height() <= image.height()) {
        Some(MatchError::DimensionMismatch)
    } else if image.width() - kernel.width() + 1 > isize::MAX || image.height() - kernel.height()
        + 1 > isize::MAX {
        Some(MatchError::OutOfBounds)
    } else {
        None
    }
}

/// Whether `out` is the grid of normalized scores of `kernel` over `image`:
/// one cell for each offset at which the kernel lies inside the image, and
/// in it the normalized cross-correlation at that offset.
pub open spec fn is_match_grid(out: Grid, image: Grid, kernel: Grid) -> bool {
    &&& out.width() == image.width() - kernel.width() + 1
    &&& out.height() == image.height() - kernel.height() + 1
    &&& is_grid(out.rows(), out.width() as int)
    &&& forall|x: int, y: int|
        0 <= x < out.width() && 0 <= y < out.height() ==> #[trigger] out.rows()[y][x]
            == normalized_cell(
            image.rows(),
            image.width() as int,
            image_of(kernel.rows(), kernel.width() as int),
            correlation(
                image_of(image.rows(), image.width() as int),
                image_of(kernel.rows(), kernel.width() as int),
                x,
                y,
            ),
            x,
            y,
        )
}

/// Slides a kernel over an image and scores each offset with the
/// normalized cross-correlation: the cross-correlation of image and kernel,
/// normalized with summed-area tables of the image and of its squares.
pub fn match_template(image: &Grid, kernel: &Grid) -> (r: Result<Grid, MatchError>)
    ensures
        match match_error(*image, *kernel) {
            Some(e) => r is Err && r->Err_0 == e,
            None => r is Ok && is_match_grid(r->Ok_0, *image, *kernel),
        },
{
    let img = match image.to_image() {
        Ok(i) => i,
        Err(e) => {
            return Err(e);
        },
    };
    let ker = match kernel.to_image() {
        Ok(k) => k,
        Err(e) => {
            return Err(e);
        },
    };
    let correlations = match raw_scores(&img, &ker, Kernel::Product) {
        Ok(c) => c,
        Err(e) => {
            return Err(e);
        },
    };
    let raw = match Grid::from_image(&correlations) {
        Ok(g) => g,
        Err(e) => {
            return Err(e);
        },
    };
    let ghost source = raw.rows();
    proof {
        assert forall|x: int, y: int| 0 <= x < raw.width() && 0 <= y < raw.height() implies
            #[trigger] source[y][x] == correlation(img@, ker@, x, y) by {
            assert(source[y][x] == score_rows(img@, ker@, Kernel::Product)[y][x]);
        }
    }
    normalize_correlation(raw, image, kernel)
}

} // verus!
