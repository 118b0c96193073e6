//! The two ways to the normalized score agree.
//!
//! One composes the score from cross-correlations, taking the sums of the
//! frame cells under the template from a cross-correlation with a mask of
//! ones. The other reads those sums off summed-area tables. Wherever both
//! give a score, it is the same score.

use vstd::prelude::*;
use crate::grid::{Grid, image_of, lemma_image_of_rows};
use crate::image::{ImageView, lemma_cell_index};
use crate::matching::{ccoeff_normed_cell, correlation, fits_inside, local_sum, method_rows, ones,
    squares};
use crate::method::MatchTemplateMethod;
use crate::sample::{Sample, value};
use crate::template_matching::{integral_cell, integral_rows, is_integral, is_match_grid,
    lemma_subsum_is_rect_sum, normalized_cell, prefix_ok, rect_sum, row_span, square_rows, subsum,
    subsum_wide};
use crate::window::{Kernel, is_grid, row_sum, window_sum, lemma_window_sum_within_mass};

verus! {

/// Against a mask of ones, the products of a row of the window sum to the
/// sum of the frame cells under it.
pub proof fn lemma_masked_row(
    frame: Seq<Seq<Sample>>,
    mask: Seq<Seq<Sample>>,
    x: int,
    y: int,
    j: int,
    i: int,
)
    requires
        0 <= i,
        forall|k: int| 0 <= k < i ==> #[trigger] mask[j][k] == Some(1i64),
    ensures
        row_sum(frame, mask, Kernel::Product, false, x, y, j, i) == row_span(frame[y + j], x, i),
    decreases i,
{
    if i > 0 {
        lemma_masked_row(frame, mask, x, y, j, i - 1);
        assert(mask[j][i - 1] == Some(1i64));
        let a = value(frame[y + j][x + i - 1]);
        assert(a * 1 == a) by (nonlinear_arith);
    }
}

/// Against a mask of ones, the products of the window sum to the sum of
/// the frame cells under it.
pub proof fn lemma_masked_window(
    frame: Seq<Seq<Sample>>,
    mask: Seq<Seq<Sample>>,
    x: int,
    y: int,
    w: int,
    j: int,
)
    requires
        0 <= w,
        0 <= j,
        forall|k: int, l: int| 0 <= k < w && 0 <= l < j ==> #[trigger] mask[l][k] == Some(1i64),
    ensures
        window_sum(frame, mask, Kernel::Product, false, x, y, w, j) == rect_sum(frame, x, y, w, j),
    decreases j,
{
    if j > 0 {
        lemma_masked_window(frame, mask, x, y, w, j - 1);
        assert forall|k: int| 0 <= k < w implies #[trigger] mask[j - 1][k] == Some(1i64) by {
            assert(mask[j - 1][k] == Some(1i64));
        }
        lemma_masked_row(frame, mask, x, y, j - 1, w);
    }
}

/// The summed-area table of a grid, as rows, is a summed-area table.
pub proof fn lemma_integral_rows(rows: Seq<Seq<Sample>>, width: int)
    requires
        0 <= width,
    ensures
        is_integral(integral_rows(rows, width), rows, width),
{
}

/// Whether the summed-area table of `im` is defined at the far corner of
/// the template at offset (`x`, `y`): every cell up to that corner is
/// defined and the sums up to them fit.
pub open spec fn table_reaches(im: ImageView, k: ImageView, x: int, y: int) -> bool {
    prefix_ok(im.rows(), x + k.width - 1, y + k.height - 1)
}

/// Where the summed-area table is defined at the far corner of the
/// template, it gives the sum of the frame cells under the template that
/// the mask of ones gives.
pub proof fn lemma_local_sum_from_table(im: ImageView, k: ImageView, x: int, y: int)
    requires
        im.wf(),
        k.wf(),
        fits_inside(k, im),
        0 <= x <= im.width - k.width,
        0 <= y <= im.height - k.height,
        local_sum(im, k, x, y) is Some,
        table_reaches(im, k, x, y),
    ensures
        subsum(integral_rows(im.rows(), im.width as int), x, y, k.width as int, k.height as int)
            == local_sum(im, k, x, y),
{
    let rows = im.rows();
    let width = im.width as int;
    let w = k.width as int;
    let h = k.height as int;
    let table = integral_rows(rows, width);
    lemma_integral_rows(rows, width);
    lemma_subsum_is_rect_sum(table, rows, width, x, y, w, h);
    let mask = ones(k).rows();
    assert forall|a: int, b: int| 0 <= a < w && 0 <= b < h implies #[trigger] mask[b][a] == Some(
        1i64,
    ) by {
        lemma_cell_index(a, b, w, h);
    }
    lemma_masked_window(rows, mask, x, y, w, h);
    lemma_window_sum_within_mass(rows, mask, Kernel::Product, x, y, w, h);
}

/// The sum of the frame cells under the template is the same from a mask
/// of ones and from the summed-area table, wherever both give it.
pub proof fn lemma_local_sum_agrees(im: ImageView, k: ImageView, x: int, y: int)
    requires
        im.wf(),
        k.wf(),
        fits_inside(k, im),
        0 <= x <= im.width - k.width,
        0 <= y <= im.height - k.height,
        local_sum(im, k, x, y) is Some,
        subsum(integral_rows(im.rows(), im.width as int), x, y, k.width as int, k.height as int)
            is Some,
    ensures
        local_sum(im, k, x, y) == subsum(
            integral_rows(im.rows(), im.width as int),
            x,
            y,
            k.width as int,
            k.height as int,
        ),
{
    let rows = im.rows();
    let width = im.width as int;
    let w = k.width as int;
    let h = k.height as int;
    let table = integral_rows(rows, width);
    lemma_integral_rows(rows, width);
    assert(subsum_wide(table, x, y, w, h) is Some);
    assert(table[y + h - 1][x + w - 1] == integral_cell(rows, x + w - 1, y + h - 1));
    assert(prefix_ok(rows, x + w - 1, y + h - 1));
    lemma_local_sum_from_table(im, k, x, y);
}

/// The rows of an image with every cell squared are the squared rows of
/// the image.
pub proof fn lemma_square_rows(im: ImageView)
    requires
        im.wf(),
    ensures
        squares(im).rows() == square_rows(im.rows(), im.width as int),
        squares(im).wf(),
{
    let got = squares(im).rows();
    let want = square_rows(im.rows(), im.width as int);
    assert(got.len() == want.len());
    assert forall|y: int| 0 <= y < got.len() implies #[trigger] got[y] =~= want[y] by {
        assert forall|x: int| 0 <= x < im.width implies got[y][x] == want[y][x] by {
            lemma_cell_index(x, y, im.width as int, im.height as int);
        }
    }
    assert(got =~= want);
}

/// At every offset, the normalized score composed from cross-correlations
/// and the one normalized with summed-area tables are the same, wherever
/// both are defined.
pub proof fn lemma_backends_agree(im: ImageView, k: ImageView, x: int, y: int)
    requires
        im.wf(),
        k.wf(),
        fits_inside(k, im),
        0 <= x <= im.width - k.width,
        0 <= y <= im.height - k.height,
        ccoeff_normed_cell(im, k, x, y) is Some,
        normalized_cell(im.rows(), im.width as int, k, correlation(im, k, x, y), x, y) is Some,
    ensures
        ccoeff_normed_cell(im, k, x, y) == normalized_cell(
            im.rows(),
            im.width as int,
            k,
            correlation(im, k, x, y),
            x,
            y,
        ),
{
    lemma_local_sum_agrees(im, k, x, y);
    lemma_square_rows(im);
    lemma_local_sum_agrees(squares(im), k, x, y);
}

/// Wherever the composed score is defined and the two summed-area tables
/// are defined at the far corner of the template, the score normalized with
/// the tables is defined too, and is the same.
pub proof fn lemma_table_score_is_composed_score(im: ImageView, k: ImageView, x: int, y: int)
    requires
        im.wf(),
        k.wf(),
        fits_inside(k, im),
        0 <= x <= im.width - k.width,
        0 <= y <= im.height - k.height,
        ccoeff_normed_cell(im, k, x, y) is Some,
        table_reaches(im, k, x, y),
        table_reaches(squares(im), k, x, y),
    ensures
        normalized_cell(im.rows(), im.width as int, k, correlation(im, k, x, y), x, y)
            == ccoeff_normed_cell(im, k, x, y),
{
    lemma_local_sum_from_table(im, k, x, y);
    lemma_square_rows(im);
    lemma_local_sum_from_table(squares(im), k, x, y);
}

/// The grid of scores normalized with summed-area tables and the grid
/// composed from cross-correlations hold the same score in every cell in
/// which both hold one.
pub proof fn lemma_grids_agree(out: Grid, image: Grid, kernel: Grid, x: int, y: int)
    requires
        is_match_grid(out, image, kernel),
        is_grid(image.rows(), image.width() as int),
        is_grid(kernel.rows(), kernel.width() as int),
        0 < kernel.width() <= image.width(),
        0 < kernel.height() <= image.height(),
        0 <= x < out.width(),
        0 <= y < out.height(),
        out.rows()[y][x] is Some,
        method_rows(
            MatchTemplateMethod::CCOEFF_NORMED,
            image_of(image.rows(), image.width() as int),
            image_of(kernel.rows(), kernel.width() as int),
        )[y][x] is Some,
    ensures
        out.rows()[y][x] == method_rows(
            MatchTemplateMethod::CCOEFF_NORMED,
            image_of(image.rows(), image.width() as int),
            image_of(kernel.rows(), kernel.width() as int),
        )[y][x],
{
    let im = image_of(image.rows(), image.width() as int);
    let k = image_of(kernel.rows(), kernel.width() as int);
    lemma_image_of_rows(image.rows(), image.width() as int);
    lemma_image_of_rows(kernel.rows(), kernel.width() as int);
    lemma_backends_agree(im, k, x, y);
}

} // verus!
