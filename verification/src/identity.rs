//! Matching an image against itself, and a template against the frame it
//! was cut from.
//!
//! The score grid of an image over itself has one cell. An error method
//! scores it 0, the normalized correlation scores it 1. A template that
//! was cut from a frame scores 1 where it was cut.

use vstd::prelude::*;
use crate::agreement::{table_reaches, lemma_table_score_is_composed_score};
use crate::image::{ImageView, lemma_cell_index};
use crate::matching::{SCORE_SCALE, ccoeff_cell, ccoeff_normed_cell, correlation, fits_inside,
    local_energy, local_sum, method_rows, ones, pearson, squares, template_energy, total};
use crate::method::MatchTemplateMethod;
use crate::sample::{Sample, value, sample_mul};
use crate::search::{Extremes, is_extremes, first_at};
use crate::template_matching::normalized_cell;
use crate::window::{Kernel, magnitude, rect_defined, row_sum, window_sum, score};

verus! {

/// Whether every cell of the image is defined.
pub open spec fn all_defined(v: ImageView) -> bool {
    forall|i: int| 0 <= i < v.data.len() ==> (#[trigger] v.data[i]) is Some
}

/// Every cell of the rows of a fully defined image is defined.
pub proof fn lemma_rows_defined(v: ImageView)
    requires
        v.wf(),
        all_defined(v),
    ensures
        rect_defined(v.rows(), 0, 0, v.width as int, v.height as int),
{
    assert forall|i: int, j: int| 0 <= i < v.width && 0 <= j < v.height implies (
    #[trigger] v.rows()[0 + j][0 + i]) is Some by {
        lemma_cell_index(i, j, v.width as int, v.height as int);
        assert(v.rows()[j][i] == v.data[j * v.width + i]);
    }
}

/// Over itself, the differences of a row sum to zero.
pub proof fn lemma_row_of_differences(rows: Seq<Seq<Sample>>, kernel: Kernel, mass: bool, j: int, i: int)
    requires
        kernel != Kernel::Product,
    ensures
        row_sum(rows, rows, kernel, mass, 0, 0, j, i) == 0,
    decreases i,
{
    if i > 0 {
        lemma_row_of_differences(rows, kernel, mass, j, i - 1);
    }
}

/// Over itself, the differences of an image sum to zero.
pub proof fn lemma_window_of_differences(
    rows: Seq<Seq<Sample>>,
    kernel: Kernel,
    mass: bool,
    w: int,
    j: int,
)
    requires
        kernel != Kernel::Product,
    ensures
        window_sum(rows, rows, kernel, mass, 0, 0, w, j) == 0,
    decreases j,
{
    if j > 0 {
        lemma_window_of_differences(rows, kernel, mass, w, j - 1);
        lemma_row_of_differences(rows, kernel, mass, j - 1, w);
    }
}

/// Matching a fully defined image against itself with an error method
/// gives a grid of one cell that holds 0.
pub proof fn lemma_self_match_error_is_zero(v: ImageView, method: MatchTemplateMethod)
    requires
        v.wf(),
        v.width > 0,
        v.height > 0,
        all_defined(v),
        method.is_error_metric(),
    ensures
        method_rows(method, v, v) == seq![seq![Some(0i64)]],
{
    lemma_rows_defined(v);
    let kernel = if method == MatchTemplateMethod::SumOfAbsoluteErrors {
        Kernel::AbsDiff
    } else {
        Kernel::SqDiff
    };
    lemma_window_of_differences(v.rows(), kernel, true, v.width as int, v.height as int);
    lemma_window_of_differences(v.rows(), kernel, false, v.width as int, v.height as int);
    let got = method_rows(method, v, v);
    let want = seq![seq![Some(0i64)]];
    assert(got.len() == 1);
    assert(got[0] =~= want[0]);
    assert(got =~= want);
}

/// The extremes of a grid of one cell are that cell, at (0, 0).
pub proof fn lemma_single_cell_extremes(e: Extremes, img: ImageView, v: i64)
    requires
        img.width == 1,
        img.height == 1,
        img.data == seq![Some(v)],
        is_extremes(e, img),
    ensures
        e.min_value == v,
        e.max_value == v,
        e.min_value_location == (0u32, 0u32),
        e.max_value_location == (0u32, 0u32),
{
    assert(img.data[0] is Some);
    if e.min_value < i64::MAX {
        assert(first_at(img.data, e.min_value, crate::search::flat(e.min_value_location, img.width)));
    }
    if e.max_value > i64::MIN {
        assert(first_at(img.data, e.max_value, crate::search::flat(e.max_value_location, img.width)));
    }
}

/// Where every square fits, the products of a row with itself sum to the
/// sum of its squares.
pub proof fn lemma_row_of_squares(v: ImageView, mass: bool, j: int, i: int)
    requires
        v.wf(),
        0 <= j < v.height,
        0 <= i <= v.width,
        rect_defined(squares(v).rows(), 0, 0, v.width as int, v.height as int),
    ensures
        row_sum(v.rows(), v.rows(), Kernel::Product, mass, 0, 0, j, i) == row_sum(
            squares(v).rows(),
            ones(v).rows(),
            Kernel::Product,
            mass,
            0,
            0,
            j,
            i,
        ),
    decreases i,
{
    if i > 0 {
        lemma_row_of_squares(v, mass, j, i - 1);
        lemma_cell_index(i - 1, j, v.width as int, v.height as int);
        let k = j * v.width + (i - 1);
        let a = v.data[k];
        assert(squares(v).rows()[0 + j][0 + (i - 1)] is Some);
        assert(squares(v).rows()[j][i - 1] == sample_mul(a, a));
        assert(v.rows()[j][i - 1] == a);
        assert(ones(v).rows()[j][i - 1] == Some(1i64));
        assert(value(a) * value(a) * 1 == value(a) * value(a)) by (nonlinear_arith);
    }
}

/// Where every square fits, the products of an image with itself sum to
/// the sum of its squares.
pub proof fn lemma_window_of_squares(v: ImageView, mass: bool, j: int)
    requires
        v.wf(),
        0 <= j <= v.height,
        rect_defined(squares(v).rows(), 0, 0, v.width as int, v.height as int),
    ensures
        window_sum(v.rows(), v.rows(), Kernel::Product, mass, 0, 0, v.width as int, j)
            == window_sum(
            squares(v).rows(),
            ones(v).rows(),
            Kernel::Product,
            mass,
            0,
            0,
            v.width as int,
            j,
        ),
    decreases j,
{
    if j > 0 {
        lemma_window_of_squares(v, mass, j - 1);
        lemma_row_of_squares(v, mass, j - 1, v.width as int);
    }
}

/// The cross-correlation of an image with itself is the sum of its
/// squares, wherever that sum is defined.
pub proof fn lemma_self_correlation(v: ImageView)
    requires
        v.wf(),
        total(squares(v)) is Some,
    ensures
        correlation(v, v, 0, 0) == total(squares(v)),
{
    let w = v.width as int;
    let h = v.height as int;
    assert(ones(squares(v)) == ones(v));
    lemma_window_of_squares(v, true, h);
    lemma_window_of_squares(v, false, h);
    assert forall|i: int, j: int| 0 <= i < w && 0 <= j < h implies (#[trigger] v.rows()[0 + j][0
        + i]) is Some by {
        lemma_cell_index(i, j, w, h);
        assert(squares(v).rows()[0 + j][0 + i] is Some);
        assert(squares(v).rows()[j][i] == sample_mul(
            v.data[j * v.width + i],
            v.data[j * v.width + i],
        ));
    }
}

/// Matching an image against itself with the normalized correlation gives
/// the score 1, wherever the image's energy is defined and positive: the
/// image is not flat, and the sums that the score is made of fit.
pub proof fn lemma_self_match_normed_is_one(v: ImageView)
    requires
        v.wf(),
        v.width > 0,
        v.height > 0,
        template_energy(v) is Some,
        value(template_energy(v)) > 0,
    ensures
        ccoeff_normed_cell(v, v, 0, 0) == Some(SCORE_SCALE),
        method_rows(MatchTemplateMethod::CCOEFF_NORMED, v, v) == seq![seq![Some(SCORE_SCALE)]],
{
    let e = template_energy(v);
    assert(total(squares(v)) is Some);
    lemma_self_correlation(v);
    assert(ones(squares(v)) == ones(v));
    assert(local_sum(v, v, 0, 0) == total(v));
    assert(local_sum(squares(v), v, 0, 0) == total(squares(v)));
    assert(local_energy(v, v, 0, 0) == e);
    assert(ccoeff_cell(v, v, 0, 0) == e);
    let ev = value(e);
    assert(ev * ev > 0) by (nonlinear_arith)
        requires
            ev > 0,
    ;
    crate::matching::lemma_scaled_root_within_scale(ev, ev * ev);
    assert(magnitude(ev) == ev);
    assert(pearson(e, e, e) == Some(SCORE_SCALE));
    let got = method_rows(MatchTemplateMethod::CCOEFF_NORMED, v, v);
    let want = seq![seq![Some(SCORE_SCALE)]];
    assert(got.len() == 1);
    assert(got[0] =~= want[0]);
    assert(got =~= want);
}

/// Matching an image against itself by way of the summed-area tables
/// gives the score 1 as well, wherever the tables are defined at the far
/// corner of the image.
pub proof fn lemma_self_match_by_tables_is_one(v: ImageView)
    requires
        v.wf(),
        v.width > 0,
        v.height > 0,
        template_energy(v) is Some,
        value(template_energy(v)) > 0,
        table_reaches(v, v, 0, 0),
        table_reaches(squares(v), v, 0, 0),
    ensures
        normalized_cell(v.rows(), v.width as int, v, correlation(v, v, 0, 0), 0, 0) == Some(
            SCORE_SCALE,
        ),
{
    lemma_self_match_normed_is_one(v);
    lemma_table_score_is_composed_score(v, v, 0, 0);
}

/// Whether the template is cut from the frame at offset (`x`, `y`): it lies
/// inside the frame there, and each of its cells is the frame cell under
/// it.
pub open spec fn is_crop(template: ImageView, frame: ImageView, x: int, y: int) -> bool {
    &&& fits_inside(template, frame)
    &&& 0 <= x <= frame.width - template.width
    &&& 0 <= y <= frame.height - template.height
    &&& forall|i: int, j: int|
        0 <= i < template.width && 0 <= j < template.height ==> #[trigger] template.rows()[j][i]
            == frame.rows()[y + j][x + i]
}

/// Whether two grids hold the same cells in their windows `w` wide and `h`
/// high at the given offsets.
pub open spec fn same_window(
    f1: Seq<Seq<Sample>>,
    x1: int,
    y1: int,
    f2: Seq<Seq<Sample>>,
    x2: int,
    y2: int,
    w: int,
    h: int,
) -> bool {
    forall|i: int, j: int|
        0 <= i < w && 0 <= j < h ==> #[trigger] f1[y1 + j][x1 + i] == f2[y2 + j][x2 + i]
}

/// Windows that hold the same cells give the same sums, row by row.
pub proof fn lemma_same_row(
    f1: Seq<Seq<Sample>>,
    x1: int,
    y1: int,
    f2: Seq<Seq<Sample>>,
    x2: int,
    y2: int,
    g: Seq<Seq<Sample>>,
    kernel: Kernel,
    mass: bool,
    w: int,
    h: int,
    j: int,
    i: int,
)
    requires
        same_window(f1, x1, y1, f2, x2, y2, w, h),
        0 <= j < h,
        0 <= i <= w,
    ensures
        row_sum(f1, g, kernel, mass, x1, y1, j, i) == row_sum(f2, g, kernel, mass, x2, y2, j, i),
    decreases i,
{
    if i > 0 {
        lemma_same_row(f1, x1, y1, f2, x2, y2, g, kernel, mass, w, h, j, i - 1);
        assert(f1[y1 + j][x1 + (i - 1)] == f2[y2 + j][x2 + (i - 1)]);
    }
}

/// Windows that hold the same cells give the same sums.
pub proof fn lemma_same_window(
    f1: Seq<Seq<Sample>>,
    x1: int,
    y1: int,
    f2: Seq<Seq<Sample>>,
    x2: int,
    y2: int,
    g: Seq<Seq<Sample>>,
    kernel: Kernel,
    mass: bool,
    w: int,
    h: int,
    j: int,
)
    requires
        same_window(f1, x1, y1, f2, x2, y2, w, h),
        0 <= j <= h,
        0 <= w,
    ensures
        window_sum(f1, g, kernel, mass, x1, y1, w, j) == window_sum(
            f2,
            g,
            kernel,
            mass,
            x2,
            y2,
            w,
            j,
        ),
    decreases j,
{
    if j > 0 {
        lemma_same_window(f1, x1, y1, f2, x2, y2, g, kernel, mass, w, h, j - 1);
        lemma_same_row(f1, x1, y1, f2, x2, y2, g, kernel, mass, w, h, j - 1, w);
    }
}

/// Windows that hold the same cells give the same score against any
/// template.
pub proof fn lemma_same_score(
    f1: Seq<Seq<Sample>>,
    x1: int,
    y1: int,
    f2: Seq<Seq<Sample>>,
    x2: int,
    y2: int,
    g: Seq<Seq<Sample>>,
    kernel: Kernel,
    w: int,
    h: int,
)
    requires
        same_window(f1, x1, y1, f2, x2, y2, w, h),
        0 <= w,
        0 <= h,
    ensures
        score(f1, g, kernel, x1, y1, w, h) == score(f2, g, kernel, x2, y2, w, h),
{
    lemma_same_window(f1, x1, y1, f2, x2, y2, g, kernel, true, w, h, h);
    lemma_same_window(f1, x1, y1, f2, x2, y2, g, kernel, false, w, h, h);
    if rect_defined(f1, x1, y1, w, h) {
        assert forall|i: int, j: int| 0 <= i < w && 0 <= j < h implies (#[trigger] f2[y2 + j][x2
            + i]) is Some by {
            assert(f1[y1 + j][x1 + i] == f2[y2 + j][x2 + i]);
            assert(f1[y1 + j][x1 + i] is Some);
        }
    }
    if rect_defined(f2, x2, y2, w, h) {
        assert forall|i: int, j: int| 0 <= i < w && 0 <= j < h implies (#[trigger] f1[y1 + j][x1
            + i]) is Some by {
            assert(f1[y1 + j][x1 + i] == f2[y2 + j][x2 + i]);
            assert(f2[y2 + j][x2 + i] is Some);
        }
    }
}

/// A template that is cut from the frame scores 1 where it was cut,
/// wherever its energy is defined and positive: the template is not flat,
/// and the sums that the score is made of fit.
pub proof fn lemma_crop_scores_one(frame: ImageView, template: ImageView, x: int, y: int)
    requires
        frame.wf(),
        template.wf(),
        is_crop(template, frame, x, y),
        template_energy(template) is Some,
        value(template_energy(template)) > 0,
    ensures
        ccoeff_normed_cell(frame, template, x, y) == Some(SCORE_SCALE),
{
    let w = template.width as int;
    let h = template.height as int;
    let f = frame.rows();
    let t = template.rows();
    let mask = ones(template).rows();
    assert(same_window(f, x, y, t, 0, 0, w, h)) by {
        assert forall|i: int, j: int| 0 <= i < w && 0 <= j < h implies #[trigger] f[y + j][x + i]
            == t[0 + j][0 + i] by {
            assert(template.rows()[j][i] == frame.rows()[y + j][x + i]);
        }
    }
    let fs = squares(frame).rows();
    let ts = squares(template).rows();
    assert(same_window(fs, x, y, ts, 0, 0, w, h)) by {
        assert forall|i: int, j: int| 0 <= i < w && 0 <= j < h implies #[trigger] fs[y + j][x + i]
            == ts[0 + j][0 + i] by {
            lemma_cell_index(x + i, y + j, frame.width as int, frame.height as int);
            lemma_cell_index(i, j, w, h);
            assert(template.rows()[j][i] == frame.rows()[y + j][x + i]);
            assert(fs[y + j][x + i] == sample_mul(f[y + j][x + i], f[y + j][x + i]));
            assert(ts[j][i] == sample_mul(t[j][i], t[j][i]));
        }
    }
    lemma_same_score(f, x, y, t, 0, 0, t, Kernel::Product, w, h);
    lemma_same_score(f, x, y, t, 0, 0, mask, Kernel::Product, w, h);
    lemma_same_score(fs, x, y, ts, 0, 0, mask, Kernel::Product, w, h);
    assert(correlation(frame, template, x, y) == correlation(template, template, 0, 0));
    assert(local_sum(frame, template, x, y) == local_sum(template, template, 0, 0));
    assert(local_sum(squares(frame), template, x, y) == local_sum(
        squares(template),
        template,
        0,
        0,
    ));
    assert(ccoeff_normed_cell(frame, template, x, y) == ccoeff_normed_cell(
        template,
        template,
        0,
        0,
    ));
    lemma_self_match_normed_is_one(template);
}

} // verus!
