//! The mean-subtracted cross-correlation, composed and by the book.
//!
//! By the book, the mean of the frame cells under the template is taken
//! off each of them, the mean of the template off each of its cells, and
//! the products are summed. With `n` cells, sums `s_i` and `s_t`, and every
//! difference taken `n` times to stay in whole numbers, that is the sum of
//! `(n * a - s_i) * (n * b - s_t)` over the pairs of cells. The composed
//! score, `n * correlation - s_t * s_i`, is that sum divided by `n`. From
//! the sums of centred products comes, by the inequality of Cauchy and
//! Schwarz, that no normalized score lies beyond 1.

use vstd::prelude::*;
use crate::agreement::lemma_masked_window;
use crate::image::{ImageView, lemma_cell_index};
use crate::matching::{SCORE_SCALE, area, ccoeff_cell, ccoeff_normed_cell, correlation, fits_inside,
    local_energy, local_sum, ones, squares, template_energy, total};
use crate::sample::{Sample, value, sample_mul};
use crate::template_matching::{rect_sum, row_span};
use crate::window::{Kernel, magnitude, rect_defined, row_sum, window_sum,
    lemma_window_sum_within_mass};

verus! {

/// The cells of a grid from an offset on, each taken `n` times less `sum`.
pub struct Centered {
    /// The grid, as rows.
    pub cells: Seq<Seq<Sample>>,
    /// Column of the offset.
    pub x: int,
    /// Row of the offset.
    pub y: int,
    /// The factor.
    pub n: int,
    /// What is taken off.
    pub sum: int,
}

impl Centered {
    /// The centred cell in column `i` of row `j` from the offset.
    pub open spec fn at(self, i: int, j: int) -> int {
        self.n * value(self.cells[self.y + j][self.x + i]) - self.sum
    }
}

/// The products of the first `i` pairs of centred cells of row `j`,
/// summed.
pub open spec fn centered_row(f: Centered, g: Centered, j: int, i: int) -> int
    decreases i,
{
    if i <= 0 {
        0
    } else {
        centered_row(f, g, j, i - 1) + f.at(i - 1, j) * g.at(i - 1, j)
    }
}

/// The products of the pairs of centred cells of the first `j` rows, `w`
/// to a row, summed.
pub open spec fn centered_window(f: Centered, g: Centered, w: int, j: int) -> int
    decreases j,
{
    if j <= 0 {
        0
    } else {
        centered_window(f, g, w, j - 1) + centered_row(f, g, j - 1, w)
    }
}

/// A row of centred products of a frame and a template, multiplied out.
pub proof fn lemma_centered_row(f: Centered, g: Centered, j: int, i: int)
    requires
        0 <= i,
        f.n == g.n,
        g.x == 0,
        g.y == 0,
    ensures
        centered_row(f, g, j, i) == f.n * f.n * row_sum(
            f.cells,
            g.cells,
            Kernel::Product,
            false,
            f.x,
            f.y,
            j,
            i,
        ) - f.n * g.sum * row_span(f.cells[f.y + j], f.x, i) - f.n * f.sum * row_span(
            g.cells[j],
            0,
            i,
        ) + i * (f.sum * g.sum),
    decreases i,
{
    let n = f.n;
    let s_i = f.sum;
    let s_t = g.sum;
    let nn = n * n;
    let nt = n * s_t;
    let ni = n * s_i;
    let ss = s_i * s_t;
    if i > 0 {
        lemma_centered_row(f, g, j, i - 1);
        let a = value(f.cells[f.y + j][f.x + i - 1]);
        let b = value(g.cells[j][i - 1]);
        let r = row_sum(f.cells, g.cells, Kernel::Product, false, f.x, f.y, j, i - 1);
        let fa = row_span(f.cells[f.y + j], f.x, i - 1);
        let fb = row_span(g.cells[j], 0, i - 1);
        assert(row_span(g.cells[j], 0, i) == fb + b);
        assert(row_span(f.cells[f.y + j], f.x, i) == fa + a);
        assert(g.cells[g.y + j][g.x + (i - 1)] == g.cells[j][i - 1]);
        let u = n * a;
        let v = n * b;
        assert(f.at(i - 1, j) == u - s_i);
        assert(g.at(i - 1, j) == v - s_t);
        assert((u - s_i) * (v - s_t) == u * v - u * s_t - s_i * v + s_i * s_t)
            by (nonlinear_arith);
        assert(u * v == nn * (a * b)) by (nonlinear_arith)
            requires
                u == n * a,
                v == n * b,
                nn == n * n,
        ;
        assert(u * s_t == nt * a) by (nonlinear_arith)
            requires
                u == n * a,
                nt == n * s_t,
        ;
        assert(s_i * v == ni * b) by (nonlinear_arith)
            requires
                v == n * b,
                ni == n * s_i,
        ;
        assert(nn * (r + a * b) == nn * r + nn * (a * b)) by (nonlinear_arith);
        assert(nt * (fa + a) == nt * fa + nt * a) by (nonlinear_arith);
        assert(ni * (fb + b) == ni * fb + ni * b) by (nonlinear_arith);
        assert(i * ss == (i - 1) * ss + ss) by (nonlinear_arith);
    } else {
        assert(nn * 0 == 0 && nt * 0 == 0 && ni * 0 == 0 && 0 * ss == 0) by (nonlinear_arith);
    }
}

/// A window of centred products of a frame and a template, multiplied out.
pub proof fn lemma_centered_window(f: Centered, g: Centered, w: int, j: int)
    requires
        0 <= w,
        0 <= j,
        f.n == g.n,
        g.x == 0,
        g.y == 0,
    ensures
        centered_window(f, g, w, j) == f.n * f.n * window_sum(
            f.cells,
            g.cells,
            Kernel::Product,
            false,
            f.x,
            f.y,
            w,
            j,
        ) - f.n * g.sum * rect_sum(f.cells, f.x, f.y, w, j) - f.n * f.sum * rect_sum(
            g.cells,
            0,
            0,
            w,
            j,
        ) + (w * j) * (f.sum * g.sum),
    decreases j,
{
    let n = f.n;
    let s_i = f.sum;
    let s_t = g.sum;
    let nn = n * n;
    let nt = n * s_t;
    let ni = n * s_i;
    let ss = s_i * s_t;
    if j > 0 {
        lemma_centered_window(f, g, w, j - 1);
        lemma_centered_row(f, g, j - 1, w);
        let r0 = window_sum(f.cells, g.cells, Kernel::Product, false, f.x, f.y, w, j - 1);
        let r1 = row_sum(f.cells, g.cells, Kernel::Product, false, f.x, f.y, j - 1, w);
        let f0 = rect_sum(f.cells, f.x, f.y, w, j - 1);
        let f1 = row_span(f.cells[f.y + j - 1], f.x, w);
        let t0 = rect_sum(g.cells, 0, 0, w, j - 1);
        let t1 = row_span(g.cells[0 + j - 1], 0, w);
        assert(rect_sum(f.cells, f.x, f.y, w, j) == f0 + f1);
        assert(rect_sum(g.cells, 0, 0, w, j) == t0 + t1);
        assert(nn * (r0 + r1) == nn * r0 + nn * r1) by (nonlinear_arith);
        assert(nt * (f0 + f1) == nt * f0 + nt * f1) by (nonlinear_arith);
        assert(ni * (t0 + t1) == ni * t0 + ni * t1) by (nonlinear_arith);
        assert((w * j) * ss == (w * (j - 1)) * ss + w * ss) by (nonlinear_arith);
    } else {
        assert(nn * 0 == 0 && nt * 0 == 0 && ni * 0 == 0 && (w * 0) * ss == 0)
            by (nonlinear_arith);
    }
}

/// The frame cells under the template at offset (`x`, `y`), centred.
pub open spec fn centered_frame(frame: ImageView, template: ImageView, x: int, y: int) -> Centered {
    Centered {
        cells: frame.rows(),
        x,
        y,
        n: (template.width * template.height) as int,
        sum: rect_sum(frame.rows(), x, y, template.width as int, template.height as int),
    }
}

/// The cells of the template, centred.
pub open spec fn centered_template(template: ImageView) -> Centered {
    Centered {
        cells: template.rows(),
        x: 0,
        y: 0,
        n: (template.width * template.height) as int,
        sum: rect_sum(template.rows(), 0, 0, template.width as int, template.height as int),
    }
}

/// Every cell of a mask of ones is 1.
pub proof fn lemma_ones(template: ImageView)
    requires
        template.wf(),
    ensures
        forall|a: int, b: int|
            0 <= a < template.width && 0 <= b < template.height ==> #[trigger] ones(
                template,
            ).rows()[b][a] == Some(1i64),
{
    assert forall|a: int, b: int| 0 <= a < template.width && 0 <= b < template.height implies
        #[trigger] ones(template).rows()[b][a] == Some(1i64) by {
        lemma_cell_index(a, b, template.width as int, template.height as int);
    }
}

/// Wherever the composed mean-subtracted cross-correlation is defined, it
/// is the one by the book: `n` times the composed score is the sum of the
/// products of the centred cells.
pub proof fn lemma_ccoeff_by_the_book(frame: ImageView, template: ImageView, x: int, y: int)
    requires
        frame.wf(),
        template.wf(),
        fits_inside(template, frame),
        0 <= x <= frame.width - template.width,
        0 <= y <= frame.height - template.height,
        ccoeff_cell(frame, template, x, y) is Some,
    ensures
        ({
            let f = centered_frame(frame, template, x, y);
            let t = centered_template(template);
            &&& local_sum(frame, template, x, y) == Some(f.sum as i64)
            &&& total(template) == Some(t.sum as i64)
            &&& value(ccoeff_cell(frame, template, x, y)) == f.n * value(
                correlation(frame, template, x, y),
            ) - t.sum * f.sum
            &&& f.n * value(ccoeff_cell(frame, template, x, y)) == centered_window(
                f,
                t,
                template.width as int,
                template.height as int,
            )
        }),
{
    let w = template.width as int;
    let h = template.height as int;
    let n = w * h;
    let f = centered_frame(frame, template, x, y);
    let t = centered_template(template);
    let mask = ones(template).rows();
    let s_i = f.sum;
    let s_t = t.sum;
    lemma_ones(template);
    lemma_masked_window(f.cells, mask, x, y, w, h);
    lemma_masked_window(t.cells, mask, 0, 0, w, h);
    lemma_window_sum_within_mass(f.cells, mask, Kernel::Product, x, y, w, h);
    lemma_window_sum_within_mass(t.cells, mask, Kernel::Product, 0, 0, w, h);
    lemma_window_sum_within_mass(f.cells, t.cells, Kernel::Product, x, y, w, h);
    let r = window_sum(f.cells, t.cells, Kernel::Product, false, x, y, w, h);
    assert(correlation(frame, template, x, y) is Some);
    assert(local_sum(frame, template, x, y) is Some);
    assert(total(template) is Some);
    assert(area(template) is Some);
    assert(value(correlation(frame, template, x, y)) == r);
    assert(value(local_sum(frame, template, x, y)) == s_i);
    assert(value(total(template)) == s_t);
    assert(value(area(template)) == n);
    let c = value(ccoeff_cell(frame, template, x, y));
    assert(c == r * n - s_i * s_t);
    lemma_centered_window(f, t, w, h);
    let ss = s_i * s_t;
    assert(n * (r * n - ss) == n * n * r - n * ss) by (nonlinear_arith);
    assert(n * s_t * s_i == n * ss) by (nonlinear_arith)
        requires
            ss == s_i * s_t,
    ;
    assert(n * s_i * s_t == n * ss) by (nonlinear_arith)
        requires
            ss == s_i * s_t,
    ;
    assert(r * n - s_i * s_t == n * r - s_t * s_i) by (nonlinear_arith);
}

/// A row of squares of centred cells, multiplied out. `squared` holds the
/// squares of the cells.
pub proof fn lemma_centered_square_row(f: Centered, squared: Seq<Seq<Sample>>, j: int, i: int)
    requires
        0 <= i,
        forall|k: int|
            0 <= k < i ==> value(#[trigger] squared[f.y + j][f.x + k]) == value(
                f.cells[f.y + j][f.x + k],
            ) * value(f.cells[f.y + j][f.x + k]),
    ensures
        centered_row(f, f, j, i) == f.n * f.n * row_span(squared[f.y + j], f.x, i) - 2 * (f.n
            * f.sum) * row_span(f.cells[f.y + j], f.x, i) + i * (f.sum * f.sum),
    decreases i,
{
    let n = f.n;
    let s = f.sum;
    let nn = n * n;
    let ns = n * s;
    let ss = s * s;
    if i > 0 {
        lemma_centered_square_row(f, squared, j, i - 1);
        let a = value(f.cells[f.y + j][f.x + i - 1]);
        let q = row_span(squared[f.y + j], f.x, i - 1);
        let fa = row_span(f.cells[f.y + j], f.x, i - 1);
        assert(value(squared[f.y + j][f.x + (i - 1)]) == a * a);
        assert(row_span(squared[f.y + j], f.x, i) == q + a * a);
        assert(row_span(f.cells[f.y + j], f.x, i) == fa + a);
        let u = n * a;
        assert(f.at(i - 1, j) == u - s);
        assert((u - s) * (u - s) == u * u - 2 * (u * s) + s * s) by (nonlinear_arith);
        assert(u * u == nn * (a * a)) by (nonlinear_arith)
            requires
                u == n * a,
                nn == n * n,
        ;
        assert(u * s == ns * a) by (nonlinear_arith)
            requires
                u == n * a,
                ns == n * s,
        ;
        assert(nn * (q + a * a) == nn * q + nn * (a * a)) by (nonlinear_arith);
        assert(2 * ns * (fa + a) == 2 * ns * fa + 2 * (ns * a)) by (nonlinear_arith);
        assert(i * ss == (i - 1) * ss + ss) by (nonlinear_arith);
    } else {
        assert(nn * 0 == 0 && 2 * ns * 0 == 0 && 0 * ss == 0) by (nonlinear_arith);
    }
}

/// A window of squares of centred cells, multiplied out.
pub proof fn lemma_centered_square_window(f: Centered, squared: Seq<Seq<Sample>>, w: int, j: int)
    requires
        0 <= w,
        0 <= j,
        forall|k: int, l: int|
            0 <= k < w && 0 <= l < j ==> value(#[trigger] squared[f.y + l][f.x + k]) == value(
                f.cells[f.y + l][f.x + k],
            ) * value(f.cells[f.y + l][f.x + k]),
    ensures
        centered_window(f, f, w, j) == f.n * f.n * rect_sum(squared, f.x, f.y, w, j) - 2 * (f.n
            * f.sum) * rect_sum(f.cells, f.x, f.y, w, j) + (w * j) * (f.sum * f.sum),
    decreases j,
{
    let n = f.n;
    let s = f.sum;
    let nn = n * n;
    let ns = n * s;
    let ss = s * s;
    if j > 0 {
        lemma_centered_square_window(f, squared, w, j - 1);
        assert forall|k: int| 0 <= k < w implies value(#[trigger] squared[f.y + (j - 1)][f.x + k])
            == value(f.cells[f.y + (j - 1)][f.x + k]) * value(f.cells[f.y + (j - 1)][f.x + k]) by {
            assert(value(squared[f.y + (j - 1)][f.x + k]) == value(
                f.cells[f.y + (j - 1)][f.x + k],
            ) * value(f.cells[f.y + (j - 1)][f.x + k]));
        }
        lemma_centered_square_row(f, squared, j - 1, w);
        let q0 = rect_sum(squared, f.x, f.y, w, j - 1);
        let q1 = row_span(squared[f.y + j - 1], f.x, w);
        let f0 = rect_sum(f.cells, f.x, f.y, w, j - 1);
        let f1 = row_span(f.cells[f.y + j - 1], f.x, w);
        assert(rect_sum(squared, f.x, f.y, w, j) == q0 + q1);
        assert(rect_sum(f.cells, f.x, f.y, w, j) == f0 + f1);
        assert(nn * (q0 + q1) == nn * q0 + nn * q1) by (nonlinear_arith);
        assert(2 * ns * (f0 + f1) == 2 * ns * f0 + 2 * ns * f1) by (nonlinear_arith);
        assert((w * j) * ss == (w * (j - 1)) * ss + w * ss) by (nonlinear_arith);
    } else {
        assert(nn * 0 == 0 && 2 * ns * 0 == 0 && (w * 0) * ss == 0) by (nonlinear_arith);
    }
}

/// The energy of the frame cells under the template, taken `n` times, is
/// the sum of the squares of the centred cells.
pub proof fn lemma_energy_by_the_book(frame: ImageView, template: ImageView, x: int, y: int)
    requires
        frame.wf(),
        template.wf(),
        fits_inside(template, frame),
        0 <= x <= frame.width - template.width,
        0 <= y <= frame.height - template.height,
        local_energy(frame, template, x, y) is Some,
    ensures
        ({
            let f = centered_frame(frame, template, x, y);
            f.n * value(local_energy(frame, template, x, y)) == centered_window(
                f,
                f,
                template.width as int,
                template.height as int,
            )
        }),
{
    let w = template.width as int;
    let h = template.height as int;
    let n = w * h;
    let f = centered_frame(frame, template, x, y);
    let mask = ones(template).rows();
    let sq = squares(frame).rows();
    let s = f.sum;
    lemma_ones(template);
    lemma_masked_window(f.cells, mask, x, y, w, h);
    lemma_masked_window(sq, mask, x, y, w, h);
    lemma_window_sum_within_mass(f.cells, mask, Kernel::Product, x, y, w, h);
    lemma_window_sum_within_mass(sq, mask, Kernel::Product, x, y, w, h);
    let ls = local_sum(frame, template, x, y);
    let lq = local_sum(squares(frame), template, x, y);
    assert(ls is Some && lq is Some && area(template) is Some);
    assert(value(ls) == s);
    let q = rect_sum(sq, x, y, w, h);
    assert(value(lq) == q);
    assert(rect_defined(sq, x, y, w, h));
    assert forall|k: int, l: int| 0 <= k < w && 0 <= l < h implies value(
        #[trigger] sq[f.y + l][f.x + k],
    ) == value(f.cells[f.y + l][f.x + k]) * value(f.cells[f.y + l][f.x + k]) by {
        lemma_cell_index(x + k, y + l, frame.width as int, frame.height as int);
        let c = frame.data[(y + l) * frame.width + (x + k)];
        assert(sq[y + l][x + k] == sample_mul(c, c));
        assert(f.cells[y + l][x + k] == c);
        assert(sq[y + l][x + k] is Some);
    }
    lemma_centered_square_window(f, sq, w, h);
    let e = value(local_energy(frame, template, x, y));
    assert(e == q * n - s * s);
    let ss = s * s;
    let ns = n * s;
    assert(n * (q * n - ss) == n * n * q - n * ss) by (nonlinear_arith);
    assert(2 * ns * s == 2 * (n * ss)) by (nonlinear_arith)
        requires
            ns == n * s,
            ss == s * s,
    ;
}

/// One step of the inequality of Cauchy and Schwarz: where it holds of
/// three sums, it holds of them with one more pair of terms.
pub proof fn lemma_cs_step(a: int, b: int, c: int, u: int, v: int)
    requires
        0 <= a,
        0 <= b,
        c * c <= a * b,
    ensures
        (c + u * v) * (c + u * v) <= (a + u * u) * (b + v * v),
        0 <= a + u * u,
        0 <= b + v * v,
{
    let uu = u * u;
    let vv = v * v;
    let uv = u * v;
    assert(uu >= 0 && vv >= 0) by (nonlinear_arith)
        requires
            uu == u * u,
            vv == v * v,
    ;
    let p = a * vv;
    let q = b * uu;
    let m = c * uv;
    assert(p >= 0 && q >= 0) by (nonlinear_arith)
        requires
            p == a * vv,
            q == b * uu,
            a >= 0,
            b >= 0,
            uu >= 0,
            vv >= 0,
    ;
    let cc = c * c;
    let ab = a * b;
    let k = uu * vv;
    assert(k >= 0) by (nonlinear_arith)
        requires
            k == uu * vv,
            uu >= 0,
            vv >= 0,
    ;
    assert(m * m == cc * k) by (nonlinear_arith)
        requires
            m == c * uv,
            uv == u * v,
            cc == c * c,
            k == uu * vv,
            uu == u * u,
            vv == v * v,
    ;
    assert(p * q == ab * k) by (nonlinear_arith)
        requires
            p == a * vv,
            q == b * uu,
            ab == a * b,
            k == uu * vv,
    ;
    assert(cc * k <= ab * k) by (nonlinear_arith)
        requires
            cc <= ab,
            k >= 0,
    ;
    let t = p + q;
    assert(t * t >= 4 * (p * q)) by (nonlinear_arith)
        requires
            t == p + q,
    ;
    assert(t >= 2 * m) by (nonlinear_arith)
        requires
            t >= 0,
            t * t >= 4 * (m * m),
    ;
    assert((a + uu) * (b + vv) == ab + p + q + k) by (nonlinear_arith)
        requires
            ab == a * b,
            p == a * vv,
            q == b * uu,
            k == uu * vv,
    ;
    assert((c + uv) * (c + uv) == cc + 2 * m + uv * uv) by (nonlinear_arith)
        requires
            cc == c * c,
            m == c * uv,
    ;
    assert(uv * uv == k) by (nonlinear_arith)
        requires
            uv == u * v,
            k == uu * vv,
            uu == u * u,
            vv == v * v,
    ;
}

/// The inequality of Cauchy and Schwarz for the window's sums with `i`
/// more pairs of row `j`.
pub proof fn lemma_cs_row(f: Centered, g: Centered, w: int, j: int, i: int)
    requires
        0 <= i,
        0 <= centered_window(f, f, w, j),
        0 <= centered_window(g, g, w, j),
        centered_window(f, g, w, j) * centered_window(f, g, w, j) <= centered_window(f, f, w, j)
            * centered_window(g, g, w, j),
    ensures
        0 <= centered_window(f, f, w, j) + centered_row(f, f, j, i),
        0 <= centered_window(g, g, w, j) + centered_row(g, g, j, i),
        (centered_window(f, g, w, j) + centered_row(f, g, j, i)) * (centered_window(f, g, w, j)
            + centered_row(f, g, j, i)) <= (centered_window(f, f, w, j) + centered_row(f, f, j, i))
            * (centered_window(g, g, w, j) + centered_row(g, g, j, i)),
    decreases i,
{
    if i > 0 {
        lemma_cs_row(f, g, w, j, i - 1);
        let a = centered_window(f, f, w, j) + centered_row(f, f, j, i - 1);
        let b = centered_window(g, g, w, j) + centered_row(g, g, j, i - 1);
        let c = centered_window(f, g, w, j) + centered_row(f, g, j, i - 1);
        lemma_cs_step(a, b, c, f.at(i - 1, j), g.at(i - 1, j));
    }
}

/// The inequality of Cauchy and Schwarz for centred cells: the square of
/// the sum of the products is at most the product of the sums of the
/// squares.
pub proof fn lemma_cs_window(f: Centered, g: Centered, w: int, j: int)
    requires
        0 <= w,
        0 <= j,
    ensures
        0 <= centered_window(f, f, w, j),
        0 <= centered_window(g, g, w, j),
        centered_window(f, g, w, j) * centered_window(f, g, w, j) <= centered_window(f, f, w, j)
            * centered_window(g, g, w, j),
    decreases j,
{
    if j > 0 {
        lemma_cs_window(f, g, w, j - 1);
        lemma_cs_row(f, g, w, j - 1, w);
    } else {
        assert(0 * 0 <= 0 * 0) by (nonlinear_arith);
    }
}

/// No normalized score lies beyond 1: wherever the normalized
/// mean-subtracted cross-correlation is defined, it lies between
/// `-SCORE_SCALE` and `SCORE_SCALE`.
pub proof fn lemma_normed_score_in_range(frame: ImageView, template: ImageView, x: int, y: int)
    requires
        frame.wf(),
        template.wf(),
        fits_inside(template, frame),
        0 <= x <= frame.width - template.width,
        0 <= y <= frame.height - template.height,
        ccoeff_normed_cell(frame, template, x, y) is Some,
    ensures
        -SCORE_SCALE <= value(ccoeff_normed_cell(frame, template, x, y)) <= SCORE_SCALE,
{
    let w = template.width as int;
    let h = template.height as int;
    let f = centered_frame(frame, template, x, y);
    let t = centered_template(template);
    let n = f.n;
    let num = value(ccoeff_cell(frame, template, x, y));
    let e_i = value(local_energy(frame, template, x, y));
    let e_t = value(template_energy(template));
    assert(ones(squares(template)) == ones(template));
    assert(template_energy(template) == local_energy(template, template, 0, 0));
    assert(t == centered_frame(template, template, 0, 0));
    lemma_ccoeff_by_the_book(frame, template, x, y);
    lemma_energy_by_the_book(frame, template, x, y);
    lemma_energy_by_the_book(template, template, 0, 0);
    lemma_cs_window(f, t, w, h);
    let c = centered_window(f, t, w, h);
    let a = centered_window(f, f, w, h);
    let b = centered_window(t, t, w, h);
    assert(n >= 1) by (nonlinear_arith)
        requires
            n == w * h,
            w >= 1,
            h >= 1,
    ;
    let product = e_i * e_t;
    assert(num * num <= product) by (nonlinear_arith)
        requires
            c == n * num,
            a == n * e_i,
            b == n * e_t,
            c * c <= a * b,
            n >= 1,
            product == e_i * e_t,
    ;
    assert(product >= 1) by (nonlinear_arith)
        requires
            product == e_i * e_t,
            e_i >= 1,
            e_t >= 1,
    ;
    let m = magnitude(num);
    assert(m * m == num * num) by (nonlinear_arith)
        requires
            m == num || m == -num,
    ;
    crate::matching::lemma_scaled_root_within_scale(m, product);
}

/// A row's sum of squares of centred cells is at least the square of each
/// of its cells, and not negative.
pub proof fn lemma_square_row_bounds(f: Centered, j: int, i: int, k: int)
    requires
        0 <= i,
    ensures
        0 <= centered_row(f, f, j, i),
        0 <= k < i ==> f.at(k, j) * f.at(k, j) <= centered_row(f, f, j, i),
    decreases i,
{
    if i > 0 {
        lemma_square_row_bounds(f, j, i - 1, k);
        let u = f.at(i - 1, j);
        assert(u * u >= 0) by (nonlinear_arith);
    }
}

/// A window's sum of squares of centred cells is at least the square of
/// each of its cells.
pub proof fn lemma_square_window_bounds(f: Centered, w: int, h: int, k: int, l: int)
    requires
        0 <= w,
        0 <= h,
        0 <= k < w,
        0 <= l < h,
    ensures
        f.at(k, l) * f.at(k, l) <= centered_window(f, f, w, h),
    decreases h,
{
    lemma_cs_window(f, f, w, h - 1);
    if l == h - 1 {
        lemma_square_row_bounds(f, h - 1, w, k);
    } else {
        lemma_square_window_bounds(f, w, h - 1, k, l);
        lemma_square_row_bounds(f, h - 1, w, k);
    }
}

/// Whether two of the frame cells under the template at offset (`x`, `y`)
/// differ: the patch is not flat.
pub open spec fn patch_varies(frame: ImageView, template: ImageView, x: int, y: int) -> bool {
    exists|i: int, j: int, k: int, l: int|
        0 <= i < template.width && 0 <= j < template.height && 0 <= k < template.width && 0 <= l
            < template.height && value(#[trigger] frame.rows()[y + j][x + i]) != value(
            #[trigger] frame.rows()[y + l][x + k],
        )
}

/// The energy of a patch that is not flat is positive, wherever it is
/// defined.
pub proof fn lemma_energy_positive_unless_flat(
    frame: ImageView,
    template: ImageView,
    x: int,
    y: int,
)
    requires
        frame.wf(),
        template.wf(),
        fits_inside(template, frame),
        0 <= x <= frame.width - template.width,
        0 <= y <= frame.height - template.height,
        local_energy(frame, template, x, y) is Some,
        patch_varies(frame, template, x, y),
    ensures
        value(local_energy(frame, template, x, y)) > 0,
{
    let w = template.width as int;
    let h = template.height as int;
    let f = centered_frame(frame, template, x, y);
    let n = f.n;
    let e = value(local_energy(frame, template, x, y));
    lemma_energy_by_the_book(frame, template, x, y);
    let (i, j, k, l) = choose|i: int, j: int, k: int, l: int|
        0 <= i < template.width && 0 <= j < template.height && 0 <= k < template.width && 0 <= l
            < template.height && value(#[trigger] frame.rows()[y + j][x + i]) != value(
            #[trigger] frame.rows()[y + l][x + k],
        );
    let a = value(frame.rows()[y + j][x + i]);
    let b = value(frame.rows()[y + l][x + k]);
    lemma_square_window_bounds(f, w, h, i, j);
    lemma_square_window_bounds(f, w, h, k, l);
    assert(n >= 1) by (nonlinear_arith)
        requires
            n == w * h,
            w >= 1,
            h >= 1,
    ;
    let u = f.at(i, j);
    let v = f.at(k, l);
    assert(u == n * a - f.sum);
    assert(v == n * b - f.sum);
    assert(u != 0 || v != 0) by (nonlinear_arith)
        requires
            u == n * a - f.sum,
            v == n * b - f.sum,
            a != b,
            n >= 1,
    ;
    assert(u * u >= 1 || v * v >= 1) by (nonlinear_arith)
        requires
            u != 0 || v != 0,
    ;
    assert(e > 0) by (nonlinear_arith)
        requires
            n * e >= 1,
            n >= 1,
    ;
}

/// The energy of a template that is not flat is positive, wherever it is
/// defined.
pub proof fn lemma_template_energy_positive_unless_flat(template: ImageView)
    requires
        template.wf(),
        template.width > 0,
        template.height > 0,
        template_energy(template) is Some,
        patch_varies(template, template, 0, 0),
    ensures
        value(template_energy(template)) > 0,
{
    assert(ones(squares(template)) == ones(template));
    assert(template_energy(template) == local_energy(template, template, 0, 0));
    lemma_energy_positive_unless_flat(template, template, 0, 0);
}

} // verus!
