//! Score grids: a template slid over a frame, one score for each offset at
//! which the template lies inside the frame.

use vstd::prelude::*;
use vstd::arithmetic::div_mod::lemma_fundamental_div_mod_converse;
use crate::error::MatchError;
use crate::image::{Image, ImageView};
use crate::method::MatchTemplateMethod;
use vstd::arithmetic::div_mod::{lemma_fundamental_div_mod, lemma_mod_bound};
use crate::quotient::{SCALE_SQUARED, scaled_quotient};
use crate::sample::{Sample, value, sample_of, sample_sub, sample_mul, floor_sqrt,
    narrow, sub_samples, mul_samples, isqrt};
use crate::window::{Kernel, magnitude, rect_defined, row_sum, window_sum, score,
    lemma_row_mass_grows, lemma_window_mass_grows, lemma_row_sum_within_mass,
    lemma_window_sum_within_mass};
use crate::search::lemma_next_cell;

verus! {

/// Whether the template has cells and lies inside the frame at some offset.
pub open spec fn fits_inside(template: ImageView, frame: ImageView) -> bool {
    &&& 0 < template.width <= frame.width
    &&& 0 < template.height <= frame.height
}

/// The score grid of a template over a frame, as rows: one score for each
/// offset, `frame.width - template.width + 1` across and
/// `frame.height - template.height + 1` down.
pub open spec fn score_rows(frame: ImageView, template: ImageView, kernel: Kernel) -> Seq<
    Seq<Sample>,
> {
    Seq::new(
        (frame.height - template.height + 1) as nat,
        |y: int|
            Seq::new(
                (frame.width - template.width + 1) as nat,
                |x: int|
                    score(
                        frame.rows(),
                        template.rows(),
                        kernel,
                        x,
                        y,
                        template.width as int,
                        template.height as int,
                    ),
            ),
    )
}

/// The term of one pair of cells and its absolute value, or `None` where
/// the absolute value exceeds `i64::MAX`.
fn term_of(kernel: Kernel, a: i64, b: i64) -> (r: Option<(i128, i128)>)
    ensures
        match r {
            Some((t, m)) => t == kernel.term(a as int, b as int) && m == magnitude(t as int) && m
                <= i64::MAX,
            None => magnitude(kernel.term(a as int, b as int)) > i64::MAX,
        },
{
    let d: i128 = a as i128 - b as i128;
    let m: i128 = if d < 0 {
        -d
    } else {
        d
    };
    match kernel {
        Kernel::AbsDiff => {
            if m > i64::MAX as i128 {
                None
            } else {
                Some((m, m))
            }
        },
        Kernel::SqDiff => {
            if m > 3037000499 {
                assert(d * d > i64::MAX) by (nonlinear_arith)
                    requires
                        d >= 3037000500 || d <= -3037000500,
                ;
                None
            } else {
                assert(0 <= d * d <= 3037000499 * 3037000499) by (nonlinear_arith)
                    requires
                        -3037000499 <= d <= 3037000499,
                ;
                let t: i128 = d * d;
                Some((t, t))
            }
        },
        Kernel::Product => {
            assert(-0x4000_0000_0000_0000_0000_0000_0000_0000 <= (a as int) * (b as int)
                <= 0x4000_0000_0000_0000_0000_0000_0000_0000) by (nonlinear_arith)
                requires
                    -0x8000_0000_0000_0000 <= a <= 0x7fff_ffff_ffff_ffff,
                    -0x8000_0000_0000_0000 <= b <= 0x7fff_ffff_ffff_ffff,
            ;
            let t: i128 = a as i128 * b as i128;
            let tm: i128 = if t < 0 {
                -t
            } else {
                t
            };
            if tm > i64::MAX as i128 {
                None
            } else {
                Some((t, tm))
            }
        },
    }
}

/// The score of the template at offset (`x`, `y`) of the frame.
pub fn score_at(frame: &Image, template: &Image, kernel: Kernel, x: u32, y: u32) -> (r: Sample)
    requires
        x + template@.width <= frame@.width,
        y + template@.height <= frame@.height,
    ensures
        r == score(
            frame@.rows(),
            template@.rows(),
            kernel,
            x as int,
            y as int,
            template@.width as int,
            template@.height as int,
        ),
{
    let tw: u32 = template.width();
    let th: u32 = template.height();
    let fw: u32 = frame.width();
    let fh: u32 = frame.height();
    let ghost f = frame@.rows();
    let ghost t = template@.rows();
    let ghost xi = x as int;
    let ghost yi = y as int;
    let ghost w = tw as int;
    let mut acc: i128 = 0;
    let mut mass: i128 = 0;
    let mut j: u32 = 0;
    while j < th
        invariant
            j <= th,
            tw == template@.width,
            th == template@.height,
            x + tw <= fw,
            y + th <= fh,
            fw == frame@.width,
            fh == frame@.height,
            f == frame@.rows(),
            t == template@.rows(),
            xi == x,
            yi == y,
            w == tw,
            acc == window_sum(f, t, kernel, false, xi, yi, w, j as int),
            mass == window_sum(f, t, kernel, true, xi, yi, w, j as int),
            0 <= mass <= i64::MAX,
            rect_defined(f, xi, yi, w, j as int),
            rect_defined(t, 0, 0, w, j as int),
        decreases th - j,
    {
        let mut i: u32 = 0;
        while i < tw
            invariant
                i <= tw,
                j < th,
                tw == template@.width,
                th == template@.height,
                x + tw <= fw,
                y + th <= fh,
                fw == frame@.width,
                fh == frame@.height,
                f == frame@.rows(),
                t == template@.rows(),
                xi == x,
                yi == y,
                w == tw,
                acc == window_sum(f, t, kernel, false, xi, yi, w, j as int) + row_sum(
                    f,
                    t,
                    kernel,
                    false,
                    xi,
                    yi,
                    j as int,
                    i as int,
                ),
                mass == window_sum(f, t, kernel, true, xi, yi, w, j as int) + row_sum(
                    f,
                    t,
                    kernel,
                    true,
                    xi,
                    yi,
                    j as int,
                    i as int,
                ),
                0 <= mass <= i64::MAX,
                rect_defined(f, xi, yi, w, j as int),
                rect_defined(t, 0, 0, w, j as int),
                forall|k: int| 0 <= k < i ==> (#[trigger] f[yi + j][xi + k]) is Some,
                forall|k: int| 0 <= k < i ==> (#[trigger] t[0 + j][0 + k]) is Some,
            decreases tw - i,
        {
            let a = frame.cell(x + i, y + j);
            let b = template.cell(i, j);
            proof {
                lemma_window_sum_within_mass(f, t, kernel, xi, yi, w, j as int);
                lemma_row_sum_within_mass(f, t, kernel, xi, yi, j as int, i as int);
                lemma_row_mass_grows(f, t, kernel, xi, yi, j as int, 0, i as int);
                lemma_window_mass_grows(f, t, kernel, xi, yi, w, 0, j as int);
                lemma_row_mass_grows(f, t, kernel, xi, yi, j as int, i + 1, w);
                lemma_window_mass_grows(f, t, kernel, xi, yi, w, j + 1, th as int);
            }
            match (a, b) {
                (Some(av), Some(bv)) => {
                    match term_of(kernel, av, bv) {
                        Some((term, m)) => {
                            if mass + m > i64::MAX as i128 {
                                return None;
                            }
                            mass = mass + m;
                            acc = acc + term;
                        },
                        None => {
                            return None;
                        },
                    }
                },
                _ => {
                    assert(f[yi + j][xi + i] is None || t[0 + j][0 + i] is None);
                    return None;
                },
            }
            i = i + 1;
        }
        proof {
            assert forall|ii: int, jj: int| 0 <= ii < w && 0 <= jj < j + 1 implies (
            #[trigger] f[yi + jj][xi + ii]) is Some by {
                if jj < j {
                    assert(rect_defined(f, xi, yi, w, j as int));
                }
            }
            assert forall|ii: int, jj: int| 0 <= ii < w && 0 <= jj < j + 1 implies (
            #[trigger] t[0 + jj][0 + ii]) is Some by {
                if jj < j {
                    assert(rect_defined(t, 0, 0, w, j as int));
                }
            }
        }
        j = j + 1;
    }
    proof {
        lemma_window_sum_within_mass(f, t, kernel, xi, yi, w, th as int);
    }
    Some(acc as i64)
}

/// Slides the template over the frame and scores every offset at which it
/// lies inside. A template without cells, or one wider or higher than the
/// frame, is refused.
pub fn raw_scores(frame: &Image, template: &Image, kernel: Kernel) -> (r: Result<
    Image,
    MatchError,
>)
    ensures
        frame@.wf(),
        template@.wf(),
        r is Ok <==> fits_inside(template@, frame@),
        r is Err ==> r->Err_0 == MatchError::DimensionMismatch,
        r is Ok ==> {
            &&& r->Ok_0@.wf()
            &&& r->Ok_0@.width == frame@.width - template@.width + 1
            &&& r->Ok_0@.height == frame@.height - template@.height + 1
            &&& r->Ok_0@.rows() == score_rows(frame@, template@, kernel)
        },
{
    let fw: u32 = frame.width();
    let fh: u32 = frame.height();
    let tw: u32 = template.width();
    let th: u32 = template.height();
    if tw == 0 || th == 0 || tw > fw || th > fh {
        return Err(MatchError::DimensionMismatch);
    }
    let gw: u32 = fw - tw + 1;
    let gh: u32 = fh - th + 1;
    let ghost f = frame@.rows();
    let ghost t = template@.rows();
    let mut data: Vec<Sample> = Vec::new();
    let mut y: u32 = 0;
    let mut x: u32 = 0;
    assert(gw * gh <= fw * fh) by (nonlinear_arith)
        requires
            0 < gw <= fw,
            0 < gh <= fh,
    ;
    let cells: usize = frame.data().len();
    assert(cells == fw * fh);
    let n: usize = gw as usize * gh as usize;
    while data.len() < n
        invariant
            n == gw * gh,
            gw == fw - tw + 1,
            gh == fh - th + 1,
            0 < gw,
            0 < gh,
            fw == frame@.width,
            fh == frame@.height,
            tw == template@.width,
            th == template@.height,
            f == frame@.rows(),
            t == template@.rows(),
            data@.len() <= n,
            data@.len() == y * gw + x,
            data@.len() < n ==> x < gw && y < gh,
            forall|k: int|
                0 <= k < data@.len() ==> #[trigger] data@[k] == score(
                    f,
                    t,
                    kernel,
                    k % (gw as int),
                    k / (gw as int),
                    tw as int,
                    th as int,
                ),
        decreases n - data@.len(),
    {
        proof {
            lemma_next_cell(x as int, y as int, gw as int, gh as int);
            lemma_fundamental_div_mod_converse(
                data@.len() as int,
                gw as int,
                y as int,
                x as int,
            );
        }
        let s = score_at(frame, template, kernel, x, y);
        data.push(s);
        if x + 1 == gw {
            x = 0;
            y = y + 1;
        } else {
            x = x + 1;
        }
    }
    let grid = Image::new(data, gw, gh).unwrap();
    proof {
        let want = score_rows(frame@, template@, kernel);
        let got = grid@.rows();
        assert(got.len() == want.len());
        assert forall|yy: int| 0 <= yy < got.len() implies #[trigger] got[yy] =~= want[yy] by {
            assert forall|xx: int| 0 <= xx < gw implies got[yy][xx] == want[yy][xx] by {
                crate::image::lemma_cell_index(xx, yy, gw as int, gh as int);
                lemma_fundamental_div_mod_converse(yy * gw + xx, gw as int, yy, xx);
            }
        }
        assert(got =~= want);
    }
    Ok(grid)
}

/// The fixed-point scale of normalized scores: a correlation of 1 is
/// reported as this number.
pub const SCORE_SCALE: i64 = 1_000_000;

/// An image of the size of `img` whose cells all hold 1: the mask that
/// turns a cross-correlation into the sum of the frame cells under the
/// template.
pub open spec fn ones(img: ImageView) -> ImageView {
    ImageView { width: img.width, height: img.height, data: Seq::new(img.data.len(), |i: int| Some(1i64)) }
}

/// The image with every cell squared.
pub open spec fn squares(img: ImageView) -> ImageView {
    ImageView {
        width: img.width,
        height: img.height,
        data: Seq::new(img.data.len(), |i: int| sample_mul(img.data[i], img.data[i])),
    }
}

/// The number of cells of an image.
pub open spec fn area(img: ImageView) -> Sample {
    sample_of((img.width * img.height) as int)
}

/// The sum of all cells of an image.
pub open spec fn total(img: ImageView) -> Sample {
    score(
        img.rows(),
        ones(img).rows(),
        Kernel::Product,
        0,
        0,
        img.width as int,
        img.height as int,
    )
}

/// The cross-correlation of frame and template at offset (`x`, `y`).
pub open spec fn correlation(frame: ImageView, template: ImageView, x: int, y: int) -> Sample {
    score(
        frame.rows(),
        template.rows(),
        Kernel::Product,
        x,
        y,
        template.width as int,
        template.height as int,
    )
}

/// The sum of the frame cells under the template at offset (`x`, `y`).
pub open spec fn local_sum(frame: ImageView, template: ImageView, x: int, y: int) -> Sample {
    correlation(frame, ones(template), x, y)
}

/// `n` times the variance of `n` numbers with the given sum and sum of
/// squares, times `n` again: `n * square_sum - sum * sum`.
pub open spec fn energy(n: Sample, sum: Sample, square_sum: Sample) -> Sample {
    sample_sub(sample_mul(square_sum, n), sample_mul(sum, sum))
}

/// The mean-subtracted cross-correlation at offset (`x`, `y`), times the
/// number `n` of template cells so that it stays an integer:
/// `n * correlation - template_sum * local_sum`, in sample arithmetic.
pub open spec fn ccoeff_cell(frame: ImageView, template: ImageView, x: int, y: int) -> Sample {
    sample_sub(
        sample_mul(correlation(frame, template, x, y), area(template)),
        sample_mul(local_sum(frame, template, x, y), total(template)),
    )
}

/// `m` times the scale, divided by the square root of `p` and rounded
/// down: the root, rounded down, of `m * m` times the square of the scale
/// over `p`. `lemma_scaled_root` says that this is the quotient by the real
/// root, to one unit of the scale.
pub open spec fn scaled_root(m: int, p: int) -> int {
    floor_sqrt((m * m * SCALE_SQUARED) / p)
}

/// The quotient of `num` by the square root of `e_i * e_t`, in fixed point
/// and rounded towards zero: a quotient of 1 is `SCORE_SCALE`. It is
/// undefined where an operand is, where an energy is not positive, and
/// where the quotient does not fit a sample.
pub open spec fn pearson(num: Sample, e_i: Sample, e_t: Sample) -> Sample {
    if num is Some && e_i is Some && e_t is Some && value(e_i) > 0 && value(e_t) > 0 {
        let q = scaled_root(magnitude(value(num)), value(e_i) * value(e_t));
        sample_of(
            if value(num) < 0 {
                -q
            } else {
                q
            },
        )
    } else {
        None
    }
}

/// The scaled root is the quotient of `m` times the scale by the real
/// square root of `p`, rounded down: its square times `p` is at most the
/// square of `m` times the scale, and the next number's is more.
pub proof fn lemma_scaled_root(m: int, p: int)
    requires
        0 <= m,
        0 < p,
    ensures
        0 <= scaled_root(m, p),
        scaled_root(m, p) * scaled_root(m, p) * p <= m * m * (SCORE_SCALE * SCORE_SCALE),
        m * m * (SCORE_SCALE * SCORE_SCALE) < (scaled_root(m, p) + 1) * (scaled_root(m, p) + 1) * p,
{
    let t = SCALE_SQUARED as int;
    assert(SCORE_SCALE * SCORE_SCALE == t) by (nonlinear_arith)
        requires
            t == 1_000_000_000_000,
    ;
    let mm = m * m;
    assert(mm >= 0) by (nonlinear_arith)
        requires
            mm == m * m,
    ;
    let y = mm * t;
    assert(y >= 0) by (nonlinear_arith)
        requires
            y == mm * t,
            mm >= 0,
            t >= 0,
    ;
    let x = y / p;
    lemma_fundamental_div_mod(y, p);
    lemma_mod_bound(y, p);
    assert(x >= 0) by (nonlinear_arith)
        requires
            y == p * x + y % p,
            0 <= y % p < p,
            y >= 0,
            p > 0,
    ;
    crate::sample::lemma_floor_sqrt_exists(x as nat);
    let q = floor_sqrt(x);
    let qq = q * q;
    let rr = (q + 1) * (q + 1);
    assert(qq * p <= x * p) by (nonlinear_arith)
        requires
            qq <= x,
            p > 0,
    ;
    assert(rr * p >= (x + 1) * p) by (nonlinear_arith)
        requires
            rr >= x + 1,
            p > 0,
    ;
    assert((x + 1) * p == p * x + p) by (nonlinear_arith);
    assert(x * p == p * x) by (nonlinear_arith);
}

/// Where the square of `m` is at most `p`, the scaled root is at most the
/// scale; where it is `p`, the scaled root is the scale.
pub proof fn lemma_scaled_root_within_scale(m: int, p: int)
    requires
        0 <= m,
        0 < p,
        m * m <= p,
    ensures
        0 <= scaled_root(m, p) <= SCORE_SCALE,
        m * m == p ==> scaled_root(m, p) == SCORE_SCALE,
{
    lemma_scaled_root(m, p);
    let q = scaled_root(m, p);
    let s = SCORE_SCALE as int;
    let ss = s * s;
    let mm = m * m;
    let qq = q * q;
    let rr = (q + 1) * (q + 1);
    assert(mm * ss <= p * ss) by (nonlinear_arith)
        requires
            mm <= p,
            ss >= 0,
    ;
    assert(qq <= ss) by (nonlinear_arith)
        requires
            qq * p <= p * ss,
            p > 0,
    ;
    assert(q <= s) by (nonlinear_arith)
        requires
            qq == q * q,
            ss == s * s,
            qq <= ss,
            0 <= q,
            0 <= s,
    ;
    if mm == p {
        assert(ss < rr) by (nonlinear_arith)
            requires
                p * ss < rr * p,
                p > 0,
        ;
        assert(s < q + 1) by (nonlinear_arith)
            requires
                ss == s * s,
                rr == (q + 1) * (q + 1),
                ss < rr,
                0 <= q,
                0 <= s,
        ;
    }
}

/// The scaled root does not change when `m` is taken `c` times and `p`
/// `c * c` times: a score does not depend on the scale of the luminance.
pub proof fn lemma_scaled_root_scale_free(m: int, p: int, c: int)
    requires
        0 <= m,
        0 < p,
        0 < c,
    ensures
        scaled_root(c * m, c * c * p) == scaled_root(m, p),
{
    let t = SCALE_SQUARED as int;
    let cc = c * c;
    let a = m * m * t;
    assert(cc > 0) by (nonlinear_arith)
        requires
            cc == c * c,
            c > 0,
    ;
    assert(a >= 0) by (nonlinear_arith)
        requires
            a == m * m * t,
            t >= 0,
    ;
    vstd::arithmetic::div_mod::lemma_div_multiples_vanish_quotient(cc, a, p);
    assert((c * m) * (c * m) * t == cc * a) by (nonlinear_arith)
        requires
            cc == c * c,
            a == m * m * t,
    ;
}

/// The energy of the frame cells under the template at offset (`x`, `y`).
pub open spec fn local_energy(frame: ImageView, template: ImageView, x: int, y: int) -> Sample {
    energy(
        area(template),
        local_sum(frame, template, x, y),
        local_sum(squares(frame), template, x, y),
    )
}

/// The energy of the template.
pub open spec fn template_energy(template: ImageView) -> Sample {
    energy(area(template), total(template), total(squares(template)))
}

/// The normalized mean-subtracted cross-correlation at offset (`x`, `y`):
/// the correlation coefficient of the template and the frame cells under
/// it, in fixed point.
pub open spec fn ccoeff_normed_cell(frame: ImageView, template: ImageView, x: int, y: int) -> Sample {
    pearson(
        ccoeff_cell(frame, template, x, y),
        local_energy(frame, template, x, y),
        template_energy(template),
    )
}

/// The score of `method` at offset (`x`, `y`).
pub open spec fn method_cell(
    method: MatchTemplateMethod,
    frame: ImageView,
    template: ImageView,
    x: int,
    y: int,
) -> Sample {
    let w = template.width as int;
    let h = template.height as int;
    match method {
        MatchTemplateMethod::SumOfAbsoluteErrors => score(
            frame.rows(),
            template.rows(),
            Kernel::AbsDiff,
            x,
            y,
            w,
            h,
        ),
        MatchTemplateMethod::SumOfSquaredErrors => score(
            frame.rows(),
            template.rows(),
            Kernel::SqDiff,
            x,
            y,
            w,
            h,
        ),
        MatchTemplateMethod::CrossCorrelation => correlation(frame, template, x, y),
        MatchTemplateMethod::CCOEFF => ccoeff_cell(frame, template, x, y),
        MatchTemplateMethod::CCOEFF_NORMED => ccoeff_normed_cell(frame, template, x, y),
    }
}

/// The score grid of `method`, as rows.
pub open spec fn method_rows(method: MatchTemplateMethod, frame: ImageView, template: ImageView) -> Seq<
    Seq<Sample>,
> {
    Seq::new(
        (frame.height - template.height + 1) as nat,
        |y: int|
            Seq::new(
                (frame.width - template.width + 1) as nat,
                |x: int| method_cell(method, frame, template, x, y),
            ),
    )
}

/// The correlation coefficient in fixed point of a numerator and two
/// energies.
pub fn pearson_score(num: Sample, e_i: Sample, e_t: Sample) -> (r: Sample)
    ensures
        r == pearson(num, e_i, e_t),
{
    match (num, e_i, e_t) {
        (Some(nv), Some(a), Some(b)) => {
            if a > 0 && b > 0 {
                assert(1 <= (a as int) * (b as int) <= 0x7fff_ffff_ffff_ffff
                    * 0x7fff_ffff_ffff_ffff) by (nonlinear_arith)
                    requires
                        1 <= a <= 0x7fff_ffff_ffff_ffff,
                        1 <= b <= 0x7fff_ffff_ffff_ffff,
                ;
                let product: u128 = a as u128 * b as u128;
                let m: u128 = if nv < 0 {
                    (-(nv as i128)) as u128
                } else {
                    nv as u128
                };
                assert(0 <= m * m <= 0x8000_0000_0000_0000 * 0x8000_0000_0000_0000)
                    by (nonlinear_arith)
                    requires
                        0 <= m <= 0x8000_0000_0000_0000,
                ;
                let square: u128 = m * m;
                match scaled_quotient(square, product) {
                    Some(x) => {
                        let q: u64 = isqrt(x);
                        if nv < 0 {
                            narrow(-(q as i128))
                        } else {
                            narrow(q as i128)
                        }
                    },
                    None => {
                        proof {
                            let x = (square * SCALE_SQUARED) / (product as int);
                            crate::sample::lemma_floor_sqrt_exists(x as nat);
                            let q = floor_sqrt(x);
                            assert(q > 0x8000_0000_0000_0000) by (nonlinear_arith)
                                requires
                                    0 <= q,
                                    x < (q + 1) * (q + 1),
                                    x >= 0x8000_0000_0000_0000_0000_0000_0000_0000,
                            ;
                        }
                        None
                    },
                }
            } else {
                None
            }
        },
        _ => None,
    }
}

/// What a call that scores a template over a frame owes: a refusal exactly
/// where the template has no cells or does not lie inside the frame, and
/// else the grid of the method's scores.
pub open spec fn is_score_grid(
    r: Result<Image, MatchError>,
    method: MatchTemplateMethod,
    frame: ImageView,
    template: ImageView,
) -> bool {
    &&& r is Ok <==> fits_inside(template, frame)
    &&& r is Err ==> r->Err_0 == MatchError::DimensionMismatch
    &&& r is Ok ==> {
        &&& r->Ok_0@.wf()
        &&& r->Ok_0@.width == frame.width - template.width + 1
        &&& r->Ok_0@.height == frame.height - template.height + 1
        &&& r->Ok_0@.rows() == method_rows(method, frame, template)
    }
}

/// The cell in column `x` of row `y` of an image, in its buffer.
pub proof fn lemma_rows_at(v: ImageView, x: int, y: int)
    requires
        v.wf(),
        0 <= x < v.width,
        0 <= y < v.height,
    ensures
        0 <= y * v.width + x < v.data.len(),
        v.rows()[y][x] == v.data[y * v.width + x],
{
    crate::image::lemma_cell_index(x, y, v.width as int, v.height as int);
}

/// Divides a grid of numerators by the square roots of the energies: cell
/// by cell the correlation coefficient in fixed point, of the numerator,
/// the energy in that cell and the energy of the template.
pub fn normalize(numerators: &Image, energies: &Image, template_energy: Sample) -> (r: Result<
    Image,
    MatchError,
>)
    ensures
        r is Ok <==> numerators@.same_size(energies@),
        r is Err ==> r->Err_0 == MatchError::DimensionMismatch,
        r is Ok ==> r->Ok_0@.same_size(numerators@) && r->Ok_0@.wf() && forall|i: int|
            0 <= i < numerators@.data.len() ==> #[trigger] r->Ok_0@.data[i] == pearson(
                numerators@.data[i],
                energies@.data[i],
                template_energy,
            ),
{
    let width: u32 = numerators.width();
    let height: u32 = numerators.height();
    if width != energies.width() || height != energies.height() {
        return Err(MatchError::DimensionMismatch);
    }
    let nums = numerators.data();
    let ens = energies.data();
    let n: usize = nums.len();
    let mut data: Vec<Sample> = Vec::new();
    let mut i: usize = 0;
    while i < n
        invariant
            n == nums@.len(),
            n == ens@.len(),
            i <= n,
            data@.len() == i,
            forall|k: int|
                0 <= k < i ==> #[trigger] data@[k] == pearson(nums@[k], ens@[k], template_energy),
        decreases n - i,
    {
        data.push(pearson_score(nums[i], ens[i], template_energy));
        i = i + 1;
    }
    Ok(Image::new(data, width, height).unwrap())
}

/// Whether every defined score lies between -1 and 1 in fixed point.
pub open spec fn within_unit(data: Seq<Sample>) -> bool {
    forall|i: int|
        0 <= i < data.len() && data[i] is Some ==> -SCORE_SCALE <= (#[trigger] data[i])->Some_0
            <= SCORE_SCALE
}

/// The cross-correlation of a template slid over a frame.
pub fn ccorr(input: &Image, template: &Image) -> (r: Result<Image, MatchError>)
    ensures
        is_score_grid(r, MatchTemplateMethod::CrossCorrelation, input@, template@),
{
    let r = raw_scores(input, template, Kernel::Product);
    proof {
        if r is Ok {
            assert(score_rows(input@, template@, Kernel::Product) =~~= method_rows(
                MatchTemplateMethod::CrossCorrelation,
                input@,
                template@,
            ));
        }
    }
    r
}

/// The mean-subtracted cross-correlation from a cross-correlation `raw` and
/// the sum `sum` of the frame cells under the template, times the number
/// of template cells: `n * raw - template_sum * sum`.
pub open spec fn composed_cell(raw: Sample, sum: Sample, template: ImageView) -> Sample {
    sample_sub(sample_mul(raw, area(template)), sample_mul(sum, total(template)))
}

/// The normalized mean-subtracted cross-correlation from a
/// cross-correlation, and the sum and the sum of squares of the frame cells
/// under the template.
pub open spec fn composed_normed_cell(
    raw: Sample,
    sum: Sample,
    square_sum: Sample,
    template: ImageView,
) -> Sample {
    pearson(
        composed_cell(raw, sum, template),
        energy(area(template), sum, square_sum),
        template_energy(template),
    )
}

/// The number of cells of a template, their sum, and the template's
/// energy.
pub fn template_sums(template: &Image) -> (r: (Sample, Sample, Sample))
    ensures
        r.0 == area(template@),
        r.1 == total(template@),
        r.2 == template_energy(template@),
{
    let tw: u32 = template.width();
    let th: u32 = template.height();
    let mask = template.constant_like(Some(1));
    assert(mask@ == ones(template@));
    assert(0 <= tw * th <= 0xffff_ffff * 0xffff_ffff) by (nonlinear_arith)
        requires
            0 <= tw <= 0xffff_ffff,
            0 <= th <= 0xffff_ffff,
    ;
    let n = narrow(tw as i128 * th as i128);
    let sum = score_at(template, &mask, Kernel::Product, 0, 0);
    let template_squared = template.mul(template).unwrap();
    assert(template_squared@.data =~= squares(template@).data);
    assert(template_squared@ == squares(template@));
    assert(ones(squares(template@)) == mask@);
    let square_sum = score_at(&template_squared, &mask, Kernel::Product, 0, 0);
    let e_t = sub_samples(mul_samples(square_sum, n), mul_samples(sum, sum));
    (n, sum, e_t)
}

/// Composes the mean-subtracted cross-correlation, cell by cell, from the
/// grid of cross-correlations of frame and template and the grid of sums
/// of the frame cells under the template. The two grids must be of one
/// size.
pub fn compose_ccoeff(raw: &Image, sums: &Image, template: &Image) -> (r: Result<Image, MatchError>)
    ensures
        raw@.wf(),
        sums@.wf(),
        r is Ok <==> raw@.same_size(sums@),
        r is Err ==> r->Err_0 == MatchError::DimensionMismatch,
        r is Ok ==> r->Ok_0@.same_size(raw@) && r->Ok_0@.wf() && forall|i: int|
            0 <= i < raw@.data.len() ==> #[trigger] r->Ok_0@.data[i] == composed_cell(
                raw@.data[i],
                sums@.data[i],
                template@,
            ),
{
    let (n, template_sum, _) = template_sums(template);
    let scaled_raw = raw.scale(n);
    let scaled_sums = sums.scale(template_sum);
    let r = scaled_raw.sub(&scaled_sums);
    proof {
        if r is Ok {
            assert forall|i: int| 0 <= i < raw@.data.len() implies #[trigger] r->Ok_0@.data[i]
                == composed_cell(raw@.data[i], sums@.data[i], template@) by {
                assert(scaled_raw@.data[i] == sample_mul(raw@.data[i], n));
                assert(scaled_sums@.data[i] == sample_mul(sums@.data[i], template_sum));
            }
        }
    }
    r
}

/// Composes the normalized mean-subtracted cross-correlation, cell by
/// cell, from the grids of cross-correlations, of sums and of sums of
/// squares of the frame cells under the template. The three grids must be
/// of one size.
pub fn compose_ccoeff_normed(
    raw: &Image,
    sums: &Image,
    square_sums: &Image,
    template: &Image,
) -> (r: Result<Image, MatchError>)
    ensures
        raw@.wf(),
        sums@.wf(),
        square_sums@.wf(),
        r is Ok <==> (raw@.same_size(sums@) && raw@.same_size(square_sums@)),
        r is Err ==> r->Err_0 == MatchError::DimensionMismatch,
        r is Ok ==> r->Ok_0@.same_size(raw@) && r->Ok_0@.wf() && forall|i: int|
            0 <= i < raw@.data.len() ==> #[trigger] r->Ok_0@.data[i] == composed_normed_cell(
                raw@.data[i],
                sums@.data[i],
                square_sums@.data[i],
                template@,
            ),
{
    let (n, _, e_t) = template_sums(template);
    let scaled_squares = square_sums.scale(n);
    let numerators = match compose_ccoeff(raw, sums, template) {
        Ok(grid) => grid,
        Err(e) => {
            return Err(e);
        },
    };
    let sums_squared = sums.mul(sums).unwrap();
    let energies = match scaled_squares.sub(&sums_squared) {
        Ok(grid) => grid,
        Err(e) => {
            return Err(e);
        },
    };
    let grid = normalize(&numerators, &energies, e_t).unwrap();
    proof {
        assert forall|i: int| 0 <= i < raw@.data.len() implies #[trigger] grid@.data[i]
            == composed_normed_cell(
            raw@.data[i],
            sums@.data[i],
            square_sums@.data[i],
            template@,
        ) by {
            assert(grid@.data[i] == pearson(numerators@.data[i], energies@.data[i], e_t));
            assert(scaled_squares@.data[i] == sample_mul(square_sums@.data[i], n));
            assert(sums_squared@.data[i] == sample_mul(sums@.data[i], sums@.data[i]));
            assert(energies@.data[i] == sample_sub(scaled_squares@.data[i], sums_squared@.data[i]));
        }
    }
    Ok(grid)
}

/// The mean-subtracted cross-correlation of a template slid over a frame,
/// composed from cross-correlations: that of the frame with the template,
/// and that of the frame with a mask of ones, which gives the sums of the
/// frame cells under the template. With `normed` set, each score is divided
/// by the energies of the cells under the template and of the template,
/// and lies between -1 and 1 in fixed point.
pub fn ccoeff(input: &Image, template: &Image, normed: bool) -> (r: Result<Image, MatchError>)
    ensures
        is_score_grid(
            r,
            if normed {
                MatchTemplateMethod::CCOEFF_NORMED
            } else {
                MatchTemplateMethod::CCOEFF
            },
            input@,
            template@,
        ),
        normed && r is Ok ==> within_unit(r->Ok_0@.data),
{
    let mask = template.constant_like(Some(1));
    assert(mask@ == ones(template@));
    let raw = match raw_scores(input, template, Kernel::Product) {
        Ok(grid) => grid,
        Err(e) => {
            return Err(e);
        },
    };
    let sums = raw_scores(input, &mask, Kernel::Product).unwrap();
    let ghost gw = raw@.width as int;
    let ghost gh = raw@.height as int;
    if !normed {
        let numerators = compose_ccoeff(&raw, &sums, template).unwrap();
        proof {
            assert forall|x: int, y: int| 0 <= x < gw && 0 <= y < gh implies
                numerators@.rows()[y][x] == ccoeff_cell(input@, template@, x, y) by {
                lemma_rows_at(numerators@, x, y);
                lemma_rows_at(raw@, x, y);
                lemma_rows_at(sums@, x, y);
                assert(raw@.rows()[y][x] == score_rows(input@, template@, Kernel::Product)[y][x]);
                assert(sums@.rows()[y][x] == score_rows(input@, mask@, Kernel::Product)[y][x]);
            }
            assert(numerators@.rows() =~~= method_rows(
                MatchTemplateMethod::CCOEFF,
                input@,
                template@,
            ));
        }
        return Ok(numerators);
    }
    let squared = input.mul(input).unwrap();
    assert(squared@.data =~= squares(input@).data);
    assert(squared@ == squares(input@));
    let square_sums = raw_scores(&squared, &mask, Kernel::Product).unwrap();
    let grid = compose_ccoeff_normed(&raw, &sums, &square_sums, template).unwrap();
    proof {
        assert forall|x: int, y: int| 0 <= x < gw && 0 <= y < gh implies grid@.rows()[y][x]
            == ccoeff_normed_cell(input@, template@, x, y) by {
            lemma_rows_at(grid@, x, y);
            lemma_rows_at(raw@, x, y);
            lemma_rows_at(sums@, x, y);
            lemma_rows_at(square_sums@, x, y);
            assert(raw@.rows()[y][x] == score_rows(input@, template@, Kernel::Product)[y][x]);
            assert(sums@.rows()[y][x] == score_rows(input@, mask@, Kernel::Product)[y][x]);
            assert(square_sums@.rows()[y][x] == score_rows(
                squared@,
                mask@,
                Kernel::Product,
            )[y][x]);
        }
        assert(grid@.rows() =~~= method_rows(
            MatchTemplateMethod::CCOEFF_NORMED,
            input@,
            template@,
        ));
        assert forall|i: int| 0 <= i < grid@.data.len() && grid@.data[i] is Some implies
            -SCORE_SCALE <= (#[trigger] grid@.data[i])->Some_0 <= SCORE_SCALE by {
            crate::search::lemma_cell_location(i, gw, gh);
            let x = i % gw;
            let y = i / gw;
            lemma_rows_at(grid@, x, y);
            crate::coefficient::lemma_normed_score_in_range(input@, template@, x, y);
        }
    }
    Ok(grid)
}

/// Slides a template over the input and scores the match at each offset
/// with the requested method.
pub fn match_template(input: &Image, template: &Image, method: MatchTemplateMethod) -> (r: Result<
    Image,
    MatchError,
>)
    ensures
        is_score_grid(r, method, input@, template@),
{
    match method {
        MatchTemplateMethod::CCOEFF => ccoeff(input, template, false),
        MatchTemplateMethod::CCOEFF_NORMED => ccoeff(input, template, true),
        MatchTemplateMethod::CrossCorrelation => ccorr(input, template),
        MatchTemplateMethod::SumOfAbsoluteErrors => {
            let r = raw_scores(input, template, Kernel::AbsDiff);
            proof {
                if r is Ok {
                    assert(score_rows(input@, template@, Kernel::AbsDiff) =~~= method_rows(
                        method,
                        input@,
                        template@,
                    ));
                }
            }
            r
        },
        MatchTemplateMethod::SumOfSquaredErrors => {
            let r = raw_scores(input, template, Kernel::SqDiff);
            proof {
                if r is Ok {
                    assert(score_rows(input@, template@, Kernel::SqDiff) =~~= method_rows(
                        method,
                        input@,
                        template@,
                    ));
                }
            }
            r
        },
    }
}

} // verus!
