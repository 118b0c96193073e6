//! Samples: the numbers that images and score grids hold.
//!
//! A sample is an integer in the range of `i64`, or undefined. Arithmetic on
//! samples is exact where the result fits and undefined where it does not;
//! an undefined operand makes the result undefined.

use vstd::prelude::*;

verus! {

/// One cell of an image or of a score grid: `Some(v)` is the number `v`,
/// `None` is undefined.
pub type Sample = Option<i64>;

/// Whether `v` lies in the range of `i64`.
pub open spec fn fits(v: int) -> bool {
    i64::MIN <= v <= i64::MAX
}

/// The sample that stands for the integer `v`: `v` itself where it fits,
/// undefined where it does not.
pub open spec fn sample_of(v: int) -> Sample {
    if fits(v) {
        Some(v as i64)
    } else {
        None
    }
}

/// The number a sample holds, and zero for an undefined one.
pub open spec fn value(s: Sample) -> int {
    match s {
        Some(v) => v as int,
        None => 0,
    }
}

/// Sum of two samples.
pub open spec fn sample_add(a: Sample, b: Sample) -> Sample {
    if a is Some && b is Some {
        sample_of(value(a) + value(b))
    } else {
        None
    }
}

/// Difference of two samples.
pub open spec fn sample_sub(a: Sample, b: Sample) -> Sample {
    if a is Some && b is Some {
        sample_of(value(a) - value(b))
    } else {
        None
    }
}

/// Product of two samples.
pub open spec fn sample_mul(a: Sample, b: Sample) -> Sample {
    if a is Some && b is Some {
        sample_of(value(a) * value(b))
    } else {
        None
    }
}

/// Narrows a wide integer to a sample.
pub fn narrow(v: i128) -> (r: Sample)
    ensures
        r == sample_of(v as int),
{
    if v < i64::MIN as i128 || v > i64::MAX as i128 {
        None
    } else {
        Some(v as i64)
    }
}

/// Adds two samples.
pub fn add_samples(a: Sample, b: Sample) -> (r: Sample)
    ensures
        r == sample_add(a, b),
{
    match (a, b) {
        (Some(x), Some(y)) => narrow(x as i128 + y as i128),
        _ => None,
    }
}

/// Subtracts the sample `b` from the sample `a`.
pub fn sub_samples(a: Sample, b: Sample) -> (r: Sample)
    ensures
        r == sample_sub(a, b),
{
    match (a, b) {
        (Some(x), Some(y)) => narrow(x as i128 - y as i128),
        _ => None,
    }
}

/// Multiplies two samples.
pub fn mul_samples(a: Sample, b: Sample) -> (r: Sample)
    ensures
        r == sample_mul(a, b),
{
    match (a, b) {
        (Some(x), Some(y)) => {
            assert(-0x4000_0000_0000_0000_0000_0000_0000_0000 <= (x as int) * (y as int)
                <= 0x4000_0000_0000_0000_0000_0000_0000_0000) by (nonlinear_arith)
                requires
                    -0x8000_0000_0000_0000 <= x <= 0x7fff_ffff_ffff_ffff,
                    -0x8000_0000_0000_0000 <= y <= 0x7fff_ffff_ffff_ffff,
            ;
            narrow(x as i128 * y as i128)
        },
        _ => None,
    }
}

/// The quotient of `a` by `k`, rounded towards zero.
pub open spec fn quotient(a: int, k: int) -> int
    recommends
        k != 0,
{
    let q = (if a < 0 { -a } else { a }) / (if k < 0 { -k } else { k });
    if (a < 0) == (k < 0) {
        q
    } else {
        -q
    }
}

/// A sample divided by the number `k`, rounded towards zero. Division by
/// zero is undefined.
pub open spec fn sample_div(a: Sample, k: int) -> Sample {
    if a is Some && k != 0 {
        sample_of(quotient(value(a), k))
    } else {
        None
    }
}

/// Whether `r` is the square root of `n`, rounded down.
pub open spec fn is_floor_sqrt(r: int, n: int) -> bool {
    0 <= r && r * r <= n < (r + 1) * (r + 1)
}

/// The square root of `n`, rounded down.
pub open spec fn floor_sqrt(n: int) -> int {
    choose|r: int| is_floor_sqrt(r, n)
}

/// A number has at most one square root rounded down.
pub proof fn lemma_floor_sqrt_unique(a: int, b: int, n: int)
    requires
        is_floor_sqrt(a, n),
        is_floor_sqrt(b, n),
    ensures
        a == b,
{
    if a < b {
        assert((a + 1) * (a + 1) <= b * b) by (nonlinear_arith)
            requires
                0 <= a,
                a + 1 <= b,
        ;
    }
    if b < a {
        assert((b + 1) * (b + 1) <= a * a) by (nonlinear_arith)
            requires
                0 <= b,
                b + 1 <= a,
        ;
    }
}

/// The square root of `n` rounded down, counted up from zero.
pub open spec fn sqrt_down(n: nat) -> nat
    decreases n,
{
    if n == 0 {
        0
    } else {
        let r = sqrt_down((n - 1) as nat);
        if (r + 1) * (r + 1) <= n {
            r + 1
        } else {
            r
        }
    }
}

/// Every number that is not negative has a square root rounded down.
pub proof fn lemma_floor_sqrt_exists(n: nat)
    ensures
        is_floor_sqrt(sqrt_down(n) as int, n as int),
        is_floor_sqrt(floor_sqrt(n as int), n as int),
    decreases n,
{
    if n > 0 {
        lemma_floor_sqrt_exists((n - 1) as nat);
        let r = sqrt_down((n - 1) as nat) as int;
        if (r + 1) * (r + 1) <= n {
            assert((r + 2) * (r + 2) > n) by (nonlinear_arith)
                requires
                    n - 1 < (r + 1) * (r + 1),
                    0 <= r,
            ;
        }
    } else {
        assert(is_floor_sqrt(0, 0)) by (nonlinear_arith);
    }
    assert(is_floor_sqrt(sqrt_down(n) as int, n as int));
}

/// The square root of a sample, rounded down. The root of a negative number
/// is undefined.
pub open spec fn is_sample_sqrt(r: Sample, a: Sample) -> bool {
    if a is Some && value(a) >= 0 {
        r is Some && is_floor_sqrt(value(r), value(a))
    } else {
        r is None
    }
}

/// Divides a sample by `k`, rounding towards zero.
pub fn div_sample(a: Sample, k: i64) -> (r: Sample)
    ensures
        r == sample_div(a, k as int),
{
    match a {
        Some(x) => {
            if k == 0 {
                None
            } else {
                let xm: u128 = if x < 0 {
                    (-(x as i128)) as u128
                } else {
                    x as u128
                };
                let km: u128 = if k < 0 {
                    (-(k as i128)) as u128
                } else {
                    k as u128
                };
                let q: u128 = xm / km;
                assert(q <= xm) by (nonlinear_arith)
                    requires
                        q == xm / km,
                        km >= 1,
                ;
                if (x < 0) == (k < 0) {
                    narrow(q as i128)
                } else {
                    narrow(-(q as i128))
                }
            }
        },
        None => None,
    }
}

/// The square root of `n`, rounded down.
pub fn isqrt(n: u128) -> (r: u64)
    ensures
        is_floor_sqrt(r as int, n as int),
        r == floor_sqrt(n as int),
{
    let mut lo: u128 = 0;
    let mut hi: u128 = 0x1_0000_0000_0000_0000;
    assert(0x1_0000_0000_0000_0000int * 0x1_0000_0000_0000_0000int
        == 0x1_0000_0000_0000_0000_0000_0000_0000_0000int) by (nonlinear_arith);
    while hi - lo > 1
        invariant
            lo < hi <= 0x1_0000_0000_0000_0000,
            lo * lo <= n < hi * hi,
        decreases hi - lo,
    {
        let mid: u128 = lo + (hi - lo) / 2;
        assert(mid * mid <= 0xffff_ffff_ffff_ffff * 0xffff_ffff_ffff_ffff) by (nonlinear_arith)
            requires
                0 <= mid <= 0xffff_ffff_ffff_ffff,
        ;
        if mid * mid <= n {
            lo = mid;
        } else {
            hi = mid;
        }
    }
    proof {
        assert(is_floor_sqrt(lo as int, n as int));
        lemma_floor_sqrt_unique(lo as int, floor_sqrt(n as int), n as int);
    }
    lo as u64
}

/// The square root of a sample, rounded down.
pub fn sqrt_sample(a: Sample) -> (r: Sample)
    ensures
        is_sample_sqrt(r, a),
{
    match a {
        Some(x) => {
            if x < 0 {
                None
            } else {
                let root: u64 = isqrt(x as u128);
                assert(root <= x) by (nonlinear_arith)
                    requires
                        0 <= root,
                        root * root <= x,
                ;
                Some(root as i64)
            }
        },
        None => None,
    }
}

} // verus!
