//! The quotient of a scaled number, by long division.
//!
//! A normalized score is a quotient by a square root. To be exact to one
//! unit of the scale, the square of the numerator is first scaled by the
//! square of the scale and divided by the product of the energies; the root
//! is taken of that quotient. The scaled square does not fit a machine
//! word, so the division goes digit by digit: each step multiplies the
//! quotient so far and the rest by ten.

use vstd::prelude::*;
use vstd::arithmetic::div_mod::{lemma_fundamental_div_mod, lemma_fundamental_div_mod_converse,
    lemma_mod_bound, lemma_div_is_ordered, lemma_div_multiples_vanish};

verus! {

/// The square of the scale of normalized scores.
pub const SCALE_SQUARED: u128 = 1_000_000_000_000;

/// The number of quotients below which a scaled quotient is sure to fit.
pub const QUOTIENT_BOUND: u128 = 170_141_183_460_469_231_731_687_304;

/// Two to the power of 127.
pub const TWO_TO_127: u128 = 0x8000_0000_0000_0000_0000_0000_0000_0000;

/// Whether `m` is a power of ten from 1 to the square of the scale.
pub open spec fn is_step(m: int) -> bool {
    m == 1 || m == 10 || m == 100 || m == 1_000 || m == 10_000 || m == 100_000 || m == 1_000_000
        || m == 10_000_000 || m == 100_000_000 || m == 1_000_000_000 || m == 10_000_000_000 || m
        == 100_000_000_000 || m == 1_000_000_000_000
}

/// Adds two numbers that are each given as a quotient by `p` and a rest:
/// the quotient and the rest of the sum.
fn add_parts(x1: u128, rest1: u128, x2: u128, rest2: u128, p: u128) -> (r: (u128, u128))
    requires
        0 < p < 0x4000_0000_0000_0000_0000_0000_0000_0000,
        rest1 < p,
        rest2 < p,
        x1 + x2 + 1 <= u128::MAX,
    ensures
        r.1 < p,
        r.0 * p + r.1 == (x1 * p + rest1) + (x2 * p + rest2),
        x1 + x2 <= r.0 <= x1 + x2 + 1,
{
    let rest: u128 = rest1 + rest2;
    assert((x1 + x2) * p == x1 * p + x2 * p) by (nonlinear_arith);
    assert((x1 + x2 + 1) * p == x1 * p + x2 * p + p) by (nonlinear_arith);
    if rest >= p {
        (x1 + x2 + 1, rest - p)
    } else {
        (x1 + x2, rest)
    }
}

/// Ten times a number that is given as a quotient by `p` and a rest: its
/// quotient and its rest.
fn times_ten(x: u128, rest: u128, p: u128) -> (r: (u128, u128))
    requires
        0 < p < 0x4000_0000_0000_0000_0000_0000_0000_0000,
        rest < p,
        10 * x + 9 <= u128::MAX,
    ensures
        r.1 < p,
        r.0 * p + r.1 == 10 * (x * p + rest),
        10 * x <= r.0 <= 10 * x + 9,
{
    let two = add_parts(x, rest, x, rest, p);
    let four = add_parts(two.0, two.1, two.0, two.1, p);
    let five = add_parts(four.0, four.1, x, rest, p);
    add_parts(five.0, five.1, five.0, five.1, p)
}

/// The quotient of `a` times the square of the scale by `p`, rounded down.
/// It is `None` only where the quotient is 2 to the power of 127 or more.
pub fn scaled_quotient(a: u128, p: u128) -> (r: Option<u128>)
    requires
        0 < p < 0x4000_0000_0000_0000_0000_0000_0000_0000,
    ensures
        r is Some ==> r->Some_0 == (a * SCALE_SQUARED) / (p as int),
        r is None ==> (a * SCALE_SQUARED) / (p as int) >= TWO_TO_127,
{
    let whole: u128 = a / p;
    let mut rest: u128 = a % p;
    proof {
        lemma_fundamental_div_mod(a as int, p as int);
        lemma_mod_bound(a as int, p as int);
        assert(p * whole == whole * p) by (nonlinear_arith);
    }
    if whole >= QUOTIENT_BOUND {
        proof {
            let t = SCALE_SQUARED as int;
            let c = QUOTIENT_BOUND as int * t;
            assert(a * t >= c * p) by (nonlinear_arith)
                requires
                    a >= whole * p,
                    whole >= QUOTIENT_BOUND,
                    c == QUOTIENT_BOUND * t,
                    t >= 0,
                    p > 0,
            ;
            lemma_div_is_ordered(c * p, a * t, p as int);
            lemma_div_multiples_vanish(c, p as int);
            assert(p * c == c * p) by (nonlinear_arith);
        }
        return None;
    }
    let mut x: u128 = whole;
    let mut m: u128 = 1;
    while m < SCALE_SQUARED
        invariant
            0 < p < 0x4000_0000_0000_0000_0000_0000_0000_0000,
            is_step(m as int),
            rest < p,
            x * p + rest == a * m,
            x + 1 <= QUOTIENT_BOUND * m,
        decreases SCALE_SQUARED - m,
    {
        let next = times_ten(x, rest, p);
        assert(a * (10 * m) == 10 * (a * m)) by (nonlinear_arith);
        x = next.0;
        rest = next.1;
        m = m * 10;
    }
    proof {
        lemma_fundamental_div_mod_converse(a * SCALE_SQUARED, p as int, x as int, rest as int);
    }
    Some(x)
}

} // verus!
