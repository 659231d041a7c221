//! Rounded division on unbounded integers, with executable counterparts.
//!
//! The chart quantizes values through expressions of the form
//! `round(a / b)` where rounding is to the nearest integer with ties going
//! away from zero.  `round_away` is the specification of that
//! operation; the lemmas below establish the algebraic facts (exactness,
//! monotonicity, bounds) that the rendering proofs lean on.

use vstd::arithmetic::div_mod::{
    lemma_div_is_ordered, lemma_div_pos_is_pos, lemma_fundamental_div_mod,
    lemma_fundamental_div_mod_converse_div,
};
use vstd::prelude::*;

verus! {

/// `round(n / d)` with ties away from zero: the value `f64::round` would
/// produce on the exact rational `n / d`.
pub open spec fn round_away(n: int, d: int) -> int {
    let nn = if d < 0 {
        -n
    } else {
        n
    };
    let dd = if d < 0 {
        -d
    } else {
        d
    };
    if nn >= 0 {
        (2 * nn + dd) / (2 * dd)
    } else {
        -((2 * -nn + dd) / (2 * dd))
    }
}

/// For a nonnegative numerator, rounding is plain division plus a carry
/// when the remainder reaches half the divisor.
pub proof fn lemma_round_away_split(n: int, d: int)
    requires
        n >= 0,
        d > 0,
    ensures
        round_away(n, d) == n / d + if 2 * (n % d) >= d {
            1int
        } else {
            0int
        },
{
    let q = n / d;
    let r = n % d;
    lemma_fundamental_div_mod(n, d);
    assert(n == d * q + r);
    if 2 * r >= d {
        assert(2 * n + d == (q + 1) * (2 * d) + (2 * r - d)) by (nonlinear_arith)
            requires
                n == d * q + r,
        ;
        lemma_fundamental_div_mod_converse_div(2 * n + d, 2 * d, q + 1, 2 * r - d);
    } else {
        assert(2 * n + d == q * (2 * d) + (2 * r + d)) by (nonlinear_arith)
            requires
                n == d * q + r,
        ;
        lemma_fundamental_div_mod_converse_div(2 * n + d, 2 * d, q, 2 * r + d);
    }
}

/// Rounding is an odd function of the numerator.
pub proof fn lemma_round_away_neg(n: int, d: int)
    requires
        d > 0,
    ensures
        round_away(-n, d) == -round_away(n, d),
{
    if n > 0 {
        assert(round_away(n, d) == (2 * n + d) / (2 * d));
        assert(round_away(-n, d) == -((2 * -(-n) + d) / (2 * d)));
        assert(-(-n) == n);
    } else if n < 0 {
        assert(round_away(n, d) == -((2 * -n + d) / (2 * d)));
        assert(round_away(-n, d) == (2 * -n + d) / (2 * d));
    } else {
        lemma_fundamental_div_mod_converse_div(d, 2 * d, 0, d);
        assert(round_away(0, d) == (2 * 0 + d) / (2 * d));
    }
}

/// An exact multiple of the divisor rounds to its quotient.
pub proof fn lemma_round_away_exact(k: int, d: int)
    requires
        d > 0,
    ensures
        round_away(k * d, d) == k,
{
    if k >= 0 {
        assert(2 * (k * d) + d == k * (2 * d) + d) by (nonlinear_arith);
        lemma_fundamental_div_mod_converse_div(2 * (k * d) + d, 2 * d, k, d);
    } else {
        assert(2 * (-(k * d)) + d == (-k) * (2 * d) + d) by (nonlinear_arith);
        lemma_fundamental_div_mod_converse_div(2 * (-(k * d)) + d, 2 * d, -k, d);
        lemma_round_away_neg(-(k * d), d);
    }
}

/// A zero numerator rounds to zero whatever the divisor.
pub proof fn lemma_round_away_zero(d: int)
    requires
        d != 0,
    ensures
        round_away(0, d) == 0,
{
    let dd = if d < 0 {
        -d
    } else {
        d
    };
    lemma_fundamental_div_mod_converse_div(dd, 2 * dd, 0, dd);
    assert(round_away(0, d) == (2 * 0 + dd) / (2 * dd));
}

/// Rounding is monotone in the numerator.
pub proof fn lemma_round_away_monotone(n1: int, n2: int, d: int)
    requires
        d > 0,
        n1 <= n2,
    ensures
        round_away(n1, d) <= round_away(n2, d),
{
    if n1 >= 0 {
        lemma_div_is_ordered(2 * n1 + d, 2 * n2 + d, 2 * d);
    } else if n2 >= 0 {
        lemma_div_pos_is_pos(2 * -n1 + d, 2 * d);
        lemma_div_pos_is_pos(2 * n2 + d, 2 * d);
    } else {
        lemma_div_is_ordered(2 * -n2 + d, 2 * -n1 + d, 2 * d);
    }
}

/// A numerator bracketed by two multiples of the divisor rounds to a value
/// bracketed by their quotients.
pub proof fn lemma_round_away_range(n: int, d: int, lo: int, hi: int)
    requires
        d > 0,
        lo * d <= n <= hi * d,
    ensures
        lo <= round_away(n, d) <= hi,
{
    lemma_round_away_exact(lo, d);
    lemma_round_away_exact(hi, d);
    lemma_round_away_monotone(lo * d, n, d);
    lemma_round_away_monotone(n, hi * d, d);
}

/// With a divisor of at least one, rounding a nonnegative numerator never
/// exceeds the numerator itself.
pub proof fn lemma_round_away_le_num(n: int, d: int)
    requires
        n >= 0,
        d > 0,
    ensures
        0 <= round_away(n, d) <= n,
{
    assert(n <= n * d) by (nonlinear_arith)
        requires
            n >= 0,
            d > 0,
    ;
    lemma_round_away_range(n, d, 0, n);
}

/// Executable rounded division on nonnegative 128-bit operands.
pub(crate) fn div_round_u128(n: u128, d: u128) -> (r: u128)
    requires
        0 < d <= 0x1_0000_0000_0000_0000u128,
    ensures
        r == round_away(n as int, d as int),
{
    let q = n / d;
    let rem = n % d;
    proof {
        lemma_round_away_split(n as int, d as int);
    }
    if 2 * rem >= d {
        proof {
            // the carry branch is never reached with divisor one, so the
            // quotient leaves room for the increment
            assert(q < u128::MAX) by (nonlinear_arith)
                requires
                    q == n / d,
                    rem == n % d,
                    0 < d,
                    2 * rem >= d,
                    n <= u128::MAX,
            ;
        }
        q + 1
    } else {
        q
    }
}

/// Executable rounded division for a signed numerator and positive divisor.
pub(crate) fn div_round_i128(n: i128, d: i128) -> (r: i128)
    requires
        0 < d <= 0x1_0000_0000_0000_0000i128,
        n > i128::MIN,
    ensures
        r == round_away(n as int, d as int),
{
    if n >= 0 {
        let m = div_round_u128(n as u128, d as u128);
        proof {
            lemma_round_away_le_num(n as int, d as int);
        }
        m as i128
    } else {
        let m = div_round_u128((-n) as u128, d as u128);
        proof {
            lemma_round_away_le_num(-n as int, d as int);
            lemma_round_away_neg(-n as int, d as int);
        }
        -(m as i128)
    }
}

} // verus!
