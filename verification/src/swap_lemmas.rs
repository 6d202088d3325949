//! Bounds on the quotients that the swap arithmetic forms: which of them fit
//! the width they are stored in.

use crate::arith::{lemma_div_bound, two_128, two_64};
use vstd::prelude::*;

verus! {

/// `n / d`, rounded up.
pub open spec fn div_ceil(n: int, d: int) -> int {
    if n % d > 0 {
        n / d + 1
    } else {
        n / d
    }
}

/// Rounding up adds at most one, and nothing to an exact quotient.
pub proof fn lemma_div_ceil_bounds(n: int, d: int)
    requires
        0 <= n,
        d > 0,
    ensures
        0 <= n / d <= div_ceil(n, d) <= n / d + 1,
        div_ceil(n, d) * d >= n,
        (div_ceil(n, d) - 1) * d < n || n == 0,
        n == 0 ==> div_ceil(n, d) == 0,
{
    vstd::arithmetic::div_mod::lemma_fundamental_div_mod(n, d);
    vstd::arithmetic::div_mod::lemma_mod_bound(n, d);
    vstd::arithmetic::div_mod::lemma_div_pos_is_pos(n, d);
    let q: int = n / d;
    assert((q + 1) * d == q * d + d) by (nonlinear_arith);
    assert((q - 1) * d == q * d - d) by (nonlinear_arith);
    assert(q * d == d * q) by (nonlinear_arith);
    if n == 0 {
        vstd::arithmetic::div_mod::lemma_basic_div(0, d);
        vstd::arithmetic::div_mod::lemma_small_mod(0, d as nat);
    }
}

/// `a * b / d` is at most `a` where `b <= d`, rounded either way.
pub proof fn lemma_mul_div_at_most(a: int, b: int, d: int)
    requires
        0 <= a,
        0 <= b <= d,
        d > 0,
    ensures
        0 <= (a * b) / d <= a,
        0 <= div_ceil(a * b, d) <= a,
{
    assert(0 <= a * b <= a * d) by (nonlinear_arith)
        requires
            0 <= a,
            0 <= b <= d,
    ;
    lemma_div_ceil_bounds(a * b, d);
    let c: int = div_ceil(a * b, d);
    if c > a {
        assert((c - 1) * d >= a * d) by (nonlinear_arith)
            requires
                c - 1 >= a,
                d > 0,
        ;
    }
}

/// The product of a 64-bit and a 128-bit value, divided by `2^64`, fits in
/// 128 bits, rounded either way.
pub proof fn lemma_mul_div_q64_fits(l: int, diff: int)
    requires
        0 <= l < two_64(),
        0 <= diff < two_128(),
    ensures
        0 <= (l * diff) / two_64() < two_128(),
        0 <= div_ceil(l * diff, two_64()) < two_128(),
{
    assert(0 <= l * diff <= (two_64() - 1) * (two_128() - 1)) by (nonlinear_arith)
        requires
            0 <= l <= two_64() - 1,
            0 <= diff <= two_128() - 1,
    ;
    lemma_div_bound(l * diff, two_64(), two_128() - two_64());
    lemma_div_ceil_bounds(l * diff, two_64());
}

/// A 64-bit amount scaled by `2^64` and divided by a positive liquidity fits
/// in 128 bits, rounded either way.
pub proof fn lemma_amount_over_liquidity_fits(amount: int, l: int)
    requires
        0 <= amount < two_64(),
        l >= 1,
    ensures
        0 <= (amount * two_64()) / l < two_128(),
        0 <= div_ceil(amount * two_64(), l) < two_128(),
{
    let x: int = amount * two_64();
    assert(x * 1 == x) by (nonlinear_arith);
    lemma_mul_div_at_most(x, 1, l);
}


/// `a * b / d` rounded up is at most `b` where `a <= d`.
pub proof fn lemma_mul_div_at_most_left(a: int, b: int, d: int)
    requires
        0 <= a <= d,
        0 <= b,
        d > 0,
    ensures
        0 <= div_ceil(a * b, d) <= b,
{
    assert(a * b == b * a) by (nonlinear_arith);
    lemma_mul_div_at_most(b, a, d);
}


/// A quotient rounded up is at most `m` where the dividend is at most
/// `m * d`.
pub proof fn lemma_div_ceil_at_most(n: int, d: int, m: int)
    requires
        0 <= n <= m * d,
        d > 0,
    ensures
        div_ceil(n, d) <= m,
{
    lemma_div_ceil_bounds(n, d);
    let c: int = div_ceil(n, d);
    assert(m >= 0) by (nonlinear_arith)
        requires
            0 <= m * d,
            d > 0,
    ;
    if c > m {
        assert((c - 1) * d >= m * d) by (nonlinear_arith)
            requires
                c - 1 >= m,
                d > 0,
        ;
    }
}

/// A quotient rounded down, times the divisor, is at most the dividend.
pub proof fn lemma_floor_times_divisor(n: int, d: int)
    requires
        0 <= n,
        d > 0,
    ensures
        0 <= (n / d) * d <= n,
{
    lemma_div_ceil_bounds(n, d);
    vstd::arithmetic::div_mod::lemma_fundamental_div_mod(n, d);
    vstd::arithmetic::div_mod::lemma_mod_bound(n, d);
    assert((n / d) * d == d * (n / d)) by (nonlinear_arith);
}

/// The price after token A enters by the product form, `e`, satisfies
/// `e * (n1 + amount * s) >= n1 * s`, and is at most `s`.
pub proof fn lemma_price_after_a_product(n1: int, s: int, amount: int)
    requires
        n1 > 0,
        s >= 0,
        amount >= 0,
    ensures
        div_ceil(n1 * s, n1 + amount * s) * (n1 + amount * s) >= n1 * s,
        0 <= div_ceil(n1 * s, n1 + amount * s) <= s,
{
    assert(0 <= amount * s) by (nonlinear_arith)
        requires
            0 <= amount,
            0 <= s,
    ;
    assert(0 <= n1 * s) by (nonlinear_arith)
        requires
            0 <= n1,
            0 <= s,
    ;
    lemma_div_ceil_bounds(n1 * s, n1 + amount * s);
    lemma_mul_div_at_most_left(n1, s, n1 + amount * s);
}

/// The price after token A enters by the reciprocal form, `e`, satisfies
/// `e * (n1 + amount * s) >= n1 * s`, and is at most `s`.
pub proof fn lemma_price_after_a_reciprocal(n1: int, s: int, amount: int)
    requires
        n1 > 0,
        s > 0,
        amount >= 1,
    ensures
        div_ceil(n1, n1 / s + amount) * (n1 + amount * s) >= n1 * s,
        0 <= div_ceil(n1, n1 / s + amount) <= s,
{
    let q: int = n1 / s;
    let d: int = q + amount;
    let e: int = div_ceil(n1, d);
    lemma_floor_times_divisor(n1, s);
    vstd::arithmetic::div_mod::lemma_fundamental_div_mod(n1, s);
    vstd::arithmetic::div_mod::lemma_mod_bound(n1, s);
    lemma_div_ceil_bounds(n1, d);
    assert(e * (n1 + amount * s) >= n1 * s) by (nonlinear_arith)
        requires
            e * d >= n1,
            d == q + amount,
            0 <= q * s <= n1,
            e >= 0,
            s > 0,
            amount >= 1,
    ;
    assert(n1 <= s * d) by (nonlinear_arith)
        requires
            n1 == s * q + n1 % s,
            n1 % s < s,
            d == q + amount,
            amount >= 1,
            s > 0,
    ;
    lemma_div_ceil_at_most(n1, d, s);
}

/// Token A taken in by a move from `s` down to `e` is at most `amount`
/// where `e * (n1 + amount * s) >= n1 * s`.
pub proof fn lemma_amount_a_in_at_most(n1: int, s: int, e: int, amount: int)
    requires
        n1 > 0,
        1 <= e <= s,
        amount >= 0,
        e * (n1 + amount * s) >= n1 * s,
    ensures
        div_ceil(div_ceil(n1 * (s - e), s), e) <= amount,
{
    let x: int = n1 * (s - e);
    assert(0 <= x <= (amount * e) * s) by (nonlinear_arith)
        requires
            x == n1 * (s - e),
            e * (n1 + amount * s) >= n1 * s,
            n1 > 0,
            e <= s,
    ;
    assert(0 <= amount * e) by (nonlinear_arith)
        requires
            0 <= amount,
            0 <= e,
    ;
    lemma_div_ceil_at_most(x, s, amount * e);
    lemma_div_ceil_bounds(x, s);
    lemma_div_ceil_at_most(div_ceil(x, s), e, amount);
}

/// A price `e` that token A entering has moved to or past the target `t`
/// took at least the whole amount between `s` and `t`.
pub proof fn lemma_amount_a_reaches(n1: int, s: int, e: int, t: int, amount: int)
    requires
        n1 > 0,
        0 <= e <= t,
        1 <= t <= s,
        amount >= 0,
        e * (n1 + amount * s) >= n1 * s,
    ensures
        div_ceil(div_ceil(n1 * (s - t), s), t) <= amount,
{
    assert(t * (n1 + amount * s) >= n1 * s) by (nonlinear_arith)
        requires
            e * (n1 + amount * s) >= n1 * s,
            0 <= e <= t,
            n1 > 0,
            amount >= 0,
            s >= 1,
    ;
    lemma_amount_a_in_at_most(n1, s, t, amount);
}

/// Token B taken in by a move of at most `amount * 2^64 / l` upwards is at
/// most `amount`.
pub proof fn lemma_amount_b_in_at_most(l: int, moved: int, amount: int)
    requires
        l >= 1,
        amount >= 0,
        0 <= moved <= (amount * two_64()) / l,
    ensures
        div_ceil(l * moved, two_64()) <= amount,
{
    let q: int = (amount * two_64()) / l;
    assert(0 <= amount * two_64()) by (nonlinear_arith)
        requires
            0 <= amount,
    ;
    lemma_floor_times_divisor(amount * two_64(), l);
    assert(0 <= l * moved <= q * l) by (nonlinear_arith)
        requires
            0 <= moved <= q,
            l >= 1,
    ;
    lemma_div_ceil_at_most(l * moved, two_64(), amount);
}

/// The fee on an input that was first reduced by the fee fits in what the
/// reduction left over: where `amount_in <= mag * (bar - fee) / bar`, the
/// fee `amount_in * fee / (bar - fee)`, rounded up, is at most
/// `mag - amount_in`.
pub proof fn lemma_fee_fits(mag: int, amount_in: int, fee: int, bar: int)
    requires
        0 <= fee < bar,
        0 <= mag,
        0 <= amount_in <= (mag * (bar - fee)) / bar,
    ensures
        amount_in <= mag,
        0 <= div_ceil(amount_in * fee, bar - fee) <= mag - amount_in,
{
    assert(0 <= mag * (bar - fee)) by (nonlinear_arith)
        requires
            0 <= mag,
            0 <= bar - fee,
    ;
    lemma_floor_times_divisor(mag * (bar - fee), bar);
    let k: int = (mag * (bar - fee)) / bar;
    assert(amount_in * bar <= mag * (bar - fee)) by (nonlinear_arith)
        requires
            0 <= amount_in <= k,
            k * bar <= mag * (bar - fee),
            bar > 0,
    ;
    assert(amount_in <= mag) by (nonlinear_arith)
        requires
            amount_in * bar <= mag * (bar - fee),
            0 <= fee < bar,
            0 <= mag,
            0 <= amount_in,
    ;
    assert(0 <= amount_in * fee <= (mag - amount_in) * (bar - fee)) by (nonlinear_arith)
        requires
            amount_in * bar <= mag * (bar - fee),
            0 <= fee < bar,
            0 <= amount_in,
    ;
    lemma_div_ceil_at_most(amount_in * fee, bar - fee, mag - amount_in);
    lemma_div_ceil_bounds(amount_in * fee, bar - fee);
}

} // verus!
