//! Facts about division, remainders and powers of two that the rest of the
//! crate builds on.

use vstd::arithmetic::div_mod::{
    lemma_div_denominator, lemma_fundamental_div_mod_converse_div,
    lemma_fundamental_div_mod_converse_mod,
};
use vstd::arithmetic::power2::{lemma2_to64, lemma_pow2_adds, lemma_pow2_pos, pow2};
use vstd::prelude::*;

verus! {

/// `2^64`.
pub open spec fn two_64() -> int {
    0x1_0000_0000_0000_0000int
}

/// `2^128`.
pub open spec fn two_128() -> int {
    0x1_0000_0000_0000_0000_0000_0000_0000_0000int
}

/// `2^256`.
pub open spec fn two_256() -> int {
    0x1_0000_0000_0000_0000_0000_0000_0000_0000_0000_0000_0000_0000_0000_0000_0000_0000int
}


/// Quotient and remainder are the only `q` and `r` with `x == q * d + r` and
/// `0 <= r < d`.
pub proof fn lemma_div_mod_unique(x: int, d: int, q: int, r: int)
    requires
        d > 0,
        0 <= r < d,
        x == q * d + r,
    ensures
        x / d == q,
        x % d == r,
{
    lemma_fundamental_div_mod_converse_div(x, d, q, r);
    lemma_fundamental_div_mod_converse_mod(x, d, q, r);
}

/// Dividing by `2^a` and then by `2^b` divides by `2^(a + b)`.
pub proof fn lemma_div_pow2_twice(x: int, a: nat, b: nat)
    requires
        0 <= x,
    ensures
        (x / (pow2(a) as int)) / (pow2(b) as int) == x / (pow2(a + b) as int),
{
    lemma_pow2_pos(a);
    lemma_pow2_pos(b);
    lemma_pow2_adds(a, b);
    lemma_div_denominator(x, pow2(a) as int, pow2(b) as int);
}

/// The powers of two that the 256-bit arithmetic names.
pub proof fn lemma_pow2_values()
    ensures
        pow2(0) == 1,
        pow2(1) == 2,
        pow2(2) == 4,
        pow2(4) == 16,
        pow2(8) == 256,
        pow2(16) == 0x1_0000,
        pow2(32) == 0x1_0000_0000,
        pow2(64) == 0x1_0000_0000_0000_0000,
        pow2(128) == 0x1_0000_0000_0000_0000_0000_0000_0000_0000,
        pow2(256)
            == 0x1_0000_0000_0000_0000_0000_0000_0000_0000_0000_0000_0000_0000_0000_0000_0000_0000int,
{
    lemma2_to64();
    lemma_pow2_adds(64, 64);
    lemma_pow2_adds(128, 128);
    let a: int = pow2(64) as int;
    let b: int = pow2(128) as int;
    assert(a * a == 0x1_0000_0000_0000_0000_0000_0000_0000_0000int) by (nonlinear_arith)
        requires
            a == 0x1_0000_0000_0000_0000int,
    ;
    assert(b * b
        == 0x1_0000_0000_0000_0000_0000_0000_0000_0000_0000_0000_0000_0000_0000_0000_0000_0000int)
        by (nonlinear_arith)
        requires
            b == 0x1_0000_0000_0000_0000_0000_0000_0000_0000int,
    ;
}

/// `2^a <= 2^b` where `a <= b`.
pub proof fn lemma_pow2_monotone(a: nat, b: nat)
    requires
        a <= b,
    ensures
        pow2(a) <= pow2(b),
{
    if a < b {
        vstd::arithmetic::power2::lemma_pow2_strictly_increases(a, b);
    }
}

/// The product of two 64-bit values fits in 128 bits.
pub proof fn lemma_mul_u64_bound(a: u64, b: u64)
    ensures
        a * b <= 0xffff_ffff_ffff_fffe_0000_0000_0000_0001,
{
    assert(a * b <= 0xffff_ffff_ffff_ffff * 0xffff_ffff_ffff_ffff) by (nonlinear_arith)
        requires
            0 <= a <= 0xffff_ffff_ffff_ffff,
            0 <= b <= 0xffff_ffff_ffff_ffff,
    ;
}

/// Multiplying two numbers written in base `2^64` gives the four partial
/// products at their places.
pub proof fn lemma_split_product(a1: int, a0: int, b1: int, b0: int)
    ensures
        (a1 * two_64() + a0) * (b1 * two_64() + b0) == (a1 * b1) * two_128() + (a0 * b1 + a1 * b0)
            * two_64() + a0 * b0,
{
    let b: int = two_64();
    let x: int = a1 * b;
    let y: int = b1 * b;
    assert(b * b == two_128());
    assert((x + a0) * (y + b0) == x * y + x * b0 + a0 * y + a0 * b0) by (nonlinear_arith);
    assert(x * y == (a1 * b1) * (b * b)) by (nonlinear_arith)
        requires
            x == a1 * b,
            y == b1 * b,
    ;
    assert(x * b0 + a0 * y == (a0 * b1 + a1 * b0) * b) by (nonlinear_arith)
        requires
            x == a1 * b,
            y == b1 * b,
    ;
}

/// Where `a * (bh * 2^128 + bl)` stays below `2^256`, the cross product
/// `a * bh` stays below `2^128`.
pub proof fn lemma_mul_cross(a: int, bh: int, bl: int, ch: int, cl: int)
    requires
        0 <= a,
        0 <= bh,
        0 <= bl,
        0 <= ch,
        0 <= cl < two_128(),
        a * bh == ch * two_128() + cl,
        a * (bh * two_128() + bl) < two_256(),
    ensures
        ch == 0,
        a * (bh * two_128() + bl) == cl * two_128() + a * bl,
{
    let w: int = two_128();
    assert(w * w == two_256());
    assert(a * (bh * w + bl) == (a * bh) * w + a * bl) by (nonlinear_arith);
    assert(0 <= a * bl) by (nonlinear_arith)
        requires
            0 <= a,
            0 <= bl,
    ;
    assert((ch * w + cl) * w == ch * (w * w) + cl * w) by (nonlinear_arith);
    assert(0 <= cl * w) by (nonlinear_arith)
        requires
            0 <= cl,
            0 <= w,
    ;
    if ch >= 1 {
        assert(ch * (w * w) >= w * w) by (nonlinear_arith)
            requires
                ch >= 1,
                w * w >= 0,
        ;
    }
}

/// Two numbers that both reach `2^128` have a product of at least `2^256`.
pub proof fn lemma_mul_both_high(ah: int, al: int, bh: int, bl: int)
    requires
        ah >= 1,
        bh >= 1,
        0 <= al,
        0 <= bl,
    ensures
        (ah * two_128() + al) * (bh * two_128() + bl) >= two_256(),
{
    let w: int = two_128();
    assert(w * w == two_256());
    assert((ah * w + al) * (bh * w + bl) >= w * w) by (nonlinear_arith)
        requires
            ah >= 1,
            bh >= 1,
            0 <= al,
            0 <= bl,
            w > 0,
    ;
}


/// One round of long division: from `top == q * d + rem` to the same
/// statement for `2 * top + bit`.
pub proof fn lemma_division_round(top: int, q: int, d: int, rem: int, bit: int)
    requires
        top == q * d + rem,
        0 <= rem < d,
        0 <= bit <= 1,
    ensures
        2 * rem + bit >= d ==> 2 * top + bit == (2 * q + 1) * d + (2 * rem + bit - d),
        2 * rem + bit < d ==> 2 * top + bit == (2 * q) * d + (2 * rem + bit),
{
    assert((2 * q + 1) * d == 2 * (q * d) + d) by (nonlinear_arith);
    assert((2 * q) * d == 2 * (q * d)) by (nonlinear_arith);
}


/// Where `x < d * e`, the quotient `x / d` is below `e`.
pub proof fn lemma_div_bound(x: int, d: int, e: int)
    requires
        0 <= x < d * e,
        d > 0,
    ensures
        0 <= x / d < e,
{
    vstd::arithmetic::div_mod::lemma_fundamental_div_mod(x, d);
    vstd::arithmetic::div_mod::lemma_mod_bound(x, d);
    vstd::arithmetic::div_mod::lemma_div_pos_is_pos(x, d);
    let q: int = x / d;
    let r: int = x % d;
    assert(q < e) by (nonlinear_arith)
        requires
            d * q + r < d * e,
            0 <= r,
            d > 0,
    ;
}

/// A division that leaves a remainder has a divisor of at least two, so its
/// quotient is at most half the dividend.
pub proof fn lemma_quotient_below(x: int, d: int)
    requires
        0 <= x,
        d > 0,
        x % d > 0,
    ensures
        d >= 2,
        0 <= x / d,
        2 * (x / d) <= x,
{
    vstd::arithmetic::div_mod::lemma_fundamental_div_mod(x, d);
    vstd::arithmetic::div_mod::lemma_mod_bound(x, d);
    vstd::arithmetic::div_mod::lemma_div_pos_is_pos(x, d);
    let q: int = x / d;
    assert(d * q >= 2 * q) by (nonlinear_arith)
        requires
            d >= 2,
            q >= 0,
    ;
}

/// In a table of rows of `m` entries, entry `b` of row `a` comes before row
/// `i` where `a < i`.
pub proof fn lemma_row_below(a: int, b: int, i: int, m: int)
    requires
        0 <= a < i,
        0 <= b < m,
    ensures
        0 <= a * m + b < i * m,
{
    assert(a * m + m <= i * m) by (nonlinear_arith)
        requires
            a + 1 <= i,
            m >= 0,
    ;
    assert(0 <= a * m) by (nonlinear_arith)
        requires
            0 <= a,
            0 <= m,
    ;
}

} // verus!
