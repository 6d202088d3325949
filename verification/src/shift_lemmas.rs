//! How a 256-bit number, written as two 128-bit limbs, moves under a shift.

use crate::arith::{lemma_div_mod_unique, lemma_div_pow2_twice, lemma_pow2_values, two_128, two_256};
use vstd::arithmetic::power2::{lemma_pow2_adds, lemma_pow2_pos, pow2};
use vstd::prelude::*;

verus! {

/// Dividing a two-limb number by `d`, where `d * e == 2^128`, limb by limb.
pub proof fn lemma_shift_right(hi: int, lo: int, d: int, e: int)
    requires
        0 <= hi,
        0 <= lo < two_128(),
        d >= 1,
        d * e == two_128(),
    ensures
        (hi * two_128() + lo) / d == (hi / d) * two_128() + (hi % d) * e + lo / d,
        0 <= (hi % d) * e + lo / d < two_128(),
{
    let w: int = two_128();
    let hq: int = hi / d;
    let hr: int = hi % d;
    let lq: int = lo / d;
    let lr: int = lo % d;
    assert(hi == d * hq + hr) by {
        vstd::arithmetic::div_mod::lemma_fundamental_div_mod(hi, d);
    }
    assert(lo == d * lq + lr) by {
        vstd::arithmetic::div_mod::lemma_fundamental_div_mod(lo, d);
    }
    assert(0 <= hr < d && 0 <= lr < d) by {
        vstd::arithmetic::div_mod::lemma_mod_bound(hi, d);
        vstd::arithmetic::div_mod::lemma_mod_bound(lo, d);
    }
    assert(0 <= lq) by {
        vstd::arithmetic::div_mod::lemma_div_pos_is_pos(lo, d);
    }
    assert(lq < e) by (nonlinear_arith)
        requires
            d * lq + lr < d * e,
            0 <= lr,
            d >= 1,
    ;
    assert(hr * e + e <= d * e && 0 <= hr * e) by (nonlinear_arith)
        requires
            0 <= hr < d,
            d * e == w,
            d >= 1,
            w > 0,
    ;
    assert(hi * w + lo == (hq * w + hr * e + lq) * d + lr) by (nonlinear_arith)
        requires
            hi == d * hq + hr,
            lo == d * lq + lr,
            d * e == w,
    ;
    lemma_div_mod_unique(hi * w + lo, d, hq * w + hr * e + lq, lr);
}

/// Multiplying a two-limb number by `d`, where `d * e == 2^128`, and keeping
/// the low 256 bits, limb by limb.
pub proof fn lemma_shift_left(hi: int, lo: int, d: int, e: int)
    requires
        0 <= hi,
        0 <= lo < two_128(),
        d >= 1,
        e >= 1,
        d * e == two_128(),
    ensures
        ((hi * two_128() + lo) * d) % two_256() == ((hi % e) * d + lo / e) * two_128() + (lo % e)
            * d,
        0 <= (hi % e) * d + lo / e < two_128(),
        0 <= (lo % e) * d < two_128(),
{
    let w: int = two_128();
    let h1: int = hi / e;
    let h0: int = hi % e;
    let l1: int = lo / e;
    let l0: int = lo % e;
    assert(w * w == two_256());
    assert(hi == e * h1 + h0) by {
        vstd::arithmetic::div_mod::lemma_fundamental_div_mod(hi, e);
    }
    assert(lo == e * l1 + l0) by {
        vstd::arithmetic::div_mod::lemma_fundamental_div_mod(lo, e);
    }
    assert(0 <= h0 < e && 0 <= l0 < e) by {
        vstd::arithmetic::div_mod::lemma_mod_bound(hi, e);
        vstd::arithmetic::div_mod::lemma_mod_bound(lo, e);
    }
    assert(0 <= l1) by {
        vstd::arithmetic::div_mod::lemma_div_pos_is_pos(lo, e);
    }
    assert(l1 < d) by (nonlinear_arith)
        requires
            e * l1 + l0 < d * e,
            0 <= l0,
            e >= 1,
    ;
    assert(h0 * d + d <= d * e && 0 <= h0 * d) by (nonlinear_arith)
        requires
            0 <= h0 < e,
            d >= 1,
    ;
    assert(l0 * d + d <= d * e && 0 <= l0 * d) by (nonlinear_arith)
        requires
            0 <= l0 < e,
            d >= 1,
    ;
    let rest: int = (h0 * d + l1) * w + l0 * d;
    assert((hi * w + lo) * d == h1 * (w * w) + rest) by (nonlinear_arith)
        requires
            hi == e * h1 + h0,
            lo == e * l1 + l0,
            d * e == w,
            rest == (h0 * d + l1) * w + l0 * d,
    ;
    assert(0 <= rest < w * w) by (nonlinear_arith)
        requires
            rest == (h0 * d + l1) * w + l0 * d,
            0 <= h0 * d + l1 < w,
            0 <= l0 * d < w,
    ;
    lemma_div_mod_unique((hi * w + lo) * d, w * w, h1, rest);
}


/// Bit `i` of a two-limb number is a bit of its upper limb from bit 128 on,
/// and a bit of its lower limb below.
pub proof fn lemma_bit_of_limbs(hi: int, lo: int, i: nat)
    requires
        0 <= hi,
        0 <= lo < two_128(),
        i < 256,
    ensures
        ((hi * two_128() + lo) / (pow2(i) as int)) % 2 == (if i >= 128 {
            (hi / (pow2((i - 128) as nat) as int)) % 2
        } else {
            (lo / (pow2(i) as int)) % 2
        }),
{
    let x: int = hi * two_128() + lo;
    lemma_pow2_values();
    if i >= 128 {
        lemma_div_mod_unique(x, two_128(), hi, lo);
        lemma_div_pow2_twice(x, 128, (i - 128) as nat);
    } else {
        let p: int = pow2(i) as int;
        let c: int = pow2((127 - i) as nat) as int;
        lemma_pow2_pos(i);
        lemma_pow2_adds(i, (127 - i) as nat);
        lemma_pow2_adds(127, 1);
        vstd::arithmetic::div_mod::lemma_fundamental_div_mod(lo, p);
        vstd::arithmetic::div_mod::lemma_mod_bound(lo, p);
        let q: int = lo / p;
        assert(p * c * 2 == two_128()) by (nonlinear_arith)
            requires
                p * c == pow2(127),
                pow2(127) * 2 == two_128(),
        ;
        assert(x == (2 * (hi * c) + q) * p + lo % p) by (nonlinear_arith)
            requires
                x == hi * two_128() + lo,
                p * c * 2 == two_128(),
                lo == p * q + lo % p,
        ;
        lemma_div_mod_unique(x, p, 2 * (hi * c) + q, lo % p);
    }
}

} // verus!
