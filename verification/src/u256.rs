//! An unsigned 256-bit integer, kept as two 128-bit halves.
//!
//! Every operation is stated over the number the value stands for (its view,
//! an `int` in `[0, 2^256)`).

use crate::arith::{
    lemma_div_mod_unique, lemma_div_pow2_twice, lemma_division_round, lemma_mul_both_high,
    lemma_mul_cross, lemma_mul_u64_bound, lemma_pow2_monotone, lemma_pow2_values,
    lemma_split_product, two_128, two_256, two_64,
};
use crate::decimal::{decimal_value, is_decimal, is_digit, lemma_decimal_prefix};
use crate::shift_lemmas::{lemma_bit_of_limbs, lemma_shift_left, lemma_shift_right};
use vstd::string::*;
use vstd::arithmetic::div_mod::lemma_mul_mod_noop_left;
use vstd::arithmetic::power2::{lemma_pow2_adds, pow2};
use vstd::prelude::*;

verus! {

/// An unsigned integer of 256 bits.
#[derive(Clone, Copy, Debug, PartialEq, Eq, Structural)]
pub struct U256 {
    /// The upper 128 bits.
    pub hi: u128,
    /// The lower 128 bits.
    pub lo: u128,
}

impl View for U256 {
    type V = int;

    open spec fn view(&self) -> int {
        self.hi * two_128() + self.lo
    }
}

impl U256 {
    /// The value zero.
    pub fn zero() -> (r: U256)
        ensures
            r@ == 0,
    {
        U256 { hi: 0, lo: 0 }
    }

    /// The value one.
    pub fn one() -> (r: U256)
        ensures
            r@ == 1,
    {
        U256 { hi: 0, lo: 1 }
    }

    /// The largest value, `2^256 - 1`.
    pub fn max_value() -> (r: U256)
        ensures
            r@ == two_256() - 1,
    {
        U256 { hi: u128::MAX, lo: u128::MAX }
    }

    /// Widens a 128-bit value.
    pub fn from_u128(v: u128) -> (r: U256)
        ensures
            r@ == v,
    {
        U256 { hi: 0, lo: v }
    }

    /// The low 128 bits: the value modulo `2^128`.
    pub fn as_u128(self) -> (r: u128)
        ensures
            r == self@ % two_128(),
    {
        self.lo
    }

    /// The low 64 bits: the value modulo `2^64`.
    pub fn as_u64(self) -> (r: u64)
        ensures
            r == self@ % two_64(),
    {
        let low: u128 = self.lo % 0x1_0000_0000_0000_0000u128;
        low as u64
    }

    /// The low 32 bits: the value modulo `2^32`.
    pub fn as_u32(self) -> (r: u32)
        ensures
            r == self@ % 0x1_0000_0000int,
    {
        let low: u128 = self.lo % 0x1_0000_0000u128;
        low as u32
    }

    /// Whether two values are the same number.
    pub fn eq(self, other: U256) -> (r: bool)
        ensures
            r == (self@ == other@),
    {
        self.hi == other.hi && self.lo == other.lo
    }

    /// Whether `self` is strictly below `other`.
    pub fn lt(self, other: U256) -> (r: bool)
        ensures
            r == (self@ < other@),
    {
        self.hi < other.hi || (self.hi == other.hi && self.lo < other.lo)
    }

    /// Whether `self` is at most `other`.
    pub fn le(self, other: U256) -> (r: bool)
        ensures
            r == (self@ <= other@),
    {
        self.hi < other.hi || (self.hi == other.hi && self.lo <= other.lo)
    }

    /// Whether `self` is strictly above `other`.
    pub fn gt(self, other: U256) -> (r: bool)
        ensures
            r == (self@ > other@),
    {
        other.lt(self)
    }

    /// Whether `self` is at least `other`.
    pub fn ge(self, other: U256) -> (r: bool)
        ensures
            r == (self@ >= other@),
    {
        other.le(self)
    }
}


impl U256 {
    /// The sum, where it fits in 256 bits.
    pub fn add(self, rhs: U256) -> (r: U256)
        requires
            self@ + rhs@ < two_256(),
        ensures
            r@ == self@ + rhs@,
    {
        let room: u128 = u128::MAX - self.lo;
        if rhs.lo <= room {
            U256 { hi: self.hi + rhs.hi, lo: self.lo + rhs.lo }
        } else {
            U256 { hi: self.hi + rhs.hi + 1, lo: rhs.lo - room - 1 }
        }
    }

    /// The sum, or `None` where it does not fit in 256 bits.
    pub fn checked_add(self, rhs: U256) -> (r: Option<U256>)
        ensures
            self@ + rhs@ < two_256() ==> r.is_some() && r.unwrap()@ == self@ + rhs@,
            self@ + rhs@ >= two_256() ==> r.is_none(),
    {
        let room: U256 = U256::max_value().sub(self);
        if rhs.le(room) {
            Some(self.add(rhs))
        } else {
            None
        }
    }

    /// The difference, where `rhs` is not the larger.
    pub fn sub(self, rhs: U256) -> (r: U256)
        requires
            self@ >= rhs@,
        ensures
            r@ == self@ - rhs@,
    {
        if self.lo >= rhs.lo {
            U256 { hi: self.hi - rhs.hi, lo: self.lo - rhs.lo }
        } else {
            U256 { hi: self.hi - rhs.hi - 1, lo: u128::MAX - rhs.lo + self.lo + 1 }
        }
    }

    /// The full product of two 128-bit values, which always fits.
    pub fn full_mul(a: u128, b: u128) -> (r: U256)
        ensures
            r@ == a * b,
    {
        let base: u128 = 0x1_0000_0000_0000_0000u128;
        let a1: u128 = a / base;
        let a0: u128 = a % base;
        let b1: u128 = b / base;
        let b0: u128 = b % base;
        proof {
            lemma_mul_u64_bound(a0 as u64, b0 as u64);
            lemma_mul_u64_bound(a0 as u64, b1 as u64);
            lemma_mul_u64_bound(a1 as u64, b0 as u64);
            lemma_mul_u64_bound(a1 as u64, b1 as u64);
            lemma_split_product(a1 as int, a0 as int, b1 as int, b0 as int);
        }
        let low_low: u128 = a0 * b0;
        let low_high: u128 = a0 * b1;
        let high_low: u128 = a1 * b0;
        let high_high: u128 = a1 * b1;
        let t: u128 = low_high + low_low / base;
        let u: u128 = high_low + t % base;
        let lo: u128 = (u % base) * base + low_low % base;
        let hi: u128 = high_high + t / base + u / base;
        U256 { hi, lo }
    }

    /// The product, where it fits in 256 bits.
    pub fn mul(self, rhs: U256) -> (r: U256)
        requires
            self@ * rhs@ < two_256(),
        ensures
            r@ == self@ * rhs@,
    {
        let low: U256 = U256::full_mul(self.lo, rhs.lo);
        if self.hi == 0 && rhs.hi == 0 {
            low
        } else if self.hi == 0 {
            let cross: U256 = U256::full_mul(self.lo, rhs.hi);
            proof {
                lemma_mul_cross(
                    self.lo as int,
                    rhs.hi as int,
                    rhs.lo as int,
                    cross.hi as int,
                    cross.lo as int,
                );
            }
            U256 { hi: cross.lo, lo: 0 }.add(low)
        } else if rhs.hi == 0 {
            let cross: U256 = U256::full_mul(rhs.lo, self.hi);
            proof {
                assert(self@ * rhs@ == rhs.lo * (self.hi * two_128() + self.lo))
                    by (nonlinear_arith)
                    requires
                        self@ == self.hi * two_128() + self.lo,
                        rhs@ == rhs.lo,
                ;
                lemma_mul_cross(
                    rhs.lo as int,
                    self.hi as int,
                    self.lo as int,
                    cross.hi as int,
                    cross.lo as int,
                );
            }
            U256 { hi: cross.lo, lo: 0 }.add(low)
        } else {
            proof {
                lemma_mul_both_high(self.hi as int, self.lo as int, rhs.hi as int, rhs.lo as int);
            }
            low
        }
    }
}

impl U256 {
    /// The quotient by `d`, a power of two between `2` and `2^127` whose
    /// cofactor in `2^128` is `e`.
    fn shr_by(self, d: u128, e: u128) -> (r: U256)
        requires
            d >= 2,
            d * e == two_128(),
        ensures
            r@ == self@ / (d as int),
    {
        proof {
            lemma_shift_right(self.hi as int, self.lo as int, d as int, e as int);
        }
        U256 { hi: self.hi / d, lo: (self.hi % d) * e + self.lo / d }
    }

    /// The product by `d`, a power of two between `2` and `2^127` whose
    /// cofactor in `2^128` is `e`, reduced modulo `2^256`.
    fn shl_by(self, d: u128, e: u128) -> (r: U256)
        requires
            d >= 2,
            e >= 2,
            d * e == two_128(),
        ensures
            r@ == (self@ * d) % two_256(),
    {
        proof {
            lemma_shift_left(self.hi as int, self.lo as int, d as int, e as int);
        }
        U256 { hi: (self.hi % e) * d + self.lo / e, lo: (self.lo % e) * d }
    }

    /// `2^k` and its cofactor in `2^128`, for the `k` that the stages of a
    /// shift take: 64, 32, 16, 8, 4, 2 and 1.
    fn stage_factors(k: u32) -> (r: (u128, u128))
        requires
            k == 64 || k == 32 || k == 16 || k == 8 || k == 4 || k == 2 || k == 1,
        ensures
            r.0 == pow2(k as nat),
            r.0 * r.1 == two_128(),
            r.0 >= 2,
            r.1 >= 2,
    {
        proof {
            lemma_pow2_values();
        }
        if k == 64 {
            (0x1_0000_0000_0000_0000, 0x1_0000_0000_0000_0000)
        } else if k == 32 {
            (0x1_0000_0000, 0x1_0000_0000_0000_0000_0000_0000)
        } else if k == 16 {
            (0x1_0000, 0x1_0000_0000_0000_0000_0000_0000_0000)
        } else if k == 8 {
            (0x100, 0x100_0000_0000_0000_0000_0000_0000_0000)
        } else if k == 4 {
            (0x10, 0x1000_0000_0000_0000_0000_0000_0000_0000)
        } else if k == 2 {
            (4, 0x4000_0000_0000_0000_0000_0000_0000_0000)
        } else {
            (2, 0x8000_0000_0000_0000_0000_0000_0000_0000)
        }
    }

    /// The value shifted right by `n` bits: the quotient by `2^n`.
    pub fn shr(self, n: u32) -> (r: U256)
        ensures
            r@ == self@ / (pow2(n as nat) as int),
    {
        proof {
            lemma_pow2_values();
        }
        if n >= 256 {
            proof {
                lemma_pow2_monotone(256, n as nat);
                vstd::arithmetic::div_mod::lemma_basic_div(self@, pow2(n as nat) as int);
            }
            return U256::zero();
        }
        let mut cur: U256 = self;
        let mut rest: u32 = n;
        if rest >= 128 {
            proof {
                lemma_div_mod_unique(self@, two_128(), self.hi as int, self.lo as int);
            }
            cur = U256 { hi: 0, lo: self.hi };
            rest = rest - 128;
        }
        assert(cur@ == self@ / (pow2((n - rest) as nat) as int)) by {
            assert(self@ / 1 == self@);
        }
        let mut k: u32 = 64;
        while k > 0
            invariant
                k == 64 || k == 32 || k == 16 || k == 8 || k == 4 || k == 2 || k == 1 || k == 0,
                rest <= n,
                rest < 2 * k || rest == 0,
                cur@ == self@ / (pow2((n - rest) as nat) as int),
            decreases k,
        {
            if rest >= k {
                let (d, e) = U256::stage_factors(k);
                proof {
                    lemma_div_pow2_twice(self@, (n - rest) as nat, k as nat);
                }
                cur = cur.shr_by(d, e);
                rest = rest - k;
            }
            k = k / 2;
        }
        cur
    }

    /// The value shifted left by `n` bits, keeping the low 256 bits: the
    /// product by `2^n` modulo `2^256`.
    pub fn shl(self, n: u32) -> (r: U256)
        ensures
            r@ == (self@ * pow2(n as nat)) % two_256(),
    {
        proof {
            lemma_pow2_values();
        }
        if n >= 256 {
            proof {
                lemma_pow2_adds(256, (n - 256) as nat);
                let k: int = pow2((n - 256) as nat) as int;
                assert(self@ * (two_256() * k) == (self@ * k) * two_256() + 0) by (nonlinear_arith);
                lemma_div_mod_unique(self@ * pow2(n as nat), two_256(), self@ * k, 0);
            }
            return U256::zero();
        }
        let mut cur: U256 = self;
        let mut rest: u32 = n;
        proof {
            vstd::arithmetic::div_mod::lemma_small_mod(self@ as nat, two_256() as nat);
        }
        if rest >= 128 {
            proof {
                assert(two_128() * two_128() == two_256());
                assert(self@ * two_128() == self.hi * two_256() + self.lo * two_128())
                    by (nonlinear_arith)
                    requires
                        self@ == self.hi * two_128() + self.lo,
                        two_128() * two_128() == two_256(),
                ;
                lemma_div_mod_unique(
                    self@ * two_128(),
                    two_256(),
                    self.hi as int,
                    self.lo * two_128(),
                );
            }
            cur = U256 { hi: self.lo, lo: 0 };
            rest = rest - 128;
        }
        assert(cur@ == (self@ * pow2((n - rest) as nat)) % two_256()) by {
            assert(self@ * 1 == self@);
        }
        let mut k: u32 = 64;
        while k > 0
            invariant
                k == 64 || k == 32 || k == 16 || k == 8 || k == 4 || k == 2 || k == 1 || k == 0,
                rest <= n,
                rest < 2 * k || rest == 0,
                cur@ == (self@ * pow2((n - rest) as nat)) % two_256(),
            decreases k,
        {
            if rest >= k {
                let (d, e) = U256::stage_factors(k);
                proof {
                    let done: nat = (n - rest) as nat;
                    lemma_pow2_adds(done, k as nat);
                    lemma_mul_mod_noop_left(self@ * pow2(done), d as int, two_256());
                    assert((self@ * pow2(done)) * d == self@ * (pow2(done) * d))
                        by (nonlinear_arith);
                }
                cur = cur.shl_by(d, e);
                rest = rest - k;
            }
            k = k / 2;
        }
        cur
    }
}

impl U256 {
    /// Bit `i` of the value, counted from the lowest.
    pub fn bit(self, i: u32) -> (b: bool)
        requires
            i < 256,
        ensures
            b == ((self@ / (pow2(i as nat) as int)) % 2 == 1),
    {
        proof {
            lemma_bit_of_limbs(self.hi as int, self.lo as int, i as nat);
        }
        if i >= 128 {
            let by: u128 = (i - 128) as u128;
            proof {
                vstd::bits::lemma_u128_shr_is_div(self.hi, by);
            }
            (self.hi >> by) % 2 == 1
        } else {
            let by: u128 = i as u128;
            proof {
                vstd::bits::lemma_u128_shr_is_div(self.lo, by);
            }
            (self.lo >> by) % 2 == 1
        }
    }

    /// Quotient and remainder by a divisor that is not zero.
    pub fn div_rem(self, d: U256) -> (r: (U256, U256))
        requires
            d@ != 0,
        ensures
            r.0@ == self@ / d@,
            r.1@ == self@ % d@,
    {
        let mut q: U256 = U256::zero();
        let mut rem: U256 = U256::zero();
        let mut i: u32 = 256;
        proof {
            lemma_pow2_values();
            vstd::arithmetic::div_mod::lemma_basic_div(self@, pow2(256) as int);
        }
        while i > 0
            invariant
                i <= 256,
                d@ > 0,
                self@ / (pow2(i as nat) as int) == q@ * d@ + rem@,
                0 <= rem@ < d@,
                0 <= q@ < pow2((256 - i) as nat),
            decreases i,
        {
            i = i - 1;
            let low: U256 = if self.bit(i) {
                rem.add(U256::one())
            } else {
                rem
            };
            proof {
                let y: int = self@ / (pow2(i as nat) as int);
                lemma_pow2_values();
                lemma_div_pow2_twice(self@, i as nat, 1);
                vstd::arithmetic::div_mod::lemma_fundamental_div_mod(y, 2);
                lemma_division_round(y / 2, q@, d@, rem@, y % 2);
                lemma_pow2_adds((255 - i) as nat, 1);
                lemma_pow2_monotone((256 - i) as nat, 256);
            }
            let gap: U256 = d.sub(rem);
            let twice: U256 = q.add(q);
            if low.ge(gap) {
                rem = low.sub(gap);
                q = twice.add(U256::one());
            } else {
                rem = rem.add(low);
                q = twice;
            }
        }
        proof {
            lemma_pow2_values();
            assert(self@ / 1 == self@);
            lemma_div_mod_unique(self@, d@, q@, rem@);
        }
        (q, rem)
    }

    /// The quotient by a divisor that is not zero, rounded down.
    pub fn div(self, d: U256) -> (r: U256)
        requires
            d@ != 0,
        ensures
            r@ == self@ / d@,
    {
        self.div_rem(d).0
    }

    /// The remainder by a divisor that is not zero.
    pub fn rem(self, d: U256) -> (r: U256)
        requires
            d@ != 0,
        ensures
            r@ == self@ % d@,
    {
        self.div_rem(d).1
    }
}


impl U256 {
    /// Reads a value written in decimal: a non-empty run of digits that
    /// stands for a number below `2^256`.
    pub fn from_dec_str(s: &str) -> (r: Option<U256>)
        ensures
            r is Some <==> is_decimal(s@) && decimal_value(s@) < two_256(),
            r is Some ==> r.unwrap()@ == decimal_value(s@),
    {
        let n: usize = s.unicode_len();
        if n == 0 {
            return None;
        }
        let ten: U256 = U256::from_u128(10);
        let cap: U256 = U256::max_value().div(ten);
        let mut acc: U256 = U256::zero();
        let mut i: usize = 0;
        while i < n
            invariant
                i <= n,
                n == s@.len(),
                ten@ == 10,
                cap@ == (two_256() - 1) / 10,
                forall|j: int| 0 <= j < i ==> is_digit(#[trigger] s@[j]),
                acc@ == decimal_value(s@.subrange(0, i as int)),
            decreases n - i,
        {
            let c: char = s.get_char(i);
            let code: u32 = c as u32;
            if code < 48 || code > 57 {
                return None;
            }
            let d: u128 = (code - 48) as u128;
            proof {
                let longer = s@.subrange(0, i + 1);
                assert(longer.drop_last() =~= s@.subrange(0, i as int));
                assert(longer.last() == c);
                if is_decimal(s@) {
                    lemma_decimal_prefix(s@, i + 1);
                }
            }
            if acc.gt(cap) {
                return None;
            }
            let shifted: U256 = acc.mul(ten);
            match shifted.checked_add(U256::from_u128(d)) {
                Some(v) => {
                    acc = v;
                },
                None => {
                    return None;
                },
            }
            i = i + 1;
        }
        proof {
            assert(s@.subrange(0, i as int) =~= s@);
        }
        Some(acc)
    }
}

} // verus!
