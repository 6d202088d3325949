//! Fixed-point arithmetic of a swap: full-precision multiply-and-divide,
//! token amounts between two square-root prices, and the price that a given
//! amount moves a pool to.
//!
//! Prices are Q64.64 square roots held in `u128`; liquidity and amounts of one
//! step are 64 bits wide.

use crate::arith::{lemma_pow2_values, two_128, two_64};
use crate::swap_lemmas::{
    div_ceil, lemma_amount_a_in_at_most, lemma_amount_a_reaches, lemma_amount_b_in_at_most,
    lemma_amount_over_liquidity_fits, lemma_div_ceil_bounds, lemma_fee_fits,
    lemma_mul_div_at_most, lemma_mul_div_q64_fits, lemma_price_after_a_product,
    lemma_price_after_a_reciprocal,
};
use crate::u256::U256;
use vstd::arithmetic::power2::pow2;
use vstd::prelude::*;

verus! {

/// One in Q64.64.
pub const Q64: u128 = 0x1_0000_0000_0000_0000;

/// The number of fractional bits of a price.
pub const FIXED_POINT_64: u32 = 64;

/// The denominator of a fee: fees are counted in millionths.
pub const BAR_FEE: u32 = 1_000_000;

/// The smallest tick with a tabulated price.
pub const MIN_TICK: i32 = -443636;

/// The largest tick with a tabulated price.
pub const MAX_TICK: i32 = 443636;

/// The price at `MIN_TICK`.
pub const MIN_SQRT_RATIO: u128 = 4295048017;

/// The price at `MAX_TICK`.
pub const MAX_SQRT_RATIO: u128 = 79226673515401279992447579062;

/// `a * b / d`, rounded down.
pub open spec fn mul_div_floor(a: int, b: int, d: int) -> int {
    (a * b) / d
}

/// `a * b / d`, rounded up.
pub open spec fn mul_div_ceil(a: int, b: int, d: int) -> int {
    div_ceil(a * b, d)
}

/// Rounding up adds one to an inexact quotient and nothing to an exact one;
/// the same holds of the low 128 bits that `mul_div_rounding_up` and
/// `mul_div` return, where the quotient rounded up fits in 128 bits.
pub proof fn lemma_rounding_up_adds_at_most_one(a: int, b: int, d: int)
    requires
        0 <= a,
        0 <= b,
        d > 0,
    ensures
        mul_div_ceil(a, b, d) - mul_div_floor(a, b, d) == (if (a * b) % d == 0 {
            0int
        } else {
            1int
        }),
        mul_div_ceil(a, b, d) <= u128::MAX ==> mul_div_ceil(a, b, d) % two_128() - mul_div_floor(
            a,
            b,
            d,
        ) % two_128() == mul_div_ceil(a, b, d) - mul_div_floor(a, b, d),
{
    assert(0 <= a * b) by (nonlinear_arith)
        requires
            0 <= a,
            0 <= b,
    ;
    lemma_div_ceil_bounds(a * b, d);
    vstd::arithmetic::div_mod::lemma_mod_bound(a * b, d);
    if mul_div_ceil(a, b, d) <= u128::MAX {
        vstd::arithmetic::div_mod::lemma_small_mod(mul_div_ceil(a, b, d) as nat, two_128() as nat);
        vstd::arithmetic::div_mod::lemma_small_mod(mul_div_floor(a, b, d) as nat, two_128() as nat);
    }
}

/// The smaller of `x` and the largest 64-bit value.
pub open spec fn saturate_u64(x: int) -> int {
    if x > u64::MAX {
        u64::MAX as int
    } else {
        x
    }
}

/// The position of the highest set bit of `x`, counted from zero; zero for
/// the value zero.
pub fn most_significant_bit(x: U256) -> (msb: u32)
    ensures
        x@ == 0 ==> msb == 0,
        x@ > 0 ==> msb < 256 && pow2(msb as nat) <= x@ < 2 * pow2(msb as nat),
{
    let mut msb: u32 = 0;
    let mut val: U256 = x;
    let mut step: u32 = 128;
    proof {
        lemma_pow2_values();
    }
    while step > 0
        invariant
            step == 128 || step == 64 || step == 32 || step == 16 || step == 8 || step == 4
                || step == 2 || step == 1 || step == 0,
            msb + 2 * step <= 256,
            val@ == x@ / (pow2(msb as nat) as int),
            step > 0 ==> val@ < pow2((2 * step) as nat),
            step == 0 ==> val@ < 2,
            msb > 0 ==> val@ >= 1,
        decreases step,
    {
        let bound: U256 = U256::one().shl(step);
        proof {
            lemma_pow2_values();
            crate::arith::lemma_pow2_monotone(step as nat, 128);
            vstd::arithmetic::div_mod::lemma_small_mod(pow2(step as nat), pow2(256));
            vstd::arithmetic::power2::lemma_pow2_adds(step as nat, step as nat);
        }
        if val.ge(bound) {
            proof {
                crate::arith::lemma_div_pow2_twice(x@, msb as nat, step as nat);
                crate::arith::lemma_div_bound(
                    val@,
                    pow2(step as nat) as int,
                    pow2(step as nat) as int,
                );
                vstd::arithmetic::div_mod::lemma_div_non_zero(val@, pow2(step as nat) as int);
            }
            val = val.shr(step);
            msb = msb + step;
        }
        step = step / 2;
    }
    proof {
        lemma_pow2_values();
        vstd::arithmetic::power2::lemma_pow2_pos(msb as nat);
        if x@ == 0 {
            vstd::arithmetic::div_mod::lemma_basic_div(0, pow2(msb as nat) as int);
        }
        if x@ > 0 {
            let p: int = pow2(msb as nat) as int;
            vstd::arithmetic::div_mod::lemma_fundamental_div_mod(x@, p);
            vstd::arithmetic::div_mod::lemma_mod_bound(x@, p);
            if msb > 0 {
                assert(p * val@ == p) by (nonlinear_arith)
                    requires
                        val@ == 1,
                ;
            }
        }
    }
    msb
}

/// `a * b / d` rounded down, with the product in full precision; the low 128
/// bits of the quotient.
pub fn mul_div(a: u128, b: u128, denominator: u128) -> (r: u128)
    requires
        denominator > 0,
    ensures
        r == mul_div_floor(a as int, b as int, denominator as int) % two_128(),
{
    let product: U256 = U256::full_mul(a, b);
    product.div(U256::from_u128(denominator)).as_u128()
}

/// `a * b / d` rounded up, with the product in full precision; the low 128
/// bits of the quotient.
pub fn mul_div_rounding_up(a: u128, b: u128, denominator: u128) -> (r: u128)
    requires
        denominator > 0,
    ensures
        r == mul_div_ceil(a as int, b as int, denominator as int) % two_128(),
{
    let product: U256 = U256::full_mul(a, b);
    let (quotient, remainder) = product.div_rem(U256::from_u128(denominator));
    if remainder.gt(U256::zero()) {
        proof {
            crate::arith::lemma_quotient_below(product@, denominator as int);
        }
        quotient.add(U256::one()).as_u128()
    } else {
        quotient.as_u128()
    }
}

/// `n / d` rounded up.
pub fn div_rounding_up(numerator: u128, denominator: u128) -> (r: u128)
    requires
        denominator > 0,
    ensures
        r == div_ceil(numerator as int, denominator as int),
{
    let result: u128 = numerator / denominator;
    if numerator % denominator > 0 {
        proof {
            crate::arith::lemma_quotient_below(numerator as int, denominator as int);
        }
        result + 1
    } else {
        result
    }
}


/// The amount of token A between two prices at a given liquidity:
/// `L * 2^64 * (upper - lower) / upper / lower`, both divisions rounded the
/// same way, capped at the largest 64-bit value; zero where the lower price
/// is zero or the prices are equal. The prices may come in either order.
pub open spec fn amount_a_delta(sqrt_l: int, sqrt_u: int, liquidity: int, round_up: bool) -> int {
    let lower = if sqrt_l > sqrt_u {
        sqrt_u
    } else {
        sqrt_l
    };
    let upper = if sqrt_l > sqrt_u {
        sqrt_l
    } else {
        sqrt_u
    };
    let numerator1 = liquidity * two_64();
    let numerator2 = upper - lower;
    if lower == 0 || numerator2 == 0 {
        0
    } else if round_up {
        saturate_u64(div_ceil(mul_div_ceil(numerator1, numerator2, upper), lower))
    } else {
        saturate_u64(mul_div_floor(numerator1, numerator2, upper) / lower)
    }
}

/// The amount of token B between two prices at a given liquidity:
/// `L * (upper - lower) / 2^64`, capped at the largest 64-bit value. The
/// prices may come in either order.
pub open spec fn amount_b_delta(sqrt_l: int, sqrt_u: int, liquidity: int, round_up: bool) -> int {
    let diff = if sqrt_l > sqrt_u {
        sqrt_l - sqrt_u
    } else {
        sqrt_u - sqrt_l
    };
    if round_up {
        saturate_u64(mul_div_ceil(liquidity, diff, two_64()))
    } else {
        saturate_u64(mul_div_floor(liquidity, diff, two_64()))
    }
}

/// The price after `amount` of token A enters (`add`) or leaves the pool,
/// rounded up.
///
/// Entering: `L * 2^64 * s / (L * 2^64 + amount * s)` where the denominator
/// fits in 128 bits, else `L * 2^64 / (L * 2^64 / s + amount)`. Leaving:
/// `L * 2^64 * s / (L * 2^64 - amount * s)`, its low 128 bits, where the
/// denominator is positive, else one.
pub open spec fn next_price_from_amount_a(s: int, liquidity: int, amount: int, add: bool) -> int {
    let numerator1 = liquidity * two_64();
    let product = amount * s;
    if amount == 0 || liquidity == 0 {
        s
    } else if add {
        if numerator1 + product <= u128::MAX {
            mul_div_ceil(numerator1, s, numerator1 + product)
        } else {
            div_ceil(numerator1, numerator1 / s + amount)
        }
    } else {
        if numerator1 > product {
            mul_div_ceil(numerator1, s, numerator1 - product) % two_128()
        } else {
            1
        }
    }
}

/// The price after `amount` of token B enters (`add`) or leaves the pool,
/// rounded down: `s + amount * 2^64 / L`, capped at the largest 128-bit
/// value, or `s - amount * 2^64 / L`, at least one.
pub open spec fn next_price_from_amount_b(s: int, liquidity: int, amount: int, add: bool) -> int {
    if liquidity == 0 {
        s
    } else if add {
        let moved = s + mul_div_floor(amount, two_64(), liquidity);
        if moved > u128::MAX {
            u128::MAX as int
        } else {
            moved
        }
    } else {
        let moved = s - mul_div_ceil(amount, two_64(), liquidity);
        if moved < 1 {
            1
        } else {
            moved
        }
    }
}

/// The price after `amount_in` of the token being sold has entered.
pub open spec fn next_price_from_input(
    s: int,
    liquidity: int,
    amount_in: int,
    a_for_b: bool,
) -> int {
    if s == 0 || liquidity == 0 {
        s
    } else if a_for_b {
        next_price_from_amount_a(s, liquidity, amount_in, true)
    } else {
        next_price_from_amount_b(s, liquidity, amount_in, true)
    }
}

/// The price after `amount_out` of the token being bought has left.
pub open spec fn next_price_from_output(
    s: int,
    liquidity: int,
    amount_out: int,
    a_for_b: bool,
) -> int {
    if s == 0 || liquidity == 0 {
        s
    } else if a_for_b {
        next_price_from_amount_b(s, liquidity, amount_out, false)
    } else {
        next_price_from_amount_a(s, liquidity, amount_out, false)
    }
}

/// The amount of token A that lies between two prices, in either order.
pub fn get_amount_a_delta(
    sqrt_ratio_l_x64: u128,
    sqrt_ratio_u_x64: u128,
    liquidity: u64,
    round_up: bool,
) -> (r: u64)
    ensures
        r == amount_a_delta(
            sqrt_ratio_l_x64 as int,
            sqrt_ratio_u_x64 as int,
            liquidity as int,
            round_up,
        ),
{
    let (lower, upper) = if sqrt_ratio_l_x64 > sqrt_ratio_u_x64 {
        (sqrt_ratio_u_x64, sqrt_ratio_l_x64)
    } else {
        (sqrt_ratio_l_x64, sqrt_ratio_u_x64)
    };
    let numerator1: u128 = (liquidity as u128) * Q64;
    let numerator2: u128 = upper - lower;
    if lower == 0 || numerator2 == 0 {
        return 0;
    }
    proof {
        lemma_mul_div_at_most(numerator1 as int, numerator2 as int, upper as int);
        vstd::arithmetic::div_mod::lemma_small_mod(
            mul_div_floor(numerator1 as int, numerator2 as int, upper as int) as nat,
            two_128() as nat,
        );
        vstd::arithmetic::div_mod::lemma_small_mod(
            mul_div_ceil(numerator1 as int, numerator2 as int, upper as int) as nat,
            two_128() as nat,
        );
    }
    let amount_a: u128 = if round_up {
        div_rounding_up(mul_div_rounding_up(numerator1, numerator2, upper), lower)
    } else {
        mul_div(numerator1, numerator2, upper) / lower
    };
    if amount_a > u64::MAX as u128 {
        u64::MAX
    } else {
        amount_a as u64
    }
}

/// The amount of token B that lies between two prices, in either order.
pub fn get_amount_b_delta(
    sqrt_ratio_l_x64: u128,
    sqrt_ratio_u_x64: u128,
    liquidity: u64,
    round_up: bool,
) -> (r: u64)
    ensures
        r == amount_b_delta(
            sqrt_ratio_l_x64 as int,
            sqrt_ratio_u_x64 as int,
            liquidity as int,
            round_up,
        ),
{
    let (lower, upper) = if sqrt_ratio_l_x64 > sqrt_ratio_u_x64 {
        (sqrt_ratio_u_x64, sqrt_ratio_l_x64)
    } else {
        (sqrt_ratio_l_x64, sqrt_ratio_u_x64)
    };
    let diff: u128 = upper - lower;
    if diff == 0 {
        proof {
            assert((liquidity as int) * 0 == 0) by (nonlinear_arith);
            lemma_div_ceil_bounds(0, two_64());
        }
        return 0;
    }
    proof {
        lemma_mul_div_q64_fits(liquidity as int, diff as int);
        vstd::arithmetic::div_mod::lemma_small_mod(
            mul_div_floor(liquidity as int, diff as int, two_64()) as nat,
            two_128() as nat,
        );
        vstd::arithmetic::div_mod::lemma_small_mod(
            mul_div_ceil(liquidity as int, diff as int, two_64()) as nat,
            two_128() as nat,
        );
    }
    let amount_b: u128 = if round_up {
        mul_div_rounding_up(liquidity as u128, diff, Q64)
    } else {
        mul_div(liquidity as u128, diff, Q64)
    };
    if amount_b > u64::MAX as u128 {
        u64::MAX
    } else {
        amount_b as u64
    }
}

/// The price after an amount of token A has entered or left, rounded up.
pub fn get_next_sqrt_price_from_amount_a_rounding_up(
    sqrt_px64: u128,
    liquidity: u64,
    amount: u64,
    add: bool,
) -> (r: u128)
    ensures
        r == next_price_from_amount_a(sqrt_px64 as int, liquidity as int, amount as int, add),
{
    if amount == 0 || liquidity == 0 {
        return sqrt_px64;
    }
    let numerator1: u128 = (liquidity as u128) * Q64;
    let product: Option<u128> = (amount as u128).checked_mul(sqrt_px64);
    if add {
        let denominator: Option<u128> = match product {
            Some(p) => numerator1.checked_add(p),
            None => None,
        };
        match denominator {
            Some(d) => {
                proof {
                    assert(0 <= (amount as int) * (sqrt_px64 as int)) by (nonlinear_arith);
                    crate::swap_lemmas::lemma_mul_div_at_most_left(
                        numerator1 as int,
                        sqrt_px64 as int,
                        d as int,
                    );
                    vstd::arithmetic::div_mod::lemma_small_mod(
                        mul_div_ceil(numerator1 as int, sqrt_px64 as int, d as int) as nat,
                        two_128() as nat,
                    );
                }
                mul_div_rounding_up(numerator1, sqrt_px64, d)
            },
            None => {
                proof {
                    if sqrt_px64 == 0 {
                        assert((amount as int) * 0 == 0) by (nonlinear_arith);
                    }
                    vstd::arithmetic::div_mod::lemma_div_pos_is_pos(
                        numerator1 as int,
                        sqrt_px64 as int,
                    );
                    lemma_mul_div_at_most(numerator1 as int, 1, sqrt_px64 as int);
                    assert((numerator1 as int) * 1 == numerator1) by (nonlinear_arith);
                }
                div_rounding_up(numerator1, numerator1 / sqrt_px64 + (amount as u128))
            },
        }
    } else {
        match product {
            Some(p) => {
                if numerator1 > p {
                    mul_div_rounding_up(numerator1, sqrt_px64, numerator1 - p)
                } else {
                    1
                }
            },
            None => 1,
        }
    }
}

/// The price after an amount of token B has entered or left, rounded down.
pub fn get_next_sqrt_price_from_amount_b_rounding_down(
    sqrt_px64: u128,
    liquidity: u64,
    amount: u64,
    add: bool,
) -> (r: u128)
    ensures
        r == next_price_from_amount_b(sqrt_px64 as int, liquidity as int, amount as int, add),
{
    if liquidity == 0 {
        return sqrt_px64;
    }
    proof {
        lemma_amount_over_liquidity_fits(amount as int, liquidity as int);
        vstd::arithmetic::div_mod::lemma_small_mod(
            mul_div_floor(amount as int, two_64(), liquidity as int) as nat,
            two_128() as nat,
        );
        vstd::arithmetic::div_mod::lemma_small_mod(
            mul_div_ceil(amount as int, two_64(), liquidity as int) as nat,
            two_128() as nat,
        );
    }
    if add {
        let quotient: u128 = mul_div(amount as u128, Q64, liquidity as u128);
        if quotient > u128::MAX - sqrt_px64 {
            u128::MAX
        } else {
            sqrt_px64 + quotient
        }
    } else {
        let quotient: u128 = mul_div_rounding_up(amount as u128, Q64, liquidity as u128);
        if sqrt_px64 > quotient {
            sqrt_px64 - quotient
        } else {
            1
        }
    }
}

/// The price after `amount_in` of the token being sold has entered.
pub fn get_next_sqrt_price_from_input(
    sqrt_px64: u128,
    liquidity: u64,
    amount_in: u64,
    a_for_b: bool,
) -> (r: u128)
    ensures
        r == next_price_from_input(sqrt_px64 as int, liquidity as int, amount_in as int, a_for_b),
{
    if sqrt_px64 == 0 || liquidity == 0 {
        return sqrt_px64;
    }
    if a_for_b {
        get_next_sqrt_price_from_amount_a_rounding_up(sqrt_px64, liquidity, amount_in, true)
    } else {
        get_next_sqrt_price_from_amount_b_rounding_down(sqrt_px64, liquidity, amount_in, true)
    }
}

/// The price after `amount_out` of the token being bought has left.
pub fn get_next_sqrt_price_from_output(
    sqrt_px64: u128,
    liquidity: u64,
    amount_out: u64,
    a_for_b: bool,
) -> (r: u128)
    ensures
        r == next_price_from_output(sqrt_px64 as int, liquidity as int, amount_out as int, a_for_b),
{
    if sqrt_px64 == 0 || liquidity == 0 {
        return sqrt_px64;
    }
    if a_for_b {
        get_next_sqrt_price_from_amount_b_rounding_down(sqrt_px64, liquidity, amount_out, false)
    } else {
        get_next_sqrt_price_from_amount_a_rounding_up(sqrt_px64, liquidity, amount_out, false)
    }
}


/// The size of a signed amount.
pub open spec fn magnitude(x: int) -> int {
    if x < 0 {
        -x
    } else {
        x
    }
}

/// The price that one step ends at.
///
/// With a fixed input (`amount_remaining >= 0`) the input is first reduced
/// by the fee; the step ends at the target where what is left covers the
/// whole way there, else where that input carries the price. With a fixed
/// output the step ends at the target where the output wanted covers the
/// whole way, else where that output carries the price.
pub open spec fn step_next_price(
    current: int,
    target: int,
    liquidity: int,
    amount_remaining: int,
    fee_pips: int,
) -> int {
    let a_for_b = current >= target;
    let mag = magnitude(amount_remaining);
    if amount_remaining >= 0 {
        let less_fee = mul_div_floor(mag, BAR_FEE - fee_pips, BAR_FEE as int);
        let max_in = if a_for_b {
            amount_a_delta(target, current, liquidity, true)
        } else {
            amount_b_delta(current, target, liquidity, true)
        };
        if less_fee >= max_in {
            target
        } else {
            next_price_from_input(current, liquidity, less_fee, a_for_b)
        }
    } else {
        let max_out = if a_for_b {
            amount_b_delta(target, current, liquidity, false)
        } else {
            amount_a_delta(current, target, liquidity, false)
        };
        if mag >= max_out {
            target
        } else {
            next_price_from_output(current, liquidity, mag, a_for_b)
        }
    }
}

/// One step of a swap: the price it ends at, the input it takes, the output
/// it gives and the fee it charges.
///
/// Without liquidity nothing moves. Otherwise input and output are the
/// amounts between the current price and the price the step ends at, input
/// rounded up and output rounded down, the output capped at what was asked
/// for where the output is fixed. The fee is what is left of a fixed input
/// where the target was not reached, else `amount_in * fee / (BAR_FEE - fee)`
/// rounded up, its low 64 bits.
pub open spec fn swap_step(
    current: int,
    target: int,
    liquidity: int,
    amount_remaining: int,
    fee_pips: int,
) -> (int, int, int, int) {
    if liquidity == 0 {
        (current, 0, 0, 0)
    } else {
        let a_for_b = current >= target;
        let exact_in = amount_remaining >= 0;
        let mag = magnitude(amount_remaining);
        let next = step_next_price(current, target, liquidity, amount_remaining, fee_pips);
        let amount_in = if a_for_b {
            amount_a_delta(next, current, liquidity, true)
        } else {
            amount_b_delta(current, next, liquidity, true)
        };
        let full_out = if a_for_b {
            amount_b_delta(next, current, liquidity, false)
        } else {
            amount_a_delta(current, next, liquidity, false)
        };
        let amount_out = if !exact_in && full_out > mag {
            mag
        } else {
            full_out
        };
        let fee_amount = if exact_in && next != target {
            mag - amount_in
        } else {
            mul_div_ceil(amount_in, fee_pips, BAR_FEE - fee_pips) % two_64()
        };
        (next, amount_in, amount_out, fee_amount)
    }
}

/// The size of a signed 64-bit amount.
pub fn magnitude_of(x: i64) -> (r: u64)
    ensures
        r == magnitude(x as int),
{
    if x >= 0 {
        x as u64
    } else if x == i64::MIN {
        0x8000_0000_0000_0000
    } else {
        (-x) as u64
    }
}

/// The price that a fixed input, already reduced by the fee and too small to
/// reach the target, carries the pool to, with the input that the move takes:
/// the target is not reached, and the move takes no more than was offered.
fn step_by_input(current: u128, target: u128, liquidity: u64, less_fee: u64) -> (r: (u128, u64))
    requires
        liquidity > 0,
        less_fee < (if current >= target {
            amount_a_delta(target as int, current as int, liquidity as int, true)
        } else {
            amount_b_delta(current as int, target as int, liquidity as int, true)
        }),
    ensures
        r.0 == next_price_from_input(
            current as int,
            liquidity as int,
            less_fee as int,
            current >= target,
        ),
        r.0 != target,
        r.1 == (if current >= target {
            amount_a_delta(r.0 as int, current as int, liquidity as int, true)
        } else {
            amount_b_delta(current as int, r.0 as int, liquidity as int, true)
        }),
        r.1 <= less_fee,
{
    let a_for_b: bool = current >= target;
    let next: u128 = get_next_sqrt_price_from_input(current, liquidity, less_fee, a_for_b);
    let ghost n1: int = liquidity as int * two_64();
    let ghost s: int = current as int;
    let ghost t: int = target as int;
    let ghost e: int = next as int;
    let ghost amount: int = less_fee as int;
    if a_for_b {
        proof {
            assert(0 <= amount * s) by (nonlinear_arith)
                requires
                    0 <= amount,
                    0 <= s,
            ;
            if amount >= 1 {
                if n1 + amount * s <= u128::MAX {
                    lemma_price_after_a_product(n1, s, amount);
                } else {
                    lemma_price_after_a_reciprocal(n1, s, amount);
                }
                assert(e >= 1) by (nonlinear_arith)
                    requires
                        e * (n1 + amount * s) >= n1 * s,
                        n1 > 0,
                        s > 0,
                        e >= 0,
                        0 <= amount * s,
                ;
                lemma_amount_a_in_at_most(n1, s, e, amount);
                if e <= t {
                    lemma_amount_a_reaches(n1, s, e, t, amount);
                }
            }
        }
        (next, get_amount_a_delta(next, current, liquidity, true))
    } else {
        proof {
            if s > 0 {
                lemma_amount_over_liquidity_fits(amount, liquidity as int);
                lemma_amount_b_in_at_most(liquidity as int, e - s, amount);
                if e >= t {
                    lemma_amount_b_in_at_most(liquidity as int, t - s, amount);
                }
            } else {
                assert((liquidity as int) * 0 == 0) by (nonlinear_arith);
                lemma_div_ceil_bounds(0, two_64());
            }
        }
        (next, get_amount_b_delta(current, next, liquidity, true))
    }
}

/// One step of a swap from `sqrt_ratio_current_x64` towards
/// `sqrt_ratio_target_x64`: the price it ends at, then input, output and fee.
///
/// A fixed input is never overspent by input and fee together, and a fixed
/// output is never exceeded.
pub fn compute_swap_step(
    sqrt_ratio_current_x64: u128,
    sqrt_ratio_target_x64: u128,
    liquidity: u64,
    amount_remaining: i64,
    fee_pips: u32,
) -> (r: (u128, u64, u64, u64))
    requires
        liquidity == 0 || fee_pips < BAR_FEE,
    ensures
        (r.0 as int, r.1 as int, r.2 as int, r.3 as int) == swap_step(
            sqrt_ratio_current_x64 as int,
            sqrt_ratio_target_x64 as int,
            liquidity as int,
            amount_remaining as int,
            fee_pips as int,
        ),
        amount_remaining >= 0 ==> r.1 + r.3 <= amount_remaining,
        amount_remaining < 0 ==> r.2 <= -amount_remaining,
{
    if liquidity == 0 {
        return (sqrt_ratio_current_x64, 0, 0, 0);
    }
    let a_for_b: bool = sqrt_ratio_current_x64 >= sqrt_ratio_target_x64;
    let exact_in: bool = amount_remaining >= 0;
    let mag: u64 = magnitude_of(amount_remaining);
    let keep: u32 = BAR_FEE - fee_pips;

    if exact_in {
        proof {
            lemma_mul_div_at_most(mag as int, keep as int, BAR_FEE as int);
            vstd::arithmetic::div_mod::lemma_small_mod(
                mul_div_floor(mag as int, keep as int, BAR_FEE as int) as nat,
                two_128() as nat,
            );
        }
        let less_fee: u64 = mul_div(mag as u128, keep as u128, BAR_FEE as u128) as u64;
        let max_in: u64 = if a_for_b {
            get_amount_a_delta(sqrt_ratio_target_x64, sqrt_ratio_current_x64, liquidity, true)
        } else {
            get_amount_b_delta(sqrt_ratio_current_x64, sqrt_ratio_target_x64, liquidity, true)
        };
        if less_fee >= max_in {
            let amount_out: u64 = if a_for_b {
                get_amount_b_delta(sqrt_ratio_target_x64, sqrt_ratio_current_x64, liquidity, false)
            } else {
                get_amount_a_delta(sqrt_ratio_current_x64, sqrt_ratio_target_x64, liquidity, false)
            };
            proof {
                lemma_fee_fits(mag as int, max_in as int, fee_pips as int, BAR_FEE as int);
                let fee: int = mul_div_ceil(max_in as int, fee_pips as int, keep as int);
                vstd::arithmetic::div_mod::lemma_small_mod(fee as nat, two_128() as nat);
                vstd::arithmetic::div_mod::lemma_small_mod(fee as nat, two_64() as nat);
            }
            let fee_amount: u128 = mul_div_rounding_up(
                max_in as u128,
                fee_pips as u128,
                keep as u128,
            );
            (sqrt_ratio_target_x64, max_in, amount_out, fee_amount as u64)
        } else {
            let (next, amount_in) = step_by_input(
                sqrt_ratio_current_x64,
                sqrt_ratio_target_x64,
                liquidity,
                less_fee,
            );
            let amount_out: u64 = if a_for_b {
                get_amount_b_delta(next, sqrt_ratio_current_x64, liquidity, false)
            } else {
                get_amount_a_delta(sqrt_ratio_current_x64, next, liquidity, false)
            };
            (next, amount_in, amount_out, mag - amount_in)
        }
    } else {
        let max_out: u64 = if a_for_b {
            get_amount_b_delta(sqrt_ratio_target_x64, sqrt_ratio_current_x64, liquidity, false)
        } else {
            get_amount_a_delta(sqrt_ratio_current_x64, sqrt_ratio_target_x64, liquidity, false)
        };
        let next: u128 = if mag >= max_out {
            sqrt_ratio_target_x64
        } else {
            get_next_sqrt_price_from_output(sqrt_ratio_current_x64, liquidity, mag, a_for_b)
        };
        let amount_in: u64 = if a_for_b {
            get_amount_a_delta(next, sqrt_ratio_current_x64, liquidity, true)
        } else {
            get_amount_b_delta(sqrt_ratio_current_x64, next, liquidity, true)
        };
        let full_out: u64 = if a_for_b {
            get_amount_b_delta(next, sqrt_ratio_current_x64, liquidity, false)
        } else {
            get_amount_a_delta(sqrt_ratio_current_x64, next, liquidity, false)
        };
        let amount_out: u64 = if full_out > mag {
            mag
        } else {
            full_out
        };
        proof {
            assert(0 <= (amount_in as int) * (fee_pips as int) <= 0xffff_ffff_ffff_ffff * 1_000_000)
                by (nonlinear_arith)
                requires
                    0 <= amount_in <= 0xffff_ffff_ffff_ffff,
                    0 <= fee_pips <= 1_000_000,
            ;
            lemma_div_ceil_bounds((amount_in as int) * (fee_pips as int), keep as int);
            vstd::arithmetic::div_mod::lemma_div_is_ordered_by_denominator(
                (amount_in as int) * (fee_pips as int),
                1,
                keep as int,
            );
            let fee: int = mul_div_ceil(amount_in as int, fee_pips as int, keep as int);
            vstd::arithmetic::div_mod::lemma_small_mod(fee as nat, two_128() as nat);
        }
        let fee_full: u128 = mul_div_rounding_up(amount_in as u128, fee_pips as u128, keep as u128);
        let fee_amount: u64 = (fee_full % Q64) as u64;
        (next, amount_in, amount_out, fee_amount)
    }
}

} // verus!
