//! Ticks and square-root prices: the price `1.0001^(tick / 2)` in Q64.64,
//! computed from a table of twenty factors, and its inverse.

use crate::arith::{two_128, two_256, two_64};
use crate::swap_lemmas::div_ceil;
use crate::swap_math::{MAX_SQRT_RATIO, MAX_TICK, MIN_SQRT_RATIO, MIN_TICK, Q64};
use crate::tick_lemmas::{
    lemma_fold_step_bounds, lemma_price_at_max_tick, lemma_price_at_min_tick, lemma_price_rises,
};
use crate::u256::U256;
use vstd::prelude::*;

verus! {

/// The tabulated factor for bit `k` of a tick's magnitude: `2^128` over
/// `1.0001^(2^k / 2)`, for `k` from 0 to 19.
pub open spec fn tick_factor(k: nat) -> int {
    if k == 0 {
        340265354078544963557816517032075149313int
    } else if k == 1 {
        340248342086729790484326174814286782778int
    } else if k == 2 {
        340214320654664324051920982716015181260int
    } else if k == 3 {
        340146287995602323631171512101879684304int
    } else if k == 4 {
        340010263488231146823593991679159461444int
    } else if k == 5 {
        339738377640345403697157401104375502016int
    } else if k == 6 {
        339195258003219555707034227454543997025int
    } else if k == 7 {
        338111622100601834656805679988414885971int
    } else if k == 8 {
        335954724994790223023589805789778977700int
    } else if k == 9 {
        331682121138379247127172139078559817300int
    } else if k == 10 {
        323299236684853023288211250268160618739int
    } else if k == 11 {
        307163716377032989948697243942600083929int
    } else if k == 12 {
        277268403626896220162999269216087595045int
    } else if k == 13 {
        225923453940442621947126027127485391333int
    } else if k == 14 {
        149997214084966997727330242082538205943int
    } else if k == 15 {
        66119101136024775622716233608466517926int
    } else if k == 16 {
        12847376061809297530290974190478138313int
    } else if k == 17 {
        485053260817066172746253684029974020int
    } else if k == 18 {
        691415978906521570653435304214168int
    } else {
        1404880482679654955896int
    }
}

/// The ratio where every one of the first `k` bits is set: the least that
/// the ratio can be after `k` bits.
pub open spec fn ratio_floor(k: nat) -> int {
    if k == 0 {
        340282366920938463463374607431768211456int
    } else if k == 1 {
        340265354078544963557816517032075149313int
    } else if k == 2 {
        340231330945450418515964920540021147198int
    } else if k == 3 {
        340163294884840501567246455576441303173int
    } else if k == 4 {
        340027263576413978334042125129128142263int
    } else if k == 5 {
        339755364134575681238502878529008278326int
    } else if k == 6 {
        339212217342146842559531600927033253847int
    } else if k == 7 {
        338128527259088467778511436198880488164int
    } else if k == 8 {
        335971522311117552149334092109581418674int
    } else if k == 9 {
        331698704829854243503582989311158516586int
    } else if k == 10 {
        323315401242583425022802937239550140918int
    } else if k == 11 {
        307179074178916392659402722612948179612int
    } else if k == 12 {
        277282266700509388632609933215391170106int
    } else if k == 13 {
        225934749830749445986089663015556949343int
    } else if k == 14 {
        150004713758184102711002566140788444796int
    } else if k == 15 {
        66122407008436832627027740713496573148int
    } else if k == 16 {
        12848018414553970828728179856918040433int
    } else if k == 17 {
        485077512873820763967752669154895175int
    } else if k == 18 {
        691450548841240133896843047535567int
    } else if k == 19 {
        1404950724947776134837143967int
    } else {
        5800441176int
    }
}

/// The ratio after the bits of `bits` have been folded into `r`, lowest bit
/// first, where the lowest bit of `bits` is bit `k` of the tick: each set bit
/// multiplies by its factor and drops 128 fractional bits.
pub open spec fn fold_ratio(bits: nat, k: nat, r: int) -> int
    decreases 20 - k,
{
    if k >= 20 {
        r
    } else {
        fold_ratio(
            bits / 2,
            k + 1,
            if bits % 2 == 1 {
                (r * tick_factor(k)) / two_128()
            } else {
                r
            },
        )
    }
}

/// The Q128.128 ratio `1.0001^(-abs_tick / 2)`, from the table.
pub open spec fn ratio_at(abs_tick: nat) -> int {
    fold_ratio(abs_tick, 0, two_128())
}

/// The Q64.64 square-root price at a tick.
///
/// Beyond `MAX_TICK` in magnitude it is the price at the nearer end of the
/// table. Within, it is the ratio of the tick's magnitude, inverted for
/// positive ticks, with 64 fractional bits dropped rounding up, capped at the
/// largest 128-bit value.
pub open spec fn sqrt_ratio_at_tick(tick: int) -> int {
    let abs_tick = if tick < 0 {
        -tick
    } else {
        tick
    };
    if abs_tick > MAX_TICK {
        if tick > 0 {
            MAX_SQRT_RATIO as int
        } else {
            MIN_SQRT_RATIO as int
        }
    } else {
        let r = ratio_at(abs_tick as nat);
        let ratio = if tick > 0 {
            (two_256() - 1) / r
        } else {
            r
        };
        let prod = div_ceil(ratio, two_64());
        if prod > u128::MAX {
            u128::MAX as int
        } else {
            prod
        }
    }
}

/// The tabulated factor for bit `k`.
pub fn factor_at(k: u32) -> (c: u128)
    requires
        k < 20,
    ensures
        c == tick_factor(k as nat),
{
    if k == 0 {
        340265354078544963557816517032075149313
    } else if k == 1 {
        340248342086729790484326174814286782778
    } else if k == 2 {
        340214320654664324051920982716015181260
    } else if k == 3 {
        340146287995602323631171512101879684304
    } else if k == 4 {
        340010263488231146823593991679159461444
    } else if k == 5 {
        339738377640345403697157401104375502016
    } else if k == 6 {
        339195258003219555707034227454543997025
    } else if k == 7 {
        338111622100601834656805679988414885971
    } else if k == 8 {
        335954724994790223023589805789778977700
    } else if k == 9 {
        331682121138379247127172139078559817300
    } else if k == 10 {
        323299236684853023288211250268160618739
    } else if k == 11 {
        307163716377032989948697243942600083929
    } else if k == 12 {
        277268403626896220162999269216087595045
    } else if k == 13 {
        225923453940442621947126027127485391333
    } else if k == 14 {
        149997214084966997727330242082538205943
    } else if k == 15 {
        66119101136024775622716233608466517926
    } else if k == 16 {
        12847376061809297530290974190478138313
    } else if k == 17 {
        485053260817066172746253684029974020
    } else if k == 18 {
        691415978906521570653435304214168
    } else {
        1404880482679654955896
    }
}

/// The Q64.64 square-root price at `tick`.
pub fn get_sqrt_ratio_at_tick(tick: i32) -> (r: u128)
    ensures
        r == sqrt_ratio_at_tick(tick as int),
{
    let abs_tick: u32 = if tick < 0 {
        (-(tick as i64)) as u32
    } else {
        tick as u32
    };
    if abs_tick > 443636 {
        return if tick > 0 {
            MAX_SQRT_RATIO
        } else {
            MIN_SQRT_RATIO
        };
    }
    let mut ratio: U256 = U256 { hi: 1, lo: 0 };
    let mut bits: u32 = abs_tick;
    let mut k: u32 = 0;
    while k < 20
        invariant
            k <= 20,
            ratio_floor(k as nat) <= ratio@ <= two_128(),
            fold_ratio(bits as nat, k as nat, ratio@) == ratio_at(abs_tick as nat),
        decreases 20 - k,
    {
        proof {
            lemma_fold_step_bounds(k as nat, ratio@);
        }
        if bits % 2 == 1 {
            let scaled: U256 = ratio.mul(U256::from_u128(factor_at(k)));
            proof {
                crate::arith::lemma_pow2_values();
            }
            ratio = scaled.shr(128);
        }
        bits = bits / 2;
        k = k + 1;
    }
    if tick > 0 {
        ratio = U256::max_value().div(ratio);
    }
    let whole: U256 = ratio.shr(64);
    proof {
        crate::arith::lemma_pow2_values();
        vstd::arithmetic::div_mod::lemma_fundamental_div_mod(ratio@, two_64());
        vstd::arithmetic::div_mod::lemma_mod_bound(ratio@, two_64());
        crate::arith::lemma_div_mod_unique(
            ratio@,
            two_64(),
            ratio.hi * two_64() + (ratio.lo / Q64) as int,
            (ratio.lo % Q64) as int,
        );
        crate::arith::lemma_div_bound(ratio@, two_64(), two_256() / two_64());
    }
    let prod: U256 = if ratio.lo % Q64 == 0 {
        whole
    } else {
        whole.add(U256::one())
    };
    if prod.gt(U256::from_u128(u128::MAX)) {
        u128::MAX
    } else {
        prod.as_u128()
    }
}

/// Whether `t` is a tick of the table whose price does not exceed `s` while
/// the price of the next tick does.
pub open spec fn brackets(t: int, s: int) -> bool {
    MIN_TICK <= t < MAX_TICK && sqrt_ratio_at_tick(t) <= s < sqrt_ratio_at_tick(t + 1)
}

/// The tick at a price: the tick of the table whose price is the greatest
/// that does not exceed `s`; `MIN_TICK` below the table and `MAX_TICK - 1`
/// at or above its upper end.
pub open spec fn tick_at_sqrt_ratio(s: int) -> int {
    if s < MIN_SQRT_RATIO {
        MIN_TICK as int
    } else if s >= MAX_SQRT_RATIO {
        MAX_TICK - 1
    } else {
        choose|t: int| brackets(t, s)
    }
}

/// Every tick of the table has a price from `MIN_SQRT_RATIO` to
/// `MAX_SQRT_RATIO`, and only `MAX_TICK` has the price `MAX_SQRT_RATIO`.
pub proof fn lemma_sqrt_ratio_in_range(t: int)
    requires
        MIN_TICK <= t <= MAX_TICK,
    ensures
        MIN_SQRT_RATIO <= sqrt_ratio_at_tick(t) <= MAX_SQRT_RATIO,
        t < MAX_TICK ==> sqrt_ratio_at_tick(t) < MAX_SQRT_RATIO,
{
    lemma_price_at_min_tick();
    lemma_price_at_max_tick();
    if MIN_TICK < t {
        lemma_price_rises(MIN_TICK as int, t);
    }
    if t < MAX_TICK {
        lemma_price_rises(t, MAX_TICK as int);
    }
}

/// Within the table the price rises strictly with the tick.
pub proof fn lemma_sqrt_ratio_strictly_increasing(t1: int, t2: int)
    requires
        MIN_TICK <= t1 < t2 <= MAX_TICK,
    ensures
        sqrt_ratio_at_tick(t1) < sqrt_ratio_at_tick(t2),
{
    lemma_price_rises(t1, t2);
}

/// At most one tick brackets a price, and no tick of the table above it has
/// a price that does not exceed that price.
pub proof fn lemma_bracket_unique(t: int, s: int)
    requires
        brackets(t, s),
    ensures
        tick_at_sqrt_ratio(s) == t,
        forall|u: int| t < u <= MAX_TICK ==> sqrt_ratio_at_tick(u) > s,
        forall|u: int| MIN_TICK <= u <= t ==> sqrt_ratio_at_tick(u) <= s,
{
    lemma_sqrt_ratio_in_range(t);
    lemma_sqrt_ratio_in_range(t + 1);
    assert forall|u: int| t < u <= MAX_TICK implies sqrt_ratio_at_tick(u) > s by {
        if t + 1 < u {
            lemma_price_rises(t + 1, u);
        }
    }
    assert forall|u: int| MIN_TICK <= u <= t implies sqrt_ratio_at_tick(u) <= s by {
        if u < t {
            lemma_price_rises(u, t);
        }
    }
    let c: int = choose|c: int| brackets(c, s);
    assert(brackets(c, s));
    if c < t {
        assert(sqrt_ratio_at_tick(c + 1) <= s);
    }
    if t < c {
        assert(sqrt_ratio_at_tick(c) > s);
    }
}

/// The tick at the price of a tick is that tick, for every tick of the table
/// but `MAX_TICK`, whose price is mapped to `MAX_TICK - 1`.
pub proof fn lemma_tick_round_trip(t: int)
    requires
        MIN_TICK <= t < MAX_TICK,
    ensures
        tick_at_sqrt_ratio(sqrt_ratio_at_tick(t)) == t,
{
    lemma_price_rises(t, t + 1);
    lemma_bracket_unique(t, sqrt_ratio_at_tick(t));
}

/// A price within the table lies between the price of its tick and the price
/// of the next tick.
pub proof fn lemma_tick_brackets_price(s: int)
    requires
        MIN_SQRT_RATIO <= s < MAX_SQRT_RATIO,
    ensures
        brackets(tick_at_sqrt_ratio(s), s),
{
    lemma_price_at_min_tick();
    lemma_price_at_max_tick();
    lemma_bracket_exists(s, MIN_TICK as int, MAX_TICK as int);
}

/// Between a tick whose price does not exceed `s` and a later one whose
/// price does, some tick brackets `s`.
pub proof fn lemma_bracket_exists(s: int, low: int, high: int)
    requires
        MIN_TICK <= low < high <= MAX_TICK,
        sqrt_ratio_at_tick(low) <= s < sqrt_ratio_at_tick(high),
        MIN_SQRT_RATIO <= s < MAX_SQRT_RATIO,
    ensures
        exists|t: int| brackets(t, s),
        brackets(tick_at_sqrt_ratio(s), s),
    decreases high - low,
{
    if sqrt_ratio_at_tick(low + 1) > s {
        assert(brackets(low, s));
    } else {
        lemma_bracket_exists(s, low + 1, high);
    }
}

/// The tick at `sqrt_price_x64`: the tick whose price is the greatest that
/// does not exceed it; `MIN_TICK` below the table and `MAX_TICK - 1` at or
/// above its upper end.
pub fn get_tick_at_sqrt_ratio(sqrt_price_x64: u128) -> (tick: i32)
    ensures
        tick == tick_at_sqrt_ratio(sqrt_price_x64 as int),
        MIN_TICK <= tick < MAX_TICK,
        MIN_SQRT_RATIO <= sqrt_price_x64 < MAX_SQRT_RATIO ==> {
            &&& sqrt_ratio_at_tick(tick as int) <= sqrt_price_x64 < sqrt_ratio_at_tick(tick + 1)
            &&& forall|u: int| tick < u <= MAX_TICK ==> sqrt_ratio_at_tick(u) > sqrt_price_x64
        },
{
    if sqrt_price_x64 < MIN_SQRT_RATIO {
        return MIN_TICK;
    }
    if sqrt_price_x64 >= MAX_SQRT_RATIO {
        return MAX_TICK - 1;
    }
    let mut low: i32 = MIN_TICK;
    let mut high: i32 = MAX_TICK;
    while low < high
        invariant
            MIN_TICK <= low <= high <= MAX_TICK,
            low == MIN_TICK || sqrt_ratio_at_tick(low - 1) <= sqrt_price_x64,
            high == MAX_TICK || sqrt_ratio_at_tick(high as int) > sqrt_price_x64,
        decreases high - low,
    {
        let mid: i32 = low + (high - low) / 2;
        let mid_sqrt: u128 = get_sqrt_ratio_at_tick(mid);
        if mid_sqrt <= sqrt_price_x64 {
            low = mid + 1;
        } else {
            high = mid;
        }
    }
    proof {
        lemma_price_at_min_tick();
        lemma_price_at_max_tick();
        lemma_bracket_unique(low - 1, sqrt_price_x64 as int);
    }
    low - 1
}

} // verus!
