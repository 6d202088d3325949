//! Facts about the price table: how one factor moves a ratio, and the prices
//! at the two ends of the table.

use crate::arith::{two_128, two_256, two_64};
use crate::swap_lemmas::div_ceil;
use crate::swap_math::{MAX_SQRT_RATIO, MAX_TICK, MIN_SQRT_RATIO, MIN_TICK};
use crate::tick_math::{fold_ratio, ratio_at, ratio_floor, sqrt_ratio_at_tick, tick_factor};
use vstd::prelude::*;

verus! {

/// Every factor lies strictly between zero and `2^128`.
pub proof fn lemma_factor_range(k: nat)
    ensures
        0 < tick_factor(k) < two_128(),
{
}

/// Multiplying by a factor and dropping 128 bits keeps the order of ratios.
pub proof fn lemma_scale_monotone(lo: int, hi: int, c: int)
    requires
        0 <= lo <= hi,
        0 <= c,
    ensures
        (lo * c) / two_128() <= (hi * c) / two_128(),
{
    assert(lo * c <= hi * c) by (nonlinear_arith)
        requires
            0 <= lo <= hi,
            0 <= c,
    ;
    vstd::arithmetic::div_mod::lemma_div_is_ordered(lo * c, hi * c, two_128());
}

/// The least ratio after `k + 1` bits is the least ratio after `k` bits times
/// the factor of bit `k`.
pub proof fn lemma_ratio_floor_step(k: nat)
    requires
        k < 20,
    ensures
        (ratio_floor(k) * tick_factor(k)) / two_128() == ratio_floor(k + 1),
        0 < ratio_floor(k + 1) <= ratio_floor(k) <= two_128(),
{
    if k == 0 {
        assert((340282366920938463463374607431768211456int * 340265354078544963557816517032075149313int) / two_128() == 340265354078544963557816517032075149313int);
    }
    if k == 1 {
        assert((340265354078544963557816517032075149313int * 340248342086729790484326174814286782778int) / two_128() == 340231330945450418515964920540021147198int);
    }
    if k == 2 {
        assert((340231330945450418515964920540021147198int * 340214320654664324051920982716015181260int) / two_128() == 340163294884840501567246455576441303173int);
    }
    if k == 3 {
        assert((340163294884840501567246455576441303173int * 340146287995602323631171512101879684304int) / two_128() == 340027263576413978334042125129128142263int);
    }
    if k == 4 {
        assert((340027263576413978334042125129128142263int * 340010263488231146823593991679159461444int) / two_128() == 339755364134575681238502878529008278326int);
    }
    if k == 5 {
        assert((339755364134575681238502878529008278326int * 339738377640345403697157401104375502016int) / two_128() == 339212217342146842559531600927033253847int);
    }
    if k == 6 {
        assert((339212217342146842559531600927033253847int * 339195258003219555707034227454543997025int) / two_128() == 338128527259088467778511436198880488164int);
    }
    if k == 7 {
        assert((338128527259088467778511436198880488164int * 338111622100601834656805679988414885971int) / two_128() == 335971522311117552149334092109581418674int);
    }
    if k == 8 {
        assert((335971522311117552149334092109581418674int * 335954724994790223023589805789778977700int) / two_128() == 331698704829854243503582989311158516586int);
    }
    if k == 9 {
        assert((331698704829854243503582989311158516586int * 331682121138379247127172139078559817300int) / two_128() == 323315401242583425022802937239550140918int);
    }
    if k == 10 {
        assert((323315401242583425022802937239550140918int * 323299236684853023288211250268160618739int) / two_128() == 307179074178916392659402722612948179612int);
    }
    if k == 11 {
        assert((307179074178916392659402722612948179612int * 307163716377032989948697243942600083929int) / two_128() == 277282266700509388632609933215391170106int);
    }
    if k == 12 {
        assert((277282266700509388632609933215391170106int * 277268403626896220162999269216087595045int) / two_128() == 225934749830749445986089663015556949343int);
    }
    if k == 13 {
        assert((225934749830749445986089663015556949343int * 225923453940442621947126027127485391333int) / two_128() == 150004713758184102711002566140788444796int);
    }
    if k == 14 {
        assert((150004713758184102711002566140788444796int * 149997214084966997727330242082538205943int) / two_128() == 66122407008436832627027740713496573148int);
    }
    if k == 15 {
        assert((66122407008436832627027740713496573148int * 66119101136024775622716233608466517926int) / two_128() == 12848018414553970828728179856918040433int);
    }
    if k == 16 {
        assert((12848018414553970828728179856918040433int * 12847376061809297530290974190478138313int) / two_128() == 485077512873820763967752669154895175int);
    }
    if k == 17 {
        assert((485077512873820763967752669154895175int * 485053260817066172746253684029974020int) / two_128() == 691450548841240133896843047535567int);
    }
    if k == 18 {
        assert((691450548841240133896843047535567int * 691415978906521570653435304214168int) / two_128() == 1404950724947776134837143967int);
    }
    if k == 19 {
        assert((1404950724947776134837143967int * 1404880482679654955896int) / two_128() == 5800441176int);
    }
}

/// A ratio between the least after `k` bits and `2^128` stays, under the
/// factor of bit `k`, between the least after `k + 1` bits and `2^128`, and
/// its product with the factor fits in 256 bits.
pub proof fn lemma_fold_step_bounds(k: nat, r: int)
    requires
        k < 20,
        ratio_floor(k) <= r <= two_128(),
    ensures
        0 <= r * tick_factor(k) < two_256(),
        ratio_floor(k + 1) <= (r * tick_factor(k)) / two_128() <= two_128(),
        ratio_floor(k + 1) <= r,
        0 < ratio_floor(k + 1),
{
    let c: int = tick_factor(k);
    lemma_factor_range(k);
    lemma_ratio_floor_step(k);
    lemma_scale_monotone(ratio_floor(k), r, c);
    assert(0 <= r * c <= two_128() * c) by (nonlinear_arith)
        requires
            0 <= r <= two_128(),
            0 <= c,
    ;
    assert(two_128() * c < two_128() * two_128()) by (nonlinear_arith)
        requires
            c < two_128(),
    ;
    assert(two_128() * two_128() == two_256());
    crate::arith::lemma_div_bound(r * c, two_128(), two_128());
}

/// The ratio at the magnitude of the end ticks.
pub proof fn lemma_ratio_at_end()
    ensures
        ratio_at(443636) == 79229651541111879659406241920int,
{
    assert(fold_ratio(443636, 0, 340282366920938463463374607431768211456int) == fold_ratio(221818, 1, 340282366920938463463374607431768211456int));
    assert(fold_ratio(221818, 1, 340282366920938463463374607431768211456int) == fold_ratio(110909, 2, 340282366920938463463374607431768211456int));
    assert(fold_ratio(110909, 2, 340282366920938463463374607431768211456int) == fold_ratio(55454, 3, 340214320654664324051920982716015181260int));
    assert(fold_ratio(55454, 3, 340214320654664324051920982716015181260int) == fold_ratio(27727, 4, 340214320654664324051920982716015181260int));
    assert(fold_ratio(27727, 4, 340214320654664324051920982716015181260int) == fold_ratio(13863, 5, 339942271634481534171944261107495351299int));
    assert(fold_ratio(13863, 5, 339942271634481534171944261107495351299int) == fold_ratio(6931, 6, 339398826044094601896695254665076263267int));
    assert(fold_ratio(6931, 6, 339398826044094601896695254665076263267int) == fold_ratio(3465, 7, 338314539797368250477607184950806242654int));
    assert(fold_ratio(3465, 7, 338314539797368250477607184950806242654int) == fold_ratio(1732, 8, 336156348229715444828078329311942453225int));
    assert(fold_ratio(1732, 8, 336156348229715444828078329311942453225int) == fold_ratio(866, 9, 336156348229715444828078329311942453225int));
    assert(fold_ratio(866, 9, 336156348229715444828078329311942453225int) == fold_ratio(433, 10, 336156348229715444828078329311942453225int));
    assert(fold_ratio(433, 10, 336156348229715444828078329311942453225int) == fold_ratio(216, 11, 319379143188707315507809823581313190142int));
    assert(fold_ratio(216, 11, 319379143188707315507809823581313190142int) == fold_ratio(108, 12, 319379143188707315507809823581313190142int));
    assert(fold_ratio(108, 12, 319379143188707315507809823581313190142int) == fold_ratio(54, 13, 319379143188707315507809823581313190142int));
    assert(fold_ratio(54, 13, 319379143188707315507809823581313190142int) == fold_ratio(27, 14, 319379143188707315507809823581313190142int));
    assert(fold_ratio(27, 14, 319379143188707315507809823581313190142int) == fold_ratio(13, 15, 140783027191886151917857313960555113307int));
    assert(fold_ratio(13, 15, 140783027191886151917857313960555113307int) == fold_ratio(6, 16, 27355067784922220890630856424828281737int));
    assert(fold_ratio(6, 16, 27355067784922220890630856424828281737int) == fold_ratio(3, 17, 27355067784922220890630856424828281737int));
    assert(fold_ratio(3, 17, 27355067784922220890630856424828281737int) == fold_ratio(1, 18, 38993101373458052672459899826450090int));
    assert(fold_ratio(1, 18, 38993101373458052672459899826450090int) == fold_ratio(0, 19, 79229651541111879659406241920int));
    assert(fold_ratio(0, 19, 79229651541111879659406241920int) == fold_ratio(0, 20, 79229651541111879659406241920int));
}

/// A distance between two ratios before bit `k` that leaves them at least
/// `2^65` apart after the bits from `k` to 18, whichever of them are set.
pub open spec fn gap_floor(k: nat) -> int {
    if k == 0 {
        8935689521239271770450116435313int
    } else if k == 1 {
        8935242770269253352846747984784int
    } else if k == 2 {
        8934349335335719780868661118672int
    } else if k == 3 {
        8932562733463399766281407174423int
    } else if k == 4 {
        8928990601447667757013685463621int
    } else if k == 5 {
        8921850622331941857782308202922int
    } else if k == 6 {
        8907587787776283740969397101200int
    } else if k == 7 {
        8879130485662520339183590612674int
    } else if k == 8 {
        8822488330839014050401140676431int
    } else if k == 9 {
        8710285718817206183932861773038int
    } else if k == 10 {
        8490143256849589005345815023097int
    } else if k == 11 {
        8066409256293514850511152660138int
    } else if k == 12 {
        7281330112403056003637609099571int
    } else if k == 13 {
        5932963247006899261977791720001int
    } else if k == 14 {
        3939068488896842883649814535013int
    } else if k == 15 {
        1736350034151742252787824502162int
    } else if k == 16 {
        337384227559147178995850700359int
    } else if k == 17 {
        12737956679907808971424613574int
    } else if k == 18 {
        18157236531657697601352379int
    } else if k == 19 {
        36893488147419103232int
    } else {
        36893488147419103232int
    }
}

/// Whether `bits`, whose lowest bit is bit `k` of a tick, has nothing at bit
/// 19 or above.
pub open spec fn below_bit_19(bits: nat, k: nat) -> bool
    decreases 20 - k,
{
    if k >= 19 {
        bits == 0
    } else {
        below_bit_19(bits / 2, k + 1)
    }
}

/// The distance that must be kept shrinks with each factor by no more than
/// the factor itself.
pub proof fn lemma_gap_floor_step(k: nat)
    requires
        k <= 18,
    ensures
        gap_floor(k) * tick_factor(k) >= gap_floor(k + 1) * two_128(),
        gap_floor(k) >= gap_floor(k + 1) > 0,
{
    if k == 0 {
        assert(8935689521239271770450116435313int * 340265354078544963557816517032075149313int >= 8935242770269253352846747984784int * two_128());
    }
    if k == 1 {
        assert(8935242770269253352846747984784int * 340248342086729790484326174814286782778int >= 8934349335335719780868661118672int * two_128());
    }
    if k == 2 {
        assert(8934349335335719780868661118672int * 340214320654664324051920982716015181260int >= 8932562733463399766281407174423int * two_128());
    }
    if k == 3 {
        assert(8932562733463399766281407174423int * 340146287995602323631171512101879684304int >= 8928990601447667757013685463621int * two_128());
    }
    if k == 4 {
        assert(8928990601447667757013685463621int * 340010263488231146823593991679159461444int >= 8921850622331941857782308202922int * two_128());
    }
    if k == 5 {
        assert(8921850622331941857782308202922int * 339738377640345403697157401104375502016int >= 8907587787776283740969397101200int * two_128());
    }
    if k == 6 {
        assert(8907587787776283740969397101200int * 339195258003219555707034227454543997025int >= 8879130485662520339183590612674int * two_128());
    }
    if k == 7 {
        assert(8879130485662520339183590612674int * 338111622100601834656805679988414885971int >= 8822488330839014050401140676431int * two_128());
    }
    if k == 8 {
        assert(8822488330839014050401140676431int * 335954724994790223023589805789778977700int >= 8710285718817206183932861773038int * two_128());
    }
    if k == 9 {
        assert(8710285718817206183932861773038int * 331682121138379247127172139078559817300int >= 8490143256849589005345815023097int * two_128());
    }
    if k == 10 {
        assert(8490143256849589005345815023097int * 323299236684853023288211250268160618739int >= 8066409256293514850511152660138int * two_128());
    }
    if k == 11 {
        assert(8066409256293514850511152660138int * 307163716377032989948697243942600083929int >= 7281330112403056003637609099571int * two_128());
    }
    if k == 12 {
        assert(7281330112403056003637609099571int * 277268403626896220162999269216087595045int >= 5932963247006899261977791720001int * two_128());
    }
    if k == 13 {
        assert(5932963247006899261977791720001int * 225923453940442621947126027127485391333int >= 3939068488896842883649814535013int * two_128());
    }
    if k == 14 {
        assert(3939068488896842883649814535013int * 149997214084966997727330242082538205943int >= 1736350034151742252787824502162int * two_128());
    }
    if k == 15 {
        assert(1736350034151742252787824502162int * 66119101136024775622716233608466517926int >= 337384227559147178995850700359int * two_128());
    }
    if k == 16 {
        assert(337384227559147178995850700359int * 12847376061809297530290974190478138313int >= 12737956679907808971424613574int * two_128());
    }
    if k == 17 {
        assert(12737956679907808971424613574int * 485053260817066172746253684029974020int >= 18157236531657697601352379int * two_128());
    }
    if k == 18 {
        assert(18157236531657697601352379int * 691415978906521570653435304214168int >= 36893488147419103232int * two_128());
    }
}

/// A quotient of a sum is at least the sum of the quotients.
pub proof fn lemma_div_superadditive(a: int, b: int, d: int)
    requires
        0 <= a,
        0 <= b,
        d > 0,
    ensures
        (a + b) / d >= a / d + b / d,
{
    vstd::arithmetic::div_mod::lemma_fundamental_div_mod(a, d);
    vstd::arithmetic::div_mod::lemma_fundamental_div_mod(b, d);
    vstd::arithmetic::div_mod::lemma_mod_bound(a, d);
    vstd::arithmetic::div_mod::lemma_mod_bound(b, d);
    let q: int = a / d + b / d;
    assert(d * q == d * (a / d) + d * (b / d)) by (nonlinear_arith)
        requires
            q == a / d + b / d,
    ;
    vstd::arithmetic::div_mod::lemma_div_is_ordered(d * q, a + b, d);
    vstd::arithmetic::div_mod::lemma_div_multiples_vanish(q, d);
}

/// Two ratios that are `gap_floor(k)` apart are `gap_floor(k + 1)` apart
/// after the factor of bit `k`.
pub proof fn lemma_scale_gap(k: nat, r: int, r2: int)
    requires
        k <= 18,
        0 <= r2,
        r - r2 >= gap_floor(k),
    ensures
        (r * tick_factor(k)) / two_128() - (r2 * tick_factor(k)) / two_128() >= gap_floor(k + 1),
        0 <= (r2 * tick_factor(k)) / two_128(),
{
    let c: int = tick_factor(k);
    let g: int = gap_floor(k);
    lemma_factor_range(k);
    lemma_gap_floor_step(k);
    lemma_scale_monotone(r2 + g, r, c);
    assert((r2 + g) * c == r2 * c + g * c) by (nonlinear_arith);
    assert(0 <= r2 * c) by (nonlinear_arith)
        requires
            0 <= r2,
            0 <= c,
    ;
    assert(0 <= g * c) by (nonlinear_arith)
        requires
            0 <= g,
            0 <= c,
    ;
    lemma_div_superadditive(r2 * c, g * c, two_128());
    vstd::arithmetic::div_mod::lemma_div_is_ordered(gap_floor(k + 1) * two_128(), g * c, two_128());
    vstd::arithmetic::div_mod::lemma_div_multiples_vanish(gap_floor(k + 1), two_128());
    assert(gap_floor(k + 1) * two_128() == two_128() * gap_floor(k + 1));
    vstd::arithmetic::div_mod::lemma_div_pos_is_pos(r2 * c, two_128());
}

/// Two ratios that are `gap_floor(k)` apart before bit `k` are at least
/// `2^65` apart after the same bits have been folded into both.
pub proof fn lemma_fold_gap(bits: nat, k: nat, r: int, r2: int)
    requires
        k <= 20,
        below_bit_19(bits, k),
        0 <= r2,
        r - r2 >= gap_floor(k),
    ensures
        fold_ratio(bits, k, r) - fold_ratio(bits, k, r2) >= 0x2_0000_0000_0000_0000,
    decreases 20 - k,
{
    if k >= 20 {
    } else if k == 19 {
        lemma_fold_gap(bits / 2, 20, r, r2);
    } else {
        lemma_gap_floor_step(k);
        if bits % 2 == 1 {
            lemma_scale_gap(k, r, r2);
            lemma_fold_gap(
                bits / 2,
                k + 1,
                (r * tick_factor(k)) / two_128(),
                (r2 * tick_factor(k)) / two_128(),
            );
        } else {
            lemma_fold_gap(bits / 2, k + 1, r, r2);
        }
    }
}

/// The least ratio after `k` bits exceeds the factor of bit `k` by the
/// distance that must be kept from bit `k + 1` on.
pub proof fn lemma_carry_gap(k: nat)
    requires
        k <= 18,
    ensures
        ratio_floor(k) - tick_factor(k) >= gap_floor(k + 1),
{
}

/// Where the bits below `k` of a tick's magnitude are all set, so that the
/// next magnitude has them all clear: after the remaining bits `m` and
/// `m + 1` the two ratios are at least `2^65` apart.
pub proof fn lemma_fold_carry(m: nat, k: nat)
    requires
        k <= 18,
        below_bit_19(m + 1, k),
    ensures
        fold_ratio(m, k, ratio_floor(k)) - fold_ratio(m + 1, k, two_128()) >= 0x2_0000_0000_0000_0000,
    decreases 19 - k,
{
    let c: int = tick_factor(k);
    lemma_factor_range(k);
    if m % 2 == 0 {
        assert((m + 1) / 2 == m / 2);
        assert((two_128() * c) / two_128() == c) by {
            vstd::arithmetic::div_mod::lemma_div_multiples_vanish(c, two_128());
        }
        lemma_carry_gap(k);
        lemma_fold_gap(m / 2, k + 1, ratio_floor(k), c);
    } else {
        assert((m + 1) / 2 == m / 2 + 1);
        lemma_ratio_floor_step(k);
        if k == 18 {
            assert(below_bit_19((m + 1) / 2, 19));
            assert(false);
        } else {
            lemma_fold_carry(m / 2, k + 1);
        }
    }
}

/// The ratio falls by at least `2^65` from one magnitude to the next, up to
/// `MAX_TICK`.
pub proof fn lemma_ratio_step(a: nat)
    requires
        a < MAX_TICK,
    ensures
        ratio_at(a) - ratio_at(a + 1) >= 0x2_0000_0000_0000_0000,
{
    reveal_with_fuel(below_bit_19, 21);
    assert(below_bit_19(a + 1, 0));
    lemma_fold_carry(a, 0);
}

/// Folding no bits leaves a ratio as it is.
pub proof fn lemma_fold_nothing(k: nat, r: int)
    ensures
        fold_ratio(0, k, r) == r,
    decreases 20 - k,
{
    if k < 20 {
        lemma_fold_nothing(k + 1, r);
    }
}

/// The ratio falls from magnitude to magnitude: between `2^128` at zero and
/// its value at `MAX_TICK`, by at least `2^65` a step.
pub proof fn lemma_ratio_range(a: nat)
    requires
        a <= MAX_TICK,
    ensures
        ratio_at(443636) <= ratio_at(a) <= two_128(),
        ratio_at(a) >= ratio_at(443636) + (MAX_TICK - a) * 0x2_0000_0000_0000_0000,
        ratio_at(a) <= two_128() - a * 0x2_0000_0000_0000_0000,
    decreases a,
{
    lemma_ratio_falls(a, MAX_TICK as nat);
    lemma_ratio_falls(0, a);
    lemma_fold_nothing(0, two_128());
}

/// Between two magnitudes the ratio falls by at least `2^65` a step.
pub proof fn lemma_ratio_falls(a: nat, b: nat)
    requires
        a <= b <= MAX_TICK,
    ensures
        ratio_at(a) >= ratio_at(b) + (b - a) * 0x2_0000_0000_0000_0000,
    decreases b - a,
{
    if a < b {
        lemma_ratio_step(a);
        lemma_ratio_falls(a + 1, b);
    }
}

/// Rounding up keeps a distance of one divisor: where `x >= y + d`, the
/// quotient of `x` rounded up exceeds that of `y`.
pub proof fn lemma_div_ceil_strict(x: int, y: int, d: int)
    requires
        0 <= y,
        y + d <= x,
        d > 0,
    ensures
        div_ceil(y, d) < div_ceil(x, d),
{
    crate::swap_lemmas::lemma_div_ceil_bounds(x, d);
    crate::swap_lemmas::lemma_div_ceil_bounds(y, d);
    let cx: int = div_ceil(x, d);
    let cy: int = div_ceil(y, d);
    if cy >= cx {
        assert((cy - 1) * d >= (cx - 1) * d) by (nonlinear_arith)
            requires
                cy >= cx,
                d > 0,
        ;
        assert((cx - 1) * d == cx * d - d) by (nonlinear_arith);
    }
}

/// Inverting spreads ratios out: where `r2 + 2^65 <= r <= 2^128`, the
/// quotients of `2^256 - 1` by them are at least `2^64` apart.
pub proof fn lemma_inverse_gap(r: int, r2: int)
    requires
        1 <= r2,
        r2 + 0x2_0000_0000_0000_0000 <= r <= two_128(),
    ensures
        (two_256() - 1) / r2 >= (two_256() - 1) / r + two_64(),
{
    let m: int = two_256() - 1;
    let q: int = m / r;
    vstd::arithmetic::div_mod::lemma_fundamental_div_mod(m, r);
    vstd::arithmetic::div_mod::lemma_mod_bound(m, r);
    vstd::arithmetic::div_mod::lemma_div_is_ordered_by_denominator(m, r, two_128());
    assert(m / two_128() == two_128() - 1);
    assert(q * r <= m) by (nonlinear_arith)
        requires
            m == r * q + m % r,
            0 <= m % r,
    ;
    let target: int = q + two_64();
    assert(target * r2 <= m) by (nonlinear_arith)
        requires
            target == q + 0x1_0000_0000_0000_0000,
            q * r <= m,
            q >= 0x1_0000_0000_0000_0000_0000_0000_0000_0000 - 1,
            1 <= r2,
            r2 + 0x2_0000_0000_0000_0000 <= r,
            r <= 0x1_0000_0000_0000_0000_0000_0000_0000_0000,
    ;
    assert(target * r2 == r2 * target) by (nonlinear_arith);
    vstd::arithmetic::div_mod::lemma_div_is_ordered(r2 * target, m, r2);
    vstd::arithmetic::div_mod::lemma_div_multiples_vanish(target, r2);
}

/// The price at `MIN_TICK` is `MIN_SQRT_RATIO`.
pub proof fn lemma_price_at_min_tick()
    ensures
        sqrt_ratio_at_tick(MIN_TICK as int) == MIN_SQRT_RATIO,
{
    lemma_ratio_at_end();
}

/// The price at `MAX_TICK` is `MAX_SQRT_RATIO`.
pub proof fn lemma_price_at_max_tick()
    ensures
        sqrt_ratio_at_tick(MAX_TICK as int) == MAX_SQRT_RATIO,
{
    lemma_ratio_at_end();
    assert((two_256() - 1) / 79229651541111879659406241920int == 1461474170149950050140453242931914899131717788851int);
}


/// Rounding up keeps the order of dividends.
pub proof fn lemma_div_ceil_monotone(x: int, y: int, d: int)
    requires
        0 <= x <= y,
        d > 0,
    ensures
        div_ceil(x, d) <= div_ceil(y, d),
{
    crate::swap_lemmas::lemma_div_ceil_bounds(y, d);
    crate::swap_lemmas::lemma_div_ceil_at_most(x, d, div_ceil(y, d));
}

/// Within the table, the price of a tick that is not positive is its ratio
/// with 64 bits dropped, and the price of a tick that is not negative is the
/// inverted ratio with 64 bits dropped; neither reaches the cap.
pub proof fn lemma_price_unfolded(t: int)
    requires
        MIN_TICK <= t <= MAX_TICK,
    ensures
        t <= 0 ==> sqrt_ratio_at_tick(t) == div_ceil(ratio_at((-t) as nat), two_64()),
        t >= 0 ==> sqrt_ratio_at_tick(t) == div_ceil(
            (two_256() - 1) / ratio_at(t as nat),
            two_64(),
        ),
        0 < sqrt_ratio_at_tick(t) <= MAX_SQRT_RATIO,
{
    let m: int = two_256() - 1;
    lemma_ratio_at_end();
    if t <= 0 {
        let r: int = ratio_at((-t) as nat);
        lemma_ratio_range((-t) as nat);
        crate::swap_lemmas::lemma_div_ceil_at_most(r, two_64(), two_64());
        crate::swap_lemmas::lemma_div_ceil_bounds(r, two_64());
        if div_ceil(r, two_64()) <= 0 {
            assert(div_ceil(r, two_64()) * two_64() <= 0) by (nonlinear_arith)
                requires
                    div_ceil(r, two_64()) <= 0,
                    two_64() > 0,
            ;
        }
    }
    if t >= 0 {
        let r: int = ratio_at(t as nat);
        lemma_ratio_range(t as nat);
        if t == 0 {
            lemma_fold_nothing(0, two_128());
            assert(m / two_128() == two_128() - 1);
        }
        vstd::arithmetic::div_mod::lemma_div_is_ordered_by_denominator(
            m,
            79229651541111879659406241920int,
            r,
        );
        vstd::arithmetic::div_mod::lemma_div_is_ordered_by_denominator(m, r, two_128());
        assert(m / two_128() == two_128() - 1);
        assert(m / 79229651541111879659406241920int == 1461474170149950050140453242931914899131717788851int);
        lemma_div_ceil_monotone(m / r, 1461474170149950050140453242931914899131717788851int, two_64());
        lemma_div_ceil_monotone(two_128() - 1, m / r, two_64());
    }
}

/// The price rises strictly from each tick of the table to the next.
pub proof fn lemma_price_step(t: int)
    requires
        MIN_TICK <= t < MAX_TICK,
    ensures
        sqrt_ratio_at_tick(t) < sqrt_ratio_at_tick(t + 1),
{
    lemma_price_unfolded(t);
    lemma_price_unfolded(t + 1);
    lemma_ratio_at_end();
    if t < 0 {
        let a: nat = (-t) as nat;
        lemma_ratio_step((a - 1) as nat);
        lemma_ratio_range(a);
        lemma_div_ceil_strict(ratio_at((a - 1) as nat), ratio_at(a), two_64());
    } else {
        let a: nat = t as nat;
        lemma_ratio_step(a);
        lemma_ratio_range(a);
        lemma_ratio_range(a + 1);
        lemma_inverse_gap(ratio_at(a), ratio_at(a + 1));
        vstd::arithmetic::div_mod::lemma_div_pos_is_pos(two_256() - 1, ratio_at(a));
        lemma_div_ceil_strict(
            (two_256() - 1) / ratio_at(a + 1),
            (two_256() - 1) / ratio_at(a),
            two_64(),
        );
    }
}

/// The price rises strictly with the tick throughout the table.
pub proof fn lemma_price_rises(t1: int, t2: int)
    requires
        MIN_TICK <= t1 < t2 <= MAX_TICK,
    ensures
        sqrt_ratio_at_tick(t1) < sqrt_ratio_at_tick(t2),
    decreases t2 - t1,
{
    lemma_price_step(t1);
    if t1 + 1 < t2 {
        lemma_price_rises(t1 + 1, t2);
    }
}

} // verus!
