use route_finder::swap_math::{
    compute_swap_step, div_rounding_up, get_amount_a_delta, get_amount_b_delta,
    get_next_sqrt_price_from_amount_a_rounding_up, get_next_sqrt_price_from_amount_b_rounding_down,
    get_next_sqrt_price_from_input, get_next_sqrt_price_from_output, magnitude_of,
    most_significant_bit, mul_div, mul_div_rounding_up, BAR_FEE, FIXED_POINT_64, Q64,
};
use route_finder::u256::U256;

const ONE: u128 = 1u128 << 64;
const PRICE_AT_60: u128 = 18502164624211761448;
const PRICE_AT_MINUS_60: u128 = 18391489527427947883;

#[test]
fn constants_of_the_fixed_point_format() {
    assert_eq!(Q64, 1u128 << 64);
    assert_eq!(FIXED_POINT_64, 64);
    assert_eq!(BAR_FEE, 1_000_000);
}

#[test]
fn mul_div_rounds_down() {
    assert_eq!(mul_div(10, 10, 3), 33);
    assert_eq!(mul_div(0, 10, 3), 0);
    assert_eq!(mul_div(u128::MAX, u128::MAX, u128::MAX), u128::MAX);
    assert_eq!(
        mul_div(u128::MAX, u128::MAX, 3),
        226854911280625642308916404954512140971
    );
}

#[test]
fn mul_div_keeps_the_low_bits_of_a_wide_quotient() {
    assert_eq!(mul_div(1 << 127, 4, 2), 0);
    assert_eq!(mul_div(7, 97223533405982418132392744980505203273, 2), u128::MAX);
    assert_eq!(mul_div_rounding_up(7, 97223533405982418132392744980505203273, 2), 0);
}

#[test]
fn mul_div_rounding_up_adds_one_to_an_inexact_quotient() {
    assert_eq!(mul_div_rounding_up(10, 10, 3), 34);
    assert_eq!(mul_div_rounding_up(10, 10, 4), 25);
    assert_eq!(mul_div_rounding_up(0, 10, 3), 0);
    assert_eq!(mul_div_rounding_up(u128::MAX, u128::MAX, u128::MAX), u128::MAX);
    for (a, b, d) in [(1u128, 1u128, 2u128), (5, 7, 6), (1 << 100, 3, 7), (999, 1000, 1), (6, 6, 36)] {
        let difference = mul_div_rounding_up(a, b, d) - mul_div(a, b, d);
        assert!(difference == 0 || difference == 1);
        assert_eq!(difference == 0, (a * b) % d == 0);
    }
}

#[test]
fn div_rounding_up_rounds_up() {
    assert_eq!(div_rounding_up(10, 3), 4);
    assert_eq!(div_rounding_up(9, 3), 3);
    assert_eq!(div_rounding_up(0, 3), 0);
    assert_eq!(div_rounding_up(u128::MAX, 1), u128::MAX);
    assert_eq!(div_rounding_up(u128::MAX, 2), 1u128 << 127);
    assert_eq!(div_rounding_up(1, u128::MAX), 1);
}

#[test]
fn most_significant_bit_of_chosen_values() {
    assert_eq!(most_significant_bit(U256::zero()), 0);
    assert_eq!(most_significant_bit(U256::one()), 0);
    assert_eq!(most_significant_bit(U256::from_u128(2)), 1);
    assert_eq!(most_significant_bit(U256::from_u128(3)), 1);
    assert_eq!(most_significant_bit(U256::from_u128(255)), 7);
    assert_eq!(most_significant_bit(U256::from_u128(256)), 8);
    assert_eq!(most_significant_bit(U256::from_u128(u128::MAX)), 127);
    assert_eq!(most_significant_bit(U256 { hi: 1, lo: 0 }), 128);
    assert_eq!(most_significant_bit(U256 { hi: 1 << 64, lo: 5 }), 192);
    assert_eq!(most_significant_bit(U256::max_value()), 255);
}

#[test]
fn magnitude_of_signed_amounts() {
    assert_eq!(magnitude_of(0), 0);
    assert_eq!(magnitude_of(5), 5);
    assert_eq!(magnitude_of(-5), 5);
    assert_eq!(magnitude_of(i64::MAX), i64::MAX as u64);
    assert_eq!(magnitude_of(i64::MIN), 1u64 << 63);
}

#[test]
fn amount_a_between_two_prices() {
    assert_eq!(get_amount_a_delta(PRICE_AT_MINUS_60, ONE, 1_000_000_000_000, true), 3004354063);
    assert_eq!(get_amount_a_delta(PRICE_AT_MINUS_60, ONE, 1_000_000_000_000, false), 3004354062);
    assert_eq!(get_amount_a_delta(ONE, PRICE_AT_MINUS_60, 1_000_000_000_000, true), 3004354063);
    assert_eq!(get_amount_a_delta(ONE, ONE, 1_000_000_000_000, true), 0);
    assert_eq!(get_amount_a_delta(0, ONE, 1_000_000_000_000, true), 0);
    assert_eq!(get_amount_a_delta(PRICE_AT_MINUS_60, ONE, 0, true), 0);
    assert_eq!(
        get_amount_a_delta(4295048017, 79226673515401279992447579062, u64::MAX, true),
        u64::MAX
    );
}

#[test]
fn amount_b_between_two_prices() {
    assert_eq!(get_amount_b_delta(ONE, PRICE_AT_60, 1_000_000_000_000, true), 3004354063);
    assert_eq!(get_amount_b_delta(ONE, PRICE_AT_60, 1_000_000_000_000, false), 3004354062);
    assert_eq!(get_amount_b_delta(PRICE_AT_60, ONE, 1_000_000_000_000, false), 3004354062);
    assert_eq!(get_amount_b_delta(ONE, ONE, 1_000_000_000_000, true), 0);
    assert_eq!(get_amount_b_delta(0, ONE, 7, true), 7);
    assert_eq!(
        get_amount_b_delta(4295048017, 79226673515401279992447579062, u64::MAX, true),
        u64::MAX
    );
}

#[test]
fn next_price_from_amount_a() {
    assert_eq!(
        get_next_sqrt_price_from_amount_a_rounding_up(ONE, 1_000_000_000_000, 1_000_000, true),
        18446725626983924633
    );
    assert_eq!(
        get_next_sqrt_price_from_amount_a_rounding_up(ONE, 1_000_000_000_000, 1_000_000, false),
        18446762520472072089
    );
    assert_eq!(get_next_sqrt_price_from_amount_a_rounding_up(ONE, 1_000_000_000_000, 0, true), ONE);
    assert_eq!(get_next_sqrt_price_from_amount_a_rounding_up(ONE, 0, 5, true), ONE);
    // the denominator does not fit in 128 bits: the reciprocal form
    assert_eq!(
        get_next_sqrt_price_from_amount_a_rounding_up(1 << 127, u64::MAX, u64::MAX, true),
        18446744073709551615
    );
    // more leaves than the pool holds
    assert_eq!(get_next_sqrt_price_from_amount_a_rounding_up(ONE, 10, 1_000_000, false), 1);
    assert_eq!(
        get_next_sqrt_price_from_amount_a_rounding_up(u128::MAX, 1, u64::MAX, false),
        1
    );
}

#[test]
fn next_price_from_amount_b() {
    assert_eq!(
        get_next_sqrt_price_from_amount_b_rounding_down(ONE, 1_000_000_000_000, 1_000_000, true),
        18446762520453625325
    );
    assert_eq!(
        get_next_sqrt_price_from_amount_b_rounding_down(ONE, 1_000_000_000_000, 1_000_000, false),
        18446725626965477906
    );
    assert_eq!(get_next_sqrt_price_from_amount_b_rounding_down(ONE, 0, 5, true), ONE);
    assert_eq!(get_next_sqrt_price_from_amount_b_rounding_down(5, 1, 10, false), 1);
    assert_eq!(
        get_next_sqrt_price_from_amount_b_rounding_down(u128::MAX - 5, 1, 10, true),
        u128::MAX
    );
}

#[test]
fn next_price_from_input_and_output_pick_the_token() {
    assert_eq!(
        get_next_sqrt_price_from_input(ONE, 1_000_000_000_000, 1_000_000, true),
        18446725626983924633
    );
    assert_eq!(
        get_next_sqrt_price_from_input(ONE, 1_000_000_000_000, 1_000_000, false),
        18446762520453625325
    );
    assert_eq!(
        get_next_sqrt_price_from_output(ONE, 1_000_000_000_000, 1_000_000, true),
        18446725626965477906
    );
    assert_eq!(
        get_next_sqrt_price_from_output(ONE, 1_000_000_000_000, 1_000_000, false),
        18446762520472072089
    );
    assert_eq!(get_next_sqrt_price_from_input(0, 5, 5, true), 0);
    assert_eq!(get_next_sqrt_price_from_input(0, 5, 5, false), 0);
    assert_eq!(get_next_sqrt_price_from_output(0, 5, 5, false), 0);
    assert_eq!(get_next_sqrt_price_from_output(ONE, 0, 5, true), ONE);
}

#[test]
fn step_without_liquidity_moves_nothing() {
    assert_eq!(compute_swap_step(ONE, PRICE_AT_60, 0, 100, 3000), (ONE, 0, 0, 0));
    assert_eq!(compute_swap_step(ONE, PRICE_AT_MINUS_60, 0, -100, 0), (ONE, 0, 0, 0));
    assert_eq!(compute_swap_step(ONE, PRICE_AT_60, 0, 100, 1_000_000), (ONE, 0, 0, 0));
    assert_eq!(compute_swap_step(7, 9, 0, i64::MIN, u32::MAX), (7, 0, 0, 0));
}

#[test]
fn step_with_fixed_input_that_reaches_the_target() {
    assert_eq!(
        compute_swap_step(ONE, PRICE_AT_MINUS_60, 1_000_000_000, 10_000_000, 3000),
        (PRICE_AT_MINUS_60, 3004355, 2995354, 9041)
    );
}

#[test]
fn step_with_fixed_input_that_stops_short() {
    assert_eq!(
        compute_swap_step(ONE, PRICE_AT_MINUS_60, 1_000_000_000_000, 1_000_000, 3000),
        (18446725682324046339, 997000, 996999, 3000)
    );
    assert_eq!(
        compute_swap_step(ONE, PRICE_AT_60, 1_000_000_000_000, 1_000_000, 3000),
        (18446762465113393104, 997000, 996999, 3000)
    );
    assert_eq!(
        compute_swap_step(ONE, PRICE_AT_60, 1_000_000_000_000, 1_000_000, 0),
        (18446762520453625325, 1_000_000, 999_999, 0)
    );
}

#[test]
fn step_with_fixed_output() {
    assert_eq!(
        compute_swap_step(ONE, PRICE_AT_MINUS_60, 1_000_000_000_000, -1_000_000, 3000),
        (18446725626965477906, 1000002, 1000000, 3010)
    );
    assert_eq!(
        compute_swap_step(ONE, PRICE_AT_60, 1_000_000_000, -10_000_000, 500),
        (PRICE_AT_60, 3004355, 2995354, 1503)
    );
    assert_eq!(
        compute_swap_step(ONE, PRICE_AT_60, 1_000_000_000_000, i64::MIN, 3000),
        (PRICE_AT_60, 3004354063, 2995354955, 9040183)
    );
}

#[test]
fn step_fee_keeps_its_low_64_bits() {
    assert_eq!(
        compute_swap_step(ONE, PRICE_AT_60, u64::MAX, -(1i64 << 62), 999_999),
        (PRICE_AT_60, 55420550502209832, 55254546281603734, 6475884235836735704)
    );
}

#[test]
fn fee_round_trip() {
    let amount: i64 = 1_000_000;
    let (_, amount_in, _, fee) =
        compute_swap_step(ONE, PRICE_AT_MINUS_60, 1_000_000_000_000, amount, 3000);
    assert_eq!(amount_in + fee, 1_000_000);
    let expected_fee = (amount_in as u128 * 3000 + 996_999) / 997_000;
    assert!((fee as i128 - expected_fee as i128).abs() <= 1);
    assert_eq!(fee, 3000);
}

#[test]
fn fixed_input_is_never_overspent() {
    for amount in [0i64, 1, 2, 999, 1_000_000, 3_004_354, 3_013_395, 3_013_396, 3_013_397, i64::MAX] {
        for fee in [0u32, 1, 500, 3000, 10000, 500_000, 999_999] {
            for liquidity in [1u64, 1_000, 1_000_000_000, u64::MAX] {
                for target in [PRICE_AT_MINUS_60, PRICE_AT_60, 1, u128::MAX, ONE] {
                    let (_, amount_in, _, fee_amount) =
                        compute_swap_step(ONE, target, liquidity, amount, fee);
                    assert!(amount_in as u128 + fee_amount as u128 <= amount as u128);
                }
            }
        }
    }
}

#[test]
fn fixed_output_is_never_exceeded() {
    for amount in [-1i64, -2, -999, -1_000_000, -2_995_354, -2_995_355, i64::MIN] {
        for liquidity in [1u64, 1_000, 1_000_000_000, u64::MAX] {
            for target in [PRICE_AT_MINUS_60, PRICE_AT_60, 1, u128::MAX, ONE] {
                let (_, _, amount_out, _) = compute_swap_step(ONE, target, liquidity, amount, 3000);
                assert!(amount_out <= amount.unsigned_abs());
            }
        }
    }
}
