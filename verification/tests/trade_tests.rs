use route_finder::trade::{
    add_liquidity_delta, as_signed, calculate_route_output, calculate_trades_batch,
    magnitude_of_i128, remove_liquidity_delta, try_calculate_route_output,
    try_calculate_trades_batch, PoolData, SwapResult, TickData, TradeError, MAX_ITERATIONS,
    TICK_BOUND,
};
use std::collections::{BTreeMap, HashMap};

const ONE: u128 = 1u128 << 64;

fn tick(index: i32, liquidity_net: i128) -> TickData {
    TickData {
        index,
        liquidity_gross: liquidity_net.unsigned_abs(),
        liquidity_net,
        fee_growth_outside_a_x64: 0,
        fee_growth_outside_b_x64: 0,
        initialized: true,
    }
}

fn pool(
    id: u32,
    token_a: &str,
    token_b: &str,
    fee: u32,
    sqrt_price_x64: u128,
    liquidity: u128,
    tick_current: i32,
    ticks: &[(i32, i128)],
) -> PoolData {
    let mut map = BTreeMap::new();
    for (index, net) in ticks {
        map.insert(*index, tick(*index, *net));
    }
    PoolData {
        id,
        token_a_id: token_a.to_string(),
        token_b_id: token_b.to_string(),
        fee,
        sqrt_price_x64,
        liquidity,
        tick_current,
        ticks: map,
        tick_spacing: 60,
    }
}

fn deep_pool() -> PoolData {
    pool(1, "X", "Y", 3000, ONE, 1_000_000_000_000_000, 0, &[])
}

fn stepped_pool() -> PoolData {
    pool(
        3,
        "X",
        "Y",
        500,
        18451356105610194922,
        2_000_000_000,
        5,
        &[(-20, 1_000_000_000), (-10, 1_000_000_000), (10, -1_000_000_000), (20, -1_000_000_000)],
    )
}

#[test]
fn constants_of_the_swap() {
    assert_eq!(TICK_BOUND, 665454);
    assert_eq!(MAX_ITERATIONS, 1000);
}

#[test]
fn zero_liquidity_swap() {
    let empty = pool(1, "X", "Y", 3000, ONE, 0, 0, &[]);
    let result = empty.swap(true, 100, None);
    assert_eq!(
        result,
        SwapResult { amount_in: 0, amount_out: 0, sqrt_price_x64_after: ONE, tick_after: 0 }
    );
}

#[test]
fn swap_of_nothing_changes_nothing() {
    let result = deep_pool().swap(true, 0, None);
    assert_eq!(
        result,
        SwapResult { amount_in: 0, amount_out: 0, sqrt_price_x64_after: ONE, tick_after: 0 }
    );
}

#[test]
fn swap_fixed_input_within_one_step() {
    assert_eq!(
        deep_pool().swap(true, 1_000_000, None),
        SwapResult {
            amount_in: 1_000_000,
            amount_out: 996_999,
            sqrt_price_x64_after: 18446744055318147793,
            tick_after: -1,
        }
    );
    assert_eq!(
        deep_pool().swap(false, 1_000_000, None),
        SwapResult {
            amount_in: 1_000_000,
            amount_out: 996_999,
            sqrt_price_x64_after: 18446744092100955457,
            tick_after: 0,
        }
    );
}

#[test]
fn swap_fixed_output_within_one_step() {
    assert_eq!(
        deep_pool().swap(true, -1_000_000, None),
        SwapResult {
            amount_in: 1_003_011,
            amount_out: 1_000_000,
            sqrt_price_x64_after: 18446744055262807542,
            tick_after: -1,
        }
    );
}

#[test]
fn swap_fee_round_trip() {
    let result = deep_pool().swap(true, 1_000_000, None);
    assert_eq!(result.amount_in, 1_000_000);
    let net_in: u128 = 997_000;
    let fee = result.amount_in - net_in;
    let expected_fee = (net_in * 3000 + 996_999) / 997_000;
    assert!((fee as i128 - expected_fee as i128).abs() <= 1);
}

#[test]
fn swap_crosses_ticks_until_liquidity_runs_out() {
    assert_eq!(
        stepped_pool().swap(false, 5_000_000, None),
        SwapResult {
            amount_in: 1_001_016,
            amount_out: 999_387,
            sqrt_price_x64_after: 18465199121032091054,
            tick_after: 20,
        }
    );
    assert_eq!(
        stepped_pool().swap(true, 5_000_000, None),
        SwapResult {
            amount_in: 2_001_466,
            amount_out: 1_999_337,
            sqrt_price_x64_after: 18428307471288117482,
            tick_after: -20,
        }
    );
    assert_eq!(
        stepped_pool().swap(false, -1_000_000, None),
        SwapResult {
            amount_in: 1_001_016,
            amount_out: 999_387,
            sqrt_price_x64_after: 18465199121032091054,
            tick_after: 20,
        }
    );
}

#[test]
fn swap_stops_at_the_price_limit() {
    assert_eq!(
        stepped_pool().swap(false, 5_000_000, Some(18454123878217468681)),
        SwapResult {
            amount_in: 300_234,
            amount_out: 299_887,
            sqrt_price_x64_after: 18454123878217468681,
            tick_after: 5,
        }
    );
    let at_limit = stepped_pool().swap(false, 5_000_000, Some(18451356105610194922));
    assert_eq!(
        at_limit,
        SwapResult {
            amount_in: 0,
            amount_out: 0,
            sqrt_price_x64_after: 18451356105610194922,
            tick_after: 5,
        }
    );
}

#[test]
fn swap_gives_up_after_the_most_steps() {
    let drained = pool(
        2,
        "X",
        "Y",
        3000,
        ONE,
        1_000_000_000,
        0,
        &[(-120, 500_000_000), (-60, 1_000_000_000), (60, -1_000_000_000)],
    );
    assert_eq!(
        drained.swap(true, 10_000_000, None),
        SwapResult {
            amount_in: 3_013_396,
            amount_out: 2_995_354,
            sqrt_price_x64_after: 18391489527427947883,
            tick_after: -60,
        }
    );
}

#[test]
fn swap_never_overspends_or_overdelivers() {
    for pool in [deep_pool(), stepped_pool()] {
        for zero_for_one in [true, false] {
            for amount in [1i128, 17, 1_000_000, 1 << 40, i64::MAX as i128, i128::MAX] {
                let spent = pool.swap(zero_for_one, amount, None);
                assert!(spent.amount_in <= amount as u128);
                let received = pool.swap(zero_for_one, -amount, None);
                assert!(received.amount_out <= amount as u128);
            }
            let most = pool.swap(zero_for_one, i128::MIN, None);
            assert!(most.amount_out <= 1u128 << 127);
        }
    }
}

#[test]
fn next_initialized_tick_looks_in_the_direction_of_the_swap() {
    let p = stepped_pool();
    assert_eq!(p.next_initialized_tick_within_one_word(5, true), (-10, true));
    assert_eq!(p.next_initialized_tick_within_one_word(5, false), (10, true));
    assert_eq!(p.next_initialized_tick_within_one_word(10, false), (20, true));
    assert_eq!(p.next_initialized_tick_within_one_word(10, true), (-10, true));
    assert_eq!(p.next_initialized_tick_within_one_word(-10, true), (-20, true));
    assert_eq!(p.next_initialized_tick_within_one_word(20, false), (665454, false));
    assert_eq!(p.next_initialized_tick_within_one_word(-20, true), (-665454, false));
    assert_eq!(p.next_initialized_tick_within_one_word(i32::MAX, false), (665454, false));
    assert_eq!(p.next_initialized_tick_within_one_word(i32::MIN, true), (-665454, false));
    assert_eq!(p.next_initialized_tick_within_one_word(i32::MAX, true), (20, true));
    assert_eq!(p.next_initialized_tick_within_one_word(i32::MIN, false), (-20, true));
}

#[test]
fn next_initialized_tick_without_ticks_is_the_bound() {
    let p = deep_pool();
    assert_eq!(p.next_initialized_tick_within_one_word(0, true), (-665454, false));
    assert_eq!(p.next_initialized_tick_within_one_word(0, false), (665454, false));
}

#[test]
fn get_tick_finds_initialized_ticks_only() {
    let p = stepped_pool();
    assert_eq!(p.get_tick(10).map(|t| t.liquidity_net), Some(-1_000_000_000));
    assert_eq!(p.get_tick(-20).map(|t| t.index), Some(-20));
    assert!(p.get_tick(11).is_none());
    assert!(p.get_tick(0).is_none());
}

#[test]
fn liquidity_changes_stay_within_128_bits() {
    assert_eq!(add_liquidity_delta(100, 5), 105);
    assert_eq!(add_liquidity_delta(100, -5), 95);
    assert_eq!(add_liquidity_delta(100, -100), 0);
    assert_eq!(add_liquidity_delta(100, -101), 0);
    assert_eq!(add_liquidity_delta(100, i128::MIN), 0);
    assert_eq!(add_liquidity_delta(u128::MAX, 1), u128::MAX);
    assert_eq!(add_liquidity_delta(u128::MAX - 1, 1), u128::MAX);
    assert_eq!(add_liquidity_delta(0, i128::MAX), i128::MAX as u128);
    assert_eq!(remove_liquidity_delta(100, 5), 95);
    assert_eq!(remove_liquidity_delta(100, -5), 105);
    assert_eq!(remove_liquidity_delta(100, 101), 0);
    assert_eq!(remove_liquidity_delta(0, i128::MIN), 1u128 << 127);
    assert_eq!(remove_liquidity_delta(u128::MAX, -1), u128::MAX);
}

#[test]
fn magnitudes_and_signs_of_128_bit_amounts() {
    assert_eq!(magnitude_of_i128(0), 0);
    assert_eq!(magnitude_of_i128(-7), 7);
    assert_eq!(magnitude_of_i128(i128::MIN), 1u128 << 127);
    assert_eq!(magnitude_of_i128(i128::MAX), i128::MAX as u128);
    assert_eq!(as_signed(0), 0);
    assert_eq!(as_signed(5), 5);
    assert_eq!(as_signed(i128::MAX as u128), i128::MAX);
    assert_eq!(as_signed(1u128 << 127), i128::MIN);
    assert_eq!(as_signed(u128::MAX), -1);
}

fn two_pools() -> HashMap<u32, PoolData> {
    let mut pools = HashMap::new();
    pools.insert(1, deep_pool());
    pools.insert(
        2,
        pool(2, "Z", "Y", 500, 18539204128674405813, 100_000_000_000_000, 100, &[]),
    );
    pools
}

#[test]
fn route_output_chains_the_hops() {
    let pools = two_pools();
    let trade = calculate_route_output(&pools, &[1, 2], 1_000_000, "X").unwrap();
    assert_eq!(trade.amount_in, 1_000_000);
    assert_eq!(trade.amount_out, 986_585);
    assert_eq!(trade.route, vec![1, 2]);
    let single = calculate_route_output(&pools, &[1], 1_000_000, "X").unwrap();
    assert_eq!(single.amount_out, 996_999);
    assert_eq!(single.route, vec![1]);
    let back = calculate_route_output(&pools, &[1], 1_000_000, "Y").unwrap();
    assert_eq!(back.amount_out, 996_999);
}

#[test]
fn route_output_refuses_an_empty_route() {
    let pools = two_pools();
    assert_eq!(
        calculate_route_output(&pools, &[], 1_000_000, "X").unwrap_err(),
        TradeError::EmptyRoute
    );
}

#[test]
fn route_output_names_the_missing_pool() {
    let pools = two_pools();
    assert_eq!(
        calculate_route_output(&pools, &[1, 9], 1_000_000, "X").unwrap_err(),
        TradeError::PoolNotFound { pool_id: 9, available: 2 }
    );
}

#[test]
fn route_output_names_the_pool_that_lacks_the_token() {
    let pools = two_pools();
    assert_eq!(
        calculate_route_output(&pools, &[1, 2], 1_000_000, "Q").unwrap_err(),
        TradeError::TokenMismatch { pool_id: 1 }
    );
    assert_eq!(
        calculate_route_output(&pools, &[1, 1], 1_000_000, "X").unwrap().amount_out,
        994_007
    );
    assert_eq!(
        calculate_route_output(&pools, &[2, 1], 1_000_000, "X").unwrap_err(),
        TradeError::TokenMismatch { pool_id: 2 }
    );
}

#[test]
fn swap_without_a_step_reads_no_fee() {
    for fee in [1_000_000, 1_000_001, u32::MAX] {
        let p = pool(7, "X", "Y", fee, ONE, 1_000_000, 0, &[(-60, 5), (60, -5)]);
        let untouched =
            SwapResult { amount_in: 0, amount_out: 0, sqrt_price_x64_after: ONE, tick_after: 0 };
        assert_eq!(p.swap(true, 0, None), untouched);
        assert_eq!(p.swap(false, 0, Some(5)), untouched);
        assert_eq!(p.swap(true, 1_000_000, Some(ONE)), untouched);
        assert_eq!(p.swap(false, -1_000_000, Some(ONE)), untouched);
        assert_eq!(p.try_swap(true, 0, None), Some(untouched));
        assert_eq!(p.try_swap(false, i128::MIN, Some(ONE)), Some(untouched));
    }
}

#[test]
fn swap_without_liquidity_reads_no_fee() {
    for fee in [1_000_000, 2_000_000, u32::MAX] {
        let p = pool(7, "X", "Y", fee, ONE, 0, 0, &[]);
        let untouched =
            SwapResult { amount_in: 0, amount_out: 0, sqrt_price_x64_after: ONE, tick_after: 0 };
        assert_eq!(p.swap(true, 100, None), untouched);
        assert_eq!(p.swap(false, -100, None), untouched);
        assert_eq!(p.try_swap(true, 100, None), Some(untouched));
    }
}

#[test]
fn try_swap_gives_nothing_for_a_step_with_liquidity_at_a_fee_of_the_whole() {
    for fee in [1_000_000, 1_000_001, u32::MAX] {
        let p = pool(7, "X", "Y", fee, ONE, 1_000_000, 0, &[]);
        assert_eq!(p.try_swap(true, 100, None), None);
        assert_eq!(p.try_swap(false, -100, None), None);
        assert_eq!(p.try_swap(true, 100, Some(ONE - 1)), None);
    }
    // the first step is without liquidity and ends on an initialized tick,
    // which brings liquidity for the second
    let woken = pool(8, "X", "Y", 1_000_000, 18502164624211761448, 0, 59, &[(60, 1_000_000)]);
    assert_eq!(woken.try_swap(false, 100, None), None);
    let asleep = pool(8, "X", "Y", 1_000_000, 18502164624211761448, 0, 59, &[(60, 0)]);
    assert_eq!(
        asleep.try_swap(false, 100, None),
        Some(SwapResult {
            amount_in: 0,
            amount_out: 0,
            sqrt_price_x64_after: 18502164624211761448,
            tick_after: 60,
        })
    );
}

#[test]
fn try_swap_is_swap_where_the_fee_is_below_the_whole() {
    for p in [deep_pool(), stepped_pool()] {
        for zero_for_one in [true, false] {
            for amount in [0i128, 1, -1, 1_000_000, -1_000_000, 5_000_000] {
                assert_eq!(
                    p.try_swap(zero_for_one, amount, None),
                    Some(p.swap(zero_for_one, amount, None))
                );
            }
        }
    }
}

#[test]
fn route_through_a_pool_without_liquidity_reads_no_fee() {
    let mut pools = two_pools();
    pools.insert(7, pool(7, "X", "Y", 1_000_000, ONE, 0, 0, &[]));
    let trade = calculate_route_output(&pools, &[7], 100, "X").unwrap();
    assert_eq!(trade.amount_in, 100);
    assert_eq!(trade.amount_out, 0);
    assert_eq!(trade.route, vec![7]);
    let onwards = calculate_route_output(&pools, &[7, 1], 100, "X").unwrap();
    assert_eq!(onwards.amount_out, 0);
    let checked = try_calculate_route_output(&pools, &[7], 100, "X").unwrap().unwrap();
    assert_eq!(checked.amount_out, 0);
}

#[test]
fn route_that_fails_before_a_pool_reads_no_fee() {
    let mut pools = two_pools();
    pools.insert(7, pool(7, "X", "Y", 1_000_000, ONE, 1_000_000, 0, &[]));
    assert_eq!(
        calculate_route_output(&pools, &[7], 1_000_000, "Q").unwrap_err(),
        TradeError::TokenMismatch { pool_id: 7 }
    );
    assert_eq!(
        calculate_route_output(&pools, &[9, 7], 1_000_000, "X").unwrap_err(),
        TradeError::PoolNotFound { pool_id: 9, available: 3 }
    );
    assert_eq!(calculate_route_output(&pools, &[7], 0, "X").unwrap().amount_out, 0);
}

#[test]
fn try_route_output_gives_nothing_where_a_swap_cannot_be_computed() {
    let mut pools = two_pools();
    pools.insert(7, pool(7, "X", "Y", 1_000_000, ONE, 1_000_000, 0, &[]));
    assert!(try_calculate_route_output(&pools, &[7], 1_000_000, "X").is_none());
    assert!(try_calculate_route_output(&pools, &[1, 7], 1_000_000, "X").is_none());
    assert!(try_calculate_route_output(&pools, &[7, 9], 1_000_000, "Y").is_none());
    assert_eq!(
        try_calculate_route_output(&pools, &[9, 7], 1_000_000, "X").unwrap().unwrap_err(),
        TradeError::PoolNotFound { pool_id: 9, available: 3 }
    );
    assert_eq!(
        try_calculate_route_output(&pools, &[], 1_000_000, "X").unwrap().unwrap_err(),
        TradeError::EmptyRoute
    );
    assert_eq!(
        try_calculate_route_output(&pools, &[1, 2], 1_000_000, "X").unwrap().unwrap().amount_out,
        986_585
    );
}

#[test]
fn try_batch_gives_nothing_where_one_trade_cannot_be_computed() {
    let mut pools = two_pools();
    pools.insert(7, pool(7, "X", "Y", 1_000_000, ONE, 1_000_000, 0, &[]));
    let routes = vec![vec![1, 2], vec![7]];
    assert!(try_calculate_trades_batch(&pools, &routes, &[1_000_000, 5], "X").is_none());
    assert!(try_calculate_trades_batch(&pools, &routes, &[0, 5], "X").is_none());
    let idle = try_calculate_trades_batch(&pools, &routes, &[0], "X").unwrap();
    assert_eq!(idle.len(), 2);
    assert_eq!(idle[1].as_ref().unwrap().amount_out, 0);
    let none = try_calculate_trades_batch(&pools, &routes, &[], "X").unwrap();
    assert!(none.is_empty());
    let sound = try_calculate_trades_batch(&pools, &routes[..1], &[1_000_000, 0], "X").unwrap();
    assert_eq!(sound.len(), 2);
    assert_eq!(sound[0].as_ref().unwrap().amount_out, 986_585);
    assert_eq!(
        calculate_trades_batch(&pools, &routes, &[0], "X")[0].as_ref().unwrap().amount_out,
        0
    );
}

#[test]
fn route_output_reads_a_huge_amount_as_a_fixed_output() {
    let pools = two_pools();
    // 2^128 - 1_000_000 is -1_000_000 in two's complement: a fixed output
    let trade = calculate_route_output(&pools, &[1], u128::MAX - 999_999, "X").unwrap();
    assert_eq!(trade.amount_in, u128::MAX - 999_999);
    assert_eq!(trade.amount_out, 1_000_000);
}

#[test]
fn batch_goes_route_by_route_and_amount_by_amount() {
    let pools = two_pools();
    let routes = vec![vec![1, 2], vec![], vec![1]];
    let amounts = vec![1_000_000u128, 0];
    let results = calculate_trades_batch(&pools, &routes, &amounts, "X");
    assert_eq!(results.len(), 6);
    assert_eq!(results[0].as_ref().unwrap().amount_out, 986_585);
    assert_eq!(results[0].as_ref().unwrap().route, vec![1, 2]);
    assert_eq!(results[1].as_ref().unwrap().amount_out, 0);
    assert_eq!(results[1].as_ref().unwrap().amount_in, 0);
    assert_eq!(*results[2].as_ref().unwrap_err(), TradeError::EmptyRoute);
    assert_eq!(*results[3].as_ref().unwrap_err(), TradeError::EmptyRoute);
    assert_eq!(results[4].as_ref().unwrap().amount_out, 996_999);
    assert_eq!(results[5].as_ref().unwrap().amount_out, 0);
}

#[test]
fn batch_of_nothing_is_empty() {
    let pools = two_pools();
    assert!(calculate_trades_batch(&pools, &[], &[1, 2], "X").is_empty());
    assert!(calculate_trades_batch(&pools, &[vec![1]], &[], "X").is_empty());
}
