use route_finder::ingest::{describe_pools, pool_descriptor_from, tick_descriptor_at};
use route_finder::registry::{
    calculate_trade_output, compute_routes_fast, get_pool_count, init_pools_with_data, Registry,
};
use serde_json::Value;

fn value(text: &str) -> Value {
    serde_json::from_str(text).unwrap()
}

#[test]
fn descriptor_reads_ids_and_tokens() {
    let d = pool_descriptor_from(&value(
        r#"{"id": "17", "token_a": {"id": "X", "symbol": "x"}, "token_b": {"id": "Y"}}"#,
    ));
    assert_eq!(d.id, "17");
    assert_eq!(d.token_a_id, "X");
    assert_eq!(d.token_b_id, "Y");
    assert_eq!(d.fee, None);
    assert_eq!(d.sqrt_price_x64, None);
    assert_eq!(d.liquidity, None);
    assert_eq!(d.tick_current, None);
    assert!(d.ticks.is_none());
}

#[test]
fn descriptor_of_missing_or_misshapen_members_is_empty() {
    for text in [
        "{}",
        "null",
        "[1, 2]",
        "\"id\"",
        r#"{"id": 17, "token_a": "X", "token_b": {"id": 5}}"#,
        r#"{"id": null, "token_a": {"ID": "X"}, "token_b": []}"#,
    ] {
        let d = pool_descriptor_from(&value(text));
        assert_eq!(d.id, "", "{}", text);
        assert_eq!(d.token_a_id, "", "{}", text);
        assert_eq!(d.token_b_id, "", "{}", text);
    }
}

#[test]
fn descriptor_reads_what_swapping_needs() {
    let d = pool_descriptor_from(&value(
        r#"{"id": "1", "token_a": {"id": "X"}, "token_b": {"id": "Y"},
            "fee": 3000, "sqrtPriceX64": "18446744073709551616",
            "liquidity": "1000000000000000", "tickCurrent": -7}"#,
    ));
    assert_eq!(d.fee, Some(3000));
    assert_eq!(d.sqrt_price_x64.as_deref(), Some("18446744073709551616"));
    assert_eq!(d.liquidity.as_deref(), Some("1000000000000000"));
    assert_eq!(d.tick_current, Some(-7));
    assert!(d.ticks.is_none());
}

#[test]
fn descriptor_takes_numbers_of_the_right_kind_only() {
    let d = pool_descriptor_from(&value(
        r#"{"fee": -3000, "sqrtPriceX64": 5, "liquidity": ["1"], "tickCurrent": 1.5}"#,
    ));
    assert_eq!(d.fee, None);
    assert_eq!(d.sqrt_price_x64, None);
    assert_eq!(d.liquidity, None);
    assert_eq!(d.tick_current, None);
    let d = pool_descriptor_from(&value(
        r#"{"fee": "3000", "tickCurrent": "7", "sqrt_price_x64": "5"}"#,
    ));
    assert_eq!(d.fee, None);
    assert_eq!(d.tick_current, None);
    assert_eq!(d.sqrt_price_x64, None);
    let d = pool_descriptor_from(&value(
        r#"{"fee": 18446744073709551615, "tickCurrent": -9223372036854775808}"#,
    ));
    assert_eq!(d.fee, Some(u64::MAX));
    assert_eq!(d.tick_current, Some(i64::MIN));
    let d = pool_descriptor_from(&value(r#"{"tickCurrent": 9223372036854775808}"#));
    assert_eq!(d.tick_current, None);
}

#[test]
fn descriptor_reads_ticks_under_either_name() {
    let v = value(
        r#"{"ticks": [
            {"id": 10, "index": 11, "liquidityNet": "-5", "liquidity_net": "-6", "liquidityGross": "5"},
            {"index": -10, "liquidity_net": "5", "liquidity_gross": "7"},
            {"id": "12", "liquidityNet": 5},
            17
        ]}"#,
    );
    let d = pool_descriptor_from(&v);
    let ticks = d.ticks.unwrap();
    assert_eq!(ticks.len(), 4);
    assert_eq!(ticks[0].index, Some(10));
    assert_eq!(ticks[0].liquidity_net.as_deref(), Some("-5"));
    assert_eq!(ticks[0].liquidity_gross.as_deref(), Some("5"));
    assert_eq!(ticks[1].index, Some(-10));
    assert_eq!(ticks[1].liquidity_net.as_deref(), Some("5"));
    assert_eq!(ticks[1].liquidity_gross.as_deref(), Some("7"));
    assert_eq!(ticks[2].index, None);
    assert_eq!(ticks[2].liquidity_net, None);
    assert_eq!(ticks[2].liquidity_gross, None);
    assert_eq!(ticks[3].index, None);
    let second = tick_descriptor_at(&v, 1);
    assert_eq!(second.index, Some(-10));
    let beyond = tick_descriptor_at(&v, 4);
    assert_eq!(beyond.index, None);
    assert_eq!(beyond.liquidity_net, None);
}

#[test]
fn descriptor_of_ticks_that_are_no_array_has_none() {
    assert!(pool_descriptor_from(&value(r#"{"ticks": {"0": {"id": 1}}}"#)).ticks.is_none());
    assert!(pool_descriptor_from(&value(r#"{"ticks": null}"#)).ticks.is_none());
    assert_eq!(pool_descriptor_from(&value(r#"{"ticks": []}"#)).ticks.unwrap().len(), 0);
}

#[test]
fn pools_are_described_one_by_one() {
    let values = vec![
        value(r#"{"id": "1", "token_a": {"id": "X"}, "token_b": {"id": "Y"}}"#),
        value("7"),
        value(r#"{"id": "3", "token_a": {"id": "X"}, "token_b": {"id": "Z"}}"#),
    ];
    let ds = describe_pools(&values);
    assert_eq!(ds.len(), 3);
    assert_eq!(ds[0].id, "1");
    assert_eq!(ds[1].id, "");
    assert_eq!(ds[2].token_b_id, "Z");
    assert!(describe_pools(&Vec::new()).is_empty());
}

#[test]
fn registry_from_json_routes_and_trades() {
    let values: Vec<Value> = serde_json::from_str(
        r#"[
            {"id": "1", "token_a": {"id": "X"}, "token_b": {"id": "Y"}, "fee": 3000,
             "sqrtPriceX64": "18446744073709551616", "liquidity": "1000000000",
             "tickCurrent": 0,
             "ticks": [{"id": -120, "liquidityNet": "500000000"},
                       {"index": -60, "liquidity_net": "1000000000", "liquidity_gross": "1000000000"},
                       {"id": 60, "liquidityNet": "-1000000000"}]},
            {"id": "2", "token_a": {"id": "Y"}, "token_b": {"id": "Z"}}
        ]"#,
    )
    .unwrap();
    let mut registry = Registry::new();
    init_pools_with_data(&mut registry, &describe_pools(&values));
    assert_eq!(get_pool_count(&registry), 2);
    assert_eq!(
        compute_routes_fast(&registry, &"X".to_string(), &"Z".to_string(), 3),
        Ok(vec![vec!["1".to_string(), "2".to_string()]])
    );
    let trade = calculate_trade_output(&registry, &vec![1], "10000000", "X").unwrap();
    assert_eq!(trade.amount_in, 10_000_000);
    assert_eq!(trade.amount_out, 2_995_354);
}
