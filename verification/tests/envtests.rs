use gaspipe::environment::{
    DEFAULT_GAS_LIMIT, Hardfork, NEUTRAL_GAS_PRICE, build_environment, needs_gas_price_query,
    next_base_fee,
};
use gaspipe::fork::{BlockHash, BlockHeader};

fn block(gas_used: u64, gas_limit: u64, base_fee: Option<u64>) -> BlockHeader {
    BlockHeader {
        number: 15_000_000,
        hash: Some(BlockHash { w0: 1, w1: 2, w2: 3, w3: 4 }),
        timestamp: 1_650_000_000,
        gas_limit,
        gas_used,
        base_fee,
    }
}

#[test]
fn test_next_base_fee_balanced_block_keeps_fee() {
    assert_eq!(next_base_fee(15_000_000, 30_000_000, 1000), 1000);
}

#[test]
fn test_next_base_fee_full_block_raises_eighth() {
    // delta = 1000 * (30M - 15M) / 15M / 8 = 125
    assert_eq!(next_base_fee(30_000_000, 30_000_000, 1000), 1125);
}

#[test]
fn test_next_base_fee_half_target_lowers() {
    // delta = 1000 * (15M - 7.5M) / 15M / 8 = 62 (rounded down)
    assert_eq!(next_base_fee(7_500_000, 30_000_000, 1000), 938);
}

#[test]
fn test_next_base_fee_minimal_rise_is_one() {
    // One unit above target: the integer delta is zero, floored to one.
    assert_eq!(next_base_fee(15_000_001, 30_000_000, 1000), 1001);
}

#[test]
fn test_next_base_fee_empty_block() {
    // delta = 1000 * 15M / 15M / 8 = 125
    assert_eq!(next_base_fee(0, 30_000_000, 1000), 875);
}

#[test]
fn test_next_base_fee_zero_gas_limit_keeps_fee() {
    assert_eq!(next_base_fee(5, 0, 1000), 1000);
}

#[test]
fn test_next_base_fee_clamps_at_word_size() {
    assert_eq!(next_base_fee(30_000_000, 30_000_000, u64::MAX), u64::MAX);
}

#[test]
fn test_build_environment_projects_base_fee() {
    let env = build_environment(&block(30_000_000, 30_000_000, Some(1000)), 1, None, None, None);
    assert_eq!(env.chain_id, 1);
    assert_eq!(env.base_fee, Some(1125));
    assert_eq!(env.gas_price, NEUTRAL_GAS_PRICE);
    assert_eq!(env.gas_limit, DEFAULT_GAS_LIMIT);
    assert_eq!(env.hardfork, Hardfork::Latest);
}

#[test]
fn test_build_environment_without_base_fee_uses_suggested_price() {
    let b = block(10_000_000, 30_000_000, None);
    assert!(needs_gas_price_query(&b));
    let env = build_environment(&b, 5, Some(42), None, None);
    assert_eq!(env.base_fee, None);
    assert_eq!(env.gas_price, 42);
}

#[test]
fn test_build_environment_neutral_price_when_query_failed() {
    let b = block(10_000_000, 30_000_000, None);
    let env = build_environment(&b, 5, None, None, None);
    assert_eq!(env.base_fee, None);
    assert_eq!(env.gas_price, NEUTRAL_GAS_PRICE);
    assert!(env.gas_price > 0);
}

#[test]
fn test_build_environment_pins_hardfork_and_gas_limit() {
    let b = block(10_000_000, 30_000_000, Some(7));
    assert!(!needs_gas_price_query(&b));
    let env = build_environment(&b, 5, None, Some(Hardfork::London), Some(1_000_000));
    assert_eq!(env.hardfork, Hardfork::London);
    assert_eq!(env.gas_limit, 1_000_000);
}
