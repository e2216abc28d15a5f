use budlum_core::chain::fee_market::{effective_fee, next_base_fee, FeeBid, FeeError, FeeMarketParams};

#[test]
fn base_fee_increase_is_bounded() {
    let params = FeeMarketParams::default();
    let next = next_base_fee(800, params.target_gas * 2, params);
    assert_eq!(next, 900, "full block raises by 12.5%");
}

#[test]
fn base_fee_decrease_is_bounded() {
    let params = FeeMarketParams::default();
    let next = next_base_fee(800, 0, params);
    assert_eq!(next, 700, "empty block lowers by 12.5%");
}

#[test]
fn min_base_fee_is_respected() {
    let params = FeeMarketParams { min_base_fee: 10, ..Default::default() };
    assert_eq!(next_base_fee(10, 0, params), 10);
}

#[test]
fn max_fee_below_base_fee_rejected() {
    let err = effective_fee(FeeBid { max_fee: 9, priority_fee: 1 }, 10).unwrap_err();
    assert_eq!(err, FeeError::MaxFeeBelowBaseFee { max_fee: 9, base_fee: 10 });
}

#[test]
fn effective_tip_cannot_exceed_priority_or_cap() {
    let fee = effective_fee(FeeBid { max_fee: 15, priority_fee: 10 }, 10).unwrap();
    assert_eq!(fee.base_fee_burned, 10);
    assert_eq!(fee.priority_fee_paid, 5);

    let fee = effective_fee(FeeBid { max_fee: 30, priority_fee: 7 }, 10).unwrap();
    assert_eq!(fee.priority_fee_paid, 7);
}

#[test]
fn legacy_fee_maps_to_zero_tip() {
    let fee = effective_fee(FeeBid::legacy(10), 10).unwrap();
    assert_eq!(fee.base_fee_burned, 10);
    assert_eq!(fee.priority_fee_paid, 0);
}

#[test]
fn base_fee_at_target_is_unchanged() {
    let params = FeeMarketParams::default();
    assert_eq!(next_base_fee(1000, params.target_gas, params), 1000);
}

#[test]
fn zero_target_is_fail_closed() {
    let params = FeeMarketParams { target_gas: 0, min_base_fee: 5, ..Default::default() };
    assert_eq!(next_base_fee(3, 123, params), 5);
    assert_eq!(next_base_fee(30, 123, params), 30);
}

#[test]
fn saturating_product_caps_the_rise() {
    // target 1, denominator 1: the product saturates and the fee caps at u64::MAX.
    let params = FeeMarketParams {
        target_gas: 1,
        elasticity_multiplier: 2,
        base_fee_max_change_denominator: 1,
        min_base_fee: 0,
    };
    assert_eq!(next_base_fee(u64::MAX, u64::MAX, params), u64::MAX);
}

#[test]
fn partial_block_exact_value() {
    // 800 * (15M - 10M) / (10M * 8) = 50
    let params = FeeMarketParams::default();
    assert_eq!(next_base_fee(800, 15_000_000, params), 850);
    // 800 * (5M - 10M) / (10M * 8) = -50
    assert_eq!(next_base_fee(800, 5_000_000, params), 750);
}
