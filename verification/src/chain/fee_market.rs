//! EIP-1559-style fee market primitives.
//!
//! The functions here are pure: they never touch chain state. Block production
//! and the executor call them, and the consensus-critical arithmetic is stated
//! exactly in their contracts.
use vstd::prelude::*;
use vstd::arithmetic::div_mod::{lemma_div_denominator, lemma_div_is_ordered, lemma_div_multiples_vanish};

verus! {

/// Default target gas for a block.
pub const DEFAULT_TARGET_GAS: u64 = 10_000_000;

/// Maximum base-fee change denominator: 1/8 = 12.5% per block.
pub const DEFAULT_BASE_FEE_MAX_CHANGE_DENOMINATOR: u64 = 8;

pub const DEFAULT_ELASTICITY_MULTIPLIER: u64 = 2;

#[derive(Debug, Clone, Copy, PartialEq, Eq)]
pub struct FeeMarketParams {
    pub target_gas: u64,
    pub elasticity_multiplier: u64,
    pub base_fee_max_change_denominator: u64,
    pub min_base_fee: u64,
}

impl FeeMarketParams {
    /// The default parameters (target 10M gas, 1/8 max change, no floor).
    pub fn default_params() -> (p: Self)
        ensures
            p.target_gas == DEFAULT_TARGET_GAS,
            p.elasticity_multiplier == DEFAULT_ELASTICITY_MULTIPLIER,
            p.base_fee_max_change_denominator == DEFAULT_BASE_FEE_MAX_CHANGE_DENOMINATOR,
            p.min_base_fee == 0,
    {
        FeeMarketParams {
            target_gas: DEFAULT_TARGET_GAS,
            elasticity_multiplier: DEFAULT_ELASTICITY_MULTIPLIER,
            base_fee_max_change_denominator: DEFAULT_BASE_FEE_MAX_CHANGE_DENOMINATOR,
            min_base_fee: 0,
        }
    }
}

impl Default for FeeMarketParams {
    fn default() -> (p: Self)
        ensures
            p.target_gas == DEFAULT_TARGET_GAS,
            p.elasticity_multiplier == DEFAULT_ELASTICITY_MULTIPLIER,
            p.base_fee_max_change_denominator == DEFAULT_BASE_FEE_MAX_CHANGE_DENOMINATOR,
            p.min_base_fee == 0,
    {
        Self::default_params()
    }
}

#[derive(Debug, Clone, Copy, PartialEq, Eq)]
pub struct FeeBid {
    /// Legacy fee or max total fee cap per gas unit.
    pub max_fee: u64,
    /// Validator/proposer tip cap per gas unit.
    pub priority_fee: u64,
}

impl FeeBid {
    /// Backward-compatible migration for a legacy flat transaction fee.
    pub fn legacy(fee: u64) -> (b: Self)
        ensures
            b.max_fee == fee,
            b.priority_fee == 0,
    {
        FeeBid { max_fee: fee, priority_fee: 0 }
    }
}

#[derive(Debug, Clone, Copy, PartialEq, Eq)]
pub struct EffectiveFee {
    pub base_fee_burned: u64,
    pub priority_fee_paid: u64,
}

#[derive(Debug, Clone, Copy, PartialEq, Eq)]
pub enum FeeError {
    MaxFeeBelowBaseFee { max_fee: u64, base_fee: u64 },
    InvalidParams,
}

pub open spec fn i128_min() -> int {
    -0x8000_0000_0000_0000_0000_0000_0000_0000
}

pub open spec fn i128_max() -> int {
    0x7fff_ffff_ffff_ffff_ffff_ffff_ffff_ffff
}

/// Clamp a mathematical integer into the `i128` range (saturating arithmetic).
pub open spec fn sat_i128(x: int) -> int {
    if x < i128_min() {
        i128_min()
    } else if x > i128_max() {
        i128_max()
    } else {
        x
    }
}

/// Integer division rounding toward zero (Rust's `/` on signed integers).
pub open spec fn trunc_div(a: int, b: int) -> int
    recommends
        b > 0,
{
    if a >= 0 {
        a / b
    } else {
        -((-a) / b)
    }
}

pub open spec fn max_int(a: int, b: int) -> int {
    if a >= b {
        a
    } else {
        b
    }
}

pub open spec fn min_int(a: int, b: int) -> int {
    if a <= b {
        a
    } else {
        b
    }
}

/// The signed change applied to the parent base fee.
pub open spec fn base_fee_adjustment(parent: int, gas_used: int, params: FeeMarketParams) -> int {
    trunc_div(
        sat_i128(parent * (gas_used - params.target_gas)),
        params.target_gas * params.base_fee_max_change_denominator,
    )
}

/// Next base fee, as a mathematical function of the parent block.
pub open spec fn spec_next_base_fee(parent: u64, gas_used: u64, params: FeeMarketParams) -> int {
    if params.target_gas == 0 || params.base_fee_max_change_denominator == 0 {
        max_int(parent as int, params.min_base_fee as int)
    } else {
        min_int(
            max_int(
                sat_i128(parent + base_fee_adjustment(parent as int, gas_used as int, params)),
                params.min_base_fee as int,
            ),
            u64::MAX as int,
        )
    }
}

/// Whether the product `target_gas * denominator` fits the signed 128-bit range
/// the computation uses.
pub open spec fn params_fit(params: FeeMarketParams) -> bool {
    params.target_gas * params.base_fee_max_change_denominator <= i128_max()
}

/// `a / b` rounded toward zero, for `b > 0`.
fn trunc_div_i128(a: i128, b: i128) -> (r: i128)
    requires
        b > 0,
    ensures
        r == trunc_div(a as int, b as int),
{
    if a >= 0 {
        a / b
    } else {
        let na: i128 = -(a + 1);
        let q: i128 = na / b;
        let r: i128 = na % b;
        proof {
            assert(na == b * q + r && 0 <= r < b) by (nonlinear_arith)
                requires
                    na >= 0,
                    b > 0,
                    q == na / b,
                    r == na % b,
            ;
            // -a == na + 1 == b * q + (r + 1)
            if r == b - 1 {
                assert(na + 1 == b * (q + 1)) by (nonlinear_arith)
                    requires
                        na == b * q + r,
                        r == b - 1,
                ;
                assert((na + 1) / (b as int) == q + 1) by (nonlinear_arith)
                    requires
                        na + 1 == b * (q + 1),
                        b > 0,
                ;
            } else {
                assert((na + 1) / (b as int) == q) by (nonlinear_arith)
                    requires
                        na + 1 == b * q + (r + 1),
                        0 <= r + 1 < b,
                ;
            }
        }
        if r == b - 1 {
            -q - 1
        } else {
            -q
        }
    }
}

/// Compute the next block base fee with the EIP-1559 bounded adjustment.
///
/// The result is clamped to `min_base_fee`. Parameters with a zero target or a
/// zero denominator are treated fail-closed: the parent fee is returned
/// unchanged, but never below the minimum.
pub fn next_base_fee(parent_base_fee: u64, parent_gas_used: u64, params: FeeMarketParams) -> (next: u64)
    requires
        params_fit(params),
    ensures
        next == spec_next_base_fee(parent_base_fee, parent_gas_used, params),
{
    if params.target_gas == 0 || params.base_fee_max_change_denominator == 0 {
        return if parent_base_fee >= params.min_base_fee {
            parent_base_fee
        } else {
            params.min_base_fee
        };
    }
    let parent: i128 = parent_base_fee as i128;
    let gas_delta: i128 = parent_gas_used as i128 - params.target_gas as i128;
    proof {
        assert((params.target_gas as int) * (params.base_fee_max_change_denominator as int) > 0)
            by (nonlinear_arith)
            requires
                params.target_gas > 0,
                params.base_fee_max_change_denominator > 0,
        ;
    }
    let denom: i128 = params.target_gas as i128 * params.base_fee_max_change_denominator as i128;
    let product: i128 = match parent.checked_mul(gas_delta) {
        Some(v) => v,
        None => {
            proof {
                if gas_delta >= 0 {
                    assert(parent * gas_delta >= 0) by (nonlinear_arith)
                        requires
                            parent >= 0,
                            gas_delta >= 0,
                    ;
                } else {
                    assert(parent * gas_delta <= 0) by (nonlinear_arith)
                        requires
                            parent >= 0,
                            gas_delta < 0,
                    ;
                }
            }
            if gas_delta < 0 {
                i128::MIN
            } else {
                i128::MAX
            }
        },
    };
    let adjustment: i128 = trunc_div_i128(product, denom);
    let sum: i128 = match parent.checked_add(adjustment) {
        Some(v) => v,
        None => i128::MAX,
    };
    let floor: i128 = params.min_base_fee as i128;
    let next: i128 = if sum >= floor {
        sum
    } else {
        floor
    };
    if next >= u64::MAX as i128 {
        u64::MAX
    } else {
        next as u64
    }
}

/// Split a fee bid into the burned base fee and the proposer priority fee.
///
/// A bid that cannot cover the block base fee is rejected rather than clamped,
/// so an underpriced transaction never weakens the base-fee mechanism.
pub fn effective_fee(bid: FeeBid, block_base_fee: u64) -> (r: Result<EffectiveFee, FeeError>)
    ensures
        bid.max_fee < block_base_fee <==> r is Err,
        r matches Err(e) ==> e == (FeeError::MaxFeeBelowBaseFee {
            max_fee: bid.max_fee,
            base_fee: block_base_fee,
        }),
        r matches Ok(f) ==> {
            &&& f.base_fee_burned == block_base_fee
            &&& f.priority_fee_paid == min_int(
                bid.priority_fee as int,
                bid.max_fee - block_base_fee,
            )
        },
{
    if bid.max_fee < block_base_fee {
        return Err(FeeError::MaxFeeBelowBaseFee { max_fee: bid.max_fee, base_fee: block_base_fee });
    }
    let tip_cap: u64 = bid.max_fee - block_base_fee;
    let tip: u64 = if bid.priority_fee <= tip_cap {
        bid.priority_fee
    } else {
        tip_cap
    };
    Ok(EffectiveFee { base_fee_burned: block_base_fee, priority_fee_paid: tip })
}


/// Parameters under which the bounded adjustment applies.
pub open spec fn params_active(params: FeeMarketParams) -> bool {
    params.target_gas > 0 && params.base_fee_max_change_denominator > 0
}

proof fn lemma_adjustment_le(a: int, p: int, t: int, d: int)
    requires
        0 <= a <= p * t,
        p >= 0,
        t > 0,
        d > 0,
    ensures
        t * d > 0,
        a / (t * d) <= p / d,
{
    assert(t * d > 0) by (nonlinear_arith)
        requires
            t > 0,
            d > 0,
    ;
    lemma_div_is_ordered(a, p * t, t * d);
    lemma_div_denominator(p * t, t, d);
    assert(t * p == p * t) by (nonlinear_arith);
    lemma_div_multiples_vanish(p, t);
}

/// The next base fee never falls below the configured floor.
pub proof fn law_base_fee_respects_floor(parent: u64, gas_used: u64, params: FeeMarketParams)
    ensures
        spec_next_base_fee(parent, gas_used, params) >= params.min_base_fee,
{
}

/// A block at, or above, the gas target never lowers the base fee.
pub proof fn law_base_fee_rises_above_target(parent: u64, gas_used: u64, params: FeeMarketParams)
    requires
        params_active(params),
        gas_used >= params.target_gas,
    ensures
        spec_next_base_fee(parent, gas_used, params) >= parent,
{
    let p = parent as int;
    let t = params.target_gas as int;
    let d = params.base_fee_max_change_denominator as int;
    assert(p * (gas_used - t) >= 0) by (nonlinear_arith)
        requires
            p >= 0,
            gas_used - t >= 0,
    ;
    assert(t * d > 0) by (nonlinear_arith)
        requires
            t > 0,
            d > 0,
    ;
}

/// Within the elasticity window a full block raises the base fee by at most
/// `1 / denominator` of the parent fee (12.5% with the defaults).
pub proof fn law_base_fee_increase_bounded(parent: u64, gas_used: u64, params: FeeMarketParams)
    requires
        params_active(params),
        params.target_gas <= gas_used <= 2 * params.target_gas,
    ensures
        spec_next_base_fee(parent, gas_used, params) <= max_int(
            parent + parent / params.base_fee_max_change_denominator,
            params.min_base_fee as int,
        ),
{
    let p = parent as int;
    let t = params.target_gas as int;
    let d = params.base_fee_max_change_denominator as int;
    let g = gas_used - t;
    assert(0 <= p * g <= p * t) by (nonlinear_arith)
        requires
            p >= 0,
            0 <= g <= t,
    ;
    let a = sat_i128(p * g);
    lemma_adjustment_le(a, p, t, d);
}

/// An empty block lowers the base fee by at most `1 / denominator` of the
/// parent fee, and a block at or below target never raises it above the parent
/// (or the floor).
pub proof fn law_base_fee_decrease_bounded(parent: u64, gas_used: u64, params: FeeMarketParams)
    requires
        params_active(params),
        gas_used <= params.target_gas,
    ensures
        spec_next_base_fee(parent, gas_used, params) >= parent - parent
            / params.base_fee_max_change_denominator,
        spec_next_base_fee(parent, gas_used, params) <= max_int(
            parent as int,
            params.min_base_fee as int,
        ),
{
    let p = parent as int;
    let t = params.target_gas as int;
    let d = params.base_fee_max_change_denominator as int;
    let g = gas_used - t;
    assert(-(p * t) <= p * g <= 0) by (nonlinear_arith)
        requires
            p >= 0,
            -t <= g <= 0,
    ;
    let a = sat_i128(p * g);
    assert(0 <= -a <= p * t);
    lemma_adjustment_le(-a, p, t, d);
    assert(p / d <= p) by (nonlinear_arith)
        requires
            p >= 0,
            d > 0,
    ;
}

/// The burned base fee and the paid tip never exceed the bid's fee cap, and
/// the tip never exceeds the bid's priority fee.
pub proof fn law_effective_fee_within_bid(bid: FeeBid, block_base_fee: u64, f: EffectiveFee)
    requires
        bid.max_fee >= block_base_fee,
        f.base_fee_burned == block_base_fee,
        f.priority_fee_paid == min_int(bid.priority_fee as int, bid.max_fee - block_base_fee),
    ensures
        f.base_fee_burned + f.priority_fee_paid <= bid.max_fee,
        f.priority_fee_paid <= bid.priority_fee,
{
}

} // verus!
