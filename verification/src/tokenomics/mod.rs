//! $BUD tokenomics: genesis supply, distribution, team vesting and the two
//! burn mechanisms (the timed reserve burn and the metabolic fee burn).
//!
//! Balances are `u64` with 6 decimals, so the 100M total supply (10^14 base
//! units) fits comfortably. Burns reduce a balance and credit nothing.
use vstd::prelude::*;
use crate::core_types::address::Address;
use crate::core_types::chain_config::FIXED_POINT_SCALE;

verus! {

/// Decimal places for $BUD.
pub const BUD_DECIMALS: u32 = 6;

/// 1 whole $BUD in base units.
pub const BUD_UNIT: u64 = 1_000_000;

/// Total genesis supply in base units: 100,000,000 $BUD.
pub const BUD_TOTAL_SUPPLY: u64 = 100_000_000_000_000;

/// Convert whole $BUD to base units.
pub fn bud(whole: u64) -> (r: u64)
    requires
        whole * BUD_UNIT <= u64::MAX,
    ensures
        r == whole * BUD_UNIT,
{
    whole * BUD_UNIT
}

/// Recipient categories of the genesis distribution.
#[derive(Debug, Clone, Copy, PartialEq, Eq, PartialOrd, Ord, Structural)]
pub enum Allocation {
    Community,
    Liquidity,
    Ecosystem,
    /// Team (subject to vesting).
    Team,
    /// The pool the timed annual burn consumes.
    BurnReserve,
}

pub open spec fn spec_allocation_label(a: Allocation) -> Seq<char> {
    match a {
        Allocation::Community => "community"@,
        Allocation::Liquidity => "liquidity"@,
        Allocation::Ecosystem => "ecosystem"@,
        Allocation::Team => "team"@,
        Allocation::BurnReserve => "burn_reserve"@,
    }
}

impl Allocation {
    pub fn label(&self) -> (s: &'static str)
        ensures
            s@ == spec_allocation_label(*self),
    {
        match self {
            Allocation::Community => "community",
            Allocation::Liquidity => "liquidity",
            Allocation::Ecosystem => "ecosystem",
            Allocation::Team => "team",
            Allocation::BurnReserve => "burn_reserve",
        }
    }
}

/// Cliff + linear team vesting schedule.
#[derive(Debug, Clone, Copy, PartialEq, Eq, Structural)]
pub struct VestingSchedule {
    /// Total amount subject to vesting (base units).
    pub total: u64,
    /// Epoch at which vesting accounting starts.
    pub start_epoch: u64,
    /// Epochs before any tokens unlock (cliff).
    pub cliff_epochs: u64,
    /// Epochs over which the full amount unlocks linearly, from `start_epoch`.
    pub duration_epochs: u64,
}

/// Cumulative amount unlocked at `epoch`: zero before the cliff, linear from the
/// start afterwards, everything once `duration_epochs` have elapsed.
pub open spec fn spec_unlocked_at(v: VestingSchedule, epoch: u64) -> nat {
    if v.duration_epochs == 0 {
        v.total as nat
    } else if epoch < sat_add_u64(v.start_epoch as int, v.cliff_epochs as int) {
        0
    } else if epoch - v.start_epoch >= v.duration_epochs {
        v.total as nat
    } else {
        ((v.total * (epoch - v.start_epoch)) / (v.duration_epochs as int)) as nat
    }
}

impl VestingSchedule {
    pub fn unlocked_at(&self, epoch: u64) -> (r: u64)
        ensures
            r == spec_unlocked_at(*self, epoch),
    {
        if self.duration_epochs == 0 {
            return self.total;
        }
        if epoch < self.start_epoch.saturating_add(self.cliff_epochs) {
            return 0;
        }
        let elapsed: u64 = epoch.saturating_sub(self.start_epoch);
        if elapsed >= self.duration_epochs {
            return self.total;
        }
        proof {
            assert(self.total * elapsed <= u64::MAX * u64::MAX) by (nonlinear_arith)
                requires
                    self.total <= u64::MAX,
                    elapsed <= u64::MAX,
            ;
        }
        let prod: u128 = self.total as u128 * elapsed as u128;
        proof {
            assert(self.total * elapsed <= self.total * self.duration_epochs) by (nonlinear_arith)
                requires
                    elapsed <= self.duration_epochs,
            ;
            assert((self.total * elapsed) / (self.duration_epochs as int) <= self.total)
                by (nonlinear_arith)
                requires
                    elapsed < self.duration_epochs,
                    self.duration_epochs > 0,
            ;
        }
        (prod / self.duration_epochs as u128) as u64
    }

    pub fn locked_at(&self, epoch: u64) -> (r: u64)
        ensures
            r == self.total - spec_unlocked_at(*self, epoch),
    {
        let u: u64 = self.unlocked_at(epoch);
        proof {
            lemma_unlocked_le_total(*self, epoch);
        }
        self.total - u
    }
}

proof fn lemma_unlocked_le_total(v: VestingSchedule, epoch: u64)
    ensures
        spec_unlocked_at(v, epoch) <= v.total,
{
    if v.duration_epochs > 0 && epoch >= sat_add_u64(v.start_epoch as int, v.cliff_epochs as int)
        && epoch - v.start_epoch < v.duration_epochs {
        let e = epoch - v.start_epoch;
        assert((v.total * e) / (v.duration_epochs as int) <= v.total) by (nonlinear_arith)
            requires
                0 <= e < v.duration_epochs,
        ;
    }
}

/// Vesting never unlocks more than the total, and never re-locks: what is
/// unlocked at an epoch stays unlocked at every later epoch.
pub proof fn law_vesting_monotone(v: VestingSchedule, e1: u64, e2: u64)
    requires
        e1 <= e2,
    ensures
        spec_unlocked_at(v, e1) <= spec_unlocked_at(v, e2),
        spec_unlocked_at(v, e2) <= v.total,
{
    lemma_unlocked_le_total(v, e1);
    lemma_unlocked_le_total(v, e2);
    if v.duration_epochs > 0 && e1 >= sat_add_u64(v.start_epoch as int, v.cliff_epochs as int)
        && e2 - v.start_epoch < v.duration_epochs {
        let a = e1 - v.start_epoch;
        let b = e2 - v.start_epoch;
        assert(v.total * a <= v.total * b) by (nonlinear_arith)
            requires
                0 <= a <= b,
                v.total >= 0,
        ;
        vstd::arithmetic::div_mod::lemma_div_is_ordered(
            v.total * a,
            v.total * b,
            v.duration_epochs as int,
        );
    }
}

/// Governance-tunable tokenomics parameters.
#[derive(Debug, Clone, Copy, PartialEq, Eq, Structural)]
pub struct TokenomicsParams {
    pub community: u64,
    pub liquidity: u64,
    pub ecosystem: u64,
    pub team: u64,
    pub burn_reserve: u64,
    /// Epochs that make one "year" for the timed reserve burn.
    pub epochs_per_year: u64,
    /// Annual fraction of the initial burn reserve burned each year,
    /// scaled by `FIXED_POINT_SCALE`.
    pub annual_burn_ratio_fixed: u64,
    pub team_cliff_epochs: u64,
    pub team_vesting_epochs: u64,
    /// Fraction of each transaction fee burned, scaled by `FIXED_POINT_SCALE`.
    pub tx_fee_burn_ratio_fixed: u64,
    pub slot_duration_secs: u64,
    pub epoch_length_slots: u64,
    pub validator_annual_yield_ratio_fixed: u64,
    /// Reward minted to a block producer.
    pub block_reward: u64,
}

pub open spec fn spec_default_tokenomics() -> TokenomicsParams {
    TokenomicsParams {
        community: 10_000_000_000_000,
        liquidity: 10_000_000_000_000,
        ecosystem: 20_000_000_000_000,
        team: 20_000_000_000_000,
        burn_reserve: 40_000_000_000_000,
        epochs_per_year: 1000,
        annual_burn_ratio_fixed: 100_000,
        team_cliff_epochs: 1000,
        team_vesting_epochs: 4000,
        tx_fee_burn_ratio_fixed: 10_000,
        slot_duration_secs: 10,
        epoch_length_slots: 32,
        validator_annual_yield_ratio_fixed: 50_000,
        block_reward: 50,
    }
}

pub open spec fn sat_add_u64(a: int, b: int) -> int {
    if a + b > u64::MAX {
        u64::MAX as int
    } else {
        a + b
    }
}

pub open spec fn spec_total(p: TokenomicsParams) -> int {
    sat_add_u64(
        sat_add_u64(
            sat_add_u64(sat_add_u64(p.community as int, p.liquidity as int), p.ecosystem as int),
            p.team as int,
        ),
        p.burn_reserve as int,
    )
}

pub open spec fn spec_amount_of(p: TokenomicsParams, a: Allocation) -> u64 {
    match a {
        Allocation::Community => p.community,
        Allocation::Liquidity => p.liquidity,
        Allocation::Ecosystem => p.ecosystem,
        Allocation::Team => p.team,
        Allocation::BurnReserve => p.burn_reserve,
    }
}

/// Slots in a year of 31,536,000 seconds; a slot length of 0 counts as 1.
pub open spec fn slots_per_year(p: TokenomicsParams) -> int {
    let slot_duration = if p.slot_duration_secs >= 1 {
        p.slot_duration_secs as int
    } else {
        1
    };
    31_536_000int / slot_duration
}

/// A validator's unclamped yield for one epoch.
pub open spec fn epoch_yield(p: TokenomicsParams, validator_stake: u64) -> int {
    let annual_yield = (validator_stake * p.validator_annual_yield_ratio_fixed) / FIXED_POINT_SCALE as int;
    (annual_yield * p.epoch_length_slots) / slots_per_year(p)
}

pub open spec fn spec_epoch_reward(p: TokenomicsParams, validator_stake: u64) -> u64 {
    if slots_per_year(p) == 0 {
        1
    } else {
        let epoch_yield = epoch_yield(p, validator_stake);
        (if epoch_yield >= 1 {
            epoch_yield
        } else {
            1
        }) as u64
    }
}

impl Default for TokenomicsParams {
    fn default() -> (p: Self)
        ensures
            p == spec_default_tokenomics(),
    {
        Self::defaults()
    }
}

impl TokenomicsParams {
    /// The default distribution: 10M community, 10M liquidity, 20M ecosystem,
    /// 20M team, 40M burn reserve.
    pub fn defaults() -> (p: Self)
        ensures
            p == spec_default_tokenomics(),
    {
        TokenomicsParams {
            community: bud(10_000_000),
            liquidity: bud(10_000_000),
            ecosystem: bud(20_000_000),
            team: bud(20_000_000),
            burn_reserve: bud(40_000_000),
            epochs_per_year: 1000,
            annual_burn_ratio_fixed: FIXED_POINT_SCALE / 10,
            team_cliff_epochs: 1000,
            team_vesting_epochs: 4000,
            tx_fee_burn_ratio_fixed: FIXED_POINT_SCALE / 100,
            slot_duration_secs: 10,
            epoch_length_slots: 32,
            validator_annual_yield_ratio_fixed: (FIXED_POINT_SCALE * 5) / 100,
            block_reward: 50,
        }
    }

    /// Sum of all category allocations (saturating).
    pub fn total(&self) -> (r: u64)
        ensures
            r == spec_total(*self),
    {
        self.community.saturating_add(self.liquidity).saturating_add(self.ecosystem).saturating_add(
            self.team,
        ).saturating_add(self.burn_reserve)
    }

    /// True iff the allocations sum to exactly the fixed total supply.
    pub fn is_balanced(&self) -> (b: bool)
        ensures
            b == (spec_total(*self) == BUD_TOTAL_SUPPLY),
    {
        self.total() == BUD_TOTAL_SUPPLY
    }

    pub fn amount_of(&self, alloc: Allocation) -> (r: u64)
        ensures
            r == spec_amount_of(*self, alloc),
    {
        match alloc {
            Allocation::Community => self.community,
            Allocation::Liquidity => self.liquidity,
            Allocation::Ecosystem => self.ecosystem,
            Allocation::Team => self.team,
            Allocation::BurnReserve => self.burn_reserve,
        }
    }

    /// Team vesting schedule anchored at `genesis_epoch`.
    pub fn team_vesting(&self, genesis_epoch: u64) -> (v: VestingSchedule)
        ensures
            v == (VestingSchedule {
                total: self.team,
                start_epoch: genesis_epoch,
                cliff_epochs: self.team_cliff_epochs,
                duration_epochs: self.team_vesting_epochs,
            }),
    {
        VestingSchedule {
            total: self.team,
            start_epoch: genesis_epoch,
            cliff_epochs: self.team_cliff_epochs,
            duration_epochs: self.team_vesting_epochs,
        }
    }

    /// Per-epoch validator reward for `validator_stake`, never below 1.
    pub fn calculate_epoch_reward(&self, validator_stake: u64) -> (r: u64)
        requires
            slots_per_year(*self) > 0 ==> ((validator_stake * self.validator_annual_yield_ratio_fixed)
                / FIXED_POINT_SCALE as int) * self.epoch_length_slots <= u128::MAX,
        ensures
            r == spec_epoch_reward(*self, validator_stake),
    {
        let seconds_per_year: u128 = 365 * 24 * 60 * 60;
        let slot_duration: u128 = if self.slot_duration_secs >= 1 {
            self.slot_duration_secs as u128
        } else {
            1
        };
        let slots_per_year: u128 = seconds_per_year / slot_duration;
        if slots_per_year == 0 {
            return 1;
        }
        proof {
            assert(validator_stake * self.validator_annual_yield_ratio_fixed <= u64::MAX * u64::MAX)
                by (nonlinear_arith)
                requires
                    validator_stake <= u64::MAX,
                    self.validator_annual_yield_ratio_fixed <= u64::MAX,
            ;
        }
        let annual_yield: u128 = (validator_stake as u128
            * self.validator_annual_yield_ratio_fixed as u128) / FIXED_POINT_SCALE as u128;
        let epoch_yield: u128 = (annual_yield * self.epoch_length_slots as u128) / slots_per_year;
        let clamped: u128 = if epoch_yield >= 1 {
            epoch_yield
        } else {
            1
        };
        clamped as u64
    }

    /// Yearly burn amount (a fraction of the initial reserve), in base units.
    pub fn annual_burn_amount(&self) -> (r: u64)
        ensures
            r == ((self.burn_reserve * self.annual_burn_ratio_fixed) / FIXED_POINT_SCALE as int) as u64,
            self.annual_burn_ratio_fixed <= FIXED_POINT_SCALE ==> r == (self.burn_reserve
                * self.annual_burn_ratio_fixed) / FIXED_POINT_SCALE as int && r <= self.burn_reserve,
    {
        proof {
            if self.annual_burn_ratio_fixed <= FIXED_POINT_SCALE {
                assert((self.burn_reserve * self.annual_burn_ratio_fixed) / 1_000_000int
                    <= self.burn_reserve) by (nonlinear_arith)
                    requires
                        self.annual_burn_ratio_fixed <= 1_000_000,
                ;
            }
            assert(self.burn_reserve * self.annual_burn_ratio_fixed <= u64::MAX * u64::MAX)
                by (nonlinear_arith)
                requires
                    self.burn_reserve <= u64::MAX,
                    self.annual_burn_ratio_fixed <= u64::MAX,
            ;
        }
        ((self.burn_reserve as u128 * self.annual_burn_ratio_fixed as u128)
            / FIXED_POINT_SCALE as u128) as u64
    }

    /// The metabolic burn taken from a single fee.
    pub fn metabolic_burn(&self, fee: u64) -> (r: u64)
        ensures
            r == ((fee * self.tx_fee_burn_ratio_fixed) / FIXED_POINT_SCALE as int) as u64,
            self.tx_fee_burn_ratio_fixed <= FIXED_POINT_SCALE ==> r <= fee,
    {
        proof {
            assert(fee * self.tx_fee_burn_ratio_fixed <= u64::MAX * u64::MAX) by (nonlinear_arith)
                requires
                    fee <= u64::MAX,
                    self.tx_fee_burn_ratio_fixed <= u64::MAX,
            ;
            if self.tx_fee_burn_ratio_fixed <= FIXED_POINT_SCALE {
                assert((fee * self.tx_fee_burn_ratio_fixed) / 1_000_000int <= fee)
                    by (nonlinear_arith)
                    requires
                        self.tx_fee_burn_ratio_fixed <= 1_000_000,
                ;
            }
        }
        ((fee as u128 * self.tx_fee_burn_ratio_fixed as u128) / FIXED_POINT_SCALE as u128) as u64
    }
}

/// Genesis addresses of the tokenomics allocation accounts.
#[derive(Debug, Clone, Copy)]
pub struct TokenomicsAddresses {
    pub community: Address,
    pub liquidity: Address,
    pub ecosystem: Address,
    pub team: Address,
    pub burn_reserve: Address,
}

/// The reserved address with marker bytes `B0 D0` and the given tag.
pub open spec fn reserved_address_bytes(tag: u8) -> Seq<u8> {
    Seq::new(
        32,
        |i: int|
            if i == 0 {
                0xB0u8
            } else if i == 1 {
                0xD0u8
            } else if i == 2 {
                tag
            } else {
                0u8
            },
    )
}

fn reserved_address(tag: u8) -> (a: Address)
    ensures
        a.0@ == reserved_address_bytes(tag),
{
    let mut bytes = [0u8; 32];
    bytes[0] = 0xB0;
    bytes[1] = 0xD0;
    bytes[2] = tag;
    assert(bytes@ =~= reserved_address_bytes(tag));
    Address(bytes)
}

impl TokenomicsAddresses {
    /// Deterministic reserved addresses (`B0 D0 tag 00..`) for devnet and testing.
    pub fn reserved() -> (a: Self)
        ensures
            a.community.0@ == reserved_address_bytes(1),
            a.liquidity.0@ == reserved_address_bytes(2),
            a.ecosystem.0@ == reserved_address_bytes(3),
            a.team.0@ == reserved_address_bytes(4),
            a.burn_reserve.0@ == reserved_address_bytes(5),
    {
        TokenomicsAddresses {
            community: reserved_address(1),
            liquidity: reserved_address(2),
            ecosystem: reserved_address(3),
            team: reserved_address(4),
            burn_reserve: reserved_address(5),
        }
    }

    pub fn address_of(&self, alloc: Allocation) -> (a: Address)
        ensures
            a == match alloc {
                Allocation::Community => self.community,
                Allocation::Liquidity => self.liquidity,
                Allocation::Ecosystem => self.ecosystem,
                Allocation::Team => self.team,
                Allocation::BurnReserve => self.burn_reserve,
            },
    {
        match alloc {
            Allocation::Community => self.community,
            Allocation::Liquidity => self.liquidity,
            Allocation::Ecosystem => self.ecosystem,
            Allocation::Team => self.team,
            Allocation::BurnReserve => self.burn_reserve,
        }
    }
}

pub open spec fn spec_genesis_allocations(p: TokenomicsParams, a: TokenomicsAddresses) -> Seq<
    (Address, u64),
> {
    seq![
        (a.community, p.community),
        (a.liquidity, p.liquidity),
        (a.ecosystem, p.ecosystem),
        (a.team, p.team),
        (a.burn_reserve, p.burn_reserve),
    ]
}

/// The $BUD genesis allocation set: one entry per category, in category order.
pub fn genesis_allocations(params: &TokenomicsParams, addrs: &TokenomicsAddresses) -> (v: Vec<
    (Address, u64),
>)
    ensures
        v@ == spec_genesis_allocations(*params, *addrs),
{
    let mut v: Vec<(Address, u64)> = Vec::new();
    v.push((addrs.community, params.community));
    v.push((addrs.liquidity, params.liquidity));
    v.push((addrs.ecosystem, params.ecosystem));
    v.push((addrs.team, params.team));
    v.push((addrs.burn_reserve, params.burn_reserve));
    assert(v@ =~= spec_genesis_allocations(*params, *addrs));
    v
}

/// Sum of the amounts of an allocation list.
pub open spec fn sum_amounts(s: Seq<(Address, u64)>) -> int
    decreases s.len(),
{
    if s.len() == 0 {
        0
    } else {
        sum_amounts(s.drop_last()) + s.last().1
    }
}

/// A balanced distribution hands out exactly the fixed total supply at genesis.
pub proof fn law_balanced_genesis_mints_total_supply(p: TokenomicsParams, a: TokenomicsAddresses)
    requires
        spec_total(p) == BUD_TOTAL_SUPPLY,
    ensures
        sum_amounts(spec_genesis_allocations(p, a)) == BUD_TOTAL_SUPPLY,
{
    let s = spec_genesis_allocations(p, a);
    assert(s.drop_last().drop_last().drop_last().drop_last().drop_last() =~= Seq::<
        (Address, u64),
    >::empty());
    reveal_with_fuel(sum_amounts, 6);
}

/// The default distribution is balanced.
pub proof fn law_default_distribution_balanced()
    ensures
        spec_total(spec_default_tokenomics()) == BUD_TOTAL_SUPPLY,
{
}

/// Tracks the timed (time-triggered) reserve burn.
#[derive(Debug, Clone, Copy, PartialEq, Eq, Structural)]
pub struct TimedBurnState {
    /// Number of annual burns already executed.
    pub years_burned: u64,
    /// Cumulative amount burned from the reserve (base units).
    pub total_burned: u64,
}

pub open spec fn spec_due_years(genesis_epoch: u64, current_epoch: u64, epochs_per_year: u64) -> int {
    if epochs_per_year == 0 {
        0
    } else if current_epoch >= genesis_epoch {
        (current_epoch - genesis_epoch) / epochs_per_year as int
    } else {
        0
    }
}

impl TimedBurnState {
    pub fn new() -> (s: Self)
        ensures
            s.years_burned == 0,
            s.total_burned == 0,
    {
        TimedBurnState { years_burned: 0, total_burned: 0 }
    }

    /// Annual burns that should have happened by `current_epoch`.
    pub fn due_years(&self, genesis_epoch: u64, current_epoch: u64, epochs_per_year: u64) -> (r: u64)
        ensures
            r == spec_due_years(genesis_epoch, current_epoch, epochs_per_year),
    {
        if epochs_per_year == 0 {
            return 0;
        }
        current_epoch.saturating_sub(genesis_epoch) / epochs_per_year
    }
}

impl Default for TimedBurnState {
    fn default() -> (s: Self)
        ensures
            s.years_burned == 0,
            s.total_burned == 0,
    {
        Self::new()
    }
}

/// The epoch reward is at least one unit and never falls as the stake grows
/// (while the larger stake's yield fits in a `u64`).
pub proof fn law_epoch_reward_monotone_in_stake(p: TokenomicsParams, s1: u64, s2: u64)
    requires
        s1 <= s2,
        slots_per_year(p) > 0 ==> epoch_yield(p, s2) <= u64::MAX,
    ensures
        spec_epoch_reward(p, s1) >= 1,
        spec_epoch_reward(p, s1) <= spec_epoch_reward(p, s2),
{
    if slots_per_year(p) > 0 {
        let r = p.validator_annual_yield_ratio_fixed as int;
        let e = p.epoch_length_slots as int;
        let k = slots_per_year(p);
        let f = FIXED_POINT_SCALE as int;
        assert(f > 0);
        vstd::arithmetic::mul::lemma_mul_inequality(s1 as int, s2 as int, r);
        vstd::arithmetic::div_mod::lemma_div_is_ordered(s1 * r, s2 * r, f);
        let a1 = (s1 * r) / f;
        let a2 = (s2 * r) / f;
        assert(0 <= a1) by {
            vstd::arithmetic::mul::lemma_mul_nonnegative(s1 as int, r);
            vstd::arithmetic::div_mod::lemma_div_pos_is_pos(s1 * r, f);
        }
        vstd::arithmetic::mul::lemma_mul_inequality(a1, a2, e);
        vstd::arithmetic::div_mod::lemma_div_is_ordered(a1 * e, a2 * e, k);
        assert(epoch_yield(p, s1) <= epoch_yield(p, s2));
    }
}

/// The number of due annual burns never decreases as time passes.
pub proof fn law_due_years_monotone(genesis: u64, e1: u64, e2: u64, per_year: u64)
    requires
        e1 <= e2,
    ensures
        spec_due_years(genesis, e1, per_year) <= spec_due_years(genesis, e2, per_year),
{
    if per_year > 0 && e1 >= genesis {
        vstd::arithmetic::div_mod::lemma_div_is_ordered(
            e1 - genesis,
            e2 - genesis,
            per_year as int,
        );
    }
}

} // verus!
