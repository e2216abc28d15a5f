use budlum_core::tokenomics::{
    bud, genesis_allocations, Allocation, TimedBurnState, TokenomicsAddresses, TokenomicsParams,
    VestingSchedule, BUD_TOTAL_SUPPLY,
};

#[test]
fn total_supply_fits_u64_and_matches() {
    assert_eq!(BUD_TOTAL_SUPPLY, 100_000_000 * 1_000_000);
    assert!(BUD_TOTAL_SUPPLY < u64::MAX / 1000);
}

#[test]
fn default_distribution_is_balanced() {
    let p = TokenomicsParams::default();
    assert!(p.is_balanced(), "sum={} expected={}", p.total(), BUD_TOTAL_SUPPLY);
    assert_eq!(p.community, bud(10_000_000));
    assert_eq!(p.burn_reserve, bud(40_000_000));
}

#[test]
fn vesting_cliff_then_linear() {
    let v = VestingSchedule {
        total: bud(20_000_000),
        start_epoch: 0,
        cliff_epochs: 1000,
        duration_epochs: 4000,
    };
    assert_eq!(v.unlocked_at(0), 0);
    assert_eq!(v.unlocked_at(999), 0);
    assert_eq!(v.unlocked_at(1000), bud(5_000_000));
    assert_eq!(v.unlocked_at(2000), bud(10_000_000));
    assert_eq!(v.unlocked_at(4000), bud(20_000_000));
    assert_eq!(v.unlocked_at(9999), bud(20_000_000));
    assert_eq!(v.locked_at(0), bud(20_000_000));
}

#[test]
fn annual_burn_amount_is_ten_percent() {
    let p = TokenomicsParams::default();
    assert_eq!(p.annual_burn_amount(), bud(4_000_000));
}

#[test]
fn metabolic_burn_fraction() {
    let p = TokenomicsParams::default();
    assert_eq!(p.metabolic_burn(1000), 10);
}

#[test]
fn due_years_progression() {
    let t = TimedBurnState::new();
    assert_eq!(t.due_years(0, 500, 1000), 0);
    assert_eq!(t.due_years(0, 1000, 1000), 1);
    assert_eq!(t.due_years(0, 3500, 1000), 3);
}

#[test]
fn vesting_is_monotone_in_epoch() {
    let v = TokenomicsParams::default().team_vesting(10);
    let mut prev = 0u64;
    for e in [0u64, 10, 500, 5_000, 50_000, 500_000, u64::MAX] {
        let u = v.unlocked_at(e);
        assert!(u >= prev);
        assert_eq!(u + v.locked_at(e), v.total);
        prev = u;
    }
}

#[test]
fn genesis_allocations_mint_exactly_total_supply() {
    let p = TokenomicsParams::default();
    let addrs = TokenomicsAddresses::reserved();
    let allocs = genesis_allocations(&p, &addrs);
    assert_eq!(allocs.len(), 5);
    let sum: u64 = allocs.iter().map(|(_, a)| *a).sum();
    assert_eq!(sum, BUD_TOTAL_SUPPLY);
    assert_eq!(addrs.address_of(Allocation::Team), allocs[3].0);
    assert_eq!(p.amount_of(Allocation::Team), allocs[3].1);
}

#[test]
fn labels_and_epoch_reward() {
    assert_eq!(Allocation::BurnReserve.label(), "burn_reserve");
    assert_eq!(Allocation::Community.label(), "community");
    let p = TokenomicsParams::default();
    assert_eq!(p.calculate_epoch_reward(0), 1);
    assert_eq!(p.metabolic_burn(99), 0);
    assert_eq!(t_due(), 0);
}

fn t_due() -> u64 {
    TimedBurnState::default().due_years(100, 50, 10)
}

#[test]
fn epoch_reward_grows_with_stake() {
    let p = TokenomicsParams::default();
    let mut last = 0u64;
    for stake in [0u64, 1, 1_000, 1_000_000, 1_000_000_000, 1_000_000_000_000] {
        let r = p.calculate_epoch_reward(stake);
        assert!(r >= 1);
        assert!(r >= last);
        last = r;
    }
}

#[test]
fn epoch_reward_with_slot_longer_than_a_year_is_one() {
    let mut p = TokenomicsParams::default();
    p.slot_duration_secs = 40_000_000;
    assert_eq!(p.calculate_epoch_reward(u64::MAX), 1);
    p.slot_duration_secs = 0;
    assert!(p.calculate_epoch_reward(1_000_000) >= 1);
}

#[test]
fn annual_burn_truncates_like_the_cast() {
    let mut p = TokenomicsParams::default();
    p.burn_reserve = 1_000;
    p.annual_burn_ratio_fixed = 2_000_000;
    assert_eq!(p.annual_burn_amount(), 2_000);
    p.annual_burn_ratio_fixed = 500_000;
    assert_eq!(p.annual_burn_amount(), 500);
}
