use budlum_core::chain::genesis::{
    devnet_genesis, GenesisConfig, BASE_FEE, BLOCK_REWARD, GENESIS_TIMESTAMP,
};
use budlum_core::core_types::address::Address;
use budlum_core::core_types::chain_config::Network;
use budlum_core::core_types::transaction::DEFAULT_CHAIN_ID;
use budlum_core::tokenomics::{TokenomicsAddresses, TokenomicsParams, BUD_TOTAL_SUPPLY};

#[test]
fn test_default_config() {
    let config = GenesisConfig::default();
    assert_eq!(config.chain_id, DEFAULT_CHAIN_ID);
    assert_eq!(config.block_reward, BLOCK_REWARD);
    assert_eq!(config.base_fee, BASE_FEE);
    assert_eq!(config.timestamp, GENESIS_TIMESTAMP);
}

#[test]
fn test_genesis_deterministic() {
    let config = GenesisConfig::default();
    let genesis1 = config.build_genesis_block();
    let genesis2 = config.build_genesis_block();

    assert_eq!(genesis1.hash, genesis2.hash);
    assert_eq!(genesis1.timestamp, GENESIS_TIMESTAMP);
}

#[test]
fn test_network_genesis_configs_are_distinct() {
    let mainnet = GenesisConfig::for_network(Network::Mainnet);
    let testnet = GenesisConfig::for_network(Network::Testnet);
    let devnet = GenesisConfig::for_network(Network::Devnet);

    assert_ne!(mainnet.chain_id, testnet.chain_id);
    assert_ne!(mainnet.block_reward, devnet.block_reward);
    assert_ne!(mainnet.validators, testnet.validators);
    assert_ne!(mainnet.gas_schedule, testnet.gas_schedule);
}

#[test]
fn test_config_builder() {
    let config = GenesisConfig::new(42)
        .with_allocation(Address::from_hex(&"0".repeat(64)).unwrap(), 1000)
        .with_validator(Address::from_hex(&"1".repeat(64)).unwrap());

    assert_eq!(config.chain_id, 42);
    assert_eq!(config.allocations.len(), 1);
    assert_eq!(config.validators.len(), 1);
}

#[test]
fn test_genesis_state_applies_allocations_and_validators() {
    let config = GenesisConfig::for_network(Network::Devnet);
    let allocation = config.allocations[0];
    let validator = config.validators[0];

    let state = config.build_state();

    assert_eq!(state.get_balance(&allocation.0), allocation.1);
    assert_eq!(state.base_fee, config.base_fee);
    assert_eq!(state.tokenomics.block_reward, config.block_reward);
    assert_eq!(
        state.get_validator(&validator).map(|v| v.stake),
        Some(Network::Devnet.min_stake())
    );
}

#[test]
fn test_genesis_block_commits_initial_state() {
    let config = GenesisConfig::for_network(Network::Devnet);
    let state = config.build_state();
    let block = config.build_genesis_block();

    assert_eq!(block.state_root, state.calculate_state_root());
    assert_ne!(block.state_root, "0".repeat(64));
    assert_ne!(block.validator_set_hash, "0".repeat(64));
    assert_eq!(block.hash, block.calculate_hash());
}

#[test]
fn genesis_hash_depends_on_config() {
    let a = devnet_genesis().build_genesis_block();
    let b = GenesisConfig::for_network(Network::Testnet).build_genesis_block();
    assert_ne!(a.hash, b.hash);
    assert_eq!(a.previous_hash, "0".repeat(64));
    assert_eq!(a.index, 0);
    assert_eq!(a.transactions.len(), 1);
    assert_eq!(a.tx_root, a.calculate_tx_root());
}

#[test]
fn bud_tokenomics_genesis_mints_the_distribution() {
    let config = GenesisConfig::new(1337).with_bud_tokenomics();
    let state = config.build_state();
    assert_eq!(state.circulating_supply(), BUD_TOTAL_SUPPLY as u128);
    let addrs = TokenomicsAddresses::reserved();
    let p = TokenomicsParams::default();
    assert_eq!(state.get_balance(&addrs.team), p.team);
    assert_eq!(state.burn_reserve_address, Some(addrs.burn_reserve));
    let (team, schedule) = state.team_vesting.unwrap();
    assert_eq!(team, addrs.team);
    assert_eq!(schedule, p.team_vesting(0));
    assert_eq!(state.spendable_balance(&addrs.team), 0);
}

#[test]
fn unknown_chain_validators_get_unit_stake() {
    let v = Address::from([9u8; 32]);
    let state = GenesisConfig::new(7).with_validator(v).build_state();
    assert_eq!(state.get_validator(&v).unwrap().stake, 1);
    assert!(state.get_validator(&v).unwrap().active);
}
