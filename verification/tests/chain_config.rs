use budlum_core::core_types::chain_config::{ChainId, Network};

#[test]
fn test_network_configs() {
    assert_eq!(Network::Mainnet.chain_id().value(), 1);
    assert_eq!(Network::Testnet.chain_id().value(), 42);
    assert_eq!(Network::Devnet.chain_id().value(), 1337);
    assert_eq!(Network::Mainnet.default_port(), 4001);
}

#[test]
fn chain_id_round_trips_through_network() {
    for n in [Network::Mainnet, Network::Testnet, Network::Devnet] {
        assert_eq!(Network::from_chain_id(n.chain_id().value()), Some(n));
    }
    assert_eq!(Network::from_chain_id(7), None);
    assert_eq!(ChainId::new(9).value(), 9);
}

#[test]
fn consensus_params_match_accessors() {
    for n in [Network::Mainnet, Network::Testnet, Network::Devnet] {
        let p = n.consensus_params();
        assert_eq!(p.epoch_len, n.epoch_len());
        assert_eq!(p.min_stake, n.min_stake());
        assert_eq!(p.slot_ms, n.slot_ms());
        let (num, den) = n.finality_quorum();
        assert!(num < den && den > 0);
    }
}

#[test]
fn magic_bytes_are_distinct() {
    assert_ne!(Network::Mainnet.magic_bytes(), Network::Testnet.magic_bytes());
    assert_ne!(Network::Testnet.magic_bytes(), Network::Devnet.magic_bytes());
    assert_eq!(Network::Devnet.name(), "devnet");
}
