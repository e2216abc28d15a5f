//! Network presets: chain ids, ports, consensus, mempool and security parameters.
use vstd::prelude::*;

verus! {

pub const PROTOCOL_VERSION: u32 = 1;

pub const EPOCH_LEN: u64 = 100;

pub const SLOT_MS: u64 = 1000;

pub const FINALITY_CHECKPOINT_INTERVAL: u64 = 10;

pub const FINALITY_QUORUM_NUMERATOR: u64 = 2;

pub const FINALITY_QUORUM_DENOMINATOR: u64 = 3;

/// Fixed-point scale for ratios: `FIXED_POINT_SCALE` stands for 1.0.
pub const FIXED_POINT_SCALE: u64 = 1_000_000;

pub const VRF_BASE_PROB: u64 = 1_000_000;

pub const QC_BLOB_TTL_EPOCHS: u64 = 10;

pub const MAX_QC_BLOB_BYTES: usize = 1_048_576;

pub const MAX_VOTES_PER_MSG: usize = 128;

#[derive(Debug, Clone, Copy, PartialEq, Eq, Hash, Structural)]
pub enum Network {
    Mainnet,
    Testnet,
    Devnet,
}

#[derive(Debug, Clone, Copy, PartialEq, Eq, Hash, Structural)]
pub struct ChainId(pub u64);

#[derive(Debug, Clone, Copy, PartialEq, Eq, Structural)]
pub struct ConsensusParams {
    pub epoch_len: u64,
    pub min_stake: u64,
    pub slot_ms: u64,
    pub finality_checkpoint_interval: u64,
    pub finality_quorum_numerator: u64,
    pub finality_quorum_denominator: u64,
    pub max_votes_per_msg: usize,
}

#[derive(Debug, Clone, Copy, PartialEq, Eq, Structural)]
pub struct SecurityConfig {
    pub max_peers: usize,
    pub peer_rate_limit_per_minute: u64,
    pub rpc_rate_limit_per_minute: u64,
    pub rpc_auth_required: bool,
    pub persist_banned_peers: bool,
    pub mdns_enabled: bool,
}

/// Transaction-pool limits of a network.
#[derive(Debug, Clone, Copy, PartialEq, Eq, Structural)]
pub struct MempoolConfig {
    pub max_size: usize,
    pub max_per_sender: usize,
    pub min_fee: u64,
    pub tx_ttl_secs: u64,
    pub rbf_bump_percent: u64,
}

impl MempoolConfig {
    /// The permissive development-network pool.
    pub fn devnet() -> (c: Self)
        ensures
            c == spec_devnet_mempool(),
    {
        MempoolConfig {
            max_size: 10_000,
            max_per_sender: 100,
            min_fee: 1,
            tx_ttl_secs: 3_600,
            rbf_bump_percent: 10,
        }
    }
}

pub open spec fn spec_devnet_mempool() -> MempoolConfig {
    MempoolConfig {
        max_size: 10_000,
        max_per_sender: 100,
        min_fee: 1,
        tx_ttl_secs: 3_600,
        rbf_bump_percent: 10,
    }
}

impl Default for MempoolConfig {
    fn default() -> (c: Self)
        ensures
            c == spec_devnet_mempool(),
    {
        Self::devnet()
    }
}

/// Gas prices charged by a network.
#[derive(Debug, Clone, Copy, PartialEq, Eq, Structural)]
pub struct GasSchedule {
    pub base_fee: u64,
}

pub open spec fn spec_chain_id(n: Network) -> u64 {
    match n {
        Network::Mainnet => 1,
        Network::Testnet => 42,
        Network::Devnet => 1337,
    }
}

pub open spec fn spec_consensus_params(n: Network) -> ConsensusParams {
    match n {
        Network::Mainnet => ConsensusParams {
            epoch_len: 100,
            min_stake: 1_000_000,
            slot_ms: 6_000,
            finality_checkpoint_interval: 10,
            finality_quorum_numerator: 2,
            finality_quorum_denominator: 3,
            max_votes_per_msg: 128,
        },
        Network::Testnet => ConsensusParams {
            epoch_len: 50,
            min_stake: 10_000,
            slot_ms: 3_000,
            finality_checkpoint_interval: 5,
            finality_quorum_numerator: 2,
            finality_quorum_denominator: 3,
            max_votes_per_msg: 128,
        },
        Network::Devnet => ConsensusParams {
            epoch_len: 10,
            min_stake: 1_000,
            slot_ms: 1_000,
            finality_checkpoint_interval: 2,
            finality_quorum_numerator: 1,
            finality_quorum_denominator: 2,
            max_votes_per_msg: 64,
        },
    }
}

pub open spec fn spec_from_chain_id(chain_id: u64) -> Option<Network> {
    if chain_id == 1 {
        Some(Network::Mainnet)
    } else if chain_id == 42 {
        Some(Network::Testnet)
    } else if chain_id == 1337 {
        Some(Network::Devnet)
    } else {
        None
    }
}

pub open spec fn spec_network_name(n: Network) -> Seq<char> {
    match n {
        Network::Mainnet => "mainnet"@,
        Network::Testnet => "testnet"@,
        Network::Devnet => "devnet"@,
    }
}

pub open spec fn spec_gas_schedule(n: Network) -> GasSchedule {
    match n {
        Network::Mainnet => GasSchedule { base_fee: 10 },
        Network::Testnet => GasSchedule { base_fee: 1 },
        Network::Devnet => GasSchedule { base_fee: 1 },
    }
}

impl Network {
    pub fn chain_id(&self) -> (c: ChainId)
        ensures
            c.0 == spec_chain_id(*self),
    {
        match self {
            Network::Mainnet => ChainId(1),
            Network::Testnet => ChainId(42),
            Network::Devnet => ChainId(1337),
        }
    }

    pub fn default_port(&self) -> (p: u16)
        ensures
            p == match *self {
                Network::Mainnet => 4001u16,
                Network::Testnet => 5001u16,
                Network::Devnet => 6001u16,
            },
    {
        match self {
            Network::Mainnet => 4001,
            Network::Testnet => 5001,
            Network::Devnet => 6001,
        }
    }

    pub fn name(&self) -> (s: &'static str)
        ensures
            s@ == spec_network_name(*self),
    {
        match self {
            Network::Mainnet => "mainnet",
            Network::Testnet => "testnet",
            Network::Devnet => "devnet",
        }
    }

    /// Built-in bootstrap peers. The built-in lists are empty on every
    /// network; operators supply peers by configuration.
    pub fn bootnodes(&self) -> (v: Vec<String>)
        ensures
            v@.len() == 0,
    {
        match self {
            Network::Mainnet => Vec::new(),
            Network::Testnet => Vec::new(),
            Network::Devnet => Vec::new(),
        }
    }

    /// Fallback bootstrap peers (empty on every network).
    pub fn fallback_bootnodes(&self) -> (v: Vec<String>)
        ensures
            v@.len() == 0,
    {
        match self {
            Network::Mainnet => Vec::new(),
            Network::Testnet => Vec::new(),
            Network::Devnet => Vec::new(),
        }
    }

    /// DNS seeds (empty on every network).
    pub fn dns_seeds(&self) -> (v: Vec<String>)
        ensures
            v@.len() == 0,
    {
        match self {
            Network::Mainnet => Vec::new(),
            Network::Testnet => Vec::new(),
            Network::Devnet => Vec::new(),
        }
    }

    pub fn from_chain_id(chain_id: u64) -> (n: Option<Network>)
        ensures
            n == spec_from_chain_id(chain_id),
    {
        if chain_id == 1 {
            Some(Network::Mainnet)
        } else if chain_id == 42 {
            Some(Network::Testnet)
        } else if chain_id == 1337 {
            Some(Network::Devnet)
        } else {
            None
        }
    }

    pub fn epoch_len(&self) -> (r: u64)
        ensures
            r == spec_consensus_params(*self).epoch_len,
    {
        self.consensus_params().epoch_len
    }

    pub fn min_stake(&self) -> (r: u64)
        ensures
            r == spec_consensus_params(*self).min_stake,
    {
        self.consensus_params().min_stake
    }

    pub fn finality_quorum(&self) -> (r: (u64, u64))
        ensures
            r == (
                spec_consensus_params(*self).finality_quorum_numerator,
                spec_consensus_params(*self).finality_quorum_denominator,
            ),
    {
        let params = self.consensus_params();
        (params.finality_quorum_numerator, params.finality_quorum_denominator)
    }

    pub fn slot_ms(&self) -> (r: u64)
        ensures
            r == spec_consensus_params(*self).slot_ms,
    {
        self.consensus_params().slot_ms
    }

    pub fn consensus_params(&self) -> (p: ConsensusParams)
        ensures
            p == spec_consensus_params(*self),
    {
        match self {
            Network::Mainnet => ConsensusParams {
                epoch_len: 100,
                min_stake: 1_000_000,
                slot_ms: 6_000,
                finality_checkpoint_interval: 10,
                finality_quorum_numerator: 2,
                finality_quorum_denominator: 3,
                max_votes_per_msg: 128,
            },
            Network::Testnet => ConsensusParams {
                epoch_len: 50,
                min_stake: 10_000,
                slot_ms: 3_000,
                finality_checkpoint_interval: 5,
                finality_quorum_numerator: 2,
                finality_quorum_denominator: 3,
                max_votes_per_msg: 128,
            },
            Network::Devnet => ConsensusParams {
                epoch_len: 10,
                min_stake: 1_000,
                slot_ms: 1_000,
                finality_checkpoint_interval: 2,
                finality_quorum_numerator: 1,
                finality_quorum_denominator: 2,
                max_votes_per_msg: 64,
            },
        }
    }

    pub fn mempool_config(&self) -> (c: MempoolConfig)
        ensures
            c == match *self {
                Network::Mainnet => MempoolConfig {
                    max_size: 100_000,
                    max_per_sender: 100,
                    min_fee: 10,
                    tx_ttl_secs: 1_800,
                    rbf_bump_percent: 15,
                },
                Network::Testnet => MempoolConfig {
                    max_size: 50_000,
                    max_per_sender: 200,
                    min_fee: 1,
                    tx_ttl_secs: 3_600,
                    rbf_bump_percent: 10,
                },
                Network::Devnet => spec_devnet_mempool(),
            },
    {
        match self {
            Network::Mainnet => MempoolConfig {
                max_size: 100_000,
                max_per_sender: 100,
                min_fee: 10,
                tx_ttl_secs: 1_800,
                rbf_bump_percent: 15,
            },
            Network::Testnet => MempoolConfig {
                max_size: 50_000,
                max_per_sender: 200,
                min_fee: 1,
                tx_ttl_secs: 3_600,
                rbf_bump_percent: 10,
            },
            Network::Devnet => MempoolConfig::devnet(),
        }
    }

    pub fn security_config(&self) -> (c: SecurityConfig)
        ensures
            c == match *self {
                Network::Mainnet => SecurityConfig {
                    max_peers: 100,
                    peer_rate_limit_per_minute: 120,
                    rpc_rate_limit_per_minute: 300,
                    rpc_auth_required: true,
                    persist_banned_peers: true,
                    mdns_enabled: false,
                },
                Network::Testnet => SecurityConfig {
                    max_peers: 75,
                    peer_rate_limit_per_minute: 240,
                    rpc_rate_limit_per_minute: 600,
                    rpc_auth_required: true,
                    persist_banned_peers: true,
                    mdns_enabled: false,
                },
                Network::Devnet => SecurityConfig {
                    max_peers: 25,
                    peer_rate_limit_per_minute: 1_000,
                    rpc_rate_limit_per_minute: 10_000,
                    rpc_auth_required: false,
                    persist_banned_peers: false,
                    mdns_enabled: true,
                },
            },
    {
        match self {
            Network::Mainnet => SecurityConfig {
                max_peers: 100,
                peer_rate_limit_per_minute: 120,
                rpc_rate_limit_per_minute: 300,
                rpc_auth_required: true,
                persist_banned_peers: true,
                mdns_enabled: false,
            },
            Network::Testnet => SecurityConfig {
                max_peers: 75,
                peer_rate_limit_per_minute: 240,
                rpc_rate_limit_per_minute: 600,
                rpc_auth_required: true,
                persist_banned_peers: true,
                mdns_enabled: false,
            },
            Network::Devnet => SecurityConfig {
                max_peers: 25,
                peer_rate_limit_per_minute: 1_000,
                rpc_rate_limit_per_minute: 10_000,
                rpc_auth_required: false,
                persist_banned_peers: false,
                mdns_enabled: true,
            },
        }
    }

    /// Four-byte network magic prefixed to wire messages.
    pub fn magic_bytes(&self) -> (m: [u8; 4])
        ensures
            m@ == match *self {
                Network::Mainnet => seq![0x42u8, 0x44u8, 0x4cu8, 0x4du8],
                Network::Testnet => seq![0x42u8, 0x44u8, 0x4cu8, 0x54u8],
                Network::Devnet => seq![0x42u8, 0x44u8, 0x4cu8, 0x44u8],
            },
    {
        let m: [u8; 4] = match self {
            Network::Mainnet => [0x42, 0x44, 0x4c, 0x4d],
            Network::Testnet => [0x42, 0x44, 0x4c, 0x54],
            Network::Devnet => [0x42, 0x44, 0x4c, 0x44],
        };
        assert(m@ =~= match *self {
            Network::Mainnet => seq![0x42u8, 0x44u8, 0x4cu8, 0x4du8],
            Network::Testnet => seq![0x42u8, 0x44u8, 0x4cu8, 0x54u8],
            Network::Devnet => seq![0x42u8, 0x44u8, 0x4cu8, 0x44u8],
        });
        m
    }

    /// Gas prices of the network.
    pub fn gas_schedule(&self) -> (g: GasSchedule)
        ensures
            g == spec_gas_schedule(*self),
    {
        match self {
            Network::Mainnet => GasSchedule { base_fee: 10 },
            Network::Testnet => GasSchedule { base_fee: 1 },
            Network::Devnet => GasSchedule { base_fee: 1 },
        }
    }

    /// The network's display name as an owned string.
    pub fn to_display_string(&self) -> (s: String)
        ensures
            s@ == spec_network_name(*self),
    {
        self.name().to_owned()
    }
}

impl Default for Network {
    fn default() -> (n: Self)
        ensures
            n == Network::Devnet,
    {
        Network::Devnet
    }
}

impl ChainId {
    pub fn new(value: u64) -> (c: Self)
        ensures
            c.0 == value,
    {
        ChainId(value)
    }

    pub fn value(&self) -> (v: u64)
        ensures
            v == self.0,
    {
        self.0
    }
}

impl Default for ChainId {
    fn default() -> (c: Self)
        ensures
            c.0 == 1337,
    {
        Network::Devnet.chain_id()
    }
}

/// Every network's chain id maps back to that network, and only known chain
/// ids map to a network.
pub proof fn law_chain_id_roundtrip(n: Network, chain_id: u64)
    ensures
        spec_from_chain_id(spec_chain_id(n)) == Some(n),
        spec_from_chain_id(chain_id) matches Some(m) ==> spec_chain_id(m) == chain_id,
{
}

/// Every preset requires a strict two-thirds-or-less quorum with a nonzero
/// denominator, and a nonzero epoch length and stake floor.
pub proof fn law_consensus_params_sane(n: Network)
    ensures
        spec_consensus_params(n).finality_quorum_denominator > 0,
        spec_consensus_params(n).finality_quorum_numerator < spec_consensus_params(
            n,
        ).finality_quorum_denominator,
        spec_consensus_params(n).epoch_len > 0,
        spec_consensus_params(n).min_stake > 0,
{
}

} // verus!
