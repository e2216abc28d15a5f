//! Genesis: the initial ledger and block of a chain.
use vstd::prelude::*;
use vstd::string::StringSliceAdditionalSpecFns;
use vstd::utf8::encode_utf8;
use crate::core_types::account::{AccountState, Account, Validator, credited, fresh_validator};
use crate::core_types::addr_map::sorted_entries;
use crate::core_types::address::Address;
use crate::core_types::block::{Block, spec_block_hash, spec_tx_root, zero_hash_text};
use crate::core_types::chain_config::{GasSchedule, Network, spec_chain_id, spec_consensus_params, spec_from_chain_id, spec_gas_schedule};
use crate::core_types::hash::{hash_fields_bytes, spec_hash_fields, field_views, le_bytes, str_bytes, u64_le_bytes};
use crate::core_types::hex::{hex_encode, spec_hex_encode};
use crate::core_types::merkle::{merkle_root, merkle_root_of, leaf_views};
use crate::core_types::transaction::{Transaction, DEFAULT_CHAIN_ID};
use crate::core_types::account::spec_state_root;
use crate::tokenomics::{TokenomicsAddresses, TokenomicsParams, VestingSchedule, genesis_allocations, reserved_address_bytes, spec_default_tokenomics};

verus! {

pub const BLOCK_REWARD: u64 = 50;

pub const BASE_FEE: u64 = 1;

pub const GENESIS_ALLOCATION: u64 = 1_000_000_000;

pub const GENESIS_TIMESTAMP: u128 = 0;

#[derive(Debug, Clone)]
pub struct GenesisConfig {
    pub chain_id: u64,
    pub allocations: Vec<(Address, u64)>,
    pub validators: Vec<Address>,
    pub block_reward: u64,
    pub base_fee: u64,
    pub gas_schedule: GasSchedule,
    pub timestamp: u128,
    pub bud_tokenomics: Option<TokenomicsParams>,
}

/// Allocations as (address bytes, amount).
pub open spec fn alloc_views(s: Seq<(Address, u64)>) -> Seq<(Seq<u8>, u64)> {
    s.map_values(|e: (Address, u64)| (e.0.0@, e.1))
}

/// Credit each allocation in turn.
pub open spec fn credit_all(m: Map<Seq<u8>, Account>, allocs: Seq<(Seq<u8>, u64)>) -> Map<Seq<u8>, Account>
    decreases allocs.len(),
{
    if allocs.len() == 0 {
        m
    } else {
        credited(credit_all(m, allocs.drop_last()), allocs.last().0, allocs.last().1)
    }
}

/// Register each validator in turn with `stake`.
pub open spec fn register_all(m: Map<Seq<u8>, Validator>, vals: Seq<Address>, stake: u64) -> Map<Seq<u8>, Validator>
    decreases vals.len(),
{
    if vals.len() == 0 {
        m
    } else {
        register_all(m, vals.drop_last(), stake).insert(vals.last().0@, fresh_validator(stake))
    }
}

/// The $BUD distribution to the reserved allocation accounts.
pub open spec fn tokenomics_alloc_views(p: TokenomicsParams) -> Seq<(Seq<u8>, u64)> {
    seq![
        (reserved_address_bytes(1), p.community),
        (reserved_address_bytes(2), p.liquidity),
        (reserved_address_bytes(3), p.ecosystem),
        (reserved_address_bytes(4), p.team),
        (reserved_address_bytes(5), p.burn_reserve),
    ]
}

/// Stake given to each genesis validator: the network's minimum stake, or 1
/// on an unknown chain.
pub open spec fn spec_validator_stake(chain_id: u64) -> u64 {
    match spec_from_chain_id(chain_id) {
        Some(n) => spec_consensus_params(n).min_stake,
        None => 1,
    }
}

pub open spec fn genesis_accounts(c: GenesisConfig) -> Map<Seq<u8>, Account> {
    let base = credit_all(Map::empty(), alloc_views(c.allocations@));
    match c.bud_tokenomics {
        Some(p) => credit_all(base, tokenomics_alloc_views(p)),
        None => base,
    }
}

pub open spec fn genesis_validators(c: GenesisConfig) -> Map<Seq<u8>, Validator> {
    register_all(Map::empty(), c.validators@, spec_validator_stake(c.chain_id))
}

pub open spec fn genesis_tokenomics(c: GenesisConfig) -> TokenomicsParams {
    match c.bud_tokenomics {
        Some(p) => p,
        None => TokenomicsParams { block_reward: c.block_reward, ..spec_default_tokenomics() },
    }
}

/// The commitment leaf of a genesis validator.
pub open spec fn validator_set_leaf(a: Seq<u8>, stake: u64) -> Seq<u8> {
    spec_hash_fields(seq![str_bytes("BDLM_VALIDATOR_SET_V1"), a, le_bytes(stake as nat, 8)])
}

/// Hex Merkle root over the genesis validators, each with its stake.
pub open spec fn spec_validator_set_hash(c: GenesisConfig) -> Seq<char> {
    let stake = spec_validator_stake(c.chain_id);
    spec_hex_encode(merkle_root(c.validators@.map_values(|a: Address| validator_set_leaf(a.0@, stake))))
}

/// The ledger `build_state` produces for `c`.
pub open spec fn is_genesis_state(c: GenesisConfig, s: AccountState) -> bool {
    &&& s.wf()
    &&& s.accounts@ == genesis_accounts(c)
    &&& s.validators@ == genesis_validators(c)
    &&& s.base_fee == c.base_fee
    &&& s.tokenomics == genesis_tokenomics(c)
    &&& s.epoch_index == 0
    &&& s.unbonding_queue@.len() == 0
    &&& s.governance.proposals@.len() == 0
    &&& s.governance.ballots@.len() == 0
    &&& match c.bud_tokenomics {
        Some(p) => (s.burn_reserve_address matches Some(b) && b.0@ == reserved_address_bytes(5)) && (
        s.team_vesting matches Some((t, v)) && t.0@ == reserved_address_bytes(4) && v == p.team_vesting_schedule(0)),
        None => s.burn_reserve_address is None && s.team_vesting is None,
    }
}

/// The genesis system transaction.
pub open spec fn is_genesis_tx(t: Transaction) -> bool {
    &&& t.from.0@ == Seq::new(32, |i: int| 0u8)
    &&& t.to.0@ == Seq::new(32, |i: int| 0u8)
    &&& t.amount == 0
    &&& t.fee == 0
    &&& t.nonce == 0
    &&& t.data@.len() == 0
    &&& t.tx_type == crate::core_types::transaction::TransactionType::Transfer
    &&& t.chain_id == DEFAULT_CHAIN_ID
    &&& t.timestamp == 0
    &&& t.signature is None
}

/// The block `build_genesis_block` produces for `c`: height 0 on the zero
/// hash, the genesis transaction only, committing to the genesis state and
/// validator set, with its hash computed.
pub open spec fn is_genesis_block(c: GenesisConfig, b: Block) -> bool {
    &&& b.index == 0
    &&& b.timestamp == c.timestamp
    &&& b.previous_hash@ == zero_hash_text()
    &&& b.transactions@.len() == 1
    &&& is_genesis_tx(b.transactions@[0])
    &&& b.nonce == 0
    &&& b.producer is None
    &&& b.signature is None
    &&& b.chain_id == c.chain_id
    &&& b.slashing_evidence is None
    &&& b.state_root@ == spec_state_root(sorted_entries(genesis_accounts(c)), sorted_entries(genesis_validators(c)))
    &&& b.tx_root@ == spec_tx_root(b.transactions@)
    &&& b.epoch == 0
    &&& b.slot == 0
    &&& b.vrf_output@.len() == 0
    &&& b.vrf_proof@.len() == 0
    &&& b.validator_set_hash@ == spec_validator_set_hash(c)
    &&& b.hash@ == spec_block_hash(b)
}

pub open spec fn spec_default_genesis() -> (u64, u64, u64, GasSchedule, u128) {
    (DEFAULT_CHAIN_ID, BLOCK_REWARD, BASE_FEE, spec_gas_schedule(Network::Devnet), GENESIS_TIMESTAMP)
}

impl TokenomicsParams {
    pub open spec fn team_vesting_schedule(&self, genesis_epoch: u64) -> VestingSchedule {
        VestingSchedule {
            total: self.team,
            start_epoch: genesis_epoch,
            cliff_epochs: self.team_cliff_epochs,
            duration_epochs: self.team_vesting_epochs,
        }
    }
}

pub(crate) fn zero_hash() -> (s: String)
    ensures
        s@ == zero_hash_text(),
{
    let mut s: String = String::new();
    let mut i: usize = 0;
    while i < 64
        invariant
            0 <= i <= 64,
            s@ == Seq::new(i as nat, |j: int| '0'),
        decreases 64 - i,
    {
        proof {
            reveal_strlit("0");
        }
        s.append("0");
        i = i + 1;
        assert(s@ =~= Seq::new(i as nat, |j: int| '0'));
    }
    s
}

fn address(byte: u8) -> (a: Address)
    ensures
        a.0@ == Seq::new(32, |i: int| byte),
{
    let a = Address([byte; 32]);
    assert(a.0@ =~= Seq::new(32, |i: int| byte));
    a
}

impl Default for GenesisConfig {
    fn default() -> (c: Self)
        ensures
            (c.chain_id, c.block_reward, c.base_fee, c.gas_schedule, c.timestamp) == spec_default_genesis(),
            c.allocations@.len() == 0,
            c.validators@.len() == 0,
            c.bud_tokenomics is None,
    {
        GenesisConfig {
            chain_id: DEFAULT_CHAIN_ID,
            allocations: Vec::new(),
            validators: Vec::new(),
            block_reward: BLOCK_REWARD,
            base_fee: BASE_FEE,
            gas_schedule: Network::Devnet.gas_schedule(),
            timestamp: GENESIS_TIMESTAMP,
            bud_tokenomics: None,
        }
    }
}

impl GenesisConfig {
    /// The default configuration on chain `chain_id`.
    pub fn new(chain_id: u64) -> (c: Self)
        ensures
            c.chain_id == chain_id,
            (c.block_reward, c.base_fee, c.gas_schedule, c.timestamp) == (
                BLOCK_REWARD,
                BASE_FEE,
                spec_gas_schedule(Network::Devnet),
                GENESIS_TIMESTAMP,
            ),
            c.allocations@.len() == 0,
            c.validators@.len() == 0,
            c.bud_tokenomics is None,
    {
        GenesisConfig { chain_id, ..Default::default() }
    }

    /// The preset genesis of a network.
    pub fn for_network(network: Network) -> (c: Self)
        ensures
            c.chain_id == spec_chain_id(network),
            c.gas_schedule == spec_gas_schedule(network),
            c.base_fee == spec_gas_schedule(network).base_fee,
            c.block_reward == (match network {
                Network::Mainnet => 25u64,
                Network::Testnet => 50u64,
                Network::Devnet => BLOCK_REWARD,
            }),
            c.validators@.len() == (match network {
                Network::Mainnet => 4nat,
                Network::Testnet => 3nat,
                Network::Devnet => 1nat,
            }),
            c.bud_tokenomics is None,
            is_preset_genesis(network, c),
    {
        match network {
            Network::Mainnet => mainnet_genesis(),
            Network::Testnet => testnet_genesis(),
            Network::Devnet => devnet_genesis(),
        }
    }

    pub fn with_allocation(self, address: Address, amount: u64) -> (c: Self)
        ensures
            c.allocations@ == self.allocations@.push((address, amount)),
            c.validators@ == self.validators@,
            c.chain_id == self.chain_id,
            c.block_reward == self.block_reward,
            c.base_fee == self.base_fee,
            c.gas_schedule == self.gas_schedule,
            c.timestamp == self.timestamp,
            c.bud_tokenomics == self.bud_tokenomics,
    {
        let mut c = self;
        c.allocations.push((address, amount));
        c
    }

    pub fn with_bud_tokenomics(self) -> (c: Self)
        ensures
            c.bud_tokenomics == Some(spec_default_tokenomics()),
            c.allocations@ == self.allocations@,
            c.validators@ == self.validators@,
            c.chain_id == self.chain_id,
            c.block_reward == self.block_reward,
            c.base_fee == self.base_fee,
            c.gas_schedule == self.gas_schedule,
            c.timestamp == self.timestamp,
    {
        let mut c = self;
        c.bud_tokenomics = Some(TokenomicsParams::defaults());
        c
    }

    pub fn with_bud_tokenomics_params(self, params: TokenomicsParams) -> (c: Self)
        ensures
            c.bud_tokenomics == Some(params),
            c.allocations@ == self.allocations@,
            c.validators@ == self.validators@,
            c.chain_id == self.chain_id,
            c.block_reward == self.block_reward,
            c.base_fee == self.base_fee,
            c.gas_schedule == self.gas_schedule,
            c.timestamp == self.timestamp,
    {
        let mut c = self;
        c.bud_tokenomics = Some(params);
        c
    }

    pub fn with_validator(self, address: Address) -> (c: Self)
        ensures
            c.validators@ == self.validators@.push(address),
            c.allocations@ == self.allocations@,
            c.chain_id == self.chain_id,
            c.block_reward == self.block_reward,
            c.base_fee == self.base_fee,
            c.gas_schedule == self.gas_schedule,
            c.timestamp == self.timestamp,
            c.bud_tokenomics == self.bud_tokenomics,
    {
        let mut c = self;
        c.validators.push(address);
        c
    }

    fn validator_stake(&self) -> (s: u64)
        ensures
            s == spec_validator_stake(self.chain_id),
    {
        match Network::from_chain_id(self.chain_id) {
            Some(network) => network.min_stake(),
            None => 1,
        }
    }

    /// The initial ledger: allocations credited, validators registered with
    /// the network's minimum stake, and, if $BUD tokenomics is enabled, the
    /// tokenomics distribution, parameters, burn reserve and team vesting.
    pub fn build_state(&self) -> (s: AccountState)
        ensures
            is_genesis_state(*self, s),
    {
        let mut state = AccountState::new();
        state.base_fee = self.base_fee;
        state.tokenomics.block_reward = self.block_reward;
        let ghost allocs = alloc_views(self.allocations@);
        let n: usize = self.allocations.len();
        let mut i: usize = 0;
        assert(allocs.subrange(0, 0) =~= Seq::<(Seq<u8>, u64)>::empty());
        while i < n
            invariant
                0 <= i <= n,
                n == self.allocations@.len(),
                allocs == alloc_views(self.allocations@),
                state.wf(),
                state.accounts@ == credit_all(Map::empty(), allocs.subrange(0, i as int)),
                state.validators@ == Map::<Seq<u8>, Validator>::empty(),
                state.base_fee == self.base_fee,
                state.tokenomics == (TokenomicsParams { block_reward: self.block_reward, ..spec_default_tokenomics() }),
                state.epoch_index == 0,
                state.unbonding_queue@.len() == 0,
                state.governance.proposals@.len() == 0,
                state.governance.ballots@.len() == 0,
                state.burn_reserve_address is None,
                state.team_vesting is None,
            decreases n - i,
        {
            let (address, amount) = self.allocations[i];
            state.add_balance(&address, amount);
            proof {
                assert(allocs.subrange(0, i + 1).drop_last() =~= allocs.subrange(0, i as int));
                assert(allocs.subrange(0, i + 1).last() == (address.0@, amount));
            }
            i = i + 1;
        }
        assert(allocs.subrange(0, n as int) =~= allocs);
        let stake: u64 = self.validator_stake();
        let m: usize = self.validators.len();
        let mut j: usize = 0;
        assert(self.validators@.subrange(0, 0) =~= Seq::<Address>::empty());
        while j < m
            invariant
                0 <= j <= m,
                m == self.validators@.len(),
                stake == spec_validator_stake(self.chain_id),
                state.wf(),
                state.accounts@ == credit_all(Map::empty(), alloc_views(self.allocations@)),
                state.validators@ == register_all(Map::empty(), self.validators@.subrange(0, j as int), stake),
                state.base_fee == self.base_fee,
                state.tokenomics == (TokenomicsParams { block_reward: self.block_reward, ..spec_default_tokenomics() }),
                state.epoch_index == 0,
                state.unbonding_queue@.len() == 0,
                state.governance.proposals@.len() == 0,
                state.governance.ballots@.len() == 0,
                state.burn_reserve_address is None,
                state.team_vesting is None,
            decreases m - j,
        {
            let v: Address = self.validators[j];
            state.add_validator(v, stake);
            proof {
                assert(self.validators@.subrange(0, j + 1).drop_last() =~= self.validators@.subrange(0, j as int));
                assert(self.validators@.subrange(0, j + 1).last() == v);
            }
            j = j + 1;
        }
        assert(self.validators@.subrange(0, m as int) =~= self.validators@);
        match &self.bud_tokenomics {
            Some(params) => {
                let addrs = TokenomicsAddresses::reserved();
                let allocations = genesis_allocations(params, &addrs);
                let ghost base = state.accounts@;
                let ghost tv = tokenomics_alloc_views(*params);
                let mut k: usize = 0;
                assert(tv.subrange(0, 0) =~= Seq::<(Seq<u8>, u64)>::empty());
                while k < allocations.len()
                    invariant
                        0 <= k <= allocations@.len(),
                        allocations@.len() == 5,
                        tv == tokenomics_alloc_views(*params),
                        forall|x: int| 0 <= x < 5 ==> (#[trigger] allocations@[x]).0.0@ == tv[x].0 && allocations@[x].1 == tv[x].1,
                        state.wf(),
                        state.accounts@ == credit_all(base, tv.subrange(0, k as int)),
                        state.validators@ == genesis_validators(*self),
                        state.base_fee == self.base_fee,
                        state.epoch_index == 0,
                        state.unbonding_queue@.len() == 0,
                        state.governance.proposals@.len() == 0,
                        state.governance.ballots@.len() == 0,
                    decreases allocations@.len() - k,
                {
                    let (address, amount) = allocations[k];
                    state.add_balance(&address, amount);
                    proof {
                        assert(tv.subrange(0, k + 1).drop_last() =~= tv.subrange(0, k as int));
                        assert(tv.subrange(0, k + 1).last() == (address.0@, amount));
                    }
                    k = k + 1;
                }
                assert(tv.subrange(0, 5) =~= tv);
                state.tokenomics = *params;
                state.burn_reserve_address = Some(addrs.burn_reserve);
                state.team_vesting = Some((addrs.team, params.team_vesting(0)));
            },
            None => {},
        }
        state
    }

    fn validator_set_hash(&self) -> (h: String)
        ensures
            h@ == spec_validator_set_hash(*self),
    {
        let stake: u64 = self.validator_stake();
        let stake_bytes = u64_le_bytes(stake);
        let mut leaves: Vec<[u8; 32]> = Vec::new();
        let m: usize = self.validators.len();
        let mut j: usize = 0;
        while j < m
            invariant
                0 <= j <= m,
                m == self.validators@.len(),
                stake == spec_validator_stake(self.chain_id),
                stake_bytes@ == le_bytes(stake as nat, 8),
                leaf_views(leaves@) == self.validators@.subrange(0, j as int).map_values(|a: Address| validator_set_leaf(a.0@, stake)),
            decreases m - j,
        {
            let v: Address = self.validators[j];
            let tag: &[u8] = "BDLM_VALIDATOR_SET_V1".as_bytes();
            let fields: [&[u8]; 3] = [tag, v.as_bytes(), stake_bytes.as_slice()];
            let h = hash_fields_bytes(&fields);
            proof {
                assert(field_views(fields@) =~= seq![str_bytes("BDLM_VALIDATOR_SET_V1"), v.0@, le_bytes(stake as nat, 8)]);
            }
            let ghost prev = leaves@;
            leaves.push(h);
            proof {
                assert(leaf_views(leaves@) =~= leaf_views(prev).push(h@));
                assert(self.validators@.subrange(0, j + 1).map_values(|a: Address| validator_set_leaf(a.0@, stake))
                    =~= self.validators@.subrange(0, j as int).map_values(|a: Address| validator_set_leaf(a.0@, stake)).push(validator_set_leaf(v.0@, stake)));
            }
            j = j + 1;
        }
        assert(self.validators@.subrange(0, m as int) =~= self.validators@);
        let root = merkle_root_of(leaves);
        hex_encode(&root)
    }

    /// The genesis block: height 0 on the zero hash, holding the genesis
    /// transaction, committing to the genesis state root and validator set.
    pub fn build_genesis_block(&self) -> (b: Block)
        ensures
            is_genesis_block(*self, b),
    {
        let genesis_tx = Transaction::genesis();
        let genesis_state = self.build_state();
        let mut transactions: Vec<Transaction> = Vec::new();
        transactions.push(genesis_tx);
        let mut block = Block {
            index: 0,
            timestamp: self.timestamp,
            previous_hash: zero_hash(),
            hash: String::new(),
            transactions,
            nonce: 0,
            producer: None,
            signature: None,
            chain_id: self.chain_id,
            slashing_evidence: None,
            state_root: genesis_state.calculate_state_root(),
            tx_root: zero_hash(),
            epoch: 0,
            slot: 0,
            vrf_output: Vec::new(),
            vrf_proof: Vec::new(),
            validator_set_hash: self.validator_set_hash(),
        };
        block.tx_root = block.calculate_tx_root();
        block.hash = block.calculate_hash();
        block
    }
}

/// The preset genesis of each network: chain id, gas schedule, base fee,
/// block reward, timestamp, allocations and validators.
pub open spec fn is_preset_genesis(network: Network, c: GenesisConfig) -> bool {
    match network {
        Network::Mainnet => {
            &&& c.chain_id == spec_chain_id(Network::Mainnet)
            &&& c.gas_schedule == spec_gas_schedule(Network::Mainnet)
            &&& c.base_fee == spec_gas_schedule(Network::Mainnet).base_fee
            &&& c.block_reward == 25
            &&& c.timestamp == 1_735_689_600_000
            &&& alloc_views(c.allocations@) == seq![(Seq::new(32, |i: int| 0x10u8), 500_000_000u64), (Seq::new(32, |i: int| 0x11u8), 500_000_000u64)]
            &&& c.validators@.map_values(|a: Address| a.0@) == seq![
                Seq::new(32, |i: int| 0x20u8),
                Seq::new(32, |i: int| 0x21u8),
                Seq::new(32, |i: int| 0x22u8),
                Seq::new(32, |i: int| 0x23u8),
            ]
            &&& c.validators@.len() == 4
            &&& c.bud_tokenomics is None
        },
        Network::Testnet => {
            &&& c.chain_id == spec_chain_id(Network::Testnet)
            &&& c.gas_schedule == spec_gas_schedule(Network::Testnet)
            &&& c.base_fee == spec_gas_schedule(Network::Testnet).base_fee
            &&& c.block_reward == 50
            &&& c.timestamp == 1_735_689_600_000
            &&& alloc_views(c.allocations@) == seq![(Seq::new(32, |i: int| 0x30u8), 1_000_000_000u64), (Seq::new(32, |i: int| 0x31u8), 1_000_000_000u64)]
            &&& c.validators@.map_values(|a: Address| a.0@) == seq![
                Seq::new(32, |i: int| 0x40u8),
                Seq::new(32, |i: int| 0x41u8),
                Seq::new(32, |i: int| 0x42u8),
            ]
            &&& c.validators@.len() == 3
            &&& c.bud_tokenomics is None
        },
        Network::Devnet => {
            &&& c.chain_id == spec_chain_id(Network::Devnet)
            &&& c.gas_schedule == spec_gas_schedule(Network::Devnet)
            &&& c.base_fee == spec_gas_schedule(Network::Devnet).base_fee
            &&& c.block_reward == BLOCK_REWARD
            &&& c.timestamp == GENESIS_TIMESTAMP
            &&& alloc_views(c.allocations@) == seq![(Seq::new(32, |i: int| 0x01u8), GENESIS_ALLOCATION)]
            &&& c.validators@.map_values(|a: Address| a.0@) == seq![Seq::new(32, |i: int| 0x02u8)]
            &&& c.validators@.len() == 1
            &&& c.bud_tokenomics is None
        },
    }
}

pub fn mainnet_genesis() -> (c: GenesisConfig)
    ensures
        c.chain_id == spec_chain_id(Network::Mainnet),
        c.gas_schedule == spec_gas_schedule(Network::Mainnet),
        c.base_fee == spec_gas_schedule(Network::Mainnet).base_fee,
        c.block_reward == 25,
        c.timestamp == 1_735_689_600_000,
        alloc_views(c.allocations@) == seq![(Seq::new(32, |i: int| 0x10u8), 500_000_000u64), (Seq::new(32, |i: int| 0x11u8), 500_000_000u64)],
        c.validators@.map_values(|a: Address| a.0@) == seq![
            Seq::new(32, |i: int| 0x20u8),
            Seq::new(32, |i: int| 0x21u8),
            Seq::new(32, |i: int| 0x22u8),
            Seq::new(32, |i: int| 0x23u8),
        ],
        c.validators@.len() == 4,
        c.bud_tokenomics is None,
{
    let mut allocations: Vec<(Address, u64)> = Vec::new();
    allocations.push((address(0x10), 500_000_000));
    allocations.push((address(0x11), 500_000_000));
    let mut validators: Vec<Address> = Vec::new();
    validators.push(address(0x20));
    validators.push(address(0x21));
    validators.push(address(0x22));
    validators.push(address(0x23));
    let gas = Network::Mainnet.gas_schedule();
    let c = GenesisConfig {
        chain_id: Network::Mainnet.chain_id().value(),
        allocations,
        validators,
        block_reward: 25,
        base_fee: gas.base_fee,
        gas_schedule: gas,
        timestamp: 1_735_689_600_000,
        bud_tokenomics: None,
    };
    assert(alloc_views(c.allocations@) =~= seq![(Seq::new(32, |i: int| 0x10u8), 500_000_000u64), (Seq::new(32, |i: int| 0x11u8), 500_000_000u64)]);
    assert(c.validators@.map_values(|a: Address| a.0@) =~= seq![
        Seq::new(32, |i: int| 0x20u8),
        Seq::new(32, |i: int| 0x21u8),
        Seq::new(32, |i: int| 0x22u8),
        Seq::new(32, |i: int| 0x23u8),
    ]);
    c
}

pub fn testnet_genesis() -> (c: GenesisConfig)
    ensures
        c.chain_id == spec_chain_id(Network::Testnet),
        c.gas_schedule == spec_gas_schedule(Network::Testnet),
        c.base_fee == spec_gas_schedule(Network::Testnet).base_fee,
        c.block_reward == 50,
        c.timestamp == 1_735_689_600_000,
        alloc_views(c.allocations@) == seq![(Seq::new(32, |i: int| 0x30u8), 1_000_000_000u64), (Seq::new(32, |i: int| 0x31u8), 1_000_000_000u64)],
        c.validators@.map_values(|a: Address| a.0@) == seq![
            Seq::new(32, |i: int| 0x40u8),
            Seq::new(32, |i: int| 0x41u8),
            Seq::new(32, |i: int| 0x42u8),
        ],
        c.validators@.len() == 3,
        c.bud_tokenomics is None,
{
    let mut allocations: Vec<(Address, u64)> = Vec::new();
    allocations.push((address(0x30), 1_000_000_000));
    allocations.push((address(0x31), 1_000_000_000));
    let mut validators: Vec<Address> = Vec::new();
    validators.push(address(0x40));
    validators.push(address(0x41));
    validators.push(address(0x42));
    let gas = Network::Testnet.gas_schedule();
    let c = GenesisConfig {
        chain_id: Network::Testnet.chain_id().value(),
        allocations,
        validators,
        block_reward: 50,
        base_fee: gas.base_fee,
        gas_schedule: gas,
        timestamp: 1_735_689_600_000,
        bud_tokenomics: None,
    };
    assert(alloc_views(c.allocations@) =~= seq![(Seq::new(32, |i: int| 0x30u8), 1_000_000_000u64), (Seq::new(32, |i: int| 0x31u8), 1_000_000_000u64)]);
    assert(c.validators@.map_values(|a: Address| a.0@) =~= seq![
        Seq::new(32, |i: int| 0x40u8),
        Seq::new(32, |i: int| 0x41u8),
        Seq::new(32, |i: int| 0x42u8),
    ]);
    c
}

pub fn devnet_genesis() -> (c: GenesisConfig)
    ensures
        c.chain_id == spec_chain_id(Network::Devnet),
        c.gas_schedule == spec_gas_schedule(Network::Devnet),
        c.base_fee == spec_gas_schedule(Network::Devnet).base_fee,
        c.block_reward == BLOCK_REWARD,
        c.timestamp == GENESIS_TIMESTAMP,
        alloc_views(c.allocations@) == seq![(Seq::new(32, |i: int| 0x01u8), GENESIS_ALLOCATION)],
        c.validators@.map_values(|a: Address| a.0@) == seq![Seq::new(32, |i: int| 0x02u8)],
        c.validators@.len() == 1,
        c.bud_tokenomics is None,
{
    let mut allocations: Vec<(Address, u64)> = Vec::new();
    allocations.push((address(0x01), GENESIS_ALLOCATION));
    let mut validators: Vec<Address> = Vec::new();
    validators.push(address(0x02));
    let gas = Network::Devnet.gas_schedule();
    let c = GenesisConfig {
        chain_id: Network::Devnet.chain_id().value(),
        allocations,
        validators,
        block_reward: BLOCK_REWARD,
        base_fee: gas.base_fee,
        gas_schedule: gas,
        timestamp: GENESIS_TIMESTAMP,
        bud_tokenomics: None,
    };
    assert(alloc_views(c.allocations@) =~= seq![(Seq::new(32, |i: int| 0x01u8), GENESIS_ALLOCATION)]);
    assert(c.validators@.map_values(|a: Address| a.0@) =~= seq![Seq::new(32, |i: int| 0x02u8)]);
    c
}

/// Genesis is deterministic: every genesis block built from one
/// configuration (`build_genesis_block` gives one each time) is at height 0
/// on the zero hash with the configured time and chain id, holds one
/// transaction, commits to the same state root, transaction root and
/// validator set, and has the same hash, its own.
pub proof fn law_genesis_hash_determined_by_config(c: GenesisConfig, b1: Block, b2: Block)
    requires
        is_genesis_block(c, b1),
        is_genesis_block(c, b2),
    ensures
        b1.hash@ == b2.hash@,
        b1.index == 0 && b2.index == 0,
        b1.timestamp == c.timestamp && b2.timestamp == c.timestamp,
        b1.chain_id == c.chain_id && b2.chain_id == c.chain_id,
        b1.previous_hash@ == zero_hash_text() && b2.previous_hash@ == zero_hash_text(),
        b1.transactions@.len() == 1 && b2.transactions@.len() == 1,
        b1.state_root@ == b2.state_root@,
        b1.tx_root@ == b2.tx_root@,
        b1.validator_set_hash@ == b2.validator_set_hash@,
        b1.hash@ == spec_block_hash(b1),
{
    assert(b1.transactions@[0].data@ =~= b2.transactions@[0].data@);
    assert(crate::core_types::transaction::tx_hash_fields(b1.transactions@[0]) =~= crate::core_types::transaction::tx_hash_fields(b2.transactions@[0]));
    assert(b1.transactions@.map_values(|t: Transaction| crate::core_types::transaction::spec_tx_digest(t))
        =~= b2.transactions@.map_values(|t: Transaction| crate::core_types::transaction::spec_tx_digest(t)));
    assert(b1.vrf_output@ =~= b2.vrf_output@);
    assert(crate::core_types::block::block_hash_fields(b1) =~= crate::core_types::block::block_hash_fields(b2));
}

/// Every configured genesis validator is registered, active, at the
/// network's minimum stake.
pub proof fn law_genesis_registers_each_validator(c: GenesisConfig, i: int)
    requires
        0 <= i < c.validators@.len(),
    ensures
        genesis_validators(c).contains_key(c.validators@[i].0@),
        genesis_validators(c)[c.validators@[i].0@] == fresh_validator(spec_validator_stake(c.chain_id)),
{
    lemma_register_all_holds(Map::empty(), c.validators@, spec_validator_stake(c.chain_id), i);
}

proof fn lemma_register_all_holds(m: Map<Seq<u8>, Validator>, vals: Seq<Address>, stake: u64, i: int)
    requires
        0 <= i < vals.len(),
    ensures
        register_all(m, vals, stake).contains_key(vals[i].0@),
        register_all(m, vals, stake)[vals[i].0@] == fresh_validator(stake),
    decreases vals.len(),
{
    if i < vals.len() - 1 {
        lemma_register_all_holds(m, vals.drop_last(), stake, i);
    }
}

} // verus!
