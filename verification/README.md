# budlum_core

Settlement-layer primitives of the Budlum chain, written in Verus: each
function carries a `requires`/`ensures` contract over a mathematical model,
and Verus proves the code against it. Properties that span several functions
are stated as `law_*` proof functions next to the code they are about.

## Layout

- `src/core_types/` — addresses, accounts and the ledger state (a sorted
  address map), transactions, blocks, hashing, hex and decimal text,
  governance, network configuration.
- `src/execution/` — the transaction and block executor, and the checks made
  on contract bytecode before it reaches the VM.
- `src/consensus/` — proof of work, proof-of-authority scheduling, slashing
  evidence.
- `src/chain/` — genesis, the fee market, state snapshots and pruning.
- `src/storage/` — the key layout of the block store and every batch it
  writes (commits, recovery of an interrupted commit, deletion, index
  repair), with the integrity audit.
- `src/cross_domain/` — replay protection for cross-domain messages, RLP,
  the EVM adapter's receipt proofs.
- `src/domain/`, `src/pollen/`, `src/deed/`, `src/bns/`, `src/lubot/`,
  `src/tokenomics/`, `src/network/` — domain commitments, data-asset access
  grants, artifact manifests, the name service, inference requests, token
  economics, peer reputation.
- `tests/` — tests run against the compiled library.
- `app/` — the shell around the library: snapshot files (JSON), the block
  store on sled, and peer bookkeeping with its rate buckets.

Outside crates reached from the library (`sha2`, `sha3`, `hex`,
`serde_json`) are called through small trusted wrappers whose contracts name
what the call returns.
