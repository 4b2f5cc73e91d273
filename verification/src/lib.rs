//! Stake-weighted view of known network peers.
//!
//! The library computes, from a ledger stake snapshot, a peer directory and a
//! set of administrator overrides, the mapping from peer identity and peer
//! address to stake that a validator publishes for admission control.

pub mod address;
pub mod builder;
pub mod overrides;
pub mod peers;
pub mod pubkey;
pub mod reconcile;
pub mod reconcile_proofs;
pub mod refresh;
pub mod scheduler;
pub mod snapshot;
pub mod stake_map;
pub mod staked_nodes;
pub mod stake_sum;
