//! The consensus core of a small proof-of-stake chain: slot-driven block
//! production, agreement of a three-member committee on each block with a
//! fallback producer, validation of blocks against the chain's state, and
//! the framing of messages between peers.
//!
//! Everything here is computation on plain values. Sockets, timers, files
//! and the encoding of messages as JSON belong to the program around it,
//! which performs what the state machines of this crate ask for.

pub mod chain_state;
pub mod clock;
pub mod config;
pub mod consensus;
pub mod crypto;
pub mod encoding;
pub mod hashing;
pub mod ledger;
pub mod mempool;
pub mod metrics;
pub mod network;
pub mod node;
pub mod peer_manager;
pub mod racer;
pub mod sorting;
pub mod storage;
pub mod tokenomics;
pub mod tpi;
pub mod tpi_production;
pub mod types;
