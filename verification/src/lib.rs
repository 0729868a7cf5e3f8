//! The chain synchronisation core of a full node: a registry of peers, the
//! state machine that decides what to ask of each of them, the snapshot
//! bootstrap, and the propagation of new blocks and transactions.
//!
//! The synchroniser, `chain_sync::ChainSync`, is driven from outside: by
//! packets from peers (`supplier`, `events`), by the ticks of the host's
//! timers (`events`, `supervisor`, `tx_propagation`) and by news from the
//! chain (`events`).  It owns its state and reaches nothing else.
//!
//! - The chain client, the snapshot service and what the network knows of a
//!   peer come with every call, as an `env::SyncIo`.  The downloaders of
//!   blocks are an `env::BlockDownloader`.  Nothing is assumed of what they
//!   answer: the contracts say what the synchroniser does for every answer.
//! - What is to be done on the network is queued as `action::Action`s, which
//!   the host takes with `take_actions` and carries out.
//! - Time is what the caller says it is: a number of milliseconds that does
//!   not go back.
//! - Random choices come from a `random::RandomSource`, made from a seed.
//!
//! Packets are encoded and decoded by the `rlp` crate (`codec`) and hashed
//! by `keccak-hash` (`hashing`).  What these modules take on trust of the
//! two crates, and `random` of `rand`, is said where it is taken.
//!
//! The contracts of the functions that change the synchroniser are written
//! as predicates over the state before and after, named in the `ensures`
//! of the function, with the states in between and the answers from outside
//! as their arguments.  `laws` states what holds across functions.

pub mod primitives;
pub mod codec;
pub mod hashing;
pub mod random;
pub mod env;
pub mod status;
pub mod peer_map;
pub mod hash_list;
pub mod peer;
pub mod snapshot;
pub mod packets;
pub mod action;
pub mod config;
pub mod relations;
pub mod requester;
pub mod stats;
pub mod chain_sync;
pub mod order;
pub mod warp;
pub mod supervisor;
pub mod manifest;
pub mod handshake;
pub mod responses;
pub mod header;
pub mod announcements;
pub mod snapshot_sync;
pub mod propagator;
pub mod propagation;
pub mod client_id;
pub mod transactions;
pub mod tx_propagation;
pub mod upkeep;
pub mod events;
pub mod supplier;
pub mod laws;
