//! Phased multi-party wagering settlement engine, plus a verified state
//! machine for a dealer-driven table game.
//!
//! The settlement engine (`escrow` and its sibling modules) runs a named
//! competition instance ("challenge") through four phases — enrollment,
//! competition, judging, closed — and settles the collected funds by fixed
//! percentage splits, or refunds them in full when the challenge never
//! reaches quorum. All bookkeeping is integer-exact; every operation either
//! fully applies or fully fails with a tagged error.
//!
//! The host ledger (authorization, balance transfers, persistent storage,
//! clock, event emission) is an external collaborator: operations take the
//! caller, the current time and the attached payment as plain arguments and
//! return the transfers the host must perform.


pub mod abi;
pub mod arena;
pub mod arena_action;
pub mod arena_claims;
pub mod arena_keys;
pub mod arena_play;
pub mod arena_table;
pub mod challenge;
pub mod config;
pub mod enroll;
pub mod errors;
pub mod escrow;
pub mod market;
pub mod phase;
pub mod registry;
pub mod settle;
pub mod solvency;
pub mod sums;
pub mod tally;
pub mod withdraw;
