//! Configured parameters of the settlement engine: the percentage splits,
//! the minimum entry fee, the quorum, and the agent capacity.

use vstd::prelude::*;

verus! {

/// Share of the entry pool owed to the winning agent's owner, in percent.
pub const EW: u64 = 95;

/// Share of the entry pool owed to the challenge creator, in percent.
pub const EC: u64 = 4;

/// Share of the entry pool owed to the platform, in percent.
pub const EP: u64 = 1;

/// Share of the bet pool owed to the winning bettors, in percent.
pub const BW: u64 = 95;

/// Share of the bet pool owed to the challenge creator, in percent.
pub const BC: u64 = 2;

/// Share of the bet pool owed to the platform, in percent.
pub const BP: u64 = 3;

/// Share of the entry fee returned to the owner on early withdrawal, in
/// percent.
pub const REFUND_PCT: u64 = 98;

/// Share of the entry fee kept as the withdrawal fee (owed to the platform),
/// in percent.
pub const PEEK_FEE_PCT: u64 = 2;

/// The smallest entry fee a challenge may be created with.
pub const MIN_FEE: u64 = 10_000_000;

/// The quorum: the smallest number of active agents with which a challenge
/// can be finalized; below it, only cancellation remains.
pub const MIN_AGENTS: u32 = 3;

/// The largest number of agents a challenge can hold.
pub const MAX_AGENTS: usize = 64;

/// The voter balance floor, where the host can look balances up.
pub const MIN_VOTE_BALANCE: u64 = 1_000_000_000;

/// The three shares of the entry pool and the three shares of the bet pool
/// each cover their pool exactly: both percentage splits sum to one hundred.
pub proof fn lemma_split_percentages_sum_to_100()
    ensures
        EW + EC + EP == 100,
        BW + BC + BP == 100,
        REFUND_PCT + PEEK_FEE_PCT == 100,
{
}

} // verus!
