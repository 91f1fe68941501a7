//! Error taxonomy of the settlement engine.
//!
//! Every mutating operation aborts atomically with one of these tags; no
//! operation is ever partially applied.

use vstd::prelude::*;

verus! {

/// Why a settlement-engine operation was rejected.
#[derive(Clone, Copy, Debug, PartialEq, Eq, Structural)]
pub enum EscrowError {
    /// A challenge or agent lookup missed.
    NotFound,
    /// Creation parameters are invalid: fee below the minimum, or
    /// non-increasing phase timestamps.
    InvalidConfig,
    /// A duplicate id, agent, enrollment, vote or claim.
    AlreadyExists,
    /// The operation was attempted outside its time window.
    WrongPhase,
    /// The operation ran against a finalized or cancelled challenge, or the
    /// quorum requirement of the attempted transition is not met.
    StateConflict,
    /// The attached amount differs from the required value.
    PaymentMismatch,
    /// The caller lacks the required role.
    Unauthorized,
    /// An addition or multiplication overflowed; always fatal.
    Arithmetic,
    /// The claim resolved to zero.
    NoPayout,
    /// The vault is short of a required transfer; if ever observed this
    /// signals a breach of the accounting invariant, not ordinary user error.
    InsufficientFunds,
}

/// Why a table-game handler rejected a call. On a contract surface every
/// rejection is a bare revert; these tags make the cause explicit.
#[derive(Clone, Copy, Debug, PartialEq, Eq, Structural)]
pub enum ArenaError {
    /// A parameter is out of range, zero where a positive value is needed,
    /// or the requested move is not available.
    InvalidInput,
    /// No such table, seat, or matching record.
    NotFound,
    /// The table's lifecycle state does not admit the operation, or a time
    /// window is closed.
    WrongState,
    /// The caller lacks the required role.
    Unauthorized,
    /// The table's seats, its bet slots, or the id space are exhausted.
    CapacityFull,
    /// A duplicate join, or a record already claimed.
    AlreadyExists,
    /// Nothing is owed: empty chips, pool or stake.
    NothingDue,
    /// An addition or multiplication overflowed; always fatal.
    Arithmetic,
}

} // verus!
