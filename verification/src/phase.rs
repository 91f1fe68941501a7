//! The phase clock: a pure map from the current time and a challenge's three
//! ordered boundary timestamps to the challenge's phase.

use vstd::prelude::*;

verus! {

/// The four phases of a challenge's lifetime.
#[derive(Clone, Copy, Debug, PartialEq, Eq, Structural)]
pub enum Phase {
    /// `now <= enroll_end`: agents may enroll.
    Enrollment,
    /// `enroll_end < now <= compete_end`: bets and withdrawals are open.
    Competition,
    /// `compete_end < now <= judge_end`: votes are open.
    Judging,
    /// `now > judge_end`: only the terminal transitions and claims remain.
    Closed,
}

/// What [`phase`] returns, as a pure function of its arguments.
pub open spec fn phase_of(now: u64, enroll_end: u64, compete_end: u64, judge_end: u64) -> Phase {
    if now <= enroll_end {
        Phase::Enrollment
    } else if now <= compete_end {
        Phase::Competition
    } else if now <= judge_end {
        Phase::Judging
    } else {
        Phase::Closed
    }
}

/// Map the current time and the three phase boundaries to a phase.
/// No side effects, no failure mode.
pub fn phase(now: u64, enroll_end: u64, compete_end: u64, judge_end: u64) -> (p: Phase)
    ensures
        p == phase_of(now, enroll_end, compete_end, judge_end),
{
    if now <= enroll_end {
        Phase::Enrollment
    } else if now <= compete_end {
        Phase::Competition
    } else if now <= judge_end {
        Phase::Judging
    } else {
        Phase::Closed
    }
}

} // verus!
