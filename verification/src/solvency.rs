//! The solvency bound: what a terminal challenge can still pay out — to the
//! winner's owner, the creator and the winning bettors once finalized, or as
//! refunds once cancelled — never exceeds what its pools hold, less the
//! platform's cut released at finalization. Floor division only loses, so
//! the payable obligations fit inside the collected funds at every reachable
//! terminal state.

use vstd::prelude::*;
use vstd::arithmetic::div_mod::{lemma_div_is_ordered, lemma_div_multiples_vanish};
use crate::challenge::{
    Agent, BetRecord, Challenge, ChallengeView, UserBetTotal, bets_on_weight, spec_active_count,
    spec_agent_bet_sum, spec_has_claimed, spec_totals_sum, total_weight,
};
use crate::config::{BC, BP, BW, EC, EP, EW};
use crate::settle::{lemma_div_sum_le, lemma_percentage_split_bounds, spec_bet_of, spec_bet_total_of, spec_payout, spec_refundable_enrollment};
use crate::sums::{
    lemma_sum_by_all_zero, lemma_sum_by_congruence, lemma_sum_by_le, lemma_sum_by_single_delta,
    sum_by,
};

verus! {

/// The pro-rata floor share one wager record takes from a payout pool `bpp`,
/// measured against the backed pool `p`, where the record backs the winner
/// `w` with a positive amount; zero otherwise.
pub open spec fn pro_rata_weight(w: usize, bpp: int, p: int) -> spec_fn(BetRecord) -> int {
    |b: BetRecord| if b.agent_index == w && b.amount > 0 {
        bpp * b.amount / p
    } else {
        0
    }
}

/// Pro-rata floor shares, partially summed, stay under the proportional
/// bound.
proof fn lemma_pro_rata_partial(bets: Seq<BetRecord>, w: usize, bpp: int, p: int)
    requires
        p > 0,
        bpp >= 0,
    ensures
        spec_agent_bet_sum(bets, w as int) >= 0,
        sum_by(bets, pro_rata_weight(w, bpp, p)) <= bpp * spec_agent_bet_sum(bets, w as int) / p,
    decreases bets.len(),
{
    if bets.len() == 0 {
        assert(bpp * 0 == 0) by (nonlinear_arith);
    } else {
        let rest = bets.drop_last();
        let b = bets.last();
        lemma_pro_rata_partial(rest, w, bpp, p);
        let s_rest = spec_agent_bet_sum(rest, w as int);
        let s_all = spec_agent_bet_sum(bets, w as int);
        assert(s_all == s_rest + bets_on_weight(w as int)(b));
        if b.agent_index == w && b.amount > 0 {
            assert(s_all == s_rest + b.amount);
            assert(bpp * s_rest >= 0 && bpp * b.amount >= 0) by (nonlinear_arith)
                requires
                    bpp >= 0,
                    s_rest >= 0,
                    b.amount >= 0,
            {
            }
            lemma_div_sum_le(bpp * s_rest, bpp * b.amount, p);
            assert(bpp * s_rest + bpp * b.amount == bpp * s_all) by (nonlinear_arith)
                requires
                    s_all == s_rest + b.amount,
            {
            }
        } else {
            assert(s_all == s_rest);
        }
    }
}

/// Pro-rata floor shares, summed over every record, never exceed the payout
/// pool they divide: floors only lose.
pub proof fn lemma_pro_rata_sum_bounded(bets: Seq<BetRecord>, w: usize, bpp: int, p: int)
    requires
        p > 0,
        bpp >= 0,
        p == spec_agent_bet_sum(bets, w as int),
    ensures
        sum_by(bets, pro_rata_weight(w, bpp, p)) <= bpp,
{
    lemma_pro_rata_partial(bets, w, bpp, p);
    assert(bpp * p == p * bpp) by (nonlinear_arith);
    lemma_div_multiples_vanish(bpp, p);
}

/// What a finalized challenge still owes the winning agent's owner.
pub open spec fn spec_owner_outstanding(cv: ChallengeView) -> int {
    if !spec_has_claimed(cv, cv.agents[cv.winner_index as int].owner) {
        cv.total_entry_pool * EW / 100
    } else {
        0
    }
}

/// What a finalized challenge still owes its creator.
pub open spec fn spec_creator_outstanding(cv: ChallengeView) -> int {
    if !spec_has_claimed(cv, cv.creator) {
        cv.total_entry_pool * EC / 100 + cv.total_bet_pool * BC / 100
    } else {
        0
    }
}

/// The pro-rata share one wager record can still claim from a finalized
/// challenge: its floor share of the bet payout pool, where it backs the
/// winner with a positive amount and its account holds no claim proof yet.
pub open spec fn outstanding_bettor_weight(cv: ChallengeView) -> spec_fn(BetRecord) -> int {
    |b: BetRecord| if b.agent_index == cv.winner_index && b.amount > 0
        && cv.agents[cv.winner_index as int].bet_pool > 0
        && !spec_has_claimed(cv, b.account) {
        (cv.total_bet_pool * BW / 100) * b.amount
            / (cv.agents[cv.winner_index as int].bet_pool as int)
    } else {
        0
    }
}

/// Everything a finalized challenge still owes: the winner's owner's share,
/// the creator's share, and every unclaimed winning bettor's pro-rata share.
pub open spec fn spec_outstanding_finalized(cv: ChallengeView) -> int {
    spec_owner_outstanding(cv) + spec_creator_outstanding(cv) + sum_by(
        cv.bets,
        outstanding_bettor_weight(cv),
    )
}

/// The solvency bound of a finalized challenge: its outstanding obligations,
/// together with the platform cut released at finalization, fit inside the
/// entry pool and the bet pool it froze.
pub proof fn lemma_finalized_solvency_bound(cv: ChallengeView)
    requires
        cv.wf(),
        cv.finalized,
    ensures
        spec_outstanding_finalized(cv) + cv.total_entry_pool * EP / 100
            + cv.total_bet_pool * BP / 100 <= cv.total_entry_pool + cv.total_bet_pool,
{
    let w = cv.winner_index;
    let p = cv.agents[w as int].bet_pool as int;
    let bpp = cv.total_bet_pool * BW / 100;
    assert(cv.total_bet_pool * BW >= 0) by (nonlinear_arith)
        requires
            cv.total_bet_pool >= 0,
    {
    }
    lemma_div_is_ordered(0, cv.total_bet_pool * BW, 100);
    if p > 0 {
        assert(forall|k: int|
            0 <= k < cv.bets.len() ==> (outstanding_bettor_weight(cv))(#[trigger] cv.bets[k])
                <= (pro_rata_weight(w, bpp, p))(cv.bets[k])) by {
            assert forall|k: int| 0 <= k < cv.bets.len()
                implies (outstanding_bettor_weight(cv))(#[trigger] cv.bets[k])
                    <= (pro_rata_weight(w, bpp, p))(cv.bets[k]) by {
                let b = cv.bets[k];
                if b.agent_index == w && b.amount > 0 {
                    assert(bpp * b.amount >= 0) by (nonlinear_arith)
                        requires
                            bpp >= 0,
                            b.amount >= 0,
                    {
                    }
                    lemma_div_is_ordered(0, bpp * b.amount, p);
                }
            }
        }
        lemma_sum_by_le(cv.bets, outstanding_bettor_weight(cv), pro_rata_weight(w, bpp, p));
        lemma_pro_rata_sum_bounded(cv.bets, w, bpp, p);
    } else {
        lemma_sum_by_all_zero(cv.bets, outstanding_bettor_weight(cv));
    }
    lemma_percentage_split_bounds(cv.total_entry_pool as int, EW as int, EC as int, EP as int);
    lemma_percentage_split_bounds(cv.total_bet_pool as int, BW as int, BC as int, BP as int);
}

/// The full entry-fee refund one agent row can still draw from a cancelled
/// challenge: the entry fee, where the agent did not withdraw and its owner
/// holds no claim proof yet.
pub open spec fn outstanding_refund_weight(cv: ChallengeView) -> spec_fn(Agent) -> int {
    |a: Agent| if !a.withdrawn && !spec_has_claimed(cv, a.owner) {
        cv.entry_fee as int
    } else {
        0
    }
}

/// The wager refund one account total can still draw from a cancelled
/// challenge: the stored total, where the account holds no claim proof yet.
pub open spec fn outstanding_total_weight(cv: ChallengeView) -> spec_fn(UserBetTotal) -> int {
    |t: UserBetTotal| if !spec_has_claimed(cv, t.account) {
        t.total as int
    } else {
        0
    }
}

/// Everything a cancelled challenge still owes: the full entry fee to every
/// unclaimed active agent's owner, and every unclaimed account's wagers
/// back.
pub open spec fn spec_outstanding_cancelled(cv: ChallengeView) -> int {
    sum_by(cv.agents, outstanding_refund_weight(cv)) + sum_by(
        cv.bet_totals,
        outstanding_total_weight(cv),
    )
}

/// The entry fee, for every active agent.
spec fn full_refund_weight(fee: u64) -> spec_fn(Agent) -> int {
    |a: Agent| if !a.withdrawn {
        fee as int
    } else {
        0
    }
}

/// Refunding the full fee to every active agent costs exactly the fee times
/// the active count.
proof fn lemma_full_refund_sum(agents: Seq<Agent>, fee: u64)
    ensures
        sum_by(agents, full_refund_weight(fee)) == fee * spec_active_count(agents),
    decreases agents.len(),
{
    if agents.len() == 0 {
        assert(fee * 0 == 0) by (nonlinear_arith);
    } else {
        lemma_full_refund_sum(agents.drop_last(), fee);
        let c_rest = spec_active_count(agents.drop_last());
        let c_all = spec_active_count(agents);
        assert(fee * c_all == fee * c_rest + (if agents.last().withdrawn {
            0
        } else {
            fee as int
        })) by (nonlinear_arith)
            requires
                c_all == c_rest + (if agents.last().withdrawn {
                    0int
                } else {
                    1int
                }),
        {
        }
    }
}

/// The solvency bound of a cancelled challenge: its outstanding refunds fit
/// inside the entry pool and the bet pool it froze.
pub proof fn lemma_cancelled_solvency_bound(cv: ChallengeView)
    requires
        cv.wf(),
        cv.cancelled,
    ensures
        spec_outstanding_cancelled(cv) <= cv.total_entry_pool + cv.total_bet_pool,
{
    lemma_sum_by_le(cv.agents, outstanding_refund_weight(cv), full_refund_weight(cv.entry_fee));
    lemma_full_refund_sum(cv.agents, cv.entry_fee);
    lemma_sum_by_le(cv.bet_totals, outstanding_total_weight(cv), total_weight());
    assert(spec_totals_sum(cv.bet_totals) == cv.total_bet_pool);
}

/// Everything a terminal challenge still owes.
pub open spec fn spec_outstanding(cv: ChallengeView) -> int {
    if cv.cancelled {
        spec_outstanding_cancelled(cv)
    } else {
        spec_outstanding_finalized(cv)
    }
}

/// Settling one claim removes exactly the claimant's payout from the
/// outstanding obligations: together with the solvency bounds at the
/// terminal transitions, the obligations stay inside the pools claim after
/// claim.
pub proof fn lemma_claim_settles_exactly(cv: ChallengeView, caller: u64)
    requires
        cv.wf(),
        cv.finalized || cv.cancelled,
        !spec_has_claimed(cv, caller),
    ensures
        ({
            let cv2 = ChallengeView { claimed: cv.claimed.push(caller), ..cv };
            spec_outstanding(cv2) == spec_outstanding(cv) - spec_payout(cv, caller)
        }),
{
    let cv2 = ChallengeView { claimed: cv.claimed.push(caller), ..cv };
    assert forall|x: u64|
        spec_has_claimed(cv2, x) <==> (spec_has_claimed(cv, x) || x == caller) by {
        vstd::seq_lib::lemma_seq_contains_after_push(cv.claimed, caller, x);
    }
    if cv.cancelled {
        // The entry-fee refunds: at most one agent row belongs to the
        // caller.
        if exists|i: int|
            0 <= i < cv.agents.len() && (#[trigger] cv.agents[i]).owner == caller {
            let j = choose|i: int|
                0 <= i < cv.agents.len() && (#[trigger] cv.agents[i]).owner == caller;
            assert forall|k: int| 0 <= k < cv.agents.len() && k != j
                implies (outstanding_refund_weight(cv2))(#[trigger] cv.agents[k])
                    == (outstanding_refund_weight(cv))(cv.agents[k]) by {
                if cv.agents[k].owner == caller {
                    assert(cv.agents[k].owner == cv.agents[j].owner);
                    assert(false);
                }
            }
            lemma_sum_by_single_delta(cv.agents, outstanding_refund_weight(cv2),
                outstanding_refund_weight(cv), j);
            if cv.agents[j].withdrawn {
                if spec_refundable_enrollment(cv, caller) {
                    let j2 = choose|i: int|
                        0 <= i < cv.agents.len() && (#[trigger] cv.agents[i]).owner == caller
                            && !cv.agents[i].withdrawn;
                    assert(cv.agents[j2].owner == cv.agents[j].owner);
                    assert(false);
                }
            } else {
                assert(spec_refundable_enrollment(cv, caller));
            }
        } else {
            lemma_sum_by_congruence(cv.agents, outstanding_refund_weight(cv2),
                outstanding_refund_weight(cv));
            if spec_refundable_enrollment(cv, caller) {
                let j2 = choose|i: int|
                    0 <= i < cv.agents.len() && (#[trigger] cv.agents[i]).owner == caller
                        && !cv.agents[i].withdrawn;
                assert((#[trigger] cv.agents[j2]).owner == caller);
                assert(false);
            }
        }
        // The wager refunds: at most one total entry belongs to the caller.
        if exists|l: int|
            0 <= l < cv.bet_totals.len() && (#[trigger] cv.bet_totals[l]).account == caller {
            let l0 = choose|l: int|
                0 <= l < cv.bet_totals.len() && (#[trigger] cv.bet_totals[l]).account == caller;
            assert forall|k: int| 0 <= k < cv.bet_totals.len() && k != l0
                implies (outstanding_total_weight(cv2))(#[trigger] cv.bet_totals[k])
                    == (outstanding_total_weight(cv))(cv.bet_totals[k]) by {
                if cv.bet_totals[k].account == caller {
                    assert(cv.bet_totals[k].account == cv.bet_totals[l0].account);
                    assert(false);
                }
            }
            lemma_sum_by_single_delta(cv.bet_totals, outstanding_total_weight(cv2),
                outstanding_total_weight(cv), l0);
            assert(spec_bet_total_of(cv, caller) == cv.bet_totals[l0].total);
        } else {
            lemma_sum_by_congruence(cv.bet_totals, outstanding_total_weight(cv2),
                outstanding_total_weight(cv));
            assert(spec_bet_total_of(cv, caller) == 0);
        }
    } else {
        // The winner's owner's and the creator's parts follow from the claim
        // proofs alone; the bettors' sum changes at most at the caller's one
        // record on the winner.
        let w = cv.winner_index;
        if exists|k: int|
            0 <= k < cv.bets.len() && (#[trigger] cv.bets[k]).account == caller
                && cv.bets[k].agent_index == w {
            let k0 = choose|k: int|
                0 <= k < cv.bets.len() && (#[trigger] cv.bets[k]).account == caller
                    && cv.bets[k].agent_index == w;
            assert forall|k: int| 0 <= k < cv.bets.len() && k != k0
                implies (outstanding_bettor_weight(cv2))(#[trigger] cv.bets[k])
                    == (outstanding_bettor_weight(cv))(cv.bets[k]) by {
                let b = cv.bets[k];
                if b.account == caller && b.agent_index == w {
                    assert(b.account == cv.bets[k0].account
                        && b.agent_index == cv.bets[k0].agent_index);
                    assert(false);
                }
            }
            lemma_sum_by_single_delta(cv.bets, outstanding_bettor_weight(cv2),
                outstanding_bettor_weight(cv), k0);
            assert(spec_bet_of(cv, caller, w) == cv.bets[k0].amount);
        } else {
            lemma_sum_by_congruence(cv.bets, outstanding_bettor_weight(cv2),
                outstanding_bettor_weight(cv));
            assert(spec_bet_of(cv, caller, w) == 0);
        }
    }
}

/// What the vault must hold on a challenge's account: everything collected
/// while the challenge runs, and the outstanding obligations once it is
/// terminal.
pub open spec fn spec_holdings(cv: ChallengeView) -> int {
    if cv.finalized || cv.cancelled {
        spec_outstanding(cv)
    } else {
        cv.total_entry_pool + cv.total_bet_pool
    }
}

/// [`spec_holdings`], as a weight over the registry's challenges.
pub open spec fn holdings_weight() -> spec_fn(Challenge) -> int {
    |c: Challenge| spec_holdings(c@)
}

/// What the vault must hold for every challenge together.
pub open spec fn spec_total_holdings(s: Seq<Challenge>) -> int {
    sum_by(s, holdings_weight())
}

/// Holdings are never negative, whatever the state: every component is a
/// floor division or a sum of non-negative amounts.
pub proof fn lemma_holdings_nonneg(cv: ChallengeView)
    ensures
        spec_holdings(cv) >= 0,
{
    if cv.finalized || cv.cancelled {
        if cv.cancelled {
            assert forall|a: Agent| #[trigger] ((outstanding_refund_weight(cv))(a)) >= 0 by {
            }
            assert forall|t: UserBetTotal| #[trigger] ((outstanding_total_weight(cv))(t)) >= 0 by {
            }
            crate::sums::lemma_sum_by_nonneg(cv.agents, outstanding_refund_weight(cv));
            crate::sums::lemma_sum_by_nonneg(cv.bet_totals, outstanding_total_weight(cv));
        } else {
            let p = cv.agents[cv.winner_index as int].bet_pool as int;
            let bpp = cv.total_bet_pool * BW / 100;
            assert(cv.total_bet_pool * BW >= 0) by (nonlinear_arith)
                requires
                    cv.total_bet_pool >= 0,
            {
            }
            lemma_div_is_ordered(0, cv.total_bet_pool * BW, 100);
            assert forall|b: BetRecord| #[trigger] ((outstanding_bettor_weight(cv))(b)) >= 0 by {
                if b.agent_index == cv.winner_index && b.amount > 0 && p > 0
                    && !spec_has_claimed(cv, b.account) {
                    assert(bpp * b.amount >= 0) by (nonlinear_arith)
                        requires
                            bpp >= 0,
                            b.amount >= 0,
                    {
                    }
                    lemma_div_is_ordered(0, bpp * b.amount, p);
                }
            }
            crate::sums::lemma_sum_by_nonneg(cv.bets, outstanding_bettor_weight(cv));
            assert(cv.total_entry_pool * EW >= 0 && cv.total_entry_pool * EC >= 0
                && cv.total_bet_pool * BC >= 0) by (nonlinear_arith)
                requires
                    cv.total_entry_pool >= 0,
                    cv.total_bet_pool >= 0,
            {
            }
            lemma_div_is_ordered(0, cv.total_entry_pool * EW, 100);
            lemma_div_is_ordered(0, cv.total_entry_pool * EC, 100);
            lemma_div_is_ordered(0, cv.total_bet_pool * BC, 100);
        }
    }
}

/// One challenge's holdings never exceed the whole registry's.
pub proof fn lemma_holdings_bounded_by_total(s: Seq<Challenge>, i: int)
    requires
        0 <= i < s.len(),
    ensures
        spec_holdings(s[i]@) <= spec_total_holdings(s),
{
    assert forall|c: Challenge| #[trigger] (holdings_weight()(c)) >= 0 by {
        lemma_holdings_nonneg(c@);
    }
    crate::sums::lemma_sum_by_bounds_element(s, i, holdings_weight());
}

} // verus!
