//! System-wide laws of the library, each proved from the state invariant or
//! the transition specifications alone.
use vstd::prelude::*;

use crate::consensus::vote_outcome;
use crate::consensus::spec_vote_rejection;
use crate::consensus::ConsensusOutcome;
use crate::errors::ChoirError;
use crate::escrow::deposit_sum;
use crate::escrow::outstanding_sum;
use crate::escrow::payout_sum;
use crate::lifecycle::balance_sum;
use crate::lifecycle::ChoirState;
use crate::thread::has_denial;
use crate::thread::has_vote;
use crate::thread::unanimous;
use crate::thread::unique_voters;
use crate::thread::Approval;
use crate::thread::Thread;

verus! {

/// Value conservation: in every well-formed state — and every operation of
/// `ChoirState` both requires and re-establishes well-formedness, so in
/// every reachable state — the value deposited into escrow is exactly the
/// value sitting in thread balances, plus the value escrow still holds, plus
/// the value paid out to external recipients. No internal operation creates
/// or destroys value.
pub proof fn lemma_value_conservation(s: ChoirState)
    requires
        s.wf(),
    ensures
        balance_sum(s.threads@) + outstanding_sum(s.escrow.tickets@) + payout_sum(
            s.escrow.transfers@,
        ) == deposit_sum(s.escrow.tickets@),
{
}

/// Uniqueness: in every well-formed state, no two messages of a thread share
/// a content hash, and no voter holds two votes on the same message or the
/// same pending spec.
pub proof fn lemma_uniqueness(s: ChoirState)
    requires
        s.wf(),
    ensures
        forall|i: int, a: int, b: int|
            0 <= i < s.threads@.len() && 0 <= a < b < s.threads@[i].messages@.len()
                ==> (#[trigger] s.threads@[i].messages@[a]).content_hash@ != (
            #[trigger] s.threads@[i].messages@[b]).content_hash@,
        forall|i: int, j: int|
            0 <= i < s.threads@.len() && 0 <= j < s.threads@[i].messages@.len()
                ==> unique_voters((#[trigger] s.threads@[i].messages@[j]).approvals@),
        forall|i: int, j: int|
            0 <= i < s.threads@.len() && 0 <= j < s.threads@[i].pending_specs@.len()
                ==> unique_voters((#[trigger] s.threads@[i].pending_specs@[j]).approvals@),
{
    assert forall|i: int, j: int|
        0 <= i < s.threads@.len() && 0 <= j < s.threads@[i].messages@.len() implies unique_voters(
        (#[trigger] s.threads@[i].messages@[j]).approvals@,
    ) by {
        assert(s.threads@[i].wf());
        assert(s.threads@[i].messages@[j].wf());
    }
    assert forall|i: int, j: int|
        0 <= i < s.threads@.len() && 0 <= j
            < s.threads@[i].pending_specs@.len() implies unique_voters(
        (#[trigger] s.threads@[i].pending_specs@[j]).approvals@,
    ) by {
        assert(s.threads@[i].wf());
        assert(s.threads@[i].pending_specs@[j].wf());
    }
}

/// Deny short-circuit: a denial resolves its target to Denied at once,
/// whatever votes are still outstanding.
pub proof fn lemma_deny_short_circuit(approvals: Seq<Approval>, eligible: Seq<u64>, vote: Approval)
    requires
        !vote.approved,
    ensures
        vote_outcome(approvals, eligible, vote) == ConsensusOutcome::Denied,
{
}

/// Unanimity for messages: in every well-formed state, a message is
/// published exactly when every co-author present at its submission holds an
/// approving vote on it — and so never before the last of them votes.
pub proof fn lemma_published_iff_unanimous(s: ChoirState)
    requires
        s.wf(),
    ensures
        forall|i: int, j: int|
            0 <= i < s.threads@.len() && 0 <= j < s.threads@[i].messages@.len() ==> ((
            #[trigger] s.threads@[i].messages@[j]).is_published <==> unanimous(
                s.threads@[i].messages@[j].approvals@,
                s.threads@[i].messages@[j].eligible_voters@,
            )),
{
    assert forall|i: int, j: int|
        0 <= i < s.threads@.len() && 0 <= j < s.threads@[i].messages@.len() implies ((
    #[trigger] s.threads@[i].messages@[j]).is_published <==> unanimous(
        s.threads@[i].messages@[j].approvals@,
        s.threads@[i].messages@[j].eligible_voters@,
    )) by {
        assert(s.threads@[i].wf());
        assert(s.threads@[i].messages@[j].wf());
    }
}

/// Unanimity for specs, the "not before" half: in every well-formed state,
/// every spec still pending is neither unanimously approved nor denied —
/// resolution removes a spec within the same operation that decides it.
pub proof fn lemma_pending_specs_unresolved(s: ChoirState)
    requires
        s.wf(),
    ensures
        forall|i: int, j: int|
            0 <= i < s.threads@.len() && 0 <= j < s.threads@[i].pending_specs@.len() ==> !unanimous(
                (#[trigger] s.threads@[i].pending_specs@[j]).approvals@,
                s.threads@[i].pending_specs@[j].eligible_voters@,
            ) && !has_denial(s.threads@[i].pending_specs@[j].approvals@),
{
    assert forall|i: int, j: int|
        0 <= i < s.threads@.len() && 0 <= j < s.threads@[i].pending_specs@.len() implies !unanimous(
        (#[trigger] s.threads@[i].pending_specs@[j]).approvals@,
        s.threads@[i].pending_specs@[j].eligible_voters@,
    ) && !has_denial(s.threads@[i].pending_specs@[j].approvals@) by {
        assert(s.threads@[i].wf());
        assert(s.threads@[i].pending_specs@[j].wf());
    }
}

/// Unanimity decides approval: a vote resolves a target to Approved exactly
/// when it is an approving vote and, once recorded, every voter eligible at
/// the target's creation holds an approving vote.
pub proof fn lemma_approval_iff_unanimous(
    approvals: Seq<Approval>,
    eligible: Seq<u64>,
    vote: Approval,
)
    ensures
        vote_outcome(approvals, eligible, vote) == ConsensusOutcome::Approved <==> vote.approved
            && unanimous(approvals.push(vote), eligible),
{
    if vote.approved {
        crate::thread::lemma_unanimous_after_push(approvals, eligible, vote);
    }
}

/// Expiration: a vote on a spec past its expiration instant is always
/// refused, whatever the vote says — in particular a late unanimous approval
/// can never resolve an expired spec to Approved. The refusal is
/// `SpecExpired`, unless the voter already holds a vote on the spec, which
/// is reported first as `AlreadyVoted`.
pub proof fn lemma_expired_spec_refuses_votes(t: Thread, idx: int, vote: Approval, now: i64)
    requires
        0 <= idx < t.pending_specs@.len(),
        t.pending_specs@[idx].is_expired(now),
    ensures
        spec_vote_rejection(t, idx, vote, now) is Some,
        !has_vote(t.pending_specs@[idx].approvals@, vote.co_author)
            ==> spec_vote_rejection(t, idx, vote, now) == Some(ChoirError::SpecExpired),
{
}

} // verus!
