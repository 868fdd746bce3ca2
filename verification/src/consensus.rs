//! The approval consensus engine: records votes, decides outcomes, and
//! carries out their value transfers and co-author mutations.
//!
//! A target (message or pending spec) resolves by the vote just recorded:
//! one denial resolves it to Denied immediately; an approving vote that
//! completes unanimity over the co-author set as it stood at the target's
//! creation resolves it to Approved; otherwise it stays Pending. Each entry
//! point performs its guard checks, the vote recording and the resolution
//! side effects as one atomic unit: on any error nothing has changed.
use vstd::prelude::*;

use crate::constants::MAX_COAUTHORS;
use crate::errors::ChoirError;
use crate::escrow::EscrowTicket;
use crate::escrow::Payout;
use crate::escrow::StakeEscrow;
use crate::thread::advance;
use crate::thread::check_unanimous_with;
use crate::thread::contains_id;
use crate::thread::find_denial;
use crate::thread::find_vote;
use crate::thread::has_approving_vote;
use crate::thread::has_vote;
use crate::thread::lemma_unanimous_after_push;
use crate::thread::lemma_unique_voters_push;
use crate::thread::lemma_unique_ids_push;
use crate::thread::lemma_vote_push_effects;
use crate::thread::unanimous;
use crate::thread::unanimous_with;
use crate::thread::unique_hashes;
use crate::thread::Approval;
use crate::thread::SpecMessage;
use crate::thread::Thread;
use crate::validation::validate_approval_state;

verus! {

/// The state a target is in once a vote or an expiration check has been
/// processed. Approved covers a published message as well as an admitted
/// spec; Denied, Approved and Expired are terminal.
#[derive(Clone, Copy, Debug, PartialEq, Eq, Structural)]
pub enum ConsensusOutcome {
    /// The target still awaits further votes.
    Pending,
    /// Every eligible voter approved: a message is published, a spec admits
    /// its author and its stake moves to the thread balance.
    Approved,
    /// A single denial resolved the target against inclusion.
    Denied,
    /// The spec passed its expiration instant; its stake went back to the
    /// staker.
    Expired,
}

/// The escrow ticket holding a pending spec's stake is live and matches the
/// spec: this is what lets the engine release exactly the staked amount.
pub open spec fn ticket_ok(s: SpecMessage, esc: StakeEscrow) -> bool {
    &&& s.ticket < esc.tickets@.len()
    &&& !esc.tickets@[s.ticket as int].released
    &&& esc.tickets@[s.ticket as int].amount == s.stake_amount
    &&& esc.tickets@[s.ticket as int].staker == s.author
}

/// Every pending spec of the thread holds a live, matching escrow ticket.
pub open spec fn all_tickets_ok(t: Thread, esc: StakeEscrow) -> bool {
    forall|j: int|
        0 <= j < t.pending_specs@.len() ==> ticket_ok(#[trigger] t.pending_specs@[j], esc)
}

/// The outcome a vote forces: denial short-circuits, completed unanimity
/// approves, anything else stays pending.
pub open spec fn vote_outcome(
    approvals: Seq<Approval>,
    eligible: Seq<u64>,
    approval: Approval,
) -> ConsensusOutcome {
    if !approval.approved {
        ConsensusOutcome::Denied
    } else if unanimous_with(approvals, eligible, approval.co_author) {
        ConsensusOutcome::Approved
    } else {
        ConsensusOutcome::Pending
    }
}

/// The error, if any, that rules out a vote by `voter` on message `idx`.
pub open spec fn message_vote_rejection(t: Thread, idx: int, voter: u64) -> Option<ChoirError> {
    if idx >= t.messages@.len() {
        Some(ChoirError::InvalidMessageIndex)
    } else if has_vote(t.messages@[idx].approvals@, voter) {
        Some(ChoirError::AlreadyVoted)
    } else if t.messages@[idx].resolved() {
        Some(ChoirError::InvalidApproval)
    } else {
        None
    }
}

/// How recording `approval` on message `idx` transforms the thread: the vote
/// is appended, the published flag is set exactly on completed unanimity,
/// and nothing else moves.
pub open spec fn message_vote_transition(
    t: Thread,
    t2: Thread,
    idx: int,
    approval: Approval,
    now: i64,
    outcome: ConsensusOutcome,
) -> bool {
    let m = t.messages@[idx];
    let m2 = t2.messages@[idx];
    &&& 0 <= idx < t.messages@.len()
    &&& t2.messages@ == t.messages@.update(idx, m2)
    &&& m2.author == m.author
    &&& m2.content_hash@ == m.content_hash@
    &&& m2.timestamp == m.timestamp
    &&& m2.eligible_voters@ == m.eligible_voters@
    &&& m2.approvals@ == m.approvals@.push(approval)
    &&& m2.is_published == (approval.approved && unanimous_with(
        m.approvals@,
        m.eligible_voters@,
        approval.co_author,
    ))
    &&& outcome == vote_outcome(m.approvals@, m.eligible_voters@, approval)
    &&& t2.thread_id@ == t.thread_id@
    &&& t2.created_at == t.created_at
    &&& t2.updated_at == advance(t.updated_at, now)
    &&& t2.co_authors@ == t.co_authors@
    &&& t2.token_balance == t.token_balance
    &&& t2.minimum_stake == t.minimum_stake
    &&& t2.message_count == t.message_count
    &&& t2.pending_specs@ == t.pending_specs@
}

/// The error, if any, that rules out a vote by `approval` on spec `idx`. A
/// duplicate vote is reported before expiration: a voter who already voted
/// on a since-expired spec is answered `AlreadyVoted`. An approving vote
/// that would complete unanimity is also refused when the admission itself
/// cannot be carried out, so that no vote is ever recorded without its
/// resolution's side effects.
pub open spec fn spec_vote_rejection(
    t: Thread,
    idx: int,
    approval: Approval,
    now: i64,
) -> Option<ChoirError> {
    if idx >= t.pending_specs@.len() {
        Some(ChoirError::InvalidMessageIndex)
    } else {
        let s = t.pending_specs@[idx];
        if has_vote(s.approvals@, approval.co_author) {
            Some(ChoirError::AlreadyVoted)
        } else if s.is_expired(now) {
            Some(ChoirError::SpecExpired)
        } else if approval.approved && unanimous_with(
            s.approvals@,
            s.eligible_voters@,
            approval.co_author,
        ) {
            if t.co_authors@.contains(s.author) {
                Some(ChoirError::AlreadyCoAuthor)
            } else if t.co_authors@.len() >= MAX_COAUTHORS {
                Some(ChoirError::CoAuthorCapacityExceeded)
            } else if t.token_balance + s.stake_amount > u64::MAX {
                Some(ChoirError::InvalidTokenOperation)
            } else {
                None
            }
        } else {
            None
        }
    }
}

/// How recording `approval` on spec `idx` transforms the thread and the
/// escrow. A denial releases the stake to the denier; completed unanimity
/// admits the author and credits the stake to the thread balance; otherwise
/// only the vote is appended. A resolved spec leaves `pending_specs`.
pub open spec fn spec_vote_transition(
    t: Thread,
    t2: Thread,
    esc: StakeEscrow,
    esc2: StakeEscrow,
    idx: int,
    approval: Approval,
    now: i64,
    outcome: ConsensusOutcome,
) -> bool {
    let s = t.pending_specs@[idx];
    &&& 0 <= idx < t.pending_specs@.len()
    &&& outcome == vote_outcome(s.approvals@, s.eligible_voters@, approval)
    &&& t2.thread_id@ == t.thread_id@
    &&& t2.created_at == t.created_at
    &&& t2.updated_at == advance(t.updated_at, now)
    &&& t2.minimum_stake == t.minimum_stake
    &&& t2.messages@ == t.messages@
    &&& t2.message_count == t.message_count
    &&& if !approval.approved {
        &&& t2.pending_specs@ == t.pending_specs@.remove(idx)
        &&& t2.co_authors@ == t.co_authors@
        &&& t2.token_balance == t.token_balance
        &&& esc2.tickets@ == esc.tickets@.update(
            s.ticket as int,
            (EscrowTicket { released: true, ..esc.tickets@[s.ticket as int] }),
        )
        &&& esc2.transfers@ == esc.transfers@.push(
            (Payout { recipient: approval.co_author, amount: s.stake_amount }),
        )
    } else if unanimous_with(s.approvals@, s.eligible_voters@, approval.co_author) {
        &&& t2.pending_specs@ == t.pending_specs@.remove(idx)
        &&& t2.co_authors@ == t.co_authors@.push(s.author)
        &&& t2.token_balance == t.token_balance + s.stake_amount
        &&& esc2.tickets@ == esc.tickets@.update(
            s.ticket as int,
            (EscrowTicket { released: true, ..esc.tickets@[s.ticket as int] }),
        )
        &&& esc2.transfers@ == esc.transfers@
    } else {
        let s2 = t2.pending_specs@[idx];
        &&& t2.pending_specs@ == t.pending_specs@.update(idx, s2)
        &&& s2.author == s.author
        &&& s2.content_hash@ == s.content_hash@
        &&& s2.timestamp == s.timestamp
        &&& s2.stake_amount == s.stake_amount
        &&& s2.expires_at == s.expires_at
        &&& s2.eligible_voters@ == s.eligible_voters@
        &&& s2.ticket == s.ticket
        &&& s2.approvals@ == s.approvals@.push(approval)
        &&& t2.co_authors@ == t.co_authors@
        &&& t2.token_balance == t.token_balance
        &&& esc2 == esc
    }
}

/// How the lazy expiration of spec `idx` transforms the thread and the
/// escrow: the stake returns to its staker and the spec leaves
/// `pending_specs`.
pub open spec fn expiration_transition(
    t: Thread,
    t2: Thread,
    esc: StakeEscrow,
    esc2: StakeEscrow,
    idx: int,
    now: i64,
) -> bool {
    let s = t.pending_specs@[idx];
    &&& 0 <= idx < t.pending_specs@.len()
    &&& s.is_expired(now)
    &&& t2.thread_id@ == t.thread_id@
    &&& t2.created_at == t.created_at
    &&& t2.updated_at == advance(t.updated_at, now)
    &&& t2.minimum_stake == t.minimum_stake
    &&& t2.messages@ == t.messages@
    &&& t2.message_count == t.message_count
    &&& t2.co_authors@ == t.co_authors@
    &&& t2.token_balance == t.token_balance
    &&& t2.pending_specs@ == t.pending_specs@.remove(idx)
    &&& esc2.tickets@ == esc.tickets@.update(
        s.ticket as int,
        (EscrowTicket { released: true, ..esc.tickets@[s.ticket as int] }),
    )
    &&& esc2.transfers@ == esc.transfers@.push(
        (Payout { recipient: s.author, amount: s.stake_amount }),
    )
}

/// Record a vote on a message and evaluate its resolution: a denial resolves
/// it Denied, an approving vote completing unanimity publishes it, and
/// otherwise it stays Pending.
pub fn process_message_approval(
    thread: &mut Thread,
    message_index: u32,
    approval: Approval,
    now: i64,
) -> (r: Result<ConsensusOutcome, ChoirError>)
    requires
        old(thread).wf(),
    ensures
        final(thread).wf(),
        match r {
            Ok(outcome) => message_vote_rejection(
                *old(thread),
                message_index as int,
                approval.co_author,
            ) is None && message_vote_transition(
                *old(thread),
                *final(thread),
                message_index as int,
                approval,
                now,
                outcome,
            ),
            Err(e) => *final(thread) == *old(thread) && Some(e) == message_vote_rejection(
                *old(thread),
                message_index as int,
                approval.co_author,
            ),
        },
{
    match validate_approval_state(thread, message_index, approval.co_author, false, now) {
        Err(e) => {
            return Err(e);
        },
        Ok(()) => {},
    }
    let idx = message_index as usize;
    if thread.messages[idx].is_published || find_denial(&thread.messages[idx].approvals) {
        return Err(ChoirError::InvalidApproval);
    }
    let completes = approval.approved && check_unanimous_with(
        &thread.messages[idx].approvals,
        &thread.messages[idx].eligible_voters,
        approval.co_author,
    );
    let ghost t_old = *thread;
    let ghost m_old = thread.messages@[idx as int];
    let m = &mut thread.messages[idx];
    m.approvals.push(approval);
    if completes {
        m.is_published = true;
    }
    if now > thread.updated_at {
        thread.updated_at = now;
    }
    proof {
        let m2 = thread.messages@[idx as int];
        lemma_unique_voters_push(m_old.approvals@, approval);
        if approval.approved {
            lemma_unanimous_after_push(m_old.approvals@, m_old.eligible_voters@, approval);
        } else {
            lemma_vote_push_effects(m_old.approvals@, approval);
            assert(unanimous(m2.approvals@, m2.eligible_voters@) == unanimous(
                m_old.approvals@,
                m_old.eligible_voters@,
            )) by {
                if unanimous(m_old.approvals@, m_old.eligible_voters@) {
                    assert(unanimous(m2.approvals@, m2.eligible_voters@));
                }
                if unanimous(m2.approvals@, m2.eligible_voters@) {
                    assert forall|i: int|
                        0 <= i < m_old.eligible_voters@.len() implies has_approving_vote(
                        m_old.approvals@,
                        m_old.eligible_voters@[i],
                    ) by {
                        assert(has_approving_vote(m2.approvals@, m_old.eligible_voters@[i]));
                    }
                }
            }
        }
        assert(m2.wf());
        assert(unique_hashes(thread.messages@)) by {
            assert forall|i: int, j: int|
                0 <= i < j < thread.messages@.len() implies thread.messages@[i].content_hash@
                != thread.messages@[j].content_hash@ by {
                assert(t_old.messages@[i].content_hash@ != t_old.messages@[j].content_hash@);
                assert(thread.messages@[i].content_hash@ == t_old.messages@[i].content_hash@);
                assert(thread.messages@[j].content_hash@ == t_old.messages@[j].content_hash@);
            }
        }
        assert forall|i: int| 0 <= i < thread.messages@.len() implies (
        #[trigger] thread.messages@[i]).wf() by {
            if i != idx {
                assert(thread.messages@[i] == t_old.messages@[i]);
            }
        }
        assert(thread.wf());
    }
    if !approval.approved {
        Ok(ConsensusOutcome::Denied)
    } else if completes {
        Ok(ConsensusOutcome::Approved)
    } else {
        Ok(ConsensusOutcome::Pending)
    }
}

/// Record a vote on a pending spec and evaluate its resolution, moving the
/// staked value per the outcome: to the denier on denial, into the thread
/// balance (admitting the author) on completed unanimity, and nowhere while
/// the spec stays pending. This path orders its own guards: a duplicate vote
/// is reported before expiration.
pub fn process_spec_approval(
    thread: &mut Thread,
    escrow: &mut StakeEscrow,
    spec_index: u32,
    approval: Approval,
    now: i64,
) -> (r: Result<ConsensusOutcome, ChoirError>)
    requires
        old(thread).wf(),
        all_tickets_ok(*old(thread), *old(escrow)),
    ensures
        final(thread).wf(),
        match r {
            Ok(outcome) => spec_vote_rejection(
                *old(thread),
                spec_index as int,
                approval,
                now,
            ) is None && spec_vote_transition(
                *old(thread),
                *final(thread),
                *old(escrow),
                *final(escrow),
                spec_index as int,
                approval,
                now,
                outcome,
            ),
            Err(e) => *final(thread) == *old(thread) && *final(escrow) == *old(escrow) && Some(e)
                == spec_vote_rejection(*old(thread), spec_index as int, approval, now),
        },
{
    let idx = spec_index as usize;
    if idx >= thread.pending_specs.len() {
        return Err(ChoirError::InvalidMessageIndex);
    }
    if find_vote(&thread.pending_specs[idx].approvals, approval.co_author) {
        return Err(ChoirError::AlreadyVoted);
    }
    if now >= thread.pending_specs[idx].expires_at {
        return Err(ChoirError::SpecExpired);
    }
    let completes = approval.approved && check_unanimous_with(
        &thread.pending_specs[idx].approvals,
        &thread.pending_specs[idx].eligible_voters,
        approval.co_author,
    );
    let ghost t_old = *thread;
    let ghost s_old = thread.pending_specs@[idx as int];
    if !approval.approved {
        // Deny short-circuit: release the stake to the denier and drop the
        // spec.
        let spec = thread.pending_specs.remove(idx);
        let recipients = vec![Payout { recipient: approval.co_author, amount: spec.stake_amount }];
        proof {
            assert(recipients@.drop_first() =~= Seq::<Payout>::empty());
            assert(crate::escrow::payout_sum(Seq::<Payout>::empty()) == 0);
            assert(crate::escrow::payout_sum(recipients@) == spec.stake_amount);
            assert(ticket_ok(s_old, *escrow));
        }
        let released = escrow.release(spec.ticket, &recipients);
        proof {
            assert(released is Ok);
            assert(old(escrow).transfers@ + recipients@ =~= old(escrow).transfers@.push(
                recipients@[0],
            ));
        }
        if now > thread.updated_at {
            thread.updated_at = now;
        }
        proof {
            lemma_wf_after_spec_removal(t_old, *thread, idx as int);
        }
        return Ok(ConsensusOutcome::Denied);
    }
    if !completes {
        // The vote is recorded; the spec stays pending.
        let s = &mut thread.pending_specs[idx];
        s.approvals.push(approval);
        if now > thread.updated_at {
            thread.updated_at = now;
        }
        proof {
            let s2 = thread.pending_specs@[idx as int];
            lemma_unique_voters_push(s_old.approvals@, approval);
            lemma_vote_push_effects(s_old.approvals@, approval);
            lemma_unanimous_after_push(s_old.approvals@, s_old.eligible_voters@, approval);
            assert(s2.wf());
            assert forall|i: int| 0 <= i < thread.pending_specs@.len() implies (
            #[trigger] thread.pending_specs@[i]).wf() && thread.pending_specs@[i].stake_amount
                >= thread.minimum_stake by {
                if i != idx {
                    assert(thread.pending_specs@[i] == t_old.pending_specs@[i]);
                }
            }
            assert(thread.wf());
        }
        return Ok(ConsensusOutcome::Pending);
    }
    // Completed unanimity: the admission checks must pass before anything is
    // recorded, so that the whole operation is atomic.
    if contains_id(&thread.co_authors, thread.pending_specs[idx].author) {
        return Err(ChoirError::AlreadyCoAuthor);
    }
    if thread.co_authors.len() >= MAX_COAUTHORS {
        return Err(ChoirError::CoAuthorCapacityExceeded);
    }
    if thread.token_balance > u64::MAX - thread.pending_specs[idx].stake_amount {
        return Err(ChoirError::InvalidTokenOperation);
    }
    let spec = thread.pending_specs.remove(idx);
    proof {
        assert(ticket_ok(s_old, *escrow));
    }
    let released = escrow.release_to_balance(spec.ticket);
    let amount = match released {
        Ok(a) => a,
        Err(_) => {
            proof {
                assert(false);
            }
            0
        },
    };
    thread.token_balance = thread.token_balance + amount;
    thread.co_authors.push(spec.author);
    if now > thread.updated_at {
        thread.updated_at = now;
    }
    proof {
        lemma_unique_ids_push(t_old.co_authors@, s_old.author);
        lemma_wf_after_spec_removal(t_old, *thread, idx as int);
    }
    Ok(ConsensusOutcome::Approved)
}

/// Resolve the lazy expiration of spec `idx`: if the spec has passed its
/// expiration instant its stake is returned to the staker and the spec is
/// dropped (Expired); if it has not, nothing changes (it is still Pending).
pub fn process_spec_expiration(
    thread: &mut Thread,
    escrow: &mut StakeEscrow,
    spec_index: u32,
    now: i64,
) -> (r: Result<ConsensusOutcome, ChoirError>)
    requires
        old(thread).wf(),
        all_tickets_ok(*old(thread), *old(escrow)),
    ensures
        final(thread).wf(),
        match r {
            Ok(outcome) => {
                &&& spec_index < old(thread).pending_specs@.len()
                &&& outcome == ConsensusOutcome::Expired || outcome == ConsensusOutcome::Pending
                &&& if outcome == ConsensusOutcome::Expired {
                    expiration_transition(
                        *old(thread),
                        *final(thread),
                        *old(escrow),
                        *final(escrow),
                        spec_index as int,
                        now,
                    )
                } else {
                    &&& !old(thread).pending_specs@[spec_index as int].is_expired(now)
                    &&& *final(thread) == *old(thread)
                    &&& *final(escrow) == *old(escrow)
                }
            },
            Err(e) => {
                &&& *final(thread) == *old(thread)
                &&& *final(escrow) == *old(escrow)
                &&& e == ChoirError::InvalidMessageIndex
                &&& spec_index >= old(thread).pending_specs@.len()
            },
        },
{
    let idx = spec_index as usize;
    if idx >= thread.pending_specs.len() {
        return Err(ChoirError::InvalidMessageIndex);
    }
    if now < thread.pending_specs[idx].expires_at {
        return Ok(ConsensusOutcome::Pending);
    }
    let ghost t_old = *thread;
    let ghost s_old = thread.pending_specs@[idx as int];
    let spec = thread.pending_specs.remove(idx);
    let recipients = vec![Payout { recipient: spec.author, amount: spec.stake_amount }];
    proof {
        assert(recipients@.drop_first() =~= Seq::<Payout>::empty());
        assert(crate::escrow::payout_sum(Seq::<Payout>::empty()) == 0);
        assert(crate::escrow::payout_sum(recipients@) == spec.stake_amount);
        assert(ticket_ok(s_old, *escrow));
    }
    let released = escrow.release(spec.ticket, &recipients);
    proof {
        assert(released is Ok);
        assert(old(escrow).transfers@ + recipients@ =~= old(escrow).transfers@.push(
            recipients@[0],
        ));
    }
    if now > thread.updated_at {
        thread.updated_at = now;
    }
    proof {
        lemma_wf_after_spec_removal(t_old, *thread, idx as int);
    }
    Ok(ConsensusOutcome::Expired)
}

/// Removing a pending spec keeps a thread well-formed, whether or not the
/// resolution admitted a new co-author.
proof fn lemma_wf_after_spec_removal(t: Thread, t2: Thread, idx: int)
    requires
        t.wf(),
        0 <= idx < t.pending_specs@.len(),
        t2.pending_specs@ == t.pending_specs@.remove(idx),
        t2.thread_id@ == t.thread_id@,
        t2.messages@ == t.messages@,
        t2.message_count == t.message_count,
        t2.minimum_stake == t.minimum_stake,
        t2.created_at == t.created_at,
        t2.updated_at == t.updated_at || t2.updated_at == advance(t.updated_at, t2.updated_at),
        t2.updated_at >= t.updated_at,
        crate::thread::unique_ids(t2.co_authors@),
        1 <= t2.co_authors@.len() <= MAX_COAUTHORS,
    ensures
        t2.wf(),
{
    t.pending_specs@.remove_ensures(idx);
    assert forall|k: int| 0 <= k < t2.pending_specs@.len() implies (
    #[trigger] t2.pending_specs@[k]).wf() && t2.pending_specs@[k].stake_amount
        >= t2.minimum_stake by {
        if k < idx {
            assert(t2.pending_specs@[k] == t.pending_specs@[k]);
        } else {
            assert(t2.pending_specs@[k] == t.pending_specs@[k + 1]);
        }
    }
}

} // verus!
