//! Stateless validation guards, checked before every mutation.
//!
//! Each guard is a pure predicate over a thread snapshot and a proposed
//! action: it returns success or the specific error that rules the action
//! out, and its contract says exactly which inputs produce which. The
//! lifecycle operations compose these guards and run every check for an
//! operation before any write, so a failed operation never mutates anything.
use vstd::prelude::*;

use crate::constants::MAX_MESSAGES;
use crate::constants::MAX_PENDING_SPECS;
use crate::errors::ChoirError;
use crate::thread::contains_id;
use crate::thread::find_vote;
use crate::thread::has_vote;
use crate::thread::unique_hashes;
use crate::thread::hash_eq;
use crate::thread::Thread;

verus! {

/// Checks that the thread can accept another message: it is below its
/// message capacity and its content hashes are pairwise distinct.
pub fn validate_thread_state(thread: &Thread) -> (r: Result<(), ChoirError>)
    ensures
        r is Ok <==> thread.message_count < MAX_MESSAGES && unique_hashes(thread.messages@),
        r == Err::<(), ChoirError>(ChoirError::ThreadFull) <==> thread.message_count
            >= MAX_MESSAGES,
        r == Err::<(), ChoirError>(ChoirError::DuplicateContent) <==> thread.message_count
            < MAX_MESSAGES && !unique_hashes(thread.messages@),
{
    if thread.message_count >= MAX_MESSAGES as u32 {
        return Err(ChoirError::ThreadFull);
    }
    let mut k: usize = 0;
    while k < thread.messages.len()
        invariant
            thread.message_count < MAX_MESSAGES,
            k <= thread.messages@.len(),
            forall|i: int, j: int|
                0 <= i < j < thread.messages@.len() && i < k ==> thread.messages@[i].content_hash@
                    != thread.messages@[j].content_hash@,
        decreases thread.messages@.len() - k,
    {
        let mut m: usize = k + 1;
        while m < thread.messages.len()
            invariant
                thread.message_count < MAX_MESSAGES,
                k < m || k + 1 == m,
                k < thread.messages@.len(),
                m >= k + 1,
                m <= thread.messages@.len(),
                forall|j: int|
                    k < j < m ==> thread.messages@[k as int].content_hash@
                        != thread.messages@[j].content_hash@,
            decreases thread.messages@.len() - m,
        {
            if hash_eq(&thread.messages[k].content_hash, &thread.messages[m].content_hash) {
                proof {
                    assert(thread.messages@[k as int].content_hash@
                        == thread.messages@[m as int].content_hash@);
                    assert(!unique_hashes(thread.messages@));
                }
                return Err(ChoirError::DuplicateContent);
            }
            m += 1;
        }
        k += 1;
    }
    Ok(())
}

/// Checks that `author` is a co-author of the thread: only co-authors may
/// submit messages or cast votes.
pub fn validate_co_author(thread: &Thread, author: u64) -> (r: Result<(), ChoirError>)
    ensures
        r is Ok <==> thread.co_authors@.contains(author),
        r is Err ==> r == Err::<(), ChoirError>(ChoirError::NotCoAuthor),
{
    if contains_id(&thread.co_authors, author) {
        Ok(())
    } else {
        Err(ChoirError::NotCoAuthor)
    }
}

/// Checks a spec submission: the author must be an outsider, the thread must
/// have room for another pending spec, and the stake must meet the thread's
/// minimum.
pub fn validate_spec_submission(thread: &Thread, author: u64, stake_amount: u64) -> (r: Result<
    (),
    ChoirError,
>)
    ensures
        r is Ok <==> !thread.co_authors@.contains(author) && thread.pending_specs@.len()
            < MAX_PENDING_SPECS && stake_amount >= thread.minimum_stake,
        r == Err::<(), ChoirError>(ChoirError::AlreadyCoAuthor) <==> thread.co_authors@.contains(
            author,
        ),
        r == Err::<(), ChoirError>(ChoirError::TooManyPendingSpecs) <==> !thread.co_authors@.contains(
            author,
        ) && thread.pending_specs@.len() >= MAX_PENDING_SPECS,
        r == Err::<(), ChoirError>(ChoirError::InsufficientStake) <==> !thread.co_authors@.contains(
            author,
        ) && thread.pending_specs@.len() < MAX_PENDING_SPECS && stake_amount
            < thread.minimum_stake,
{
    if contains_id(&thread.co_authors, author) {
        return Err(ChoirError::AlreadyCoAuthor);
    }
    if thread.pending_specs.len() >= MAX_PENDING_SPECS {
        return Err(ChoirError::TooManyPendingSpecs);
    }
    if stake_amount < thread.minimum_stake {
        return Err(ChoirError::InsufficientStake);
    }
    Ok(())
}

/// Checks that a vote may be cast on the target at `message_index`: the
/// target must exist, a spec must not have expired, and the voter must not
/// have voted on it before.
pub fn validate_approval_state(
    thread: &Thread,
    message_index: u32,
    co_author: u64,
    is_spec: bool,
    now: i64,
) -> (r: Result<(), ChoirError>)
    ensures
        is_spec ==> {
            &&& r is Ok <==> message_index < thread.pending_specs@.len()
                && !thread.pending_specs@[message_index as int].is_expired(now) && !has_vote(
                thread.pending_specs@[message_index as int].approvals@,
                co_author,
            )
            &&& r == Err::<(), ChoirError>(ChoirError::InvalidMessageIndex) <==> message_index
                >= thread.pending_specs@.len()
            &&& r == Err::<(), ChoirError>(ChoirError::SpecExpired) <==> message_index
                < thread.pending_specs@.len() && thread.pending_specs@[message_index as int].is_expired(
                now,
            )
            &&& r == Err::<(), ChoirError>(ChoirError::AlreadyVoted) <==> message_index
                < thread.pending_specs@.len() && !thread.pending_specs@[message_index as int].is_expired(
                now,
            ) && has_vote(thread.pending_specs@[message_index as int].approvals@, co_author)
        },
        !is_spec ==> {
            &&& r is Ok <==> message_index < thread.messages@.len() && !has_vote(
                thread.messages@[message_index as int].approvals@,
                co_author,
            )
            &&& r == Err::<(), ChoirError>(ChoirError::InvalidMessageIndex) <==> message_index
                >= thread.messages@.len()
            &&& r == Err::<(), ChoirError>(ChoirError::AlreadyVoted) <==> message_index
                < thread.messages@.len() && has_vote(
                thread.messages@[message_index as int].approvals@,
                co_author,
            )
        },
{
    if is_spec {
        if message_index as usize >= thread.pending_specs.len() {
            return Err(ChoirError::InvalidMessageIndex);
        }
        let spec = &thread.pending_specs[message_index as usize];
        if now >= spec.expires_at {
            return Err(ChoirError::SpecExpired);
        }
        if find_vote(&spec.approvals, co_author) {
            return Err(ChoirError::AlreadyVoted);
        }
    } else {
        if message_index as usize >= thread.messages.len() {
            return Err(ChoirError::InvalidMessageIndex);
        }
        if find_vote(&thread.messages[message_index as usize].approvals, co_author) {
            return Err(ChoirError::AlreadyVoted);
        }
    }
    Ok(())
}

} // verus!
