//! The thread data model: threads, messages, staked spec messages, and votes,
//! together with the well-formedness predicates that every operation
//! preserves.
//!
//! Identities are opaque 64-bit keys supplied by the caller layer, which is
//! responsible for authentication; content hashes are 32-byte digests
//! computed outside this core.
use vstd::prelude::*;

use crate::constants::MAX_COAUTHORS;
use crate::constants::MAX_MESSAGES;
use crate::constants::MAX_PENDING_SPECS;
use crate::constants::MAX_THREAD_ID_LENGTH;

verus! {

/// A single co-author's immutable vote on a message or spec. Votes are never
/// revised or revoked.
#[derive(Clone, Copy, Debug, PartialEq, Eq, Structural)]
pub struct Approval {
    /// The voting co-author.
    pub co_author: u64,
    /// True for approval, false for denial.
    pub approved: bool,
    /// When the vote was cast.
    pub timestamp: i64,
}

/// A committed contribution awaiting ratification by the co-authors.
#[derive(Clone, Debug)]
pub struct Message {
    /// The submitting co-author.
    pub author: u64,
    /// 32-byte digest of the content, unique within the thread.
    pub content_hash: [u8; 32],
    /// When the message was submitted.
    pub timestamp: i64,
    /// The votes recorded so far, at most one per voter.
    pub approvals: Vec<Approval>,
    /// True once every eligible voter has approved.
    pub is_published: bool,
    /// The co-author set as it stood at submission time. Unanimity is judged
    /// against this baseline; co-authors admitted later need not vote.
    pub eligible_voters: Vec<u64>,
}

/// A staked proposal from a non-co-author seeking admission.
#[derive(Clone, Debug)]
pub struct SpecMessage {
    /// The outside author seeking admission.
    pub author: u64,
    /// 32-byte digest of the proposed content.
    pub content_hash: [u8; 32],
    /// When the spec was submitted.
    pub timestamp: i64,
    /// The staked value held in escrow while the spec is pending.
    pub stake_amount: u64,
    /// The votes recorded so far, at most one per voter.
    pub approvals: Vec<Approval>,
    /// The instant after which the spec can only expire.
    pub expires_at: i64,
    /// The co-author set as it stood at submission time.
    pub eligible_voters: Vec<u64>,
    /// The escrow ticket holding this spec's stake.
    pub ticket: usize,
}

/// A named collaboration unit: an append-only message log co-owned by its
/// co-authors.
#[derive(Clone, Debug)]
pub struct Thread {
    /// Unique identifier, at most 32 bytes, immutable after creation.
    pub thread_id: Vec<u8>,
    /// Creation instant.
    pub created_at: i64,
    /// Advances on every state-changing operation; never decreases.
    pub updated_at: i64,
    /// The owning identities: unique, between 1 and 10, append-only.
    pub co_authors: Vec<u64>,
    /// Value owned by the thread; changes only through resolved consensus.
    pub token_balance: u64,
    /// The stake threshold a spec submission must meet.
    pub minimum_stake: u64,
    /// Number of messages; always equal to `messages.len()`.
    pub message_count: u32,
    /// The committed messages, append-only, at most 100.
    pub messages: Vec<Message>,
    /// Specs awaiting resolution, at most 20; removed once terminal.
    pub pending_specs: Vec<SpecMessage>,
}

/// Some vote by `voter` occurs in `approvals`.
pub open spec fn has_vote(approvals: Seq<Approval>, voter: u64) -> bool {
    exists|i: int| 0 <= i < approvals.len() && approvals[i].co_author == voter
}

/// An approving vote by `voter` occurs in `approvals`.
pub open spec fn has_approving_vote(approvals: Seq<Approval>, voter: u64) -> bool {
    exists|i: int|
        0 <= i < approvals.len() && approvals[i].co_author == voter && approvals[i].approved
}

/// Some denial occurs in `approvals`; by the deny-short-circuit rule this
/// marks the target resolved.
pub open spec fn has_denial(approvals: Seq<Approval>) -> bool {
    exists|i: int| 0 <= i < approvals.len() && !approvals[i].approved
}

/// No two votes share a voter.
pub open spec fn unique_voters(approvals: Seq<Approval>) -> bool {
    forall|i: int, j: int|
        0 <= i < j < approvals.len() ==> approvals[i].co_author != approvals[j].co_author
}

/// No identity occurs twice.
pub open spec fn unique_ids(ids: Seq<u64>) -> bool {
    forall|i: int, j: int| 0 <= i < j < ids.len() ==> ids[i] != ids[j]
}

/// Every voter of the baseline set has cast an approving vote: the unanimity
/// condition that resolves a target to Approved.
pub open spec fn unanimous(approvals: Seq<Approval>, eligible: Seq<u64>) -> bool {
    forall|i: int| 0 <= i < eligible.len() ==> has_approving_vote(approvals, eligible[i])
}

/// Unanimity as it would stand once `voter` adds an approving vote.
pub open spec fn unanimous_with(approvals: Seq<Approval>, eligible: Seq<u64>, voter: u64) -> bool {
    forall|i: int|
        0 <= i < eligible.len() ==> eligible[i] == voter || has_approving_vote(
            approvals,
            eligible[i],
        )
}

/// No two messages share a content hash.
pub open spec fn unique_hashes(messages: Seq<Message>) -> bool {
    forall|i: int, j: int|
        0 <= i < j < messages.len() ==> messages[i].content_hash@ != messages[j].content_hash@
}

/// Some message already carries this content hash.
pub open spec fn hash_present(messages: Seq<Message>, hash: Seq<u8>) -> bool {
    exists|i: int| 0 <= i < messages.len() && messages[i].content_hash@ == hash
}

impl Message {
    /// Well-formedness of one message: votes are unique by voter, the
    /// baseline voter set is a valid co-author set, and the published flag
    /// agrees exactly with unanimity over the baseline.
    pub open spec fn wf(self) -> bool {
        &&& unique_voters(self.approvals@)
        &&& unique_ids(self.eligible_voters@)
        &&& 1 <= self.eligible_voters@.len() <= MAX_COAUTHORS
        &&& self.is_published <==> unanimous(self.approvals@, self.eligible_voters@)
    }

    /// A message is resolved once it is published or once any denial has
    /// been recorded; resolved messages accept no further votes.
    pub open spec fn resolved(self) -> bool {
        self.is_published || has_denial(self.approvals@)
    }
}

impl SpecMessage {
    /// Well-formedness of one pending spec. Pending specs are unresolved by
    /// construction: a denial or completed unanimity removes them from the
    /// thread within the same operation.
    pub open spec fn wf(self) -> bool {
        &&& unique_voters(self.approvals@)
        &&& unique_ids(self.eligible_voters@)
        &&& 1 <= self.eligible_voters@.len() <= MAX_COAUTHORS
        &&& !has_denial(self.approvals@)
        &&& !unanimous(self.approvals@, self.eligible_voters@)
        &&& !self.eligible_voters@.contains(self.author)
    }

    /// A spec past this instant can no longer accept votes; it may only
    /// resolve to Expired.
    pub open spec fn is_expired(self, now: i64) -> bool {
        now >= self.expires_at
    }
}

impl Thread {
    /// Well-formedness of a thread: the invariants that hold after every
    /// operation.
    pub open spec fn wf(self) -> bool {
        &&& self.thread_id@.len() <= MAX_THREAD_ID_LENGTH
        &&& unique_ids(self.co_authors@)
        &&& 1 <= self.co_authors@.len() <= MAX_COAUTHORS
        &&& self.messages@.len() <= MAX_MESSAGES
        &&& self.message_count == self.messages@.len()
        &&& self.pending_specs@.len() <= MAX_PENDING_SPECS
        &&& unique_hashes(self.messages@)
        &&& forall|i: int| 0 <= i < self.messages@.len() ==> (#[trigger] self.messages@[i]).wf()
        &&& forall|i: int|
            0 <= i < self.pending_specs@.len() ==> (#[trigger] self.pending_specs@[i]).wf()
                && self.pending_specs@[i].stake_amount >= self.minimum_stake
        &&& self.created_at <= self.updated_at
    }
}

/// Whether `ids` contains `x`.
pub fn contains_id(ids: &Vec<u64>, x: u64) -> (r: bool)
    ensures
        r == ids@.contains(x),
{
    let mut k: usize = 0;
    while k < ids.len()
        invariant
            k <= ids@.len(),
            forall|i: int| 0 <= i < k ==> ids@[i] != x,
        decreases ids@.len() - k,
    {
        if ids[k] == x {
            return true;
        }
        k += 1;
    }
    false
}

/// A copy of an identity list, used to snapshot the co-author set as the
/// baseline voter set of a new message or spec.
pub fn copy_ids(ids: &Vec<u64>) -> (r: Vec<u64>)
    ensures
        r@ == ids@,
{
    let mut r: Vec<u64> = Vec::new();
    let mut k: usize = 0;
    while k < ids.len()
        invariant
            k <= ids@.len(),
            r@ == ids@.take(k as int),
        decreases ids@.len() - k,
    {
        r.push(ids[k]);
        proof {
            assert(ids@.take(k as int).push(ids@[k as int]) =~= ids@.take(k as int + 1));
        }
        k += 1;
    }
    proof {
        assert(ids@.take(ids@.len() as int) =~= ids@);
    }
    r
}

/// Whether two content hashes are equal, byte for byte.
pub fn hash_eq(a: &[u8; 32], b: &[u8; 32]) -> (r: bool)
    ensures
        r == (a@ == b@),
{
    let mut k: usize = 0;
    while k < 32
        invariant
            k <= 32,
            forall|i: int| 0 <= i < k ==> a@[i] == b@[i],
        decreases 32 - k,
    {
        if a[k] != b[k] {
            return false;
        }
        k += 1;
    }
    proof {
        assert(a@ =~= b@);
    }
    true
}

/// Whether some message of the thread already carries `hash`.
pub fn find_hash(messages: &Vec<Message>, hash: &[u8; 32]) -> (r: bool)
    ensures
        r == hash_present(messages@, hash@),
{
    let mut k: usize = 0;
    while k < messages.len()
        invariant
            k <= messages@.len(),
            forall|i: int| 0 <= i < k ==> messages@[i].content_hash@ != hash@,
        decreases messages@.len() - k,
    {
        if hash_eq(&messages[k].content_hash, hash) {
            return true;
        }
        k += 1;
    }
    false
}

/// A timestamp advanced to `now`: timestamps never move backwards, even if
/// the clock reports an earlier instant than a prior operation saw.
pub open spec fn advance(ts: i64, now: i64) -> i64 {
    if now > ts {
        now
    } else {
        ts
    }
}

/// Whether `voter` already holds a vote among `approvals`.
pub fn find_vote(approvals: &Vec<Approval>, voter: u64) -> (r: bool)
    ensures
        r == has_vote(approvals@, voter),
{
    let mut k: usize = 0;
    while k < approvals.len()
        invariant
            k <= approvals@.len(),
            forall|i: int| 0 <= i < k ==> approvals@[i].co_author != voter,
        decreases approvals@.len() - k,
    {
        if approvals[k].co_author == voter {
            return true;
        }
        k += 1;
    }
    false
}

/// Whether `voter` already holds an approving vote among `approvals`.
pub fn find_approving_vote(approvals: &Vec<Approval>, voter: u64) -> (r: bool)
    ensures
        r == has_approving_vote(approvals@, voter),
{
    let mut k: usize = 0;
    while k < approvals.len()
        invariant
            k <= approvals@.len(),
            forall|i: int|
                0 <= i < k ==> !(approvals@[i].co_author == voter && approvals@[i].approved),
        decreases approvals@.len() - k,
    {
        if approvals[k].co_author == voter && approvals[k].approved {
            return true;
        }
        k += 1;
    }
    false
}

/// Whether any denial occurs among `approvals`.
pub fn find_denial(approvals: &Vec<Approval>) -> (r: bool)
    ensures
        r == has_denial(approvals@),
{
    let mut k: usize = 0;
    while k < approvals.len()
        invariant
            k <= approvals@.len(),
            forall|i: int| 0 <= i < k ==> approvals@[i].approved,
        decreases approvals@.len() - k,
    {
        if !approvals[k].approved {
            return true;
        }
        k += 1;
    }
    false
}

/// Whether an approving vote by `voter` would complete unanimity over the
/// baseline voter set.
pub fn check_unanimous_with(approvals: &Vec<Approval>, eligible: &Vec<u64>, voter: u64) -> (r: bool)
    ensures
        r == unanimous_with(approvals@, eligible@, voter),
{
    let mut k: usize = 0;
    while k < eligible.len()
        invariant
            k <= eligible@.len(),
            forall|i: int|
                0 <= i < k ==> eligible@[i] == voter || has_approving_vote(
                    approvals@,
                    eligible@[i],
                ),
        decreases eligible@.len() - k,
    {
        if eligible[k] != voter && !find_approving_vote(approvals, eligible[k]) {
            return false;
        }
        k += 1;
    }
    true
}

/// Recording an approving vote by `voter` yields unanimity exactly when the
/// remaining baseline voters had already approved.
pub proof fn lemma_unanimous_after_push(
    approvals: Seq<Approval>,
    eligible: Seq<u64>,
    vote: Approval,
)
    requires
        vote.approved,
    ensures
        unanimous(approvals.push(vote), eligible) == unanimous_with(
            approvals,
            eligible,
            vote.co_author,
        ),
{
    assert forall|v: u64| has_approving_vote(approvals, v) implies has_approving_vote(
        approvals.push(vote),
        v,
    ) by {
        let i = choose|i: int|
            0 <= i < approvals.len() && approvals[i].co_author == v && approvals[i].approved;
        assert(approvals.push(vote)[i] == approvals[i]);
    }
    if unanimous_with(approvals, eligible, vote.co_author) {
        assert forall|i: int| 0 <= i < eligible.len() implies has_approving_vote(
            approvals.push(vote),
            eligible[i],
        ) by {
            if eligible[i] == vote.co_author {
                assert(approvals.push(vote)[approvals.len() as int] == vote);
            }
        }
    }
    if unanimous(approvals.push(vote), eligible) {
        assert forall|i: int|
            0 <= i < eligible.len() && eligible[i] != vote.co_author implies has_approving_vote(
            approvals,
            eligible[i],
        ) by {
            let k = choose|k: int|
                0 <= k < approvals.push(vote).len() && approvals.push(vote)[k].co_author
                    == eligible[i] && approvals.push(vote)[k].approved;
            assert(k < approvals.len());
            assert(approvals.push(vote)[k] == approvals[k]);
        }
    }
}

/// A new vote by a voter without a prior vote keeps voters unique.
pub proof fn lemma_unique_voters_push(approvals: Seq<Approval>, vote: Approval)
    requires
        unique_voters(approvals),
        !has_vote(approvals, vote.co_author),
    ensures
        unique_voters(approvals.push(vote)),
{
    let pushed = approvals.push(vote);
    assert forall|i: int, j: int| 0 <= i < j < pushed.len() implies pushed[i].co_author
        != pushed[j].co_author by {
        if j < approvals.len() {
            assert(pushed[i] == approvals[i] && pushed[j] == approvals[j]);
        } else {
            assert(pushed[i] == approvals[i] && pushed[j] == vote);
        }
    }
}

/// A new identity not yet present keeps an identity list unique.
pub proof fn lemma_unique_ids_push(ids: Seq<u64>, id: u64)
    requires
        unique_ids(ids),
        !ids.contains(id),
    ensures
        unique_ids(ids.push(id)),
{
    let pushed = ids.push(id);
    assert forall|i: int, j: int| 0 <= i < j < pushed.len() implies pushed[i] != pushed[j] by {
        if j < ids.len() {
            assert(pushed[i] == ids[i] && pushed[j] == ids[j]);
        } else {
            assert(pushed[i] == ids[i] && pushed[j] == id);
        }
    }
}

/// Pushing a vote neither removes existing votes nor invents votes by other
/// voters, and a denial leaves the approving votes exactly as they were.
pub proof fn lemma_vote_push_effects(approvals: Seq<Approval>, vote: Approval)
    ensures
        forall|v: u64|
            #[trigger] has_vote(approvals.push(vote), v) == (has_vote(approvals, v) || v
                == vote.co_author),
        forall|v: u64|
            #[trigger] has_approving_vote(approvals.push(vote), v) == (has_approving_vote(
                approvals,
                v,
            ) || (v == vote.co_author && vote.approved)),
        has_denial(approvals.push(vote)) == (has_denial(approvals) || !vote.approved),
{
    let pushed = approvals.push(vote);
    assert(pushed[approvals.len() as int] == vote);
    assert forall|v: u64| #[trigger] has_vote(pushed, v) implies (has_vote(approvals, v) || v
        == vote.co_author) by {
        let i = choose|i: int| 0 <= i < pushed.len() && pushed[i].co_author == v;
        if i < approvals.len() {
            assert(pushed[i] == approvals[i]);
        }
    }
    assert forall|v: u64| #[trigger] has_approving_vote(pushed, v) implies (has_approving_vote(
        approvals,
        v,
    ) || (v == vote.co_author && vote.approved)) by {
        let i = choose|i: int|
            0 <= i < pushed.len() && pushed[i].co_author == v && pushed[i].approved;
        if i < approvals.len() {
            assert(pushed[i] == approvals[i]);
        }
    }
    if has_denial(pushed) && vote.approved {
        let i = choose|i: int| 0 <= i < pushed.len() && !pushed[i].approved;
        if i < approvals.len() {
            assert(pushed[i] == approvals[i]);
        }
    }
    assert forall|v: u64| has_vote(approvals, v) implies has_vote(pushed, v) by {
        let i = choose|i: int| 0 <= i < approvals.len() && approvals[i].co_author == v;
        assert(pushed[i] == approvals[i]);
    }
    assert forall|v: u64| has_approving_vote(approvals, v) implies has_approving_vote(
        pushed,
        v,
    ) by {
        let i = choose|i: int|
            0 <= i < approvals.len() && approvals[i].co_author == v && approvals[i].approved;
        assert(pushed[i] == approvals[i]);
    }
    if has_denial(approvals) {
        let i = choose|i: int| 0 <= i < approvals.len() && !approvals[i].approved;
        assert(pushed[i] == approvals[i]);
    }
}

} // verus!
