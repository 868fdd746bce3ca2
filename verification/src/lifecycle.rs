//! The thread lifecycle: the keyed store of threads and the public
//! operations over it.
//!
//! `ChoirState` owns every thread and the stake escrow. Each public
//! operation runs its validation guards, then mutates exactly one thread
//! (and, for spec resolutions, the escrow) as one atomic unit; on any error
//! the state is exactly what it was. The well-formedness predicate `wf`
//! bundles the per-thread invariants, global thread-id uniqueness, the
//! escrow-ticket bookkeeping and value conservation; every operation
//! requires and re-establishes it.
use vstd::prelude::*;

use crate::constants::MIN_STAKE_AMOUNT;
use crate::constants::SPEC_EXPIRATION_TIME;
use crate::constants::MAX_THREAD_ID_LENGTH;
use crate::consensus::all_tickets_ok;
use crate::consensus::expiration_transition;
use crate::consensus::message_vote_rejection;
use crate::consensus::message_vote_transition;
use crate::consensus::process_message_approval;
use crate::consensus::process_spec_approval;
use crate::consensus::process_spec_expiration;
use crate::consensus::spec_vote_rejection;
use crate::consensus::spec_vote_transition;
use crate::consensus::ticket_ok;
use crate::consensus::ConsensusOutcome;
use crate::errors::ChoirError;
use crate::escrow::deposit_sum;
use crate::escrow::outstanding_sum;
use crate::escrow::payout_sum;
use crate::escrow::Payout;
use crate::escrow::StakeEscrow;
use crate::escrow::EscrowTicket;
use crate::thread::advance;
use crate::thread::copy_ids;
use crate::thread::find_hash;
use crate::thread::has_approving_vote;
use crate::thread::hash_present;
use crate::thread::unanimous;
use crate::thread::unique_hashes;
use crate::thread::Approval;
use crate::thread::Message;
use crate::thread::SpecMessage;
use crate::thread::Thread;
use crate::validation::validate_co_author;
use crate::validation::validate_spec_submission;
use crate::validation::validate_thread_state;

verus! {

/// Sum of the token balances of all threads.
pub open spec fn balance_sum(threads: Seq<Thread>) -> int
    decreases threads.len(),
{
    if threads.len() == 0 {
        0
    } else {
        threads[0].token_balance + balance_sum(threads.drop_first())
    }
}

pub proof fn lemma_balance_sum_push(threads: Seq<Thread>, t: Thread)
    ensures
        balance_sum(threads.push(t)) == balance_sum(threads) + t.token_balance,
    decreases threads.len(),
{
    if threads.len() == 0 {
        assert(threads.push(t).drop_first() =~= Seq::<Thread>::empty());
        assert(balance_sum(Seq::<Thread>::empty()) == 0);
    } else {
        assert(threads.push(t).drop_first() =~= threads.drop_first().push(t));
        lemma_balance_sum_push(threads.drop_first(), t);
    }
}

pub proof fn lemma_balance_sum_update(threads: Seq<Thread>, i: int, t: Thread)
    requires
        0 <= i < threads.len(),
    ensures
        balance_sum(threads.update(i, t)) == balance_sum(threads) - threads[i].token_balance
            + t.token_balance,
    decreases threads.len(),
{
    if i == 0 {
        assert(threads.update(0, t).drop_first() =~= threads.drop_first());
    } else {
        assert(threads.update(i, t).drop_first() =~= threads.drop_first().update(i - 1, t));
        lemma_balance_sum_update(threads.drop_first(), i - 1, t);
    }
}

/// No two threads share an id: the store is keyed by thread id.
pub open spec fn distinct_thread_ids(threads: Seq<Thread>) -> bool {
    forall|i: int, j: int|
        0 <= i < j < threads.len() ==> threads[i].thread_id@ != threads[j].thread_id@
}

/// Some thread carries this id.
pub open spec fn thread_with_id(threads: Seq<Thread>, id: Seq<u8>) -> bool {
    exists|i: int| 0 <= i < threads.len() && threads[i].thread_id@ == id
}

/// The index of the thread carrying this id; meaningful only when
/// `thread_with_id` holds, and then unique because ids are distinct.
pub open spec fn idx_of(threads: Seq<Thread>, id: Seq<u8>) -> int {
    choose|i: int| 0 <= i < threads.len() && threads[i].thread_id@ == id
}

/// Under distinct ids, `idx_of` is the one index whose thread carries the
/// id.
pub proof fn lemma_idx_of(threads: Seq<Thread>, id: Seq<u8>)
    requires
        distinct_thread_ids(threads),
        thread_with_id(threads, id),
    ensures
        0 <= idx_of(threads, id) < threads.len(),
        threads[idx_of(threads, id)].thread_id@ == id,
        forall|k: int| 0 <= k < threads.len() && threads[k].thread_id@ == id ==> k == idx_of(
            threads,
            id,
        ),
{
    let i = idx_of(threads, id);
    assert(0 <= i < threads.len() && threads[i].thread_id@ == id);
    assert forall|k: int|
        0 <= k < threads.len() && threads[k].thread_id@ == id implies k == i by {
        if k < i {
            assert(threads[k].thread_id@ != threads[i].thread_id@);
        } else if k > i {
            assert(threads[i].thread_id@ != threads[k].thread_id@);
        }
    }
}

/// Whether two byte strings are equal.
pub fn bytes_eq(a: &Vec<u8>, b: &Vec<u8>) -> (r: bool)
    ensures
        r == (a@ == b@),
{
    if a.len() != b.len() {
        return false;
    }
    let mut k: usize = 0;
    while k < a.len()
        invariant
            a@.len() == b@.len(),
            k <= a@.len(),
            forall|i: int| 0 <= i < k ==> a@[i] == b@[i],
        decreases a@.len() - k,
    {
        if a[k] != b[k] {
            return false;
        }
        k += 1;
    }
    proof {
        assert(a@ =~= b@);
    }
    true
}

/// A sequence is a prefix of itself.
pub proof fn lemma_prefix_refl(ids: Seq<u64>)
    ensures
        ids.is_prefix_of(ids),
{
    assert(ids =~= ids.subrange(0, ids.len() as int));
}

/// A sequence is a prefix of itself extended by one element.
pub proof fn lemma_prefix_push(ids: Seq<u64>, id: u64)
    ensures
        ids.is_prefix_of(ids.push(id)),
{
    assert(ids =~= ids.push(id).subrange(0, ids.len() as int));
}

/// Every thread's co-author list is a prefix of itself: the reflexive base
/// case of co-author monotonicity.
proof fn lemma_prefix_refl_all(threads: Seq<Thread>)
    ensures
        forall|k: int|
            0 <= k < threads.len() ==> (#[trigger] threads[k]).co_authors@.is_prefix_of(
                threads[k].co_authors@,
            ),
{
    assert forall|k: int|
        0 <= k < threads.len() implies (#[trigger] threads[k]).co_authors@.is_prefix_of(
        threads[k].co_authors@,
    ) by {
        lemma_prefix_refl(threads[k].co_authors@);
    }
}

/// The pending specs of `t2` reference the same escrow tickets, stakes and
/// authors as those of `t1`, position by position.
pub open spec fn same_tickets(p1: Seq<SpecMessage>, p2: Seq<SpecMessage>) -> bool {
    &&& p1.len() == p2.len()
    &&& forall|j: int|
        0 <= j < p1.len() ==> (#[trigger] p2[j]).ticket == p1[j].ticket && p2[j].stake_amount
            == p1[j].stake_amount && p2[j].author == p1[j].author
}

/// The whole system: the keyed thread store and the stake escrow.
#[derive(Clone, Debug)]
pub struct ChoirState {
    /// Every thread, keyed by its unique id.
    pub threads: Vec<Thread>,
    /// The escrow holding the stakes of all pending specs.
    pub escrow: StakeEscrow,
}

impl ChoirState {
    /// Every thread satisfies its own invariants.
    pub open spec fn threads_wf(self) -> bool {
        forall|i: int| 0 <= i < self.threads@.len() ==> (#[trigger] self.threads@[i]).wf()
    }

    /// Every pending spec of every thread holds a live, matching escrow
    /// ticket, and no two pending specs share a ticket; releasing one spec's
    /// stake therefore never touches another's.
    pub open spec fn tickets_wf(self) -> bool {
        &&& forall|i: int|
            0 <= i < self.threads@.len() ==> all_tickets_ok(
                #[trigger] self.threads@[i],
                self.escrow,
            )
        &&& forall|i1: int, j1: int, i2: int, j2: int|
            0 <= i1 < self.threads@.len() && 0 <= j1 < self.threads@[i1].pending_specs@.len() && 0
                <= i2 < self.threads@.len() && 0 <= j2 < self.threads@[i2].pending_specs@.len() && (
            i1 != i2 || j1 != j2) ==> (#[trigger] self.threads@[i1].pending_specs@[j1].ticket) != (
            #[trigger] self.threads@[i2].pending_specs@[j2].ticket)
    }

    /// Value conservation: what was ever deposited into escrow is exactly
    /// what sits in thread balances, plus what escrow still holds, plus what
    /// was paid out to external recipients. No operation creates or destroys
    /// value.
    pub open spec fn conserved(self) -> bool {
        balance_sum(self.threads@) + outstanding_sum(self.escrow.tickets@) + payout_sum(
            self.escrow.transfers@,
        ) == deposit_sum(self.escrow.tickets@)
    }

    /// The invariant every operation requires and re-establishes.
    pub open spec fn wf(self) -> bool {
        &&& self.threads_wf()
        &&& distinct_thread_ids(self.threads@)
        &&& self.tickets_wf()
        &&& self.conserved()
    }

    /// An empty system: no threads, nothing in escrow.
    pub fn new() -> (s: Self)
        ensures
            s.wf(),
            s.threads@.len() == 0,
            s.escrow.tickets@.len() == 0,
            s.escrow.transfers@.len() == 0,
    {
        ChoirState { threads: Vec::new(), escrow: StakeEscrow::new() }
    }

    /// Look a thread up by id.
    pub fn find_thread(&self, thread_id: &Vec<u8>) -> (r: Option<usize>)
        requires
            distinct_thread_ids(self.threads@),
        ensures
            match r {
                Some(i) => i == idx_of(self.threads@, thread_id@) && i < self.threads@.len()
                    && self.threads@[i as int].thread_id@ == thread_id@ && thread_with_id(
                    self.threads@,
                    thread_id@,
                ),
                None => !thread_with_id(self.threads@, thread_id@),
            },
    {
        let mut k: usize = 0;
        while k < self.threads.len()
            invariant
                distinct_thread_ids(self.threads@),
                k <= self.threads@.len(),
                forall|i: int| 0 <= i < k ==> self.threads@[i].thread_id@ != thread_id@,
            decreases self.threads@.len() - k,
        {
            if bytes_eq(&self.threads[k].thread_id, thread_id) {
                proof {
                    lemma_idx_of(self.threads@, thread_id@);
                }
                return Some(k);
            }
            k += 1;
        }
        None
    }

    /// How many threads the store holds.
    pub fn thread_count(&self) -> (n: usize)
        ensures
            n == self.threads@.len(),
    {
        self.threads.len()
    }

    /// The thread at a store index.
    pub fn get_thread(&self, i: usize) -> (t: &Thread)
        requires
            i < self.threads@.len(),
        ensures
            *t == self.threads@[i as int],
    {
        &self.threads[i]
    }

    /// Create a new thread owned by `creator` alone, with an empty log, a
    /// zero balance and the default minimum stake. Fails if the id is longer
    /// than 32 bytes or already taken; on success returns the store index of
    /// the new thread.
    pub fn initialize_thread(&mut self, thread_id: Vec<u8>, creator: u64, now: i64) -> (r: Result<
        usize,
        ChoirError,
    >)
        requires
            old(self).wf(),
        ensures
            final(self).wf(),
            final(self).threads@.len() >= old(self).threads@.len(),
            forall|k: int|
                0 <= k < old(self).threads@.len() ==> (
                #[trigger] old(self).threads@[k]).co_authors@.is_prefix_of(
                    final(self).threads@[k].co_authors@,
                ),
            match r {
                Ok(i) => {
                    &&& thread_id@.len() <= MAX_THREAD_ID_LENGTH
                    &&& !thread_with_id(old(self).threads@, thread_id@)
                    &&& i == old(self).threads@.len()
                    &&& final(self).threads@.len() == old(self).threads@.len() + 1
                    &&& final(self).threads@ == old(self).threads@.push(
                        final(self).threads@[i as int],
                    )
                    &&& ({
                        let t = final(self).threads@[i as int];
                        &&& t.thread_id@ == thread_id@
                        &&& t.created_at == now
                        &&& t.updated_at == now
                        &&& t.co_authors@ == seq![creator]
                        &&& t.token_balance == 0
                        &&& t.minimum_stake == MIN_STAKE_AMOUNT
                        &&& t.message_count == 0
                        &&& t.messages@.len() == 0
                        &&& t.pending_specs@.len() == 0
                    })
                    &&& final(self).escrow == old(self).escrow
                },
                Err(e) => {
                    &&& *final(self) == *old(self)
                    &&& if thread_id@.len() > MAX_THREAD_ID_LENGTH {
                        e == ChoirError::ThreadIdTooLong
                    } else {
                        thread_with_id(old(self).threads@, thread_id@) && e
                            == ChoirError::DuplicateId
                    }
                },
            },
    {
        if thread_id.len() > MAX_THREAD_ID_LENGTH {
            proof {
                lemma_prefix_refl_all(self.threads@);
            }
            return Err(ChoirError::ThreadIdTooLong);
        }
        match self.find_thread(&thread_id) {
            Some(_) => {
                proof {
                    lemma_prefix_refl_all(self.threads@);
                }
                return Err(ChoirError::DuplicateId);
            },
            None => {},
        }
        let i = self.threads.len();
        let mut co_authors: Vec<u64> = Vec::new();
        co_authors.push(creator);
        let t = Thread {
            thread_id,
            created_at: now,
            updated_at: now,
            co_authors,
            token_balance: 0,
            minimum_stake: MIN_STAKE_AMOUNT,
            message_count: 0,
            messages: Vec::new(),
            pending_specs: Vec::new(),
        };
        proof {
            lemma_balance_sum_push(self.threads@, t);
            assert(t.co_authors@ =~= seq![creator]);
            assert(t.wf());
        }
        self.threads.push(t);
        proof {
            let threads2 = self.threads@;
            let threads1 = old(self).threads@;
            assert forall|a: int, b: int|
                0 <= a < b < threads2.len() implies threads2[a].thread_id@
                != threads2[b].thread_id@ by {
                if b < threads1.len() {
                    assert(threads2[a] == threads1[a] && threads2[b] == threads1[b]);
                } else {
                    assert(threads2[a] == threads1[a]);
                    assert(threads2[b] == t);
                    assert(!(threads1[a].thread_id@ == t.thread_id@));
                }
            }
            assert forall|k: int| 0 <= k < threads2.len() implies (#[trigger] threads2[k]).wf()
                && all_tickets_ok(threads2[k], self.escrow) by {
                if k < threads1.len() {
                    assert(threads2[k] == threads1[k]);
                    assert(all_tickets_ok(threads1[k], self.escrow));
                } else {
                    assert(threads2[k] == t);
                }
            }
            assert forall|i1: int, j1: int, i2: int, j2: int|
                0 <= i1 < threads2.len() && 0 <= j1 < threads2[i1].pending_specs@.len() && 0 <= i2
                    < threads2.len() && 0 <= j2 < threads2[i2].pending_specs@.len() && (i1 != i2
                || j1 != j2) implies (#[trigger] threads2[i1].pending_specs@[j1].ticket) != (
            #[trigger] threads2[i2].pending_specs@[j2].ticket) by {
                assert(i1 < threads1.len() && i2 < threads1.len());
                assert(threads2[i1] == threads1[i1] && threads2[i2] == threads1[i2]);
            }
            lemma_prefix_refl_all(threads1);
            assert forall|k: int|
                0 <= k < threads1.len() implies (
            #[trigger] threads1[k]).co_authors@.is_prefix_of(
                self.threads@[k].co_authors@,
            ) by {
                assert(self.threads@[k] == threads1[k]);
            }
            assert(final(self).wf());
        }
        Ok(i)
    }

    /// Append a pending message to the thread with this id. The author must
    /// be a co-author, the thread must be below its message capacity, and
    /// the content hash must be new to the thread; on success returns the
    /// index of the new message, which carries the current co-author set as
    /// its baseline voter set.
    pub fn submit_message(
        &mut self,
        thread_id: &Vec<u8>,
        author: u64,
        content_hash: [u8; 32],
        now: i64,
    ) -> (r: Result<usize, ChoirError>)
        requires
            old(self).wf(),
        ensures
            final(self).wf(),
            final(self).threads@.len() == old(self).threads@.len(),
            forall|k: int|
                0 <= k < old(self).threads@.len() ==> (
                #[trigger] old(self).threads@[k]).co_authors@.is_prefix_of(
                    final(self).threads@[k].co_authors@,
                ),
            match r {
                Ok(idx) => ({
                    let ti = idx_of(old(self).threads@, thread_id@);
                    let t = old(self).threads@[ti];
                    let t2 = final(self).threads@[ti];
                    let m = t2.messages@[idx as int];
                    &&& thread_with_id(old(self).threads@, thread_id@)
                    &&& t.co_authors@.contains(author)
                    &&& t.messages@.len() < crate::constants::MAX_MESSAGES
                    &&& !hash_present(t.messages@, content_hash@)
                    &&& idx == t.messages@.len()
                    &&& final(self).threads@ == old(self).threads@.update(ti, t2)
                    &&& t2.messages@ == t.messages@.push(m)
                    &&& m.author == author
                    &&& m.content_hash@ == content_hash@
                    &&& m.timestamp == now
                    &&& m.approvals@.len() == 0
                    &&& !m.is_published
                    &&& m.eligible_voters@ == t.co_authors@
                    &&& t2.message_count == t.message_count + 1
                    &&& t2.updated_at == advance(t.updated_at, now)
                    &&& t2.thread_id@ == t.thread_id@
                    &&& t2.created_at == t.created_at
                    &&& t2.co_authors@ == t.co_authors@
                    &&& t2.token_balance == t.token_balance
                    &&& t2.minimum_stake == t.minimum_stake
                    &&& t2.pending_specs@ == t.pending_specs@
                    &&& final(self).escrow == old(self).escrow
                }),
                Err(e) => *final(self) == *old(self) && ({
                    let ts = old(self).threads@;
                    if !thread_with_id(ts, thread_id@) {
                        e == ChoirError::ThreadNotFound
                    } else {
                        let t = ts[idx_of(ts, thread_id@)];
                        if !t.co_authors@.contains(author) {
                            e == ChoirError::NotCoAuthor
                        } else if t.message_count >= crate::constants::MAX_MESSAGES {
                            e == ChoirError::ThreadFull
                        } else {
                            hash_present(t.messages@, content_hash@) && e
                                == ChoirError::DuplicateContent
                        }
                    }
                }),
            },
    {
        let ti = match self.find_thread(thread_id) {
            None => {
                proof {
                    lemma_prefix_refl_all(self.threads@);
                }
                return Err(ChoirError::ThreadNotFound);
            },
            Some(i) => i,
        };
        match validate_co_author(&self.threads[ti], author) {
            Err(e) => {
                proof {
                    lemma_prefix_refl_all(self.threads@);
                }
                return Err(e);
            },
            Ok(()) => {},
        }
        match validate_thread_state(&self.threads[ti]) {
            Err(e) => {
                proof {
                    lemma_prefix_refl_all(self.threads@);
                }
                return Err(e);
            },
            Ok(()) => {},
        }
        if find_hash(&self.threads[ti].messages, &content_hash) {
            proof {
                lemma_prefix_refl_all(self.threads@);
            }
            return Err(ChoirError::DuplicateContent);
        }
        let ghost pre = *self;
        let ghost t_old = self.threads@[ti as int];
        let eligible = copy_ids(&self.threads[ti].co_authors);
        let m = Message {
            author,
            content_hash,
            timestamp: now,
            approvals: Vec::new(),
            is_published: false,
            eligible_voters: eligible,
        };
        let t = &mut self.threads[ti];
        let idx = t.messages.len();
        t.messages.push(m);
        t.message_count = t.message_count + 1;
        if now > t.updated_at {
            t.updated_at = now;
        }
        proof {
            let t2 = self.threads@[ti as int];
            let m2 = t2.messages@[idx as int];
            assert(!unanimous(m2.approvals@, m2.eligible_voters@)) by {
                assert(!has_approving_vote(m2.approvals@, m2.eligible_voters@[0]));
            }
            assert(m2.wf());
            assert(unique_hashes(t2.messages@)) by {
                assert forall|a: int, b: int|
                    0 <= a < b < t2.messages@.len() implies t2.messages@[a].content_hash@
                    != t2.messages@[b].content_hash@ by {
                    if b < t_old.messages@.len() {
                        assert(t2.messages@[a] == t_old.messages@[a]);
                        assert(t2.messages@[b] == t_old.messages@[b]);
                    } else {
                        assert(t2.messages@[a] == t_old.messages@[a]);
                        assert(t2.messages@[b] == m2);
                        assert(!(t_old.messages@[a].content_hash@ == content_hash@));
                    }
                }
            }
            assert forall|a: int| 0 <= a < t2.messages@.len() implies (
            #[trigger] t2.messages@[a]).wf() by {
                if a < t_old.messages@.len() {
                    assert(t2.messages@[a] == t_old.messages@[a]);
                }
            }
            assert(t2.wf());
            lemma_state_wf_after_thread_update(pre, *self, ti as int);
            lemma_prefix_refl_all(pre.threads@);
            assert forall|k: int|
                0 <= k < pre.threads@.len() implies (
            #[trigger] pre.threads@[k]).co_authors@.is_prefix_of(
                self.threads@[k].co_authors@,
            ) by {
                if k != ti {
                    assert(self.threads@[k] == pre.threads@[k]);
                }
            }
        }
        Ok(idx)
    }

    /// Append a pending spec to the thread with this id, holding its stake
    /// in escrow. The author must be an outsider, the thread must have room
    /// for another pending spec, and the stake must meet the thread's
    /// minimum; on success returns the index of the new spec, which expires
    /// seven days after submission.
    pub fn submit_spec(
        &mut self,
        thread_id: &Vec<u8>,
        author: u64,
        content_hash: [u8; 32],
        stake_amount: u64,
        now: i64,
    ) -> (r: Result<usize, ChoirError>)
        requires
            old(self).wf(),
            now <= i64::MAX - SPEC_EXPIRATION_TIME,
        ensures
            final(self).wf(),
            final(self).threads@.len() == old(self).threads@.len(),
            forall|k: int|
                0 <= k < old(self).threads@.len() ==> (
                #[trigger] old(self).threads@[k]).co_authors@.is_prefix_of(
                    final(self).threads@[k].co_authors@,
                ),
            match r {
                Ok(idx) => ({
                    let ti = idx_of(old(self).threads@, thread_id@);
                    let t = old(self).threads@[ti];
                    let t2 = final(self).threads@[ti];
                    let s = t2.pending_specs@[idx as int];
                    &&& thread_with_id(old(self).threads@, thread_id@)
                    &&& !t.co_authors@.contains(author)
                    &&& t.pending_specs@.len() < crate::constants::MAX_PENDING_SPECS
                    &&& stake_amount >= t.minimum_stake
                    &&& idx == t.pending_specs@.len()
                    &&& final(self).threads@ == old(self).threads@.update(ti, t2)
                    &&& t2.pending_specs@ == t.pending_specs@.push(s)
                    &&& s.author == author
                    &&& s.content_hash@ == content_hash@
                    &&& s.timestamp == now
                    &&& s.stake_amount == stake_amount
                    &&& s.approvals@.len() == 0
                    &&& s.expires_at == now + SPEC_EXPIRATION_TIME
                    &&& s.eligible_voters@ == t.co_authors@
                    &&& s.ticket == old(self).escrow.tickets@.len()
                    &&& t2.updated_at == advance(t.updated_at, now)
                    &&& t2.thread_id@ == t.thread_id@
                    &&& t2.created_at == t.created_at
                    &&& t2.co_authors@ == t.co_authors@
                    &&& t2.token_balance == t.token_balance
                    &&& t2.minimum_stake == t.minimum_stake
                    &&& t2.messages@ == t.messages@
                    &&& t2.message_count == t.message_count
                    &&& final(self).escrow.tickets@ == old(self).escrow.tickets@.push(
                        (EscrowTicket { staker: author, amount: stake_amount, released: false }),
                    )
                    &&& final(self).escrow.transfers@ == old(self).escrow.transfers@
                }),
                Err(e) => *final(self) == *old(self) && ({
                    let ts = old(self).threads@;
                    if !thread_with_id(ts, thread_id@) {
                        e == ChoirError::ThreadNotFound
                    } else {
                        let t = ts[idx_of(ts, thread_id@)];
                        if t.co_authors@.contains(author) {
                            e == ChoirError::AlreadyCoAuthor
                        } else if t.pending_specs@.len()
                            >= crate::constants::MAX_PENDING_SPECS {
                            e == ChoirError::TooManyPendingSpecs
                        } else {
                            stake_amount < t.minimum_stake && e == ChoirError::InsufficientStake
                        }
                    }
                }),
            },
    {
        let ti = match self.find_thread(thread_id) {
            None => {
                proof {
                    lemma_prefix_refl_all(self.threads@);
                }
                return Err(ChoirError::ThreadNotFound);
            },
            Some(i) => i,
        };
        match validate_spec_submission(&self.threads[ti], author, stake_amount) {
            Err(e) => {
                proof {
                    lemma_prefix_refl_all(self.threads@);
                }
                return Err(e);
            },
            Ok(()) => {},
        }
        let ghost pre = *self;
        let ghost t_old = self.threads@[ti as int];
        let eligible = copy_ids(&self.threads[ti].co_authors);
        let ticket = self.escrow.hold(author, stake_amount);
        let s = SpecMessage {
            author,
            content_hash,
            timestamp: now,
            stake_amount,
            approvals: Vec::new(),
            expires_at: now + SPEC_EXPIRATION_TIME,
            eligible_voters: eligible,
            ticket,
        };
        let t = &mut self.threads[ti];
        let idx = t.pending_specs.len();
        t.pending_specs.push(s);
        if now > t.updated_at {
            t.updated_at = now;
        }
        proof {
            let ts1 = pre.threads@;
            let ts2 = self.threads@;
            let t2 = ts2[ti as int];
            let s2 = t2.pending_specs@[idx as int];
            assert(!unanimous(s2.approvals@, s2.eligible_voters@)) by {
                assert(!has_approving_vote(s2.approvals@, s2.eligible_voters@[0]));
            }
            assert(s2.wf());
            assert forall|a: int| 0 <= a < t2.pending_specs@.len() implies (
            #[trigger] t2.pending_specs@[a]).wf() && t2.pending_specs@[a].stake_amount
                >= t2.minimum_stake by {
                if a < t_old.pending_specs@.len() {
                    assert(t2.pending_specs@[a] == t_old.pending_specs@[a]);
                }
            }
            assert(t2.wf());
            // Identity and per-thread invariants for the untouched threads.
            assert forall|a: int, b: int| 0 <= a < b < ts2.len() implies ts2[a].thread_id@
                != ts2[b].thread_id@ by {
                assert(ts1[a].thread_id@ != ts1[b].thread_id@);
                assert(ts2[a].thread_id@ == ts1[a].thread_id@);
                assert(ts2[b].thread_id@ == ts1[b].thread_id@);
            }
            // Every pending spec still holds a live matching ticket: the new
            // ticket was appended, so the old ones are untouched, and every
            // old reference lies below the new ticket's index.
            assert forall|i: int| 0 <= i < ts2.len() implies (#[trigger] ts2[i]).wf()
                && all_tickets_ok(ts2[i], self.escrow) by {
                assert forall|j: int| 0 <= j < ts2[i].pending_specs@.len() implies ticket_ok(
                    #[trigger] ts2[i].pending_specs@[j],
                    self.escrow,
                ) by {
                    if i == ti && j == idx {
                        assert(ts2[i].pending_specs@[j] == s2);
                    } else {
                        let s1 = if i == ti {
                            t_old.pending_specs@[j]
                        } else {
                            ts1[i].pending_specs@[j]
                        };
                        assert(ts2[i].pending_specs@[j] == s1);
                        assert(ticket_ok(s1, pre.escrow));
                        assert(self.escrow.tickets@[s1.ticket as int] == pre.escrow.tickets@[s1.ticket as int]);
                    }
                }
                if i != ti {
                    assert(ts2[i] == ts1[i]);
                }
            }
            assert forall|i1: int, j1: int, i2: int, j2: int|
                0 <= i1 < ts2.len() && 0 <= j1 < ts2[i1].pending_specs@.len() && 0 <= i2
                    < ts2.len() && 0 <= j2 < ts2[i2].pending_specs@.len() && (i1 != i2 || j1 != j2)
                implies (#[trigger] ts2[i1].pending_specs@[j1].ticket) != (
            #[trigger] ts2[i2].pending_specs@[j2].ticket) by {
                if i1 == ti && j1 == idx {
                    assert(ticket_ok(ts1[i2].pending_specs@[j2], pre.escrow));
                } else if i2 == ti && j2 == idx {
                    assert(ticket_ok(ts1[i1].pending_specs@[j1], pre.escrow));
                } else {
                    assert(ts2[i1].pending_specs@[j1] == ts1[i1].pending_specs@[j1]);
                    assert(ts2[i2].pending_specs@[j2] == ts1[i2].pending_specs@[j2]);
                }
            }
            lemma_balance_sum_update(ts1, ti as int, t2);
            assert(ts2 == ts1.update(ti as int, t2));
            lemma_prefix_refl_all(pre.threads@);
            assert forall|k: int|
                0 <= k < pre.threads@.len() implies (
            #[trigger] pre.threads@[k]).co_authors@.is_prefix_of(
                self.threads@[k].co_authors@,
            ) by {
                if k != ti {
                    assert(self.threads@[k] == pre.threads@[k]);
                }
            }
            assert(final(self).wf());
        }
        Ok(idx)
    }

    /// Record a vote by `co_author` on the target at `message_index` of the
    /// thread with this id, and resolve the target if the vote decides it.
    /// Guard checks, vote recording and resolution side effects form one
    /// atomic unit: on any error the state is unchanged.
    pub fn process_approval(
        &mut self,
        thread_id: &Vec<u8>,
        co_author: u64,
        message_index: u32,
        is_spec: bool,
        approved: bool,
        now: i64,
    ) -> (r: Result<ConsensusOutcome, ChoirError>)
        requires
            old(self).wf(),
        ensures
            final(self).wf(),
            final(self).threads@.len() == old(self).threads@.len(),
            forall|k: int|
                0 <= k < old(self).threads@.len() ==> (
                #[trigger] old(self).threads@[k]).co_authors@.is_prefix_of(
                    final(self).threads@[k].co_authors@,
                ),
            match r {
                Ok(outcome) => ({
                    let ti = idx_of(old(self).threads@, thread_id@);
                    let t = old(self).threads@[ti];
                    let t2 = final(self).threads@[ti];
                    let approval = (Approval { co_author, approved, timestamp: now });
                    &&& thread_with_id(old(self).threads@, thread_id@)
                    &&& t.co_authors@.contains(co_author)
                    &&& final(self).threads@ == old(self).threads@.update(ti, t2)
                    &&& if is_spec {
                        &&& spec_vote_rejection(t, message_index as int, approval, now) is None
                        &&& spec_vote_transition(
                            t,
                            t2,
                            old(self).escrow,
                            final(self).escrow,
                            message_index as int,
                            approval,
                            now,
                            outcome,
                        )
                    } else {
                        &&& message_vote_rejection(t, message_index as int, co_author) is None
                        &&& message_vote_transition(
                            t,
                            t2,
                            message_index as int,
                            approval,
                            now,
                            outcome,
                        )
                        &&& final(self).escrow == old(self).escrow
                    }
                }),
                Err(e) => ({
                    let ts = old(self).threads@;
                    &&& final(self).threads@ == ts
                    &&& final(self).escrow == old(self).escrow
                    &&& if !thread_with_id(ts, thread_id@) {
                        e == ChoirError::ThreadNotFound
                    } else {
                        let t = ts[idx_of(ts, thread_id@)];
                        if !t.co_authors@.contains(co_author) {
                            e == ChoirError::NotCoAuthor
                        } else if is_spec {
                            Some(e) == spec_vote_rejection(
                                t,
                                message_index as int,
                                (Approval { co_author, approved, timestamp: now }),
                                now,
                            )
                        } else {
                            Some(e) == message_vote_rejection(t, message_index as int, co_author)
                        }
                    }
                }),
            },
    {
        let ti = match self.find_thread(thread_id) {
            None => {
                proof {
                    lemma_prefix_refl_all(self.threads@);
                }
                return Err(ChoirError::ThreadNotFound);
            },
            Some(i) => i,
        };
        match validate_co_author(&self.threads[ti], co_author) {
            Err(e) => {
                proof {
                    lemma_prefix_refl_all(self.threads@);
                }
                return Err(e);
            },
            Ok(()) => {},
        }
        let approval = Approval { co_author, approved, timestamp: now };
        let ghost pre = *self;
        if is_spec {
            proof {
                assert(all_tickets_ok(pre.threads@[ti as int], pre.escrow));
            }
            let res = process_spec_approval(
                &mut self.threads[ti],
                &mut self.escrow,
                message_index,
                approval,
                now,
            );
            proof {
                let ts1 = pre.threads@;
                let t = ts1[ti as int];
                let t2 = self.threads@[ti as int];
                let idx = message_index as int;
                match res {
                    Ok(outcome) => {
                        let s = t.pending_specs@[idx];
                        if outcome == ConsensusOutcome::Pending {
                            assert(same_tickets(t.pending_specs@, t2.pending_specs@)) by {
                                assert forall|j: int|
                                    0 <= j < t.pending_specs@.len() implies (
                                #[trigger] t2.pending_specs@[j]).ticket
                                    == t.pending_specs@[j].ticket && t2.pending_specs@[j].stake_amount
                                    == t.pending_specs@[j].stake_amount
                                    && t2.pending_specs@[j].author
                                    == t.pending_specs@[j].author by {
                                    if j != idx {
                                        assert(t2.pending_specs@[j] == t.pending_specs@[j]);
                                    }
                                }
                            }
                            lemma_state_wf_after_thread_update(pre, *self, ti as int);
                            lemma_prefix_refl_all(ts1);
                            assert forall|k: int|
                                0 <= k < ts1.len() implies (
                            #[trigger] ts1[k]).co_authors@.is_prefix_of(
                                self.threads@[k].co_authors@,
                            ) by {
                                if k != ti {
                                    assert(self.threads@[k] == ts1[k]);
                                }
                            }
                        } else if outcome == ConsensusOutcome::Denied {
                            assert(self.escrow.transfers@.last() == (Payout {
                                recipient: co_author,
                                amount: s.stake_amount,
                            }));
                            lemma_state_wf_after_spec_resolution(pre, *self, ti as int, idx, false);
                            lemma_prefix_refl_all(ts1);
                            assert forall|k: int|
                                0 <= k < ts1.len() implies (
                            #[trigger] ts1[k]).co_authors@.is_prefix_of(
                                self.threads@[k].co_authors@,
                            ) by {
                                if k != ti {
                                    assert(self.threads@[k] == ts1[k]);
                                }
                            }
                        } else {
                            assert(outcome == ConsensusOutcome::Approved);
                            lemma_state_wf_after_spec_resolution(pre, *self, ti as int, idx, true);
                            lemma_prefix_refl_all(ts1);
                            lemma_prefix_push(t.co_authors@, s.author);
                            assert forall|k: int|
                                0 <= k < ts1.len() implies (
                            #[trigger] ts1[k]).co_authors@.is_prefix_of(
                                self.threads@[k].co_authors@,
                            ) by {
                                if k != ti {
                                    assert(self.threads@[k] == ts1[k]);
                                }
                            }
                        }
                    },
                    Err(_) => {
                        assert(self.threads@ =~= ts1);
                        lemma_prefix_refl_all(ts1);
                    },
                }
            }
            res
        } else {
            let res = process_message_approval(&mut self.threads[ti], message_index, approval, now);
            proof {
                let ts1 = pre.threads@;
                let t = ts1[ti as int];
                let t2 = self.threads@[ti as int];
                match res {
                    Ok(_) => {
                        assert(same_tickets(t.pending_specs@, t2.pending_specs@));
                        lemma_state_wf_after_thread_update(pre, *self, ti as int);
                        lemma_prefix_refl_all(ts1);
                        assert forall|k: int|
                            0 <= k < ts1.len() implies (
                        #[trigger] ts1[k]).co_authors@.is_prefix_of(
                            self.threads@[k].co_authors@,
                        ) by {
                            if k != ti {
                                assert(self.threads@[k] == ts1[k]);
                            }
                        }
                    },
                    Err(_) => {
                        assert(self.threads@ =~= ts1);
                        lemma_prefix_refl_all(ts1);
                    },
                }
            }
            res
        }
    }

    /// Resolve the lazy expiration of the spec at `spec_index` of the thread
    /// with this id: past its expiration instant the stake returns to the
    /// staker and the spec is dropped (Expired); before it nothing changes
    /// (the spec is still Pending).
    pub fn resolve_expired_spec(
        &mut self,
        thread_id: &Vec<u8>,
        spec_index: u32,
        now: i64,
    ) -> (r: Result<ConsensusOutcome, ChoirError>)
        requires
            old(self).wf(),
        ensures
            final(self).wf(),
            final(self).threads@.len() == old(self).threads@.len(),
            forall|k: int|
                0 <= k < old(self).threads@.len() ==> (
                #[trigger] old(self).threads@[k]).co_authors@.is_prefix_of(
                    final(self).threads@[k].co_authors@,
                ),
            match r {
                Ok(outcome) => ({
                    let ti = idx_of(old(self).threads@, thread_id@);
                    let t = old(self).threads@[ti];
                    let t2 = final(self).threads@[ti];
                    &&& thread_with_id(old(self).threads@, thread_id@)
                    &&& spec_index < t.pending_specs@.len()
                    &&& final(self).threads@ == old(self).threads@.update(ti, t2)
                    &&& if outcome == ConsensusOutcome::Expired {
                        expiration_transition(
                            t,
                            t2,
                            old(self).escrow,
                            final(self).escrow,
                            spec_index as int,
                            now,
                        )
                    } else {
                        &&& outcome == ConsensusOutcome::Pending
                        &&& !t.pending_specs@[spec_index as int].is_expired(now)
                        &&& final(self).threads@ == old(self).threads@
                        &&& final(self).escrow == old(self).escrow
                    }
                }),
                Err(e) => ({
                    let ts = old(self).threads@;
                    &&& final(self).threads@ == ts
                    &&& final(self).escrow == old(self).escrow
                    &&& if !thread_with_id(ts, thread_id@) {
                        e == ChoirError::ThreadNotFound
                    } else {
                        e == ChoirError::InvalidMessageIndex && spec_index >= ts[idx_of(
                            ts,
                            thread_id@,
                        )].pending_specs@.len()
                    }
                }),
            },
    {
        let ti = match self.find_thread(thread_id) {
            None => {
                proof {
                    lemma_prefix_refl_all(self.threads@);
                }
                return Err(ChoirError::ThreadNotFound);
            },
            Some(i) => i,
        };
        let ghost pre = *self;
        proof {
            assert(all_tickets_ok(pre.threads@[ti as int], pre.escrow));
        }
        let res = process_spec_expiration(&mut self.threads[ti], &mut self.escrow, spec_index, now);
        proof {
            let ts1 = pre.threads@;
            let t = ts1[ti as int];
            let idx = spec_index as int;
            match res {
                Ok(outcome) => {
                    if outcome == ConsensusOutcome::Expired {
                        let s = t.pending_specs@[idx];
                        assert(self.escrow.transfers@.last() == (Payout {
                            recipient: s.author,
                            amount: s.stake_amount,
                        }));
                        lemma_state_wf_after_spec_resolution(pre, *self, ti as int, idx, false);
                    } else {
                        assert(self.threads@ =~= ts1);
                    }
                    lemma_prefix_refl_all(ts1);
                    assert forall|k: int|
                        0 <= k < ts1.len() implies (#[trigger] ts1[k]).co_authors@.is_prefix_of(
                        self.threads@[k].co_authors@,
                    ) by {
                        if k != ti {
                            assert(self.threads@[k] == ts1[k]);
                        }
                    }
                },
                Err(_) => {
                    assert(self.threads@ =~= ts1);
                    lemma_prefix_refl_all(ts1);
                },
            }
        }
        res
    }
}

/// Replacing one thread with a well-formed one that keeps its id, its
/// balance and its pending specs' tickets, stakes and authors preserves the
/// whole-state invariant when the escrow is untouched.
proof fn lemma_state_wf_after_thread_update(pre: ChoirState, post: ChoirState, ti: int)
    requires
        pre.wf(),
        0 <= ti < pre.threads@.len(),
        post.threads@ == pre.threads@.update(ti, post.threads@[ti]),
        post.escrow == pre.escrow,
        post.threads@[ti].wf(),
        post.threads@[ti].thread_id@ == pre.threads@[ti].thread_id@,
        post.threads@[ti].token_balance == pre.threads@[ti].token_balance,
        same_tickets(pre.threads@[ti].pending_specs@, post.threads@[ti].pending_specs@),
    ensures
        post.wf(),
{
    let ts1 = pre.threads@;
    let ts2 = post.threads@;
    assert forall|a: int, b: int| 0 <= a < b < ts2.len() implies ts2[a].thread_id@
        != ts2[b].thread_id@ by {
        assert(ts1[a].thread_id@ != ts1[b].thread_id@);
        assert(ts2[a].thread_id@ == ts1[a].thread_id@ && ts2[b].thread_id@ == ts1[b].thread_id@);
    }
    assert forall|i: int| 0 <= i < ts2.len() implies (#[trigger] ts2[i]).wf() && all_tickets_ok(
        ts2[i],
        post.escrow,
    ) by {
        if i == ti {
            assert forall|j: int| 0 <= j < ts2[i].pending_specs@.len() implies ticket_ok(
                #[trigger] ts2[i].pending_specs@[j],
                post.escrow,
            ) by {
                assert(ticket_ok(ts1[ti].pending_specs@[j], pre.escrow));
            }
        } else {
            assert(ts2[i] == ts1[i]);
            assert(all_tickets_ok(ts1[i], pre.escrow));
        }
    }
    assert forall|i1: int, j1: int, i2: int, j2: int|
        0 <= i1 < ts2.len() && 0 <= j1 < ts2[i1].pending_specs@.len() && 0 <= i2 < ts2.len() && 0
            <= j2 < ts2[i2].pending_specs@.len() && (i1 != i2 || j1 != j2) implies (
    #[trigger] ts2[i1].pending_specs@[j1].ticket) != (
    #[trigger] ts2[i2].pending_specs@[j2].ticket) by {
        assert(ts2[i1].pending_specs@[j1].ticket == ts1[i1].pending_specs@[j1].ticket);
        assert(ts2[i2].pending_specs@[j2].ticket == ts1[i2].pending_specs@[j2].ticket);
        assert(ts1[i1].pending_specs@[j1].ticket != ts1[i2].pending_specs@[j2].ticket);
    }
    lemma_balance_sum_update(ts1, ti, ts2[ti]);
    assert(ts2 == ts1.update(ti, ts2[ti]));
}

/// Resolving one pending spec — removing it from its thread and releasing
/// its ticket — preserves the whole-state invariant, whether the stake was
/// credited to the thread balance (`credited`) or paid out externally in a
/// single payout of the same amount.
proof fn lemma_state_wf_after_spec_resolution(
    pre: ChoirState,
    post: ChoirState,
    ti: int,
    idx: int,
    credited: bool,
)
    requires
        pre.wf(),
        0 <= ti < pre.threads@.len(),
        0 <= idx < pre.threads@[ti].pending_specs@.len(),
        post.threads@ == pre.threads@.update(ti, post.threads@[ti]),
        post.threads@[ti].wf(),
        post.threads@[ti].thread_id@ == pre.threads@[ti].thread_id@,
        post.threads@[ti].pending_specs@ == pre.threads@[ti].pending_specs@.remove(idx),
        post.escrow.tickets@ == pre.escrow.tickets@.update(
            pre.threads@[ti].pending_specs@[idx].ticket as int,
            (EscrowTicket {
                released: true,
                ..pre.escrow.tickets@[pre.threads@[ti].pending_specs@[idx].ticket as int]
            }),
        ),
        credited ==> post.threads@[ti].token_balance == pre.threads@[ti].token_balance
            + pre.threads@[ti].pending_specs@[idx].stake_amount && post.escrow.transfers@
            == pre.escrow.transfers@,
        !credited ==> post.threads@[ti].token_balance == pre.threads@[ti].token_balance
            && post.escrow.transfers@ == pre.escrow.transfers@.push(
            post.escrow.transfers@.last(),
        ) && post.escrow.transfers@.last().amount
            == pre.threads@[ti].pending_specs@[idx].stake_amount,
    ensures
        post.wf(),
{
    let ts1 = pre.threads@;
    let ts2 = post.threads@;
    let s = ts1[ti].pending_specs@[idx];
    let tk = s.ticket as int;
    assert(ticket_ok(s, pre.escrow));
    ts1[ti].pending_specs@.remove_ensures(idx);
    // Map each remaining pending-spec position of the resolved thread back
    // to its position before the removal.
    let map_j = |i: int, j: int| if i == ti && j >= idx { j + 1 } else { j };
    assert forall|a: int, b: int| 0 <= a < b < ts2.len() implies ts2[a].thread_id@
        != ts2[b].thread_id@ by {
        assert(ts1[a].thread_id@ != ts1[b].thread_id@);
        assert(ts2[a].thread_id@ == ts1[a].thread_id@ && ts2[b].thread_id@ == ts1[b].thread_id@);
    }
    assert forall|i: int, j: int|
        0 <= i < ts2.len() && 0 <= j < ts2[i].pending_specs@.len() implies ts2[i].pending_specs@[j]
        == ts1[i].pending_specs@[map_j(i, j)] && 0 <= map_j(i, j)
        < ts1[i].pending_specs@.len() && (i != ti || map_j(i, j) != idx) by {
        if i != ti {
            assert(ts2[i] == ts1[i]);
        }
    }
    assert forall|i: int| 0 <= i < ts2.len() implies (#[trigger] ts2[i]).wf() && all_tickets_ok(
        ts2[i],
        post.escrow,
    ) by {
        assert forall|j: int| 0 <= j < ts2[i].pending_specs@.len() implies ticket_ok(
            #[trigger] ts2[i].pending_specs@[j],
            post.escrow,
        ) by {
            let j1 = map_j(i, j);
            assert(ts2[i].pending_specs@[j] == ts1[i].pending_specs@[j1]);
            assert(ticket_ok(ts1[i].pending_specs@[j1], pre.escrow));
            assert(ts1[i].pending_specs@[j1].ticket != s.ticket);
        }
        if i != ti {
            assert(ts2[i] == ts1[i]);
        }
    }
    assert forall|i1: int, j1: int, i2: int, j2: int|
        0 <= i1 < ts2.len() && 0 <= j1 < ts2[i1].pending_specs@.len() && 0 <= i2 < ts2.len() && 0
            <= j2 < ts2[i2].pending_specs@.len() && (i1 != i2 || j1 != j2) implies (
    #[trigger] ts2[i1].pending_specs@[j1].ticket) != (
    #[trigger] ts2[i2].pending_specs@[j2].ticket) by {
        let a1 = map_j(i1, j1);
        let a2 = map_j(i2, j2);
        assert(ts2[i1].pending_specs@[j1] == ts1[i1].pending_specs@[a1]);
        assert(ts2[i2].pending_specs@[j2] == ts1[i2].pending_specs@[a2]);
        assert(i1 != i2 || a1 != a2);
    }
    crate::escrow::lemma_sums_update(
        pre.escrow.tickets@,
        tk,
        (EscrowTicket { released: true, ..pre.escrow.tickets@[tk] }),
    );
    lemma_balance_sum_update(ts1, ti, ts2[ti]);
    if !credited {
        crate::escrow::lemma_payout_sum_push(pre.escrow.transfers@, post.escrow.transfers@.last());
    }
    assert(ts2 == ts1.update(ti, ts2[ti]));
}

} // verus!
