//! The stake escrow: holds staked value for pending specs and releases it
//! per consensus outcome, at most once per ticket.
//!
//! The escrow stands in for the external ledger at this core's boundary. A
//! `hold` records a deposit of value into escrow; a release either routes the
//! held amount to outside recipients (recorded in `transfers`, the payout
//! instructions handed to the ledger) or hands it back to the caller to be
//! credited to a thread balance. Value conservation is stated over the sums
//! of these records.
use vstd::prelude::*;

use crate::errors::ChoirError;

verus! {

/// One unit of value held in escrow for a pending spec.
#[derive(Clone, Copy, Debug, PartialEq, Eq, Structural)]
pub struct EscrowTicket {
    /// The identity whose value is held.
    pub staker: u64,
    /// The held amount.
    pub amount: u64,
    /// True once the ticket has been released; a ticket is released at most
    /// once.
    pub released: bool,
}

/// One payout instruction handed to the external ledger.
#[derive(Clone, Copy, Debug, PartialEq, Eq, Structural)]
pub struct Payout {
    /// The identity paid.
    pub recipient: u64,
    /// The amount paid.
    pub amount: u64,
}

/// Sum of all amounts ever deposited into escrow.
pub open spec fn deposit_sum(tickets: Seq<EscrowTicket>) -> int
    decreases tickets.len(),
{
    if tickets.len() == 0 {
        0
    } else {
        tickets[0].amount + deposit_sum(tickets.drop_first())
    }
}

/// Sum of the amounts still held: the outstanding escrowed value.
pub open spec fn outstanding_sum(tickets: Seq<EscrowTicket>) -> int
    decreases tickets.len(),
{
    if tickets.len() == 0 {
        0
    } else {
        (if tickets[0].released {
            0
        } else {
            tickets[0].amount as int
        }) + outstanding_sum(tickets.drop_first())
    }
}

/// Sum of the amounts paid out to external recipients.
pub open spec fn payout_sum(transfers: Seq<Payout>) -> int
    decreases transfers.len(),
{
    if transfers.len() == 0 {
        0
    } else {
        transfers[0].amount + payout_sum(transfers.drop_first())
    }
}

pub proof fn lemma_deposit_sum_push(tickets: Seq<EscrowTicket>, t: EscrowTicket)
    ensures
        deposit_sum(tickets.push(t)) == deposit_sum(tickets) + t.amount,
    decreases tickets.len(),
{
    if tickets.len() == 0 {
        assert(tickets.push(t).drop_first() =~= Seq::<EscrowTicket>::empty());
        assert(deposit_sum(Seq::<EscrowTicket>::empty()) == 0);
    } else {
        assert(tickets.push(t).drop_first() =~= tickets.drop_first().push(t));
        lemma_deposit_sum_push(tickets.drop_first(), t);
    }
}

pub proof fn lemma_outstanding_sum_push(tickets: Seq<EscrowTicket>, t: EscrowTicket)
    ensures
        outstanding_sum(tickets.push(t)) == outstanding_sum(tickets) + (if t.released {
            0
        } else {
            t.amount as int
        }),
    decreases tickets.len(),
{
    if tickets.len() == 0 {
        assert(tickets.push(t).drop_first() =~= Seq::<EscrowTicket>::empty());
        assert(outstanding_sum(Seq::<EscrowTicket>::empty()) == 0);
    } else {
        assert(tickets.push(t).drop_first() =~= tickets.drop_first().push(t));
        lemma_outstanding_sum_push(tickets.drop_first(), t);
    }
}

/// Updating one ticket shifts the sums by exactly the difference at that
/// index.
pub proof fn lemma_sums_update(tickets: Seq<EscrowTicket>, i: int, t: EscrowTicket)
    requires
        0 <= i < tickets.len(),
    ensures
        deposit_sum(tickets.update(i, t)) == deposit_sum(tickets) - tickets[i].amount + t.amount,
        outstanding_sum(tickets.update(i, t)) == outstanding_sum(tickets) - (if tickets[
            i
        ].released {
            0
        } else {
            tickets[i].amount as int
        }) + (if t.released {
            0
        } else {
            t.amount as int
        }),
    decreases tickets.len(),
{
    if i == 0 {
        assert(tickets.update(0, t).drop_first() =~= tickets.drop_first());
    } else {
        assert(tickets.update(i, t).drop_first() =~= tickets.drop_first().update(i - 1, t));
        lemma_sums_update(tickets.drop_first(), i - 1, t);
    }
}

pub proof fn lemma_payout_sum_push(transfers: Seq<Payout>, p: Payout)
    ensures
        payout_sum(transfers.push(p)) == payout_sum(transfers) + p.amount,
    decreases transfers.len(),
{
    if transfers.len() == 0 {
        assert(transfers.push(p).drop_first() =~= Seq::<Payout>::empty());
        assert(payout_sum(Seq::<Payout>::empty()) == 0);
    } else {
        assert(transfers.push(p).drop_first() =~= transfers.drop_first().push(p));
        lemma_payout_sum_push(transfers.drop_first(), p);
    }
}

pub proof fn lemma_payout_sum_take_step(transfers: Seq<Payout>, k: int)
    requires
        0 <= k < transfers.len(),
    ensures
        payout_sum(transfers.take(k + 1)) == payout_sum(transfers.take(k)) + transfers[k].amount,
{
    assert(transfers.take(k + 1) =~= transfers.take(k).push(transfers[k]));
    lemma_payout_sum_push(transfers.take(k), transfers[k]);
}

/// The escrow: a ledger of held stakes and of the payouts released from
/// them.
#[derive(Clone, Debug)]
pub struct StakeEscrow {
    /// Every hold ever made, in order; released tickets stay, marked.
    pub tickets: Vec<EscrowTicket>,
    /// Every external payout ever released, in order.
    pub transfers: Vec<Payout>,
}

impl StakeEscrow {
    /// The total value the escrow still holds.
    pub open spec fn outstanding(self) -> int {
        outstanding_sum(self.tickets@)
    }

    /// An escrow holding nothing.
    pub fn new() -> (e: Self)
        ensures
            e.tickets@.len() == 0,
            e.transfers@.len() == 0,
    {
        StakeEscrow { tickets: Vec::new(), transfers: Vec::new() }
    }

    /// Hold `amount` on behalf of `staker`; the returned ticket later
    /// releases exactly this amount, at most once.
    pub fn hold(&mut self, staker: u64, amount: u64) -> (ticket: usize)
        ensures
            ticket == old(self).tickets@.len(),
            final(self).tickets@ == old(self).tickets@.push(
                EscrowTicket { staker, amount, released: false },
            ),
            final(self).transfers@ == old(self).transfers@,
            final(self).outstanding() == old(self).outstanding() + amount,
            deposit_sum(final(self).tickets@) == deposit_sum(old(self).tickets@) + amount,
    {
        let ticket = self.tickets.len();
        let t = EscrowTicket { staker, amount, released: false };
        proof {
            lemma_outstanding_sum_push(self.tickets@, t);
            lemma_deposit_sum_push(self.tickets@, t);
        }
        self.tickets.push(t);
        ticket
    }

    /// Release a ticket to external recipients. Succeeds exactly when the
    /// ticket exists, has not been released before, and the payouts sum to
    /// exactly the held amount; then the ticket is marked released and the
    /// payouts are appended to the transfer record. On failure nothing
    /// changes.
    pub fn release(&mut self, ticket: usize, recipients: &Vec<Payout>) -> (r: Result<
        (),
        ChoirError,
    >)
        ensures
            r is Ok <==> ticket < old(self).tickets@.len() && !old(self).tickets@[ticket as int].released
                && payout_sum(recipients@) == old(self).tickets@[ticket as int].amount,
            match r {
                Ok(()) => {
                    &&& ticket < old(self).tickets@.len()
                    &&& !old(self).tickets@[ticket as int].released
                    &&& payout_sum(recipients@) == old(self).tickets@[ticket as int].amount
                    &&& final(self).tickets@ == old(self).tickets@.update(
                        ticket as int,
                        EscrowTicket {
                            released: true,
                            ..old(self).tickets@[ticket as int]
                        },
                    )
                    &&& final(self).transfers@ == old(self).transfers@ + recipients@
                    &&& final(self).outstanding() == old(self).outstanding() - old(
                        self,
                    ).tickets@[ticket as int].amount
                    &&& deposit_sum(final(self).tickets@) == deposit_sum(old(self).tickets@)
                    &&& payout_sum(final(self).transfers@) == payout_sum(old(self).transfers@)
                        + old(self).tickets@[ticket as int].amount
                },
                Err(e) => {
                    &&& *final(self) == *old(self)
                    &&& (e == ChoirError::InvalidMessageIndex <==> ticket >= old(
                        self,
                    ).tickets@.len())
                    &&& (e == ChoirError::AlreadyReleased <==> ticket < old(self).tickets@.len()
                        && old(self).tickets@[ticket as int].released)
                    &&& (e == ChoirError::ConservationViolation <==> ticket < old(
                        self,
                    ).tickets@.len() && !old(self).tickets@[ticket as int].released && payout_sum(
                        recipients@,
                    ) != old(self).tickets@[ticket as int].amount)
                },
            },
    {
        if ticket >= self.tickets.len() {
            return Err(ChoirError::InvalidMessageIndex);
        }
        if self.tickets[ticket].released {
            return Err(ChoirError::AlreadyReleased);
        }
        let amount = self.tickets[ticket].amount;
        if !payouts_sum_to(recipients, amount) {
            return Err(ChoirError::ConservationViolation);
        }
        let staker = self.tickets[ticket].staker;
        proof {
            lemma_sums_update(
                self.tickets@,
                ticket as int,
                EscrowTicket { staker, amount, released: true },
            );
        }
        self.tickets[ticket] = EscrowTicket { staker, amount, released: true };
        append_payouts(&mut self.transfers, recipients);
        Ok(())
    }

    /// Release a ticket inward: the held amount is handed back to the
    /// consensus engine to be credited to a thread balance, with no external
    /// payout. Succeeds exactly when the ticket exists and has not been
    /// released before.
    pub fn release_to_balance(&mut self, ticket: usize) -> (r: Result<u64, ChoirError>)
        ensures
            r is Ok <==> ticket < old(self).tickets@.len() && !old(self).tickets@[ticket as int].released,
            match r {
                Ok(amount) => {
                    &&& ticket < old(self).tickets@.len()
                    &&& !old(self).tickets@[ticket as int].released
                    &&& amount == old(self).tickets@[ticket as int].amount
                    &&& final(self).tickets@ == old(self).tickets@.update(
                        ticket as int,
                        EscrowTicket {
                            released: true,
                            ..old(self).tickets@[ticket as int]
                        },
                    )
                    &&& final(self).transfers@ == old(self).transfers@
                    &&& final(self).outstanding() == old(self).outstanding() - amount
                    &&& deposit_sum(final(self).tickets@) == deposit_sum(old(self).tickets@)
                },
                Err(e) => {
                    &&& *final(self) == *old(self)
                    &&& (e == ChoirError::InvalidMessageIndex <==> ticket >= old(
                        self,
                    ).tickets@.len())
                    &&& (e == ChoirError::AlreadyReleased <==> ticket < old(self).tickets@.len()
                        && old(self).tickets@[ticket as int].released)
                },
            },
    {
        if ticket >= self.tickets.len() {
            return Err(ChoirError::InvalidMessageIndex);
        }
        if self.tickets[ticket].released {
            return Err(ChoirError::AlreadyReleased);
        }
        let amount = self.tickets[ticket].amount;
        let staker = self.tickets[ticket].staker;
        proof {
            lemma_sums_update(
                self.tickets@,
                ticket as int,
                EscrowTicket { staker, amount, released: true },
            );
        }
        self.tickets[ticket] = EscrowTicket { staker, amount, released: true };
        Ok(amount)
    }
}

/// Whether the payouts sum to exactly `expected`, with no intermediate
/// overflow: the running remainder never goes negative and ends at zero.
fn payouts_sum_to(recipients: &Vec<Payout>, expected: u64) -> (r: bool)
    ensures
        r == (payout_sum(recipients@) == expected),
{
    let mut remaining: u64 = expected;
    let mut k: usize = 0;
    while k < recipients.len()
        invariant
            k <= recipients@.len(),
            payout_sum(recipients@.take(k as int)) == expected - remaining,
            remaining <= expected,
        decreases recipients@.len() - k,
    {
        let amount = recipients[k].amount;
        proof {
            lemma_payout_sum_take_step(recipients@, k as int);
        }
        if amount > remaining {
            proof {
                lemma_payout_sum_sub_bound(recipients@, k + 1);
            }
            return false;
        }
        remaining -= amount;
        k += 1;
    }
    proof {
        assert(recipients@.take(recipients@.len() as int) =~= recipients@);
    }
    remaining == 0
}

/// The payout total is at least the total of any prefix.
proof fn lemma_payout_sum_sub_bound(transfers: Seq<Payout>, k: int)
    requires
        0 <= k <= transfers.len(),
    ensures
        payout_sum(transfers) >= payout_sum(transfers.take(k)),
    decreases transfers.len() - k,
{
    if k == transfers.len() {
        assert(transfers.take(k) =~= transfers);
    } else {
        lemma_payout_sum_take_step(transfers, k);
        lemma_payout_sum_sub_bound(transfers, k + 1);
    }
}

/// Append every payout to the transfer record.
fn append_payouts(transfers: &mut Vec<Payout>, recipients: &Vec<Payout>)
    ensures
        final(transfers)@ == old(transfers)@ + recipients@,
        payout_sum(final(transfers)@) == payout_sum(old(transfers)@) + payout_sum(recipients@),
{
    let mut k: usize = 0;
    proof {
        assert(transfers@ + recipients@.take(0) =~= transfers@);
    }
    while k < recipients.len()
        invariant
            k <= recipients@.len(),
            transfers@ == old(transfers)@ + recipients@.take(k as int),
            payout_sum(transfers@) == payout_sum(old(transfers)@) + payout_sum(
                recipients@.take(k as int),
            ),
        decreases recipients@.len() - k,
    {
        proof {
            lemma_payout_sum_take_step(recipients@, k as int);
            lemma_payout_sum_push(transfers@, recipients@[k as int]);
            assert((old(transfers)@ + recipients@.take(k as int)).push(recipients@[k as int])
                =~= old(transfers)@ + recipients@.take(k as int + 1));
        }
        transfers.push(recipients[k]);
        k += 1;
    }
    proof {
        assert(recipients@.take(recipients@.len() as int) =~= recipients@);
    }
}

} // verus!
