//! Staked specs, escrow movements, and value conservation.

use choir::consensus::ConsensusOutcome;
use choir::errors::ChoirError;
use choir::escrow::Payout;
use choir::escrow::StakeEscrow;
use choir::lifecycle::ChoirState;

fn hash(n: u8) -> [u8; 32] {
    let mut h = [0u8; 32];
    h[0] = n;
    h
}

/// The conservation equation over the concrete state: thread balances plus
/// outstanding escrow plus external payouts equal everything ever deposited.
fn conserved(state: &ChoirState) -> bool {
    let balances: u128 = (0..state.thread_count())
        .map(|i| state.get_thread(i).token_balance as u128)
        .sum();
    let outstanding: u128 = state
        .escrow
        .tickets
        .iter()
        .filter(|t| !t.released)
        .map(|t| t.amount as u128)
        .sum();
    let paid_out: u128 = state.escrow.transfers.iter().map(|p| p.amount as u128).sum();
    let deposited: u128 = state.escrow.tickets.iter().map(|t| t.amount as u128).sum();
    balances + outstanding + paid_out == deposited
}

fn two_author_thread(id: &[u8]) -> (ChoirState, Vec<u8>) {
    let mut state = ChoirState::new();
    let id = id.to_vec();
    state.initialize_thread(id.clone(), 1, 0).unwrap();
    state.submit_spec(&id, 2, hash(200), 1_000_000, 1).unwrap();
    state.process_approval(&id, 1, 0, true, true, 2).unwrap();
    (state, id)
}

#[test]
fn test_token_operations() {
    // The escrow holds a stake, releases it exactly once, and refuses both a
    // second release and a payout that does not sum to the held amount.
    let mut escrow = StakeEscrow::new();
    let ticket = escrow.hold(7, 100_000);
    assert_eq!(escrow.tickets.len(), 1);
    assert!(!escrow.tickets[ticket].released);
    let short = vec![Payout { recipient: 9, amount: 50_000 }];
    assert_eq!(
        escrow.release(ticket, &short),
        Err(ChoirError::ConservationViolation)
    );
    let exact = vec![
        Payout { recipient: 9, amount: 60_000 },
        Payout { recipient: 10, amount: 40_000 },
    ];
    assert_eq!(escrow.release(ticket, &exact), Ok(()));
    assert!(escrow.tickets[ticket].released);
    assert_eq!(escrow.transfers, exact);
    assert_eq!(
        escrow.release(ticket, &exact),
        Err(ChoirError::AlreadyReleased)
    );
    assert_eq!(
        escrow.release_to_balance(ticket),
        Err(ChoirError::AlreadyReleased)
    );
    assert_eq!(
        escrow.release(5, &exact),
        Err(ChoirError::InvalidMessageIndex)
    );
}

#[test]
fn test_token_distribution() {
    // Denied spec: the whole stake is routed to the denier.
    let (mut state, id) = two_author_thread(b"thread");
    let balance_before = state.get_thread(0).token_balance;
    state.submit_spec(&id, 3, hash(9), 2_000_000, 3).unwrap();
    assert!(conserved(&state));
    let outcome = state.process_approval(&id, 1, 0, true, true, 4).unwrap();
    assert_eq!(outcome, ConsensusOutcome::Pending);
    let outcome = state.process_approval(&id, 2, 0, true, false, 5).unwrap();
    assert_eq!(outcome, ConsensusOutcome::Denied);
    let last = *state.escrow.transfers.last().unwrap();
    assert_eq!(last, Payout { recipient: 2, amount: 2_000_000 });
    assert_eq!(state.get_thread(0).token_balance, balance_before);
    assert!(!state.get_thread(0).co_authors.contains(&3));
    assert!(state.get_thread(0).pending_specs.is_empty());
    assert!(conserved(&state));
}

#[test]
fn test_spec_approved_admits_author() {
    // Approved spec: both co-authors approve before expiry; the author is
    // admitted and the stake is credited to the thread balance.
    let (mut state, id) = two_author_thread(b"thread");
    let balance_before = state.get_thread(0).token_balance;
    state.submit_spec(&id, 3, hash(9), 2_000_000, 3).unwrap();
    let outcome = state.process_approval(&id, 1, 0, true, true, 4).unwrap();
    assert_eq!(outcome, ConsensusOutcome::Pending);
    let outcome = state.process_approval(&id, 2, 0, true, true, 5).unwrap();
    assert_eq!(outcome, ConsensusOutcome::Approved);
    let t = state.get_thread(0);
    assert_eq!(t.co_authors, vec![1, 2, 3]);
    assert_eq!(t.token_balance, balance_before + 2_000_000);
    assert!(t.pending_specs.is_empty());
    assert!(conserved(&state));
}

#[test]
fn test_spec_submission_guards() {
    let (mut state, id) = two_author_thread(b"thread");
    // A co-author may not submit a spec.
    assert_eq!(
        state.submit_spec(&id, 1, hash(9), 1_000_000, 3),
        Err(ChoirError::AlreadyCoAuthor)
    );
    // A stake below the thread minimum is refused.
    assert_eq!(
        state.submit_spec(&id, 3, hash(9), 999_999, 3),
        Err(ChoirError::InsufficientStake)
    );
    // At most 20 pending specs.
    for n in 0..20u64 {
        state
            .submit_spec(&id, 100 + n, hash(n as u8), 1_000_000, 3)
            .expect("spec below capacity must be accepted");
    }
    assert_eq!(
        state.submit_spec(&id, 200, hash(99), 1_000_000, 3),
        Err(ChoirError::TooManyPendingSpecs)
    );
    assert_eq!(state.get_thread(0).pending_specs.len(), 20);
    assert!(conserved(&state));
}

#[test]
fn test_spec_expiration() {
    // Votes on an expired spec are refused; only Expired is reachable, and
    // the stake returns to the staker.
    let (mut state, id) = two_author_thread(b"thread");
    let submitted_at = 100;
    state
        .submit_spec(&id, 3, hash(9), 1_500_000, submitted_at)
        .unwrap();
    let expires_at = state.get_thread(0).pending_specs[0].expires_at;
    assert_eq!(expires_at, submitted_at + 7 * 24 * 60 * 60);
    // Before the expiration instant the spec still accepts votes and does
    // not resolve to Expired.
    assert_eq!(
        state.resolve_expired_spec(&id, 0, expires_at - 1),
        Ok(ConsensusOutcome::Pending)
    );
    state
        .process_approval(&id, 1, 0, true, true, expires_at - 1)
        .unwrap();
    // From the expiration instant on, votes are refused even if they would
    // complete unanimity.
    assert_eq!(
        state.process_approval(&id, 2, 0, true, true, expires_at),
        Err(ChoirError::SpecExpired)
    );
    // A voter who already voted is told so first, even on an expired spec.
    assert_eq!(
        state.process_approval(&id, 1, 0, true, true, expires_at),
        Err(ChoirError::AlreadyVoted)
    );
    assert_eq!(state.get_thread(0).pending_specs.len(), 1);
    let outcome = state.resolve_expired_spec(&id, 0, expires_at).unwrap();
    assert_eq!(outcome, ConsensusOutcome::Expired);
    assert!(state.get_thread(0).pending_specs.is_empty());
    let last = *state.escrow.transfers.last().unwrap();
    assert_eq!(last, Payout { recipient: 3, amount: 1_500_000 });
    assert!(!state.get_thread(0).co_authors.contains(&3));
    assert!(conserved(&state));
}

#[test]
fn test_co_author_capacity() {
    // Admissions stop at 10 co-authors: the vote that would admit an 11th
    // fails with CoAuthorCapacityExceeded and records nothing.
    let mut state = ChoirState::new();
    let id = b"thread".to_vec();
    state.initialize_thread(id.clone(), 1, 0).unwrap();
    for new_author in 2..=10u64 {
        state
            .submit_spec(&id, new_author, hash(new_author as u8), 1_000_000, 5)
            .unwrap();
        for voter in 1..new_author {
            state.process_approval(&id, voter, 0, true, true, 6).unwrap();
        }
        assert!(state.get_thread(0).co_authors.contains(&new_author));
    }
    assert_eq!(state.get_thread(0).co_authors.len(), 10);
    state.submit_spec(&id, 11, hash(11), 1_000_000, 7).unwrap();
    for voter in 1..10u64 {
        assert_eq!(
            state.process_approval(&id, voter, 0, true, true, 8),
            Ok(ConsensusOutcome::Pending)
        );
    }
    assert_eq!(
        state.process_approval(&id, 10, 0, true, true, 9),
        Err(ChoirError::CoAuthorCapacityExceeded)
    );
    let t = state.get_thread(0);
    assert_eq!(t.co_authors.len(), 10);
    assert_eq!(t.pending_specs.len(), 1);
    assert_eq!(t.pending_specs[0].approvals.len(), 9);
    assert!(conserved(&state));
}

#[test]
fn test_balance_overflow_refused() {
    // Crediting a stake that would overflow the thread balance is refused
    // rather than wrapped.
    let mut state = ChoirState::new();
    let id = b"thread".to_vec();
    state.initialize_thread(id.clone(), 1, 0).unwrap();
    state.submit_spec(&id, 2, hash(1), u64::MAX, 1).unwrap();
    assert_eq!(
        state.process_approval(&id, 1, 0, true, true, 2),
        Ok(ConsensusOutcome::Approved)
    );
    assert_eq!(state.get_thread(0).token_balance, u64::MAX);
    state.submit_spec(&id, 3, hash(2), 1_000_000, 3).unwrap();
    assert_eq!(
        state.process_approval(&id, 1, 0, true, true, 4),
        Ok(ConsensusOutcome::Pending)
    );
    assert_eq!(
        state.process_approval(&id, 2, 0, true, true, 5),
        Err(ChoirError::InvalidTokenOperation)
    );
    assert_eq!(state.get_thread(0).pending_specs.len(), 1);
    assert!(conserved(&state));
}
