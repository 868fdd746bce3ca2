//! Message approval lifecycle and authorization boundaries.

use choir::consensus::ConsensusOutcome;
use choir::errors::ChoirError;
use choir::lifecycle::ChoirState;

fn hash(n: u8) -> [u8; 32] {
    let mut h = [0u8; 32];
    h[0] = n;
    h
}

/// Creates a thread owned by author 1 and admits author 2 as a second
/// co-author through an approved spec.
fn two_author_thread(id: &[u8]) -> (ChoirState, Vec<u8>) {
    let mut state = ChoirState::new();
    let id = id.to_vec();
    state.initialize_thread(id.clone(), 1, 0).unwrap();
    state.submit_spec(&id, 2, hash(200), 1_000_000, 1).unwrap();
    let outcome = state.process_approval(&id, 1, 0, true, true, 2).unwrap();
    assert_eq!(outcome, ConsensusOutcome::Approved);
    assert_eq!(state.get_thread(0).co_authors, vec![1, 2]);
    (state, id)
}

#[test]
fn test_thread_lifecycle() {
    // Create thread with co-author A; A submits a message; A approves it:
    // with a single co-author one approving vote is unanimity, so the
    // message is published at once.
    let mut state = ChoirState::new();
    let id = b"test_thread".to_vec();
    state.initialize_thread(id.clone(), 1, 0).unwrap();
    let idx = state.submit_message(&id, 1, hash(1), 1).unwrap();
    let outcome = state
        .process_approval(&id, 1, idx as u32, false, true, 2)
        .unwrap();
    assert_eq!(outcome, ConsensusOutcome::Approved);
    let t = state.get_thread(0);
    let m = &t.messages[idx];
    assert!(m.is_published);
    assert_eq!(m.approvals.len(), 1);
    assert_eq!(m.approvals[0].co_author, 1);
    assert!(m.approvals[0].approved);
    // Publishing a message moves no value.
    assert_eq!(t.token_balance, 0);
    assert!(state.escrow.tickets.is_empty());
    assert!(state.escrow.transfers.is_empty());
}

#[test]
fn test_concurrent_approvals() {
    // With two co-authors, the first approving vote leaves the message
    // pending; the second completes unanimity and publishes it.
    let (mut state, id) = two_author_thread(b"thread");
    let idx = state.submit_message(&id, 1, hash(1), 3).unwrap();
    let first = state
        .process_approval(&id, 1, idx as u32, false, true, 4)
        .unwrap();
    assert_eq!(first, ConsensusOutcome::Pending);
    assert!(!state.get_thread(0).messages[idx].is_published);
    let second = state
        .process_approval(&id, 2, idx as u32, false, true, 5)
        .unwrap();
    assert_eq!(second, ConsensusOutcome::Approved);
    assert!(state.get_thread(0).messages[idx].is_published);
}

#[test]
fn test_security_boundaries() {
    // Only co-authors may vote, each voter votes at most once, a resolved
    // message takes no further votes, and an out-of-range index is refused.
    let (mut state, id) = two_author_thread(b"thread");
    let idx = state.submit_message(&id, 1, hash(1), 3).unwrap();
    assert_eq!(
        state.process_approval(&id, 9, idx as u32, false, true, 4),
        Err(ChoirError::NotCoAuthor)
    );
    assert_eq!(
        state.process_approval(&id, 1, 5, false, true, 4),
        Err(ChoirError::InvalidMessageIndex)
    );
    state
        .process_approval(&id, 1, idx as u32, false, true, 4)
        .unwrap();
    assert_eq!(
        state.process_approval(&id, 1, idx as u32, false, true, 5),
        Err(ChoirError::AlreadyVoted)
    );
    // Author 2 denies a second message; after that resolution no vote is
    // accepted on it.
    let idx2 = state.submit_message(&id, 1, hash(2), 6).unwrap();
    let outcome = state
        .process_approval(&id, 2, idx2 as u32, false, false, 7)
        .unwrap();
    assert_eq!(outcome, ConsensusOutcome::Denied);
    assert!(!state.get_thread(0).messages[idx2].is_published);
    assert_eq!(
        state.process_approval(&id, 1, idx2 as u32, false, true, 8),
        Err(ChoirError::InvalidApproval)
    );
    assert!(!state.get_thread(0).messages[idx2].is_published);
}

#[test]
fn test_deny_short_circuit_on_message() {
    // One denial resolves a message immediately, although another co-author
    // has not voted at all.
    let (mut state, id) = two_author_thread(b"thread");
    let idx = state.submit_message(&id, 2, hash(3), 3).unwrap();
    let balance_before = state.get_thread(0).token_balance;
    let transfers_before = state.escrow.transfers.len();
    let outcome = state
        .process_approval(&id, 1, idx as u32, false, false, 4)
        .unwrap();
    assert_eq!(outcome, ConsensusOutcome::Denied);
    let m = &state.get_thread(0).messages[idx];
    assert!(!m.is_published);
    assert_eq!(m.approvals.len(), 1);
    assert!(!m.approvals[0].approved);
    // Denying a message moves no value: co-authors stake nothing.
    assert_eq!(state.get_thread(0).token_balance, balance_before);
    assert_eq!(state.escrow.transfers.len(), transfers_before);
}

#[test]
fn test_late_co_author_does_not_block_publication() {
    // Unanimity is judged against the co-author set at submission time: a
    // co-author admitted after the message was submitted need not vote.
    let mut state = ChoirState::new();
    let id = b"thread".to_vec();
    state.initialize_thread(id.clone(), 1, 0).unwrap();
    let idx = state.submit_message(&id, 1, hash(1), 1).unwrap();
    // Admit author 2 while the message is still pending.
    state.submit_spec(&id, 2, hash(200), 1_000_000, 2).unwrap();
    state.process_approval(&id, 1, 0, true, true, 3).unwrap();
    assert_eq!(state.get_thread(0).co_authors, vec![1, 2]);
    // Author 1 alone was eligible at submission, so this vote publishes.
    let outcome = state
        .process_approval(&id, 1, idx as u32, false, true, 4)
        .unwrap();
    assert_eq!(outcome, ConsensusOutcome::Approved);
    assert!(state.get_thread(0).messages[idx].is_published);
}
