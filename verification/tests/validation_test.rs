//! The stateless validation guards, exercised directly on thread snapshots.

use choir::errors::ChoirError;
use choir::lifecycle::ChoirState;
use choir::thread::Approval;
use choir::validation::validate_approval_state;
use choir::validation::validate_co_author;
use choir::validation::validate_spec_submission;
use choir::validation::validate_thread_state;

fn hash(n: u8) -> [u8; 32] {
    let mut h = [0u8; 32];
    h[0] = n;
    h
}

#[test]
fn test_validate_thread_state() {
    let mut state = ChoirState::new();
    let id = b"thread".to_vec();
    state.initialize_thread(id.clone(), 1, 0).unwrap();
    state.submit_message(&id, 1, hash(1), 1).unwrap();
    assert_eq!(validate_thread_state(state.get_thread(0)), Ok(()));
    // A duplicated hash among the stored messages is reported.
    let mut t = state.get_thread(0).clone();
    let m = t.messages[0].clone();
    t.messages.push(m);
    assert_eq!(
        validate_thread_state(&t),
        Err(ChoirError::DuplicateContent)
    );
    // A full message counter is reported first.
    let mut full = state.get_thread(0).clone();
    full.message_count = 100;
    assert_eq!(validate_thread_state(&full), Err(ChoirError::ThreadFull));
}

#[test]
fn test_validate_co_author() {
    let mut state = ChoirState::new();
    let id = b"thread".to_vec();
    state.initialize_thread(id.clone(), 7, 0).unwrap();
    let t = state.get_thread(0);
    assert_eq!(validate_co_author(t, 7), Ok(()));
    assert_eq!(validate_co_author(t, 8), Err(ChoirError::NotCoAuthor));
}

#[test]
fn test_validate_spec_submission() {
    let mut state = ChoirState::new();
    let id = b"thread".to_vec();
    state.initialize_thread(id.clone(), 1, 0).unwrap();
    let t = state.get_thread(0);
    assert_eq!(validate_spec_submission(t, 2, 1_000_000), Ok(()));
    assert_eq!(
        validate_spec_submission(t, 1, 1_000_000),
        Err(ChoirError::AlreadyCoAuthor)
    );
    assert_eq!(
        validate_spec_submission(t, 2, 999_999),
        Err(ChoirError::InsufficientStake)
    );
}

#[test]
fn test_validate_approval_state() {
    let mut state = ChoirState::new();
    let id = b"thread".to_vec();
    state.initialize_thread(id.clone(), 1, 0).unwrap();
    state.submit_message(&id, 1, hash(1), 1).unwrap();
    state.submit_spec(&id, 2, hash(2), 1_000_000, 1).unwrap();
    let expires_at = state.get_thread(0).pending_specs[0].expires_at;
    let t = state.get_thread(0);
    assert_eq!(validate_approval_state(t, 0, 1, false, 2), Ok(()));
    assert_eq!(
        validate_approval_state(t, 1, 1, false, 2),
        Err(ChoirError::InvalidMessageIndex)
    );
    assert_eq!(validate_approval_state(t, 0, 1, true, 2), Ok(()));
    assert_eq!(
        validate_approval_state(t, 3, 1, true, 2),
        Err(ChoirError::InvalidMessageIndex)
    );
    assert_eq!(
        validate_approval_state(t, 0, 1, true, expires_at),
        Err(ChoirError::SpecExpired)
    );
    // A recorded vote is reported as a duplicate.
    let mut voted = state.get_thread(0).clone();
    voted.pending_specs[0].approvals.push(Approval { co_author: 1, approved: true, timestamp: 2 });
    assert_eq!(
        validate_approval_state(&voted, 0, 1, true, 3),
        Err(ChoirError::AlreadyVoted)
    );
}
