//! Thread creation and message submission.

use choir::constants::MIN_STAKE_AMOUNT;
use choir::errors::ChoirError;
use choir::lifecycle::ChoirState;

fn hash(n: u8) -> [u8; 32] {
    let mut h = [0u8; 32];
    h[0] = n;
    h
}

#[test]
fn test_initialize_thread() {
    let mut state = ChoirState::new();
    let id = b"test_thread".to_vec();
    let i = state
        .initialize_thread(id.clone(), 1, 1_000)
        .expect("Failed to initialize thread");
    assert_eq!(i, 0);
    assert_eq!(state.thread_count(), 1);
    let t = state.get_thread(i);
    assert_eq!(t.thread_id, id);
    assert_eq!(t.co_authors, vec![1]);
    assert_eq!(t.token_balance, 0);
    assert_eq!(t.minimum_stake, MIN_STAKE_AMOUNT);
    assert_eq!(t.message_count, 0);
    assert!(t.messages.is_empty());
    assert!(t.pending_specs.is_empty());
    assert_eq!(t.created_at, 1_000);
    assert_eq!(t.updated_at, 1_000);
}

#[test]
fn test_initialize_thread_id_too_long() {
    let mut state = ChoirState::new();
    let id = vec![b'x'; 33];
    assert_eq!(
        state.initialize_thread(id, 1, 0),
        Err(ChoirError::ThreadIdTooLong)
    );
    assert_eq!(state.thread_count(), 0);
}

#[test]
fn test_initialize_thread_id_boundary() {
    let mut state = ChoirState::new();
    let id = vec![b'x'; 32];
    assert!(state.initialize_thread(id, 1, 0).is_ok());
}

#[test]
fn test_initialize_thread_duplicate_id() {
    let mut state = ChoirState::new();
    let id = b"thread".to_vec();
    state.initialize_thread(id.clone(), 1, 0).unwrap();
    assert_eq!(
        state.initialize_thread(id, 2, 1),
        Err(ChoirError::DuplicateId)
    );
    assert_eq!(state.thread_count(), 1);
}

#[test]
fn test_submit_message() {
    let mut state = ChoirState::new();
    let id = b"thread".to_vec();
    state.initialize_thread(id.clone(), 1, 10).unwrap();
    let idx = state
        .submit_message(&id, 1, hash(7), 20)
        .expect("Failed to submit message");
    assert_eq!(idx, 0);
    let t = state.get_thread(0);
    assert_eq!(t.message_count, 1);
    assert_eq!(t.messages.len(), 1);
    let m = &t.messages[0];
    assert_eq!(m.author, 1);
    assert_eq!(m.content_hash, hash(7));
    assert_eq!(m.timestamp, 20);
    assert!(m.approvals.is_empty());
    assert!(!m.is_published);
    assert_eq!(m.eligible_voters, vec![1]);
    assert_eq!(t.updated_at, 20);
}

#[test]
fn test_submit_message_unknown_thread() {
    let mut state = ChoirState::new();
    assert_eq!(
        state.submit_message(&b"nope".to_vec(), 1, hash(0), 0),
        Err(ChoirError::ThreadNotFound)
    );
}

#[test]
fn test_security_constraints() {
    // A non-co-author may not submit a message.
    let mut state = ChoirState::new();
    let id = b"thread".to_vec();
    state.initialize_thread(id.clone(), 1, 0).unwrap();
    let r = state.submit_message(&id, 2, hash(1), 1);
    assert_eq!(r, Err(ChoirError::NotCoAuthor), "Expected error for unauthorized submission");
    assert_eq!(state.get_thread(0).message_count, 0);
}

#[test]
fn test_submit_message_duplicate_content() {
    let mut state = ChoirState::new();
    let id = b"thread".to_vec();
    state.initialize_thread(id.clone(), 1, 0).unwrap();
    state.submit_message(&id, 1, hash(1), 1).unwrap();
    assert_eq!(
        state.submit_message(&id, 1, hash(1), 2),
        Err(ChoirError::DuplicateContent)
    );
    let t = state.get_thread(0);
    assert_eq!(t.message_count, 1);
    // A different hash is still accepted.
    assert!(state.submit_message(&id, 1, hash(2), 3).is_ok());
}

#[test]
fn test_submit_message_thread_full() {
    // The 101st message to a thread already holding 100 fails with
    // ThreadFull and leaves the thread unchanged.
    let mut state = ChoirState::new();
    let id = b"thread".to_vec();
    state.initialize_thread(id.clone(), 1, 0).unwrap();
    for n in 0..100u8 {
        let mut h = [0u8; 32];
        h[0] = n;
        h[1] = 0xAA;
        state
            .submit_message(&id, 1, h, 1 + n as i64)
            .expect("message below capacity must be accepted");
    }
    assert_eq!(state.get_thread(0).message_count, 100);
    let before_updated = state.get_thread(0).updated_at;
    let mut h = [0u8; 32];
    h[1] = 0xBB;
    assert_eq!(
        state.submit_message(&id, 1, h, 500),
        Err(ChoirError::ThreadFull)
    );
    let t = state.get_thread(0);
    assert_eq!(t.message_count, 100);
    assert_eq!(t.messages.len(), 100);
    assert_eq!(t.updated_at, before_updated);
}
