//! Governance and escrow core for collaborative threads.
//!
//! A thread is an append-only discussion log co-owned by a bounded set of
//! authors. Co-authors submit messages and ratify them by unanimous vote;
//! outsiders may seek admission by staking value on a spec message, which
//! existing co-authors either approve unanimously (admitting the author and
//! crediting the stake to the thread) or deny (routing the stake to the
//! denier). The library proves that every operation preserves the thread
//! invariants and that no operation creates or destroys value.
//!
//! Layout: `thread` holds the data model and its predicates, `validation`
//! the stateless guards, `consensus` the approval state machine, `escrow`
//! the stake ledger, `lifecycle` the keyed store with the public operations,
//! and `laws` the system-wide properties proved of every reachable state.

pub mod constants;
pub mod consensus;
pub mod errors;
pub mod escrow;
pub mod laws;
pub mod lifecycle;
pub mod thread;
pub mod validation;
