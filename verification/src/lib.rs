//! A static ownership and borrow verification engine.
//!
//! The crate analyses a simplified program representation — bindings,
//! statements, scopes, and slice expressions over buffers — and proves or
//! rejects memory-safety properties entirely before execution: single
//! ownership, move invalidation, shared/exclusive access exclusivity, and
//! reference validity (no dangling access).
//!
//! The front end that parses concrete syntax is outside this crate; the
//! engine consumes an already-built [`graph::ProgramGraph`] and returns a
//! [`diag::VerificationReport`] listing every rule violation it found.

pub mod diag;
pub mod graph;
pub mod model;
pub mod tracker;
pub mod checks;
pub mod order;
pub mod engine;
pub mod laws;
pub mod rect;
pub mod user;
pub mod words;
