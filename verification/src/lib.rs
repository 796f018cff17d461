//! Vellum: the verified core of a local-first story harness that lets a
//! player step into a long novel. The crate holds the text pipeline (chapter
//! splitting, chunking, n-gram indexing and ranking), provider-profile
//! validation, the mock story model, the bookkeeping rules of sessions
//! (save, rollback, trace) and the turn loop of the harness as a state machine.

pub mod foreign;
pub mod text;
pub mod model;
pub mod records;
pub mod import;
pub mod index;
pub mod session;
pub mod harness;
