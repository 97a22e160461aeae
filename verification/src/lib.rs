//! Synthesis of type-state builders.
//!
//! Given the ordered field list of a record, this crate plans a chain of
//! builder states that forms a finite state machine: every state offers one
//! setter for each field that is still missing, and a state may produce the
//! record as soon as no required field is missing any more.

pub mod assembly;
pub mod counting;
pub mod field;
pub mod field_set;
pub mod finalizer;
pub mod generator;
pub mod identity;
pub mod laws;
pub mod naming;
pub mod runtime;
pub mod storage;
pub mod type_expr;
