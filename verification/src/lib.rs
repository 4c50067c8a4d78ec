//! A mail-filtering and delivery-action engine.
//!
//! Incoming messages are evaluated against a per-account set of compiled
//! filter scripts; evaluation yields an ordered list of delivery actions
//! (file into a mailbox, discard, reject, redirect, keep, notify, tag with
//! keywords, suppress as a duplicate), which a delivery pipeline applies to
//! a mailbox store.

pub mod ast;
pub mod bytes;
pub mod compiler;
pub mod dup;
pub mod engine;
pub mod errors;
pub mod interp;
pub mod pipeline;
pub mod mailbox;
pub mod store;
