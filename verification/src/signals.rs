//! Signals that are not part of the ledger.

pub mod demo;
