//! The core of a personal-finance ledger.
//!
//! - `biz`: the entities (`Bill`, `TagInfo`), the storage contracts
//!   (`BillRepo`, `TagRepo`) and the ledger service (`BillBiz`), which
//!   records a transaction through the bill repository.
//! - `data`: repositories that keep their rows in memory and meet the
//!   storage contracts.
//! - `service`: the dispatcher (`BillSvc`), which turns each inbound request
//!   into one ledger operation and one action, a response or a report of
//!   failure, in the order of arrival.
//! - `server`: composition of the above into a fresh application.
//! - `signals`: the demo signal.
//!
//! Nothing here waits on a channel or sends on one: whoever runs the
//! dispatcher receives the requests, hands them over, and carries out the
//! actions that come back.

pub mod biz;
pub mod data;
pub mod server;
pub mod service;
pub mod signals;
