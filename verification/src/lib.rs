//! A fungible-token ledger with storage-deposit accounting, an event log and
//! a one-time initialised contract state, verified with Verus.

pub mod contract;
pub mod error;
pub mod event;
pub mod laws;
pub mod ledger;
pub mod metadata;
pub mod storage;
