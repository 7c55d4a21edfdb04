//! Verified core of the DropLinked NDPC contract: the contract's storage
//! modelled as a ledger, the decisions of each entry point as functions on
//! that ledger, and the text formats the contract reads and writes.

pub mod error;
pub mod table;
pub mod types;
pub mod ledger;
pub mod model;
pub mod entry;
pub mod purchase;
pub mod text;
pub mod wide;
pub mod metadata;
pub mod json;
pub mod laws;
pub mod event;
pub mod records;
