//! Ledgers of an agent marketplace: an escrow that holds the payment of a
//! hired task until the task is completed, cancelled or disputed, and a
//! registry of the agents on offer and of who owns them.
//!
//! The ledgers decide; they do not act. Each operation takes the state, the
//! caller's authorization and the current time as plain values, changes the
//! state, and hands back what the host has to do: the records to write and a
//! notification to publish. Where an operation depends on a movement of
//! funds, the host first asks the ledger which transfer that is, has the
//! token service try it, and hands the outcome to the operation: a transfer
//! that was refused fails the operation and leaves the ledger as it was.

pub mod address;
pub mod error;
pub mod index;
pub mod lists;
pub mod escrow;
pub mod balances;
pub mod registry;
