//! A staking-reward ledger: participants deposit a fungible asset into a shared
//! pool, accrue time-weighted and rate-capped yield, withdraw principal and
//! claim rewards. Every operation is a verified, all-or-nothing transition over
//! the pool ledger and the participant's account.

pub mod calculate;
pub mod error;
pub mod address;
pub mod checksum;
pub mod registry;
pub mod history;
pub mod account;
pub mod program;
