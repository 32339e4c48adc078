//! A small payment processor: client accounts with exact decimal balances,
//! credit and debit transactions, and periodic cuts of all balances into a
//! plain-text balance file.

pub mod text;
pub mod amount;
pub mod client;
pub mod error;
pub mod service;
pub mod storage;
pub mod api;
pub mod laws;
