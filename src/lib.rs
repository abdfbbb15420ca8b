//! Settlement engine for peer-to-peer marketplace trades paid on-chain: it
//! hands each new trade a deposit address that no live trade shares, checks
//! the payment against the chain, and settles paid trades exactly once.
pub mod amount;
pub mod btc;
pub mod coins;
pub mod engine;
pub mod laws;
pub mod ledger;
pub mod policy;
