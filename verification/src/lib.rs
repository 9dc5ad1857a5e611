//! Core of a small currency-trading platform: wallets and per-user ledgers,
//! unordered swap pairs, price-time-priority order books and the matching
//! engine that drives them, a session manager with injected time, and the
//! decision logic of the authentication and trading services.
//!
//! All I/O (RPC transport, persistence, clocks, worker threads) lives outside
//! this crate; the functions here are deterministic over plain values and
//! carry verified contracts.

pub mod accounts;
pub mod auth;
pub mod backend;
pub mod book;
pub mod errors;
pub mod ledger;
pub mod market;
pub mod order;
pub mod pair;
pub mod passwords;
pub mod service;
pub mod session;
pub mod user;
pub mod wallet;
