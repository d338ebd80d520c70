//! An in-memory order book with verified id assignment, partitioning by side,
//! lookup and aggregates, together with a small wallet ledger.

pub mod order_book;
pub mod wallet;
pub mod fibonacci;
