//! In-memory staging of private transactions: a store of transactions that
//! wait to be verified, and a store of executed transactions that wait for
//! validator signatures.

pub mod primitives;
pub mod error;
pub mod table;
pub mod transaction;
pub mod selection;
pub mod verification;
pub mod signing;
