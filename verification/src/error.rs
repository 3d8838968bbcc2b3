//! The failures that the stores report.

use vstd::prelude::*;

verus! {

/// What the stores themselves refuse.
#[derive(Clone, Copy, Debug, PartialEq, Eq)]
pub enum PrivateTransactionError {
    /// The store already holds more entries than its bound.
    QueueIsFull,
    /// A descriptor is already stored under the transaction's hash.
    PrivateTransactionAlreadyImported,
    /// Nothing is stored under the given hash.
    PrivateTransactionNotFound,
}

/// A refusal by a collaborator, carried through as it was given.
#[derive(Clone, Debug, PartialEq, Eq)]
pub struct Rejection {
    pub message: String,
}

/// Every failure a store operation can report.
#[derive(Clone, Debug, PartialEq, Eq)]
pub enum Error {
    /// Raised by a store.
    PrivateTransaction(PrivateTransactionError),
    /// The transaction's signature or format did not verify.
    Signature(Rejection),
    /// The transaction pool refused the transaction.
    Pool(Rejection),
}

} // verus!
