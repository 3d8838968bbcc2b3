//! Transactions as the stores see them, and the collaborators that a
//! verification store is given: the transaction pool and the signature
//! check.

use vstd::prelude::*;
use crate::error::Rejection;
use crate::primitives::{Address, BlockNumber, H256};
use ethcore_bigint::prelude::U256;

verus! {

/// A transaction as it was received: its hash and its encoded form, the
/// signature not yet checked.
#[derive(Debug, PartialEq, Eq)]
pub struct UnverifiedTransaction {
    pub hash: H256,
    pub payload: Vec<u8>,
}

impl UnverifiedTransaction {
    /// The transaction's own hash.
    pub fn hash(&self) -> (h: H256)
        ensures
            h == self.hash,
    {
        self.hash
    }
}

/// A transaction whose signature was checked and whose sender is known.
#[derive(Debug, PartialEq, Eq)]
pub struct SignedTransaction {
    pub hash: H256,
    pub sender: Address,
    pub payload: Vec<u8>,
}

/// What a signed transaction holds.
pub struct SignedTransactionView {
    pub hash: H256,
    pub sender: Address,
    pub payload: Seq<u8>,
}

impl View for SignedTransaction {
    type V = SignedTransactionView;

    open spec fn view(&self) -> SignedTransactionView {
        SignedTransactionView { hash: self.hash, sender: self.sender, payload: self.payload@ }
    }
}

impl Clone for SignedTransaction {
    fn clone(&self) -> (copy: Self)
        ensures
            copy@ == self@,
    {
        let payload = self.payload.clone();
        assert(payload@ =~= self.payload@);
        SignedTransaction { hash: self.hash, sender: self.sender, payload }
    }
}

impl SignedTransaction {
    /// The transaction's own hash.
    pub fn hash(&self) -> (h: H256)
        ensures
            h == self.hash,
    {
        self.hash
    }

    /// The account that signed the transaction.
    pub fn sender(&self) -> (a: Address)
        ensures
            a == self.sender,
    {
        self.sender
    }
}

/// Where a transaction that enters the pool came from.
#[derive(Clone, Copy, Debug, PartialEq, Eq)]
pub enum TransactionOrigin {
    /// Created on this node.
    Local,
    /// Received from outside.
    External,
    /// Taken back from a block that left the chain.
    RetractedBlock,
}

/// What must hold of the chain before the pool lets a transaction go on.
#[derive(Clone, Copy, Debug, PartialEq, Eq)]
pub enum Condition {
    /// The chain has reached this block.
    Number(BlockNumber),
    /// The chain has reached this time, in seconds.
    Timestamp(u64),
}

/// Why a transaction leaves the pool.
#[derive(Clone, Copy, Debug, PartialEq, Eq)]
pub enum RemovalReason {
    /// It proved invalid.
    Invalid,
    /// It is not allowed.
    NotAllowed,
    /// Its sender withdrew it.
    Canceled,
}

/// The ordered transaction pool that the verification store stands on. The
/// pool orders and ranks by a policy of its own; the store only hands
/// transactions in, asks for the best-ranked ones, and has them removed.
pub trait TransactionPool {
    /// What the pool consults about accounts when it admits a transaction.
    type Details;

    /// Admits a transaction, or refuses it for a reason of the pool's own.
    /// With a `condition` the pool holds the transaction back until the
    /// condition is met.
    fn add(
        &mut self,
        transaction: SignedTransaction,
        origin: TransactionOrigin,
        insertion_time: BlockNumber,
        condition: Option<Condition>,
        details_provider: &Self::Details,
    ) -> Result<(), Rejection>;

    /// The best-ranked transactions, foremost first.
    fn top_transactions(&self) -> Vec<SignedTransaction>;

    /// Removes a transaction, and with it those that depended on it; the
    /// pool asks `fetch_nonce` for the current nonce of an account.
    fn remove<F: Fn(&Address) -> U256>(
        &mut self,
        transaction_hash: &H256,
        fetch_nonce: &F,
        reason: RemovalReason,
    );
}

/// The check of a transaction's signature, which also finds its sender.
pub trait TransactionVerifier {
    /// The signed form of `transaction`, or why it has none.
    fn verify(&self, transaction: UnverifiedTransaction) -> Result<SignedTransaction, Rejection>;
}

} // verus!
