//! The store of private transactions that wait for verification.

use vstd::prelude::*;
use crate::error::{Error, PrivateTransactionError, Rejection};
use crate::primitives::{Address, BlockNumber, H256};
use crate::selection::{ascending_senders, is_one_per_sender, one_per_sender, views};
use crate::table::Table;
use crate::transaction::{
    Condition, RemovalReason, SignedTransaction, TransactionOrigin, TransactionPool,
    TransactionVerifier, UnverifiedTransaction,
};
use ethcore_bigint::prelude::U256;

verus! {

/// Maximum length for private transactions queues.
pub const MAX_QUEUE_LEN: usize = 8312;

/// Descriptor of a private transaction that waits for verification.
#[derive(Clone, Copy, Debug, PartialEq, Eq)]
pub struct PrivateTransactionDesc {
    /// Hash of the private transaction
    pub private_hash: H256,
    /// Contract's address used in private transaction
    pub contract: Address,
    /// Address that should be used for verification
    pub validator_account: Address,
}

impl Default for PrivateTransactionDesc {
    /// The descriptor whose hash and addresses are all zero bytes.
    fn default() -> (d: Self)
        ensures
            d.private_hash.0@ == Seq::new(32, |i: int| 0u8),
            d.contract.0@ == Seq::new(20, |i: int| 0u8),
            d.validator_account.0@ == Seq::new(20, |i: int| 0u8),
    {
        let d = PrivateTransactionDesc {
            private_hash: H256([0u8; 32]),
            contract: Address([0u8; 20]),
            validator_account: Address([0u8; 20]),
        };
        assert(d.private_hash.0@ =~= Seq::new(32, |i: int| 0u8));
        assert(d.contract.0@ =~= Seq::new(20, |i: int| 0u8));
        assert(d.validator_account.0@ =~= Seq::new(20, |i: int| 0u8));
        d
    }
}

/// What the store answers when a transaction with hash `hash` asks to be
/// admitted, before any collaborator is consulted: the bound is tested
/// first, then whether the hash is already there.
pub open spec fn admission(
    descriptors: Map<H256, PrivateTransactionDesc>,
    hash: H256,
) -> Result<(), PrivateTransactionError> {
    if descriptors.len() > MAX_QUEUE_LEN {
        Err(PrivateTransactionError::QueueIsFull)
    } else if descriptors.contains_key(hash) {
        Err(PrivateTransactionError::PrivateTransactionAlreadyImported)
    } else {
        Ok(())
    }
}

/// What a lookup of `hash` answers.
pub open spec fn lookup(
    descriptors: Map<H256, PrivateTransactionDesc>,
    hash: H256,
) -> Result<PrivateTransactionDesc, Error> {
    if descriptors.contains_key(hash) {
        Ok(descriptors[hash])
    } else {
        Err(Error::PrivateTransaction(PrivateTransactionError::PrivateTransactionNotFound))
    }
}

/// Storage for private transactions that wait for verification: the pool
/// that holds the transactions, and a descriptor for each, kept under the
/// transaction's hash.
pub struct VerificationStore<P: TransactionPool> {
    /// Descriptors of the queued private transactions, by the hash of the transaction itself
    descriptors: Table<PrivateTransactionDesc>,
    /// Queue with transactions for verification
    transactions: P,
}

impl<P: TransactionPool> VerificationStore<P> {
    /// The descriptor table holds no hash twice, and at most one
    /// descriptor more than the bound.
    pub closed spec fn wf(&self) -> bool {
        &&& self.descriptors.wf()
        &&& self.descriptors@.len() <= MAX_QUEUE_LEN + 1
    }

    /// A store never holds more than one descriptor over the bound.
    pub proof fn lemma_bounded(&self)
        requires
            self.wf(),
        ensures
            self@.dom().finite(),
            self@.len() <= MAX_QUEUE_LEN + 1,
    {
        self.descriptors.lemma_finite();
    }

    /// The descriptors, by transaction hash.
    pub closed spec fn view(&self) -> Map<H256, PrivateTransactionDesc> {
        self.descriptors@
    }

    /// The pool that the store stands on.
    pub closed spec fn pool(&self) -> P {
        self.transactions
    }

    /// Creates a store over `transactions`, with no descriptor yet.
    pub fn new(transactions: P) -> (store: Self)
        ensures
            store.wf(),
            store@ == Map::<H256, PrivateTransactionDesc>::empty(),
            store.pool() == transactions,
    {
        VerificationStore { descriptors: Table::new(), transactions }
    }

    /// The number of descriptors.
    pub fn len(&self) -> (n: usize)
        requires
            self.wf(),
        ensures
            n == self@.len(),
    {
        self.descriptors.len()
    }

    /// Whether a transaction with hash `transaction_hash` may ask the
    /// collaborators for admission: not while the store is over its bound,
    /// and not a second time.
    pub fn check_admission(&self, transaction_hash: &H256) -> (r: Result<
        (),
        PrivateTransactionError,
    >)
        requires
            self.wf(),
        ensures
            r == admission(self@, *transaction_hash),
    {
        if self.descriptors.len() > MAX_QUEUE_LEN {
            return Err(PrivateTransactionError::QueueIsFull);
        }
        if self.descriptors.contains_key(transaction_hash) {
            return Err(PrivateTransactionError::PrivateTransactionAlreadyImported);
        }
        Ok(())
    }

    /// Takes note of what the pool answered for a transaction with hash
    /// `transaction_hash` that passed `check_admission`: where the pool took
    /// it, the descriptor is stored under that hash; where it refused, the
    /// refusal is handed on and nothing is stored.
    pub fn record_admission(
        &mut self,
        transaction_hash: H256,
        descriptor: PrivateTransactionDesc,
        outcome: Result<(), Rejection>,
    ) -> (r: Result<(), Error>)
        requires
            old(self).wf(),
            admission(old(self)@, transaction_hash).is_ok(),
        ensures
            final(self).wf(),
            final(self).pool() == old(self).pool(),
            match outcome {
                Ok(_) => r == Ok::<(), Error>(()) && final(self)@ == old(self)@.insert(
                    transaction_hash,
                    descriptor,
                ),
                Err(e) => r == Err::<(), Error>(Error::Pool(e)) && final(self)@ == old(self)@,
            },
    {
        match outcome {
            Ok(_) => {
                self.descriptors.insert(transaction_hash, descriptor);
                Ok(())
            },
            Err(e) => Err(Error::Pool(e)),
        }
    }

    /// Adds private transaction for verification into the store.
    ///
    /// A store over its bound answers `QueueIsFull`, and a store that has a
    /// descriptor under the transaction's hash answers
    /// `PrivateTransactionAlreadyImported`; neither consults a collaborator
    /// nor changes anything. Otherwise `verifier` is asked for the signed
    /// form of `transaction`; a refusal is handed on as it came, the pool
    /// not asked and nothing changed. The signed transaction is offered to
    /// the pool as an external one that came in at `insertion_time`, under
    /// no condition; where the pool takes it the descriptor is stored, and
    /// where it refuses its refusal is handed on as it came and no
    /// descriptor is stored.
    pub fn add_transaction<V: TransactionVerifier>(
        &mut self,
        transaction: UnverifiedTransaction,
        contract: Address,
        validator_account: Address,
        private_hash: H256,
        verifier: &V,
        details_provider: &P::Details,
        insertion_time: BlockNumber,
    ) -> (r: Result<(), Error>)
        requires
            old(self).wf(),
        ensures
            final(self).wf(),
            match admission(old(self)@, transaction.hash) {
                Err(refusal) => r == Err::<(), Error>(Error::PrivateTransaction(refusal))
                    && *final(self) == *old(self),
                Ok(_) => match r {
                    Ok(_) => {
                        &&& final(self)@ == old(self)@.insert(
                            transaction.hash,
                            (PrivateTransactionDesc { private_hash, contract, validator_account }),
                        )
                        &&& exists|
                            signed: SignedTransaction,
                            pool: &mut P,
                            outcome: Result<(), Rejection>,
                        |
                            call_ensures(
                                V::verify,
                                (verifier, transaction),
                                Ok::<SignedTransaction, Rejection>(signed),
                            ) && #[trigger] call_ensures(
                                P::add,
                                (
                                    pool,
                                    signed,
                                    TransactionOrigin::External,
                                    insertion_time,
                                    None::<Condition>,
                                    details_provider,
                                ),
                                outcome,
                            ) && outcome is Ok && *pool == old(self).pool() && *final(pool)
                                == final(self).pool()
                    },
                    Err(Error::Signature(e)) => {
                        &&& *final(self) == *old(self)
                        &&& call_ensures(
                            V::verify,
                            (verifier, transaction),
                            Err::<SignedTransaction, Rejection>(e),
                        )
                    },
                    Err(Error::Pool(e)) => {
                        &&& final(self)@ == old(self)@
                        &&& exists|
                            signed: SignedTransaction,
                            pool: &mut P,
                            outcome: Result<(), Rejection>,
                        |
                            call_ensures(
                                V::verify,
                                (verifier, transaction),
                                Ok::<SignedTransaction, Rejection>(signed),
                            ) && #[trigger] call_ensures(
                                P::add,
                                (
                                    pool,
                                    signed,
                                    TransactionOrigin::External,
                                    insertion_time,
                                    None::<Condition>,
                                    details_provider,
                                ),
                                outcome,
                            ) && outcome == Err::<(), Rejection>(e) && *pool == old(self).pool()
                                && *final(pool) == final(self).pool()
                    },
                    Err(Error::PrivateTransaction(_)) => false,
                },
            },
    {
        let transaction_hash = transaction.hash();
        match self.check_admission(&transaction_hash) {
            Err(refusal) => {
                return Err(Error::PrivateTransaction(refusal));
            },
            Ok(_) => {},
        }
        let verified = verifier.verify(transaction);
        assert(call_ensures(V::verify, (verifier, transaction), verified));
        let signed_transaction = match verified {
            Ok(signed) => signed,
            Err(e) => {
                assert(call_ensures(
                    V::verify,
                    (verifier, transaction),
                    Err::<SignedTransaction, Rejection>(e),
                ));
                return Err(Error::Signature(e));
            },
        };
        let outcome = self.transactions.add(
            signed_transaction,
            TransactionOrigin::External,
            insertion_time,
            None,
            details_provider,
        );
        self.record_admission(
            transaction_hash,
            PrivateTransactionDesc { private_hash, contract, validator_account },
            outcome,
        )
    }

    /// Returns transactions ready for verification: of the pool's
    /// best-ranked transactions one per sender, because several of one
    /// sender cannot be verified in a row without verification from other
    /// peers.
    ///
    /// The result is the selection of one transaction per sender from a
    /// list that the pool of this store answered with to
    /// `top_transactions`; the store itself is not changed.
    pub fn ready_transactions(&self) -> (ready: Vec<SignedTransaction>)
        ensures
            ascending_senders(views(ready@)),
            exists|top: Vec<SignedTransaction>|
                #[trigger] call_ensures(P::top_transactions, (&self.pool(),), top)
                    && is_one_per_sender(views(top@), views(ready@)),
    {
        let top = self.transactions.top_transactions();
        let ready = one_per_sender(&top);
        assert(call_ensures(P::top_transactions, (&self.pool(),), top));
        ready
    }

    /// Returns descriptor of the corresponding private transaction
    pub fn private_transaction_descriptor(&self, transaction_hash: &H256) -> (r: Result<
        &PrivateTransactionDesc,
        Error,
    >)
        requires
            self.wf(),
        ensures
            match r {
                Ok(d) => lookup(self@, *transaction_hash) == Ok::<PrivateTransactionDesc, Error>(*d),
                Err(e) => lookup(self@, *transaction_hash) == Err::<PrivateTransactionDesc, Error>(e),
            },
    {
        match self.descriptors.get(transaction_hash) {
            Some(d) => Ok(d),
            None => Err(
                Error::PrivateTransaction(PrivateTransactionError::PrivateTransactionNotFound),
            ),
        }
    }

    /// Remove transaction from the queue for verification: its descriptor
    /// goes, if there was one, and the pool is told to remove the
    /// transaction as invalid, with `fetch_nonce` to ask for nonces,
    /// whether or not there was a descriptor.
    pub fn remove_private_transaction<F: Fn(&Address) -> U256>(
        &mut self,
        transaction_hash: &H256,
        fetch_nonce: &F,
    )
        requires
            old(self).wf(),
        ensures
            final(self).wf(),
            final(self)@ == old(self)@.remove(*transaction_hash),
            exists|pool: &mut P| #[trigger]
                call_ensures(
                    P::remove::<F>,
                    (pool, transaction_hash, fetch_nonce, RemovalReason::Invalid),
                    (),
                ) && *pool == old(self).pool() && *final(pool) == final(self).pool(),
    {
        let _ = self.descriptors.remove(transaction_hash);
        self.transactions.remove(transaction_hash, fetch_nonce, RemovalReason::Invalid);
    }
}

/// A descriptor that was stored under a hash is what a lookup of that hash
/// answers.
pub proof fn lemma_stored_is_found(
    descriptors: Map<H256, PrivateTransactionDesc>,
    hash: H256,
    descriptor: PrivateTransactionDesc,
)
    ensures
        lookup(descriptors.insert(hash, descriptor), hash) == Ok::<PrivateTransactionDesc, Error>(
            descriptor,
        ),
{
}

/// A hash under which a descriptor was stored is refused from then on, and
/// the refusal leaves the descriptor as it is: as already imported while
/// the store is within its bound.
pub proof fn lemma_second_admission_refused(
    descriptors: Map<H256, PrivateTransactionDesc>,
    hash: H256,
    descriptor: PrivateTransactionDesc,
)
    requires
        descriptors.insert(hash, descriptor).len() <= MAX_QUEUE_LEN,
    ensures
        admission(descriptors.insert(hash, descriptor), hash) == Err::<
            (),
            PrivateTransactionError,
        >(PrivateTransactionError::PrivateTransactionAlreadyImported),
{
}

/// A hash under which a descriptor was stored is never admitted again,
/// however full the store is.
pub proof fn lemma_no_second_admission(
    descriptors: Map<H256, PrivateTransactionDesc>,
    hash: H256,
    descriptor: PrivateTransactionDesc,
)
    ensures
        admission(descriptors.insert(hash, descriptor), hash).is_err(),
{
}

/// A store that holds one descriptor more than the bound admits nothing,
/// whatever the hash.
pub proof fn lemma_full_store_refuses(descriptors: Map<H256, PrivateTransactionDesc>, hash: H256)
    requires
        descriptors.len() == MAX_QUEUE_LEN + 1,
    ensures
        admission(descriptors, hash) == Err::<(), PrivateTransactionError>(
            PrivateTransactionError::QueueIsFull,
        ),
{
}

/// After the removal of a hash, a lookup of it finds nothing, whether or
/// not a descriptor was stored under it before.
pub proof fn lemma_removed_is_not_found(descriptors: Map<H256, PrivateTransactionDesc>, hash: H256)
    ensures
        lookup(descriptors.remove(hash), hash) == Err::<PrivateTransactionDesc, Error>(
            Error::PrivateTransaction(PrivateTransactionError::PrivateTransactionNotFound),
        ),
{
}

} // verus!
