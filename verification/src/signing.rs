//! The store of executed private transactions that wait for signatures.

use vstd::prelude::*;
use ethcore_bytes::Bytes;
use crate::error::{Error, PrivateTransactionError};
use crate::primitives::{Address, Signature, H256};
use crate::table::Table;
use crate::transaction::{SignedTransaction, SignedTransactionView};
use crate::verification::MAX_QUEUE_LEN;

verus! {

/// Descriptor of a private transaction that waits for signatures.
#[derive(Debug)]
pub struct PrivateTransactionSigningDesc {
    /// The signed transaction whose effects are attested
    pub original_transaction: SignedTransaction,
    /// Supposed validators from the contract
    pub validators: Vec<Address>,
    /// Already obtained signatures
    pub received_signatures: Vec<Signature>,
    /// State after transaction execution to compare further with received from validators
    pub state: Bytes,
}

/// What a signing descriptor holds.
pub struct SigningDescView {
    pub original_transaction: SignedTransactionView,
    pub validators: Seq<Address>,
    pub received_signatures: Seq<Signature>,
    pub state: Seq<u8>,
}

impl View for PrivateTransactionSigningDesc {
    type V = SigningDescView;

    open spec fn view(&self) -> SigningDescView {
        SigningDescView {
            original_transaction: self.original_transaction@,
            validators: self.validators@,
            received_signatures: self.received_signatures@,
            state: self.state@,
        }
    }
}

impl Clone for PrivateTransactionSigningDesc {
    fn clone(&self) -> (copy: Self)
        ensures
            copy@ == self@,
    {
        let validators = self.validators.clone();
        let received_signatures = self.received_signatures.clone();
        let state = self.state.clone();
        assert(validators@ =~= self.validators@);
        assert(received_signatures@ =~= self.received_signatures@);
        assert(state@ =~= self.state@);
        PrivateTransactionSigningDesc {
            original_transaction: self.original_transaction.clone(),
            validators,
            received_signatures,
            state,
        }
    }
}

/// The signatures after `signature` came in: appended at the end, unless it
/// is among them already.
pub open spec fn with_signature(received: Seq<Signature>, signature: Signature) -> Seq<Signature> {
    if received.contains(signature) {
        received
    } else {
        received.push(signature)
    }
}

/// The descriptor with which a transaction enters the signing store: no
/// signature has come in yet.
pub open spec fn fresh_descriptor(
    transaction: SignedTransactionView,
    validators: Seq<Address>,
    state: Seq<u8>,
) -> SigningDescView {
    SigningDescView {
        original_transaction: transaction,
        validators,
        received_signatures: Seq::empty(),
        state,
    }
}

/// The descriptor after `signature` came in.
pub open spec fn signed_descriptor(descriptor: SigningDescView, signature: Signature) -> SigningDescView {
    SigningDescView {
        received_signatures: with_signature(descriptor.received_signatures, signature),
        ..descriptor
    }
}

/// Whether `signature` is among `received`.
pub fn holds_signature(received: &Vec<Signature>, signature: &Signature) -> (r: bool)
    ensures
        r == received@.contains(*signature),
{
    let mut i: usize = 0;
    while i < received.len()
        invariant
            0 <= i <= received@.len(),
            forall|j: int| 0 <= j < i ==> received@[j] != *signature,
        decreases received@.len() - i,
    {
        if received[i].same(signature) {
            return true;
        }
        i += 1;
    }
    false
}

/// Storage for private transactions that wait for signatures, by the hash
/// of the private payload.
pub struct SigningStore {
    /// Transactions and descriptors for signing
    transactions: Table<PrivateTransactionSigningDesc>,
}

impl SigningStore {
    /// No hash stands twice, at most one descriptor more than the bound is
    /// held, and no descriptor holds a signature twice.
    pub closed spec fn wf(&self) -> bool {
        &&& self.transactions.wf()
        &&& self.transactions@.len() <= MAX_QUEUE_LEN + 1
        &&& forall|h: H256| #[trigger]
            self.transactions@.contains_key(h)
                ==> self.transactions@[h].received_signatures@.no_duplicates()
    }

    /// The descriptors, by private hash.
    pub closed spec fn view(&self) -> Map<H256, SigningDescView> {
        self.transactions@.map_values(|d: PrivateTransactionSigningDesc| d@)
    }

    /// A store never holds more than one descriptor over the bound, and no
    /// descriptor holds a signature twice.
    pub proof fn lemma_wf(&self)
        requires
            self.wf(),
        ensures
            self@.dom().finite(),
            self@.len() <= MAX_QUEUE_LEN + 1,
            forall|h: H256| #[trigger]
                self@.contains_key(h) ==> self@[h].received_signatures.no_duplicates(),
    {
        self.transactions.lemma_finite();
        assert(self@.dom() =~= self.transactions@.dom());
    }

    /// Creates new store
    pub fn new() -> (store: Self)
        ensures
            store.wf(),
            store@ == Map::<H256, SigningDescView>::empty(),
    {
        let store = SigningStore { transactions: Table::new() };
        assert(store@ =~= Map::<H256, SigningDescView>::empty());
        store
    }

    /// The number of descriptors.
    pub fn len(&self) -> (n: usize)
        requires
            self.wf(),
        ensures
            n == self@.len(),
    {
        assert(self@.dom() =~= self.transactions@.dom());
        self.transactions.len()
    }

    /// Adds new private transaction into the store for signing, with no
    /// signature received; a descriptor already stored under the hash is
    /// replaced. A store over its bound takes nothing.
    pub fn add_transaction(
        &mut self,
        private_hash: H256,
        transaction: SignedTransaction,
        validators: Vec<Address>,
        state: Bytes,
    ) -> (r: Result<(), Error>)
        requires
            old(self).wf(),
        ensures
            final(self).wf(),
            old(self)@.len() > MAX_QUEUE_LEN ==> r == Err::<(), Error>(
                Error::PrivateTransaction(PrivateTransactionError::QueueIsFull),
            ) && final(self)@ == old(self)@,
            old(self)@.len() <= MAX_QUEUE_LEN ==> r == Ok::<(), Error>(()) && final(self)@ == old(
                self,
            )@.insert(private_hash, fresh_descriptor(transaction@, validators@, state@)),
    {
        if self.len() > MAX_QUEUE_LEN {
            return Err(Error::PrivateTransaction(PrivateTransactionError::QueueIsFull));
        }
        assert(self@.dom() =~= self.transactions@.dom());
        let descriptor = PrivateTransactionSigningDesc {
            original_transaction: transaction,
            validators,
            received_signatures: Vec::new(),
            state,
        };
        self.transactions.insert(private_hash, descriptor);
        assert(final(self)@ =~= old(self)@.insert(private_hash, descriptor@));
        Ok(())
    }

    /// Get copy of private transaction's description from the storage
    pub fn get(&self, private_hash: &H256) -> (r: Option<PrivateTransactionSigningDesc>)
        requires
            self.wf(),
        ensures
            match r {
                Some(d) => self@.contains_key(*private_hash) && d@ == self@[*private_hash],
                None => !self@.contains_key(*private_hash),
            },
    {
        match self.transactions.get(private_hash) {
            Some(d) => Some(d.clone()),
            None => None,
        }
    }

    /// Removes desc from the store (after verification is completed); a
    /// store without the hash stays as it is.
    pub fn remove(&mut self, private_hash: &H256) -> (r: Result<(), Error>)
        requires
            old(self).wf(),
        ensures
            final(self).wf(),
            r == Ok::<(), Error>(()),
            final(self)@ == old(self)@.remove(*private_hash),
    {
        let _ = self.transactions.remove(private_hash);
        assert(final(self)@ =~= old(self)@.remove(*private_hash));
        Ok(())
    }

    /// Adds received signature for the stored private transaction, unless
    /// the same signature was received before.
    pub fn add_signature(&mut self, private_hash: &H256, signature: Signature) -> (r: Result<
        (),
        Error,
    >)
        requires
            old(self).wf(),
        ensures
            final(self).wf(),
            !old(self)@.contains_key(*private_hash) ==> r == Err::<(), Error>(
                Error::PrivateTransaction(PrivateTransactionError::PrivateTransactionNotFound),
            ) && final(self)@ == old(self)@,
            old(self)@.contains_key(*private_hash) ==> r == Ok::<(), Error>(()) && final(self)@
                == old(self)@.insert(
                *private_hash,
                signed_descriptor(old(self)@[*private_hash], signature),
            ),
    {
        match self.transactions.remove(private_hash) {
            None => {
                assert(final(self)@ =~= old(self)@);
                Err(Error::PrivateTransaction(PrivateTransactionError::PrivateTransactionNotFound))
            },
            Some(descriptor) => {
                let mut descriptor = descriptor;
                let ghost before = descriptor@;
                if !holds_signature(&descriptor.received_signatures, &signature) {
                    descriptor.received_signatures.push(signature);
                }
                assert(descriptor@ == signed_descriptor(before, signature));
                self.transactions.insert(*private_hash, descriptor);
                assert(final(self)@ =~= old(self)@.insert(
                    *private_hash,
                    signed_descriptor(old(self)@[*private_hash], signature),
                ));
                Ok(())
            },
        }
    }
}

/// A signature that comes in a second time changes nothing, and after it
/// came in it stands among the received ones exactly once.
pub proof fn lemma_signature_counted_once(received: Seq<Signature>, signature: Signature)
    requires
        received.no_duplicates(),
    ensures
        with_signature(with_signature(received, signature), signature) == with_signature(
            received,
            signature,
        ),
        with_signature(received, signature).no_duplicates(),
        with_signature(received, signature).contains(signature),
        with_signature(received, signature).filter(|s: Signature| s == signature).len() == 1,
{
    let after = with_signature(received, signature);
    if received.contains(signature) {
    } else {
        assert(after[received.len() as int] == signature);
    }
    assert(after.no_duplicates());
    assert(after.contains(signature));
    lemma_one_occurrence(after, signature);
}

/// In a sequence without duplicates, an element that occurs at all occurs
/// exactly once.
proof fn lemma_one_occurrence(s: Seq<Signature>, signature: Signature)
    requires
        s.no_duplicates(),
        s.contains(signature),
    ensures
        s.filter(|x: Signature| x == signature).len() == 1,
    decreases s.len(),
{
    reveal(Seq::filter);
    let front = s.drop_last();
    assert(front.no_duplicates());
    if s.last() == signature {
        assert(!front.contains(signature)) by {
            if front.contains(signature) {
                let i = choose|i: int| 0 <= i < front.len() && front[i] == signature;
                assert(s[i] == signature);
            }
        }
        lemma_no_occurrence(front, signature);
    } else {
        let i = choose|i: int| 0 <= i < s.len() && s[i] == signature;
        assert(front[i] == signature);
        lemma_one_occurrence(front, signature);
    }
}

/// An element that does not occur in a sequence is not counted in it.
proof fn lemma_no_occurrence(s: Seq<Signature>, signature: Signature)
    requires
        !s.contains(signature),
    ensures
        s.filter(|x: Signature| x == signature).len() == 0,
    decreases s.len(),
{
    reveal(Seq::filter);
    if s.len() > 0 {
        let front = s.drop_last();
        assert(s.last() == s[s.len() - 1]);
        assert(!front.contains(signature)) by {
            if front.contains(signature) {
                let i = choose|i: int| 0 <= i < front.len() && front[i] == signature;
                assert(s[i] == signature);
            }
        }
        lemma_no_occurrence(front, signature);
    }
}

/// A descriptor that has taken a signature stays as it is when the same
/// signature comes in again.
pub proof fn lemma_repeated_signature_changes_nothing(
    descriptor: SigningDescView,
    signature: Signature,
)
    ensures
        signed_descriptor(signed_descriptor(descriptor, signature), signature)
            == signed_descriptor(descriptor, signature),
{
    let received = descriptor.received_signatures;
    if !received.contains(signature) {
        assert(received.push(signature)[received.len() as int] == signature);
    }
}

/// Two different signatures that come in for the first time are appended
/// in the order in which they came.
pub proof fn lemma_signatures_in_call_order(
    received: Seq<Signature>,
    first: Signature,
    second: Signature,
)
    requires
        first != second,
        !received.contains(first),
        !received.contains(second),
    ensures
        with_signature(with_signature(received, first), second) == received.push(first).push(
            second,
        ),
{
    let middle = received.push(first);
    if middle.contains(second) {
        let i = choose|i: int| 0 <= i < middle.len() && middle[i] == second;
        if i < received.len() {
            assert(received[i] == second);
        }
    }
}

} // verus!
