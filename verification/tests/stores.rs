use ethcore_bigint::prelude::U256;
use private_transactions::error::{Error, PrivateTransactionError, Rejection};
use private_transactions::primitives::{Address, Signature, H256};
use private_transactions::signing::{holds_signature, SigningStore};
use private_transactions::table::Table;
use private_transactions::transaction::{
    Condition, RemovalReason, SignedTransaction, TransactionOrigin, TransactionPool, TransactionVerifier,
    UnverifiedTransaction,
};
use private_transactions::selection::one_per_sender;
use private_transactions::verification::{
    PrivateTransactionDesc, VerificationStore, MAX_QUEUE_LEN,
};
use std::cell::RefCell;
use std::rc::Rc;

fn hash(n: u32) -> H256 {
    let mut bytes = [0u8; 32];
    bytes[28..32].copy_from_slice(&n.to_be_bytes());
    H256(bytes)
}

fn address(n: u8) -> Address {
    let mut bytes = [0u8; 20];
    bytes[19] = n;
    Address(bytes)
}

fn signature(n: u8) -> Signature {
    let mut bytes = [0u8; 65];
    bytes[0] = n;
    bytes[64] = n;
    Signature(bytes)
}

fn unverified(n: u32, sender: u8) -> UnverifiedTransaction {
    UnverifiedTransaction { hash: hash(n), payload: vec![sender, 1, 2, 3] }
}

fn signed(n: u32, sender: Address) -> SignedTransaction {
    SignedTransaction { hash: hash(n), sender, payload: vec![9, 9] }
}

fn desc(n: u32) -> PrivateTransactionDesc {
    PrivateTransactionDesc {
        private_hash: hash(1_000_000 + n),
        contract: address(200),
        validator_account: address(201),
    }
}

fn not_found() -> Error {
    Error::PrivateTransaction(PrivateTransactionError::PrivateTransactionNotFound)
}

/// What the pool was asked to do.
#[derive(Default)]
struct Log {
    added: Vec<(H256, TransactionOrigin, u64, Option<Condition>)>,
    removed: Vec<(H256, RemovalReason)>,
    nonces: Vec<U256>,
}

/// A pool that ranks transactions in the order in which they came.
struct StubPool {
    held: Vec<SignedTransaction>,
    refuse: bool,
    log: Rc<RefCell<Log>>,
}

impl StubPool {
    fn new() -> StubPool {
        StubPool { held: Vec::new(), refuse: false, log: Rc::new(RefCell::new(Log::default())) }
    }

    fn refusing() -> StubPool {
        StubPool { held: Vec::new(), refuse: true, log: Rc::new(RefCell::new(Log::default())) }
    }
}

impl TransactionPool for StubPool {
    type Details = ();

    fn add(
        &mut self,
        transaction: SignedTransaction,
        origin: TransactionOrigin,
        insertion_time: u64,
        condition: Option<Condition>,
        _details_provider: &(),
    ) -> Result<(), Rejection> {
        if self.refuse {
            return Err(Rejection { message: "stale nonce".to_string() });
        }
        self.log.borrow_mut().added.push((transaction.hash, origin, insertion_time, condition));
        self.held.push(transaction);
        Ok(())
    }

    fn top_transactions(&self) -> Vec<SignedTransaction> {
        self.held.clone()
    }

    fn remove<F: Fn(&Address) -> U256>(
        &mut self,
        transaction_hash: &H256,
        fetch_nonce: &F,
        reason: RemovalReason,
    ) {
        let mut log = self.log.borrow_mut();
        for t in self.held.iter() {
            if t.hash == *transaction_hash {
                log.nonces.push(fetch_nonce(&t.sender));
            }
        }
        log.removed.push((*transaction_hash, reason));
        self.held.retain(|t| t.hash != *transaction_hash);
    }
}

/// Takes the first byte of the payload for the sender; a payload that
/// starts with 255 does not verify.
struct StubVerifier;

impl TransactionVerifier for StubVerifier {
    fn verify(&self, transaction: UnverifiedTransaction) -> Result<SignedTransaction, Rejection> {
        if transaction.payload[0] == 255 {
            return Err(Rejection { message: "invalid signature".to_string() });
        }
        Ok(SignedTransaction {
            hash: transaction.hash,
            sender: address(transaction.payload[0]),
            payload: transaction.payload,
        })
    }
}

fn enqueue(
    store: &mut VerificationStore<StubPool>,
    n: u32,
    sender: u8,
) -> Result<(), Error> {
    let d = desc(n);
    store.add_transaction(
        unverified(n, sender),
        d.contract,
        d.validator_account,
        d.private_hash,
        &StubVerifier,
        &(),
        7,
    )
}

fn zero_nonce(_: &Address) -> U256 {
    U256::zero()
}

#[test]
fn added_descriptor_is_returned() {
    let mut store = VerificationStore::new(StubPool::new());
    assert_eq!(enqueue(&mut store, 1, 10), Ok(()));
    assert_eq!(store.private_transaction_descriptor(&hash(1)), Ok(&desc(1)));
    assert_eq!(store.len(), 1);
}

#[test]
fn transaction_enters_pool_as_external() {
    let pool = StubPool::new();
    let log = pool.log.clone();
    let mut store = VerificationStore::new(pool);
    assert_eq!(enqueue(&mut store, 5, 10), Ok(()));
    assert_eq!(log.borrow().added, vec![(hash(5), TransactionOrigin::External, 7, None)]);
}

#[test]
fn second_admission_is_refused() {
    let mut store = VerificationStore::new(StubPool::new());
    assert_eq!(enqueue(&mut store, 1, 10), Ok(()));
    let again = store.add_transaction(
        unverified(1, 11),
        address(1),
        address(2),
        hash(77),
        &StubVerifier,
        &(),
        8,
    );
    assert_eq!(
        again,
        Err(Error::PrivateTransaction(PrivateTransactionError::PrivateTransactionAlreadyImported))
    );
    assert_eq!(store.private_transaction_descriptor(&hash(1)), Ok(&desc(1)));
    assert_eq!(store.len(), 1);
    assert_eq!(store.ready_transactions().len(), 1);
}

#[test]
fn check_admission_tells_the_cases_apart() {
    let mut store = VerificationStore::new(StubPool::new());
    assert_eq!(store.check_admission(&hash(1)), Ok(()));
    assert_eq!(store.record_admission(hash(1), desc(1), Ok(())), Ok(()));
    assert_eq!(
        store.check_admission(&hash(1)),
        Err(PrivateTransactionError::PrivateTransactionAlreadyImported)
    );
    assert_eq!(store.check_admission(&hash(2)), Ok(()));
}

#[test]
fn record_admission_hands_refusal_on() {
    let mut store = VerificationStore::new(StubPool::new());
    let refusal = Rejection { message: "too cheap".to_string() };
    assert_eq!(
        store.record_admission(hash(1), desc(1), Err(refusal.clone())),
        Err(Error::Pool(refusal))
    );
    assert_eq!(store.len(), 0);
    assert_eq!(store.private_transaction_descriptor(&hash(1)), Err(not_found()));
}

#[test]
fn verification_store_full_after_bound_plus_one() {
    let mut store = VerificationStore::new(StubPool::new());
    let mut n: u32 = 0;
    while (n as usize) < MAX_QUEUE_LEN + 1 {
        assert_eq!(store.record_admission(hash(n), desc(n), Ok(())), Ok(()));
        n += 1;
    }
    assert_eq!(store.len(), 8313);
    assert_eq!(
        enqueue(&mut store, 100_000, 1),
        Err(Error::PrivateTransaction(PrivateTransactionError::QueueIsFull))
    );
    assert_eq!(store.len(), 8313);
    assert_eq!(store.private_transaction_descriptor(&hash(100_000)), Err(not_found()));
    // The bound is tested before the hash is looked up.
    assert_eq!(
        enqueue(&mut store, 0, 1),
        Err(Error::PrivateTransaction(PrivateTransactionError::QueueIsFull))
    );
    assert_eq!(store.ready_transactions().len(), 0);
}

#[test]
fn verification_store_takes_entry_at_bound() {
    let mut store = VerificationStore::new(StubPool::new());
    let mut n: u32 = 0;
    while (n as usize) < MAX_QUEUE_LEN {
        assert_eq!(store.record_admission(hash(n), desc(n), Ok(())), Ok(()));
        n += 1;
    }
    assert_eq!(store.len(), 8312);
    assert_eq!(enqueue(&mut store, 100_000, 1), Ok(()));
    assert_eq!(store.len(), 8313);
}

#[test]
fn failed_signature_stores_nothing() {
    let pool = StubPool::new();
    let log = pool.log.clone();
    let mut store = VerificationStore::new(pool);
    assert_eq!(
        enqueue(&mut store, 1, 255),
        Err(Error::Signature(Rejection { message: "invalid signature".to_string() }))
    );
    assert_eq!(store.len(), 0);
    assert_eq!(store.private_transaction_descriptor(&hash(1)), Err(not_found()));
    assert!(log.borrow().added.is_empty());
}

#[test]
fn pool_refusal_stores_nothing() {
    let mut store = VerificationStore::new(StubPool::refusing());
    assert_eq!(
        enqueue(&mut store, 1, 10),
        Err(Error::Pool(Rejection { message: "stale nonce".to_string() }))
    );
    assert_eq!(store.len(), 0);
    assert_eq!(store.private_transaction_descriptor(&hash(1)), Err(not_found()));
}

#[test]
fn ready_transactions_one_per_sender() {
    let mut store = VerificationStore::new(StubPool::new());
    // Five transactions of three senders.
    assert_eq!(enqueue(&mut store, 1, 30), Ok(()));
    assert_eq!(enqueue(&mut store, 2, 10), Ok(()));
    assert_eq!(enqueue(&mut store, 3, 30), Ok(()));
    assert_eq!(enqueue(&mut store, 4, 20), Ok(()));
    assert_eq!(enqueue(&mut store, 5, 10), Ok(()));
    let ready = store.ready_transactions();
    assert_eq!(ready.len(), 3);
    assert_eq!(ready[0].sender, address(10));
    assert_eq!(ready[0].hash, hash(2));
    assert_eq!(ready[1].sender, address(20));
    assert_eq!(ready[1].hash, hash(4));
    assert_eq!(ready[2].sender, address(30));
    assert_eq!(ready[2].hash, hash(1));
    // Nothing was taken out of the store.
    assert_eq!(store.len(), 5);
    assert_eq!(store.ready_transactions().len(), 3);
}

#[test]
fn ready_transactions_of_empty_store() {
    let store = VerificationStore::new(StubPool::new());
    assert_eq!(store.ready_transactions(), Vec::new());
}

#[test]
fn one_per_sender_keeps_foremost_in_sender_order() {
    let mut high = [0u8; 20];
    high[0] = 1;
    let mut low = [0u8; 20];
    low[19] = 255;
    let candidates = vec![
        signed(1, Address(high)),
        signed(2, Address(low)),
        signed(3, Address(high)),
        signed(4, address(0)),
        signed(5, Address(low)),
    ];
    let chosen = one_per_sender(&candidates);
    assert_eq!(
        chosen,
        vec![signed(4, address(0)), signed(2, Address(low)), signed(1, Address(high))]
    );
    assert_eq!(one_per_sender(&Vec::new()), Vec::new());
}

#[test]
fn one_per_sender_orders_by_first_differing_byte() {
    let mut a = [0u8; 20];
    a[3] = 2;
    a[4] = 0;
    let mut b = [0u8; 20];
    b[3] = 1;
    b[4] = 200;
    let mut c = [0u8; 20];
    c[3] = 128;
    let chosen = one_per_sender(&vec![
        signed(1, Address(c)),
        signed(2, Address(a)),
        signed(3, Address(b)),
    ]);
    assert_eq!(
        chosen,
        vec![signed(3, Address(b)), signed(2, Address(a)), signed(1, Address(c))]
    );
}

#[test]
fn removal_makes_lookup_fail() {
    let pool = StubPool::new();
    let log = pool.log.clone();
    let mut store = VerificationStore::new(pool);
    assert_eq!(enqueue(&mut store, 1, 10), Ok(()));
    assert_eq!(enqueue(&mut store, 2, 11), Ok(()));
    store.remove_private_transaction(&hash(1), &zero_nonce);
    assert_eq!(store.private_transaction_descriptor(&hash(1)), Err(not_found()));
    assert_eq!(store.private_transaction_descriptor(&hash(2)), Ok(&desc(2)));
    assert_eq!(store.len(), 1);
    // A hash that was never there.
    store.remove_private_transaction(&hash(3), &zero_nonce);
    assert_eq!(store.private_transaction_descriptor(&hash(3)), Err(not_found()));
    assert_eq!(store.len(), 1);
    assert_eq!(
        log.borrow().removed,
        vec![(hash(1), RemovalReason::Invalid), (hash(3), RemovalReason::Invalid)]
    );
    assert_eq!(log.borrow().nonces, vec![U256::zero()]);
}

#[test]
fn removed_transaction_is_no_longer_ready() {
    let mut store = VerificationStore::new(StubPool::new());
    assert_eq!(enqueue(&mut store, 1, 1), Ok(()));
    assert_eq!(enqueue(&mut store, 2, 2), Ok(()));
    let ready = store.ready_transactions();
    assert_eq!(ready.len(), 2);
    assert_eq!(ready[0].hash, hash(1));
    assert_eq!(ready[1].hash, hash(2));
    store.remove_private_transaction(&hash(1), &zero_nonce);
    let ready = store.ready_transactions();
    assert_eq!(ready.len(), 1);
    assert_eq!(ready[0].hash, hash(2));
    assert_eq!(ready[0].sender, address(2));
}

#[test]
fn removed_hash_can_be_added_again() {
    let mut store = VerificationStore::new(StubPool::new());
    assert_eq!(enqueue(&mut store, 1, 1), Ok(()));
    store.remove_private_transaction(&hash(1), &zero_nonce);
    assert_eq!(enqueue(&mut store, 1, 1), Ok(()));
    assert_eq!(store.private_transaction_descriptor(&hash(1)), Ok(&desc(1)));
}

#[test]
fn default_descriptor_is_zero() {
    let d = PrivateTransactionDesc::default();
    assert_eq!(d.private_hash, H256([0u8; 32]));
    assert_eq!(d.contract, Address([0u8; 20]));
    assert_eq!(d.validator_account, Address([0u8; 20]));
}

#[test]
fn hashes_differing_in_one_byte_are_distinct_keys() {
    let mut store = SigningStore::new();
    let mut a = [7u8; 32];
    let mut b = [7u8; 32];
    a[31] = 1;
    b[31] = 2;
    assert_eq!(store.add_transaction(H256(a), signed(1, address(1)), vec![], vec![1]), Ok(()));
    assert_eq!(store.add_transaction(H256(b), signed(2, address(1)), vec![], vec![2]), Ok(()));
    assert_eq!(store.len(), 2);
    assert_eq!(store.get(&H256(a)).unwrap().state, vec![1]);
    assert_eq!(store.get(&H256(b)).unwrap().state, vec![2]);
    assert!(store.get(&H256([7u8; 32])).is_none());
}

#[test]
fn signing_store_scenario() {
    let mut store = SigningStore::new();
    let ph = hash(42);
    let tx = signed(1, address(5));
    let state = vec![0xde, 0xad, 0xbe, 0xef];
    assert_eq!(
        store.add_transaction(ph, tx.clone(), vec![address(1), address(2)], state.clone()),
        Ok(())
    );
    let d = store.get(&ph).unwrap();
    assert!(d.received_signatures.is_empty());
    assert_eq!(d.validators, vec![address(1), address(2)]);
    assert_eq!(d.original_transaction, tx);
    assert_eq!(d.state, state);
    assert_eq!(store.add_signature(&ph, signature(1)), Ok(()));
    assert_eq!(store.add_signature(&ph, signature(1)), Ok(()));
    let d = store.get(&ph).unwrap();
    assert_eq!(d.received_signatures.len(), 1);
    assert_eq!(d.received_signatures, vec![signature(1)]);
    assert_eq!(d.validators, vec![address(1), address(2)]);
    assert_eq!(d.original_transaction, tx);
    assert_eq!(d.state, state);
}

#[test]
fn distinct_signatures_are_appended_in_call_order() {
    let mut store = SigningStore::new();
    let ph = hash(1);
    assert_eq!(store.add_transaction(ph, signed(1, address(5)), vec![address(1)], vec![]), Ok(()));
    assert_eq!(store.add_signature(&ph, signature(9)), Ok(()));
    assert_eq!(store.add_signature(&ph, signature(3)), Ok(()));
    assert_eq!(store.add_signature(&ph, signature(9)), Ok(()));
    assert_eq!(store.add_signature(&ph, signature(3)), Ok(()));
    assert_eq!(store.get(&ph).unwrap().received_signatures, vec![signature(9), signature(3)]);
}

#[test]
fn signatures_differing_in_last_byte_both_count() {
    let mut store = SigningStore::new();
    let ph = hash(1);
    assert_eq!(store.add_transaction(ph, signed(1, address(5)), vec![], vec![]), Ok(()));
    let mut other = signature(1);
    other.0[64] = 2;
    assert_eq!(store.add_signature(&ph, signature(1)), Ok(()));
    assert_eq!(store.add_signature(&ph, other), Ok(()));
    assert_eq!(store.get(&ph).unwrap().received_signatures, vec![signature(1), other]);
    assert!(holds_signature(&vec![signature(1), other], &other));
    assert!(!holds_signature(&vec![signature(1)], &other));
    assert!(signature(1).same(&signature(1)));
    assert!(!signature(1).same(&other));
}

#[test]
fn signature_for_unknown_hash_is_refused() {
    let mut store = SigningStore::new();
    assert_eq!(store.add_signature(&hash(1), signature(1)), Err(not_found()));
    assert_eq!(store.len(), 0);
    assert!(store.get(&hash(1)).is_none());
    assert_eq!(store.add_transaction(hash(2), signed(1, address(5)), vec![], vec![]), Ok(()));
    assert_eq!(store.add_signature(&hash(1), signature(1)), Err(not_found()));
    assert_eq!(store.len(), 1);
    assert!(store.get(&hash(2)).unwrap().received_signatures.is_empty());
}

#[test]
fn signing_store_replaces_descriptor_and_resets_signatures() {
    let mut store = SigningStore::new();
    let ph = hash(1);
    assert_eq!(store.add_transaction(ph, signed(1, address(5)), vec![address(1)], vec![1]), Ok(()));
    assert_eq!(store.add_signature(&ph, signature(1)), Ok(()));
    assert_eq!(store.add_transaction(ph, signed(2, address(6)), vec![address(2)], vec![2]), Ok(()));
    assert_eq!(store.len(), 1);
    let d = store.get(&ph).unwrap();
    assert!(d.received_signatures.is_empty());
    assert_eq!(d.original_transaction, signed(2, address(6)));
    assert_eq!(d.validators, vec![address(2)]);
    assert_eq!(d.state, vec![2]);
}

#[test]
fn signing_store_remove_is_idempotent() {
    let mut store = SigningStore::new();
    assert_eq!(store.add_transaction(hash(1), signed(1, address(5)), vec![], vec![]), Ok(()));
    assert_eq!(store.add_transaction(hash(2), signed(2, address(5)), vec![], vec![]), Ok(()));
    assert_eq!(store.remove(&hash(1)), Ok(()));
    assert!(store.get(&hash(1)).is_none());
    assert!(store.get(&hash(2)).is_some());
    assert_eq!(store.remove(&hash(1)), Ok(()));
    assert_eq!(store.len(), 1);
}

#[test]
fn signing_store_full_after_bound_plus_one() {
    let mut store = SigningStore::new();
    let mut n: u32 = 0;
    while (n as usize) < MAX_QUEUE_LEN + 1 {
        assert_eq!(store.add_transaction(hash(n), signed(n, address(1)), vec![], vec![]), Ok(()));
        n += 1;
    }
    assert_eq!(store.len(), 8313);
    assert_eq!(
        store.add_transaction(hash(100_000), signed(1, address(1)), vec![], vec![]),
        Err(Error::PrivateTransaction(PrivateTransactionError::QueueIsFull))
    );
    assert_eq!(store.len(), 8313);
    assert!(store.get(&hash(100_000)).is_none());
    // Not even a stored hash is replaced while the store is over its bound.
    assert_eq!(
        store.add_transaction(hash(0), signed(1, address(1)), vec![], vec![]),
        Err(Error::PrivateTransaction(PrivateTransactionError::QueueIsFull))
    );
    assert_eq!(store.remove(&hash(0)), Ok(()));
    assert_eq!(store.add_transaction(hash(100_000), signed(1, address(1)), vec![], vec![]), Ok(()));
}

#[test]
fn table_keeps_one_value_per_key() {
    let mut table: Table<u32> = Table::new();
    assert_eq!(table.len(), 0);
    assert!(!table.contains_key(&hash(1)));
    table.insert(hash(1), 10);
    table.insert(hash(2), 20);
    table.insert(hash(1), 11);
    assert_eq!(table.len(), 2);
    assert_eq!(table.get(&hash(1)), Some(&11));
    assert_eq!(table.get(&hash(2)), Some(&20));
    assert_eq!(table.get(&hash(3)), None);
    assert_eq!(table.remove(&hash(1)), Some(11));
    assert_eq!(table.remove(&hash(1)), None);
    assert!(!table.contains_key(&hash(1)));
    assert!(table.contains_key(&hash(2)));
    assert_eq!(table.len(), 1);
}
