//! Hashes, addresses and signatures as the stores hold them, and the order
//! of addresses.

use vstd::prelude::*;

verus! {

/// Number of a block; the pool is told at which one a transaction came in.
pub type BlockNumber = u64;

/// A 32-byte hash.
#[derive(Clone, Copy, Debug, PartialEq, Eq, Hash)]
pub struct H256(pub [u8; 32]);

/// A 20-byte account address.
#[derive(Clone, Copy, Debug, PartialEq, Eq, Hash)]
pub struct Address(pub [u8; 20]);

/// A 65-byte recoverable signature.
#[derive(Clone, Copy, Debug, PartialEq, Eq)]
pub struct Signature(pub [u8; 65]);

/// `ethcore_bigint::prelude::U256`, the 256-bit unsigned integer in which
/// account nonces are counted. Nothing is known of its values here: the
/// stores only let them pass from the nonce lookup to the pool.
#[verifier::external_type_specification]
#[verifier::external_body]
pub struct ExU256(ethcore_bigint::prelude::U256);

/// `a` comes before `b` in byte-wise lexicographic order: at the first
/// position where they differ, `a` holds the smaller byte.
pub open spec fn lex_less(a: Seq<u8>, b: Seq<u8>) -> bool {
    exists|i: int|
        0 <= i < a.len() && i < b.len() && #[trigger] a[i] < b[i] && a.subrange(0, i)
            == b.subrange(0, i)
}

impl H256 {
    /// Whether two hashes hold the same bytes.
    ///
    /// Not proved: the body calls `eq` of `ethcore_bigint::hash::H256`, which
    /// runs `memcmp` over the 32 bytes of both values and answers whether it
    /// found no difference.
    #[verifier::external_body]
    pub(crate) fn same(&self, other: &H256) -> (r: bool)
        ensures
            r == (*self == *other),
    {
        ethcore_bigint::hash::H256(self.0) == ethcore_bigint::hash::H256(other.0)
    }
}

impl Address {
    /// Whether two addresses hold the same bytes.
    ///
    /// Not proved: the body calls `eq` of `ethcore_bigint::hash::H160`, which
    /// runs `memcmp` over the 20 bytes of both values and answers whether it
    /// found no difference.
    #[verifier::external_body]
    pub(crate) fn same(&self, other: &Address) -> (r: bool)
        ensures
            r == (*self == *other),
    {
        ethcore_bigint::hash::H160(self.0) == ethcore_bigint::hash::H160(other.0)
    }

    /// Whether this address is ordered before `other`.
    ///
    /// Not proved: the body calls `lt` of `ethcore_bigint::hash::H160`, which
    /// goes by that type's `cmp`: the sign of `memcmp` over the 20 bytes of
    /// both values, so the unsigned bytes at the first place where the two
    /// differ decide.
    #[verifier::external_body]
    pub(crate) fn before(&self, other: &Address) -> (r: bool)
        ensures
            r == lex_less(self.0@, other.0@),
    {
        ethcore_bigint::hash::H160(self.0) < ethcore_bigint::hash::H160(other.0)
    }
}

impl Signature {
    /// Whether two signatures hold the same bytes.
    pub fn same(&self, other: &Signature) -> (r: bool)
        ensures
            r == (*self == *other),
    {
        let mut i: usize = 0;
        while i < 65
            invariant
                0 <= i <= 65,
                forall|j: int| 0 <= j < i ==> self.0@[j] == other.0@[j],
            decreases 65 - i,
        {
            if self.0[i] != other.0[i] {
                return false;
            }
            i += 1;
        }
        assert(self.0 =~= other.0);
        true
    }
}

/// Two byte strings of one length that differ have a first position at
/// which they differ.
proof fn first_difference(a: Seq<u8>, b: Seq<u8>, k: int) -> (i: int)
    requires
        a.len() == b.len(),
        0 <= k <= a.len(),
        a.subrange(0, k) == b.subrange(0, k),
        a != b,
    ensures
        0 <= i < a.len(),
        a[i] != b[i],
        a.subrange(0, i) == b.subrange(0, i),
    decreases a.len() - k,
{
    if k == a.len() {
        assert(a.subrange(0, k) =~= a);
        assert(b.subrange(0, k) =~= b);
        0
    } else if a[k] != b[k] {
        k
    } else {
        assert(a.subrange(0, k + 1) =~= a.subrange(0, k).push(a[k]));
        assert(b.subrange(0, k + 1) =~= b.subrange(0, k).push(b[k]));
        first_difference(a, b, k + 1)
    }
}

/// The byte-wise order is total on byte strings of one length: of two that
/// differ, one comes before the other.
pub proof fn lex_less_total(a: Seq<u8>, b: Seq<u8>)
    requires
        a.len() == b.len(),
        a != b,
    ensures
        lex_less(a, b) || lex_less(b, a),
{
    assert(a.subrange(0, 0) =~= b.subrange(0, 0));
    let i = first_difference(a, b, 0);
    if a[i] < b[i] {
        assert(lex_less(a, b));
    } else {
        assert(b[i] < a[i]);
        assert(lex_less(b, a));
    }
}

/// Nothing comes before itself.
pub proof fn lex_less_irreflexive(a: Seq<u8>)
    ensures
        !lex_less(a, a),
{
}

/// The byte-wise order is transitive.
pub proof fn lex_less_transitive(a: Seq<u8>, b: Seq<u8>, c: Seq<u8>)
    requires
        lex_less(a, b),
        lex_less(b, c),
    ensures
        lex_less(a, c),
{
    let i = choose|i: int|
        0 <= i < a.len() && i < b.len() && #[trigger] a[i] < b[i] && a.subrange(0, i)
            == b.subrange(0, i);
    let j = choose|j: int|
        0 <= j < b.len() && j < c.len() && #[trigger] b[j] < c[j] && b.subrange(0, j)
            == c.subrange(0, j);
    let m = if i <= j { i } else { j };
    assert(a.subrange(0, m) =~= a.subrange(0, i).subrange(0, m));
    assert(b.subrange(0, m) =~= b.subrange(0, i).subrange(0, m));
    assert(b.subrange(0, m) =~= b.subrange(0, j).subrange(0, m));
    assert(c.subrange(0, m) =~= c.subrange(0, j).subrange(0, m));
    if i < j {
        assert(b.subrange(0, j)[i] == c.subrange(0, j)[i]);
    } else if j < i {
        assert(a.subrange(0, i)[j] == b.subrange(0, i)[j]);
    }
    assert(a[m] < c[m]);
}

} // verus!
