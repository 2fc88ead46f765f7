//! Plain-value models of the chain-level scalars the searcher works with.
//!
//! An address is 20 bytes, a transaction hash 32 bytes; amounts and block
//! numbers are machine integers. Everything the decision logic reads from
//! a chain value is held here as bytes or integers, so contracts can speak
//! about it directly.

use vstd::prelude::*;

verus! {

/// Byte length of an account or contract address.
pub const ADDRESS_LEN: usize = 20;

/// Byte length of a transaction hash.
pub const TX_HASH_LEN: usize = 32;

/// A 20-byte account or contract address.
#[derive(Debug, PartialEq, Eq)]
pub struct Address {
    /// Big-endian address bytes; well-formed when exactly 20 long.
    pub bytes: Vec<u8>,
}

impl View for Address {
    type V = Seq<u8>;

    open spec fn view(&self) -> Seq<u8> {
        self.bytes@
    }
}

impl Clone for Address {
    /// A clone holds the same bytes.
    fn clone(&self) -> (r: Self)
        ensures
            r@ == self@,
    {
        Address { bytes: clone_bytes(&self.bytes) }
    }
}

impl Address {
    /// Well-formed addresses hold exactly 20 bytes.
    pub open spec fn wf(&self) -> bool {
        self.bytes@.len() == ADDRESS_LEN
    }

    /// Wraps raw bytes as an address.
    pub fn from_bytes(bytes: Vec<u8>) -> (r: Address)
        requires
            bytes@.len() == ADDRESS_LEN,
        ensures
            r.wf(),
            r@ == bytes@,
    {
        Address { bytes }
    }

    /// Byte-for-byte equality of two addresses.
    pub fn same_as(&self, other: &Address) -> (r: bool)
        ensures
            r == (self@ == other@),
    {
        bytes_eq(&self.bytes, &other.bytes)
    }
}

/// A 32-byte transaction hash.
#[derive(Debug, PartialEq, Eq)]
pub struct TxHash {
    /// Big-endian hash bytes; well-formed when exactly 32 long.
    pub bytes: Vec<u8>,
}

impl View for TxHash {
    type V = Seq<u8>;

    open spec fn view(&self) -> Seq<u8> {
        self.bytes@
    }
}

impl Clone for TxHash {
    /// A clone holds the same bytes.
    fn clone(&self) -> (r: Self)
        ensures
            r@ == self@,
    {
        TxHash { bytes: clone_bytes(&self.bytes) }
    }
}

impl TxHash {
    /// Well-formed hashes hold exactly 32 bytes.
    pub open spec fn wf(&self) -> bool {
        self.bytes@.len() == TX_HASH_LEN
    }

    /// Wraps raw bytes as a transaction hash.
    pub fn from_bytes(bytes: Vec<u8>) -> (r: TxHash)
        requires
            bytes@.len() == TX_HASH_LEN,
        ensures
            r.wf(),
            r@ == bytes@,
    {
        TxHash { bytes }
    }
}

/// Copies a byte vector.
pub fn clone_bytes(a: &Vec<u8>) -> (r: Vec<u8>)
    ensures
        r@ == a@,
{
    let n = a.len();
    let mut r: Vec<u8> = Vec::new();
    let mut i: usize = 0;
    while i < n
        invariant
            n == a@.len(),
            i <= n,
            r@ == a@.take(i as int),
        decreases n - i,
    {
        r.push(a[i]);
        assert(a@.take(i + 1 as int) =~= a@.take(i as int).push(a@[i as int]));
        i += 1;
    }
    assert(a@.take(n as int) =~= a@);
    r
}

/// Byte-for-byte equality of two byte vectors.
pub fn bytes_eq(a: &Vec<u8>, b: &Vec<u8>) -> (r: bool)
    ensures
        r == (a@ == b@),
{
    if a.len() != b.len() {
        assert(a@ != b@);
        return false;
    }
    let n = a.len();
    let mut i: usize = 0;
    while i < n
        invariant
            n == a@.len(),
            n == b@.len(),
            i <= n,
            forall|j: int| 0 <= j < i ==> a@[j] == b@[j],
        decreases n - i,
    {
        if a[i] != b[i] {
            assert(a@ != b@);
            return false;
        }
        i += 1;
    }
    assert(a@ =~= b@);
    true
}

} // verus!
