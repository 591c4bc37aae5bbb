use vstd::prelude::*;
use sha3::Digest;

verus! {

/// A 256-bit byte string: header hashes, state roots, mix hashes, topics.
#[derive(Clone, Debug)]
pub struct Hash256 {
    pub b: Vec<u8>,
}

impl View for Hash256 {
    type V = Seq<u8>;

    open spec fn view(&self) -> Seq<u8> {
        self.b@
    }
}

impl Hash256 {
    /// A hash is exactly 32 bytes.
    pub open spec fn wf(self) -> bool {
        self.b@.len() == 32
    }

    pub fn new(b: Vec<u8>) -> (r: Hash256)
        requires
            b@.len() == 32,
        ensures
            r.wf(),
            r@ == b@,
    {
        Hash256 { b }
    }

    pub fn eq_bytes(&self, other: &Hash256) -> (r: bool)
        ensures
            r == (self@ =~= other@),
    {
        bytes_eq(&self.b, &other.b)
    }

    /// A copy with the same bytes.
    pub fn duplicate(&self) -> (r: Hash256)
        ensures
            r@ == self@,
            self.wf() ==> r.wf(),
    {
        Hash256 { b: clone_bytes(&self.b) }
    }
}

/// A 20-byte account address.
#[derive(Clone, Debug)]
pub struct AccountAddress {
    pub b: Vec<u8>,
}

impl View for AccountAddress {
    type V = Seq<u8>;

    open spec fn view(&self) -> Seq<u8> {
        self.b@
    }
}

impl AccountAddress {
    /// An address is exactly 20 bytes.
    pub open spec fn wf(self) -> bool {
        self.b@.len() == 20
    }

    pub fn new(b: Vec<u8>) -> (r: AccountAddress)
        requires
            b@.len() == 20,
        ensures
            r.wf(),
            r@ == b@,
    {
        AccountAddress { b }
    }

    /// A copy with the same bytes.
    pub fn duplicate(&self) -> (r: AccountAddress)
        ensures
            r@ == self@,
            self.wf() ==> r.wf(),
    {
        AccountAddress { b: clone_bytes(&self.b) }
    }
}

/// A byte-for-byte copy of a byte vector.
pub fn clone_bytes(a: &Vec<u8>) -> (r: Vec<u8>)
    ensures
        r@ == a@,
{
    let mut r: Vec<u8> = Vec::new();
    let mut i: usize = 0;
    while i < a.len()
        invariant
            i <= a@.len(),
            r@ == a@.take(i as int),
        decreases a@.len() - i,
    {
        r.push(a[i]);
        i += 1;
        proof {
            assert(r@ =~= a@.take(i as int));
        }
    }
    proof {
        assert(a@.take(a@.len() as int) =~= a@);
    }
    r
}

/// Byte-wise equality of two byte vectors.
pub fn bytes_eq(a: &Vec<u8>, b: &Vec<u8>) -> (r: bool)
    ensures
        r == (a@ =~= b@),
{
    if a.len() != b.len() {
        return false;
    }
    let mut i: usize = 0;
    while i < a.len()
        invariant
            i <= a@.len(),
            a@.len() == b@.len(),
            forall|j: int| 0 <= j < i ==> a@[j] == b@[j],
        decreases a@.len() - i,
    {
        if a[i] != b[i] {
            return false;
        }
        i += 1;
    }
    true
}

/// The 32-byte Keccak-256 digest, named; it is a function of the input
/// bytes alone.
pub uninterp spec fn keccak_of(input: Seq<u8>) -> Seq<u8>;

/// Relies on sha3's Keccak256: the 32-byte Keccak-256 digest of the input.
#[verifier::external_body]
pub fn keccak256(input: &Vec<u8>) -> (r: Vec<u8>)
    ensures
        r@ == keccak_of(input@),
        r@.len() == 32,
{
    sha3::Keccak256::digest(input.as_slice()).to_vec()
}

} // verus!
