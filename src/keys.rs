//! Public keys and hashes, held as their serialised bytes.

use vstd::prelude::*;

use crate::error::Error;
use crate::secp::{is_pubkey, parse_pubkey};

verus! {

/// A compressed public key, held as its 33-byte serialisation.
#[derive(Debug, Clone, Copy, PartialEq, Eq, Hash)]
pub struct PublicKey {
    pub bytes: [u8; 33],
}

/// A 20-byte HASH160 digest.
#[derive(Debug, Clone, Copy, PartialEq, Eq, Hash)]
pub struct Hash160 {
    pub bytes: [u8; 20],
}

/// A 32-byte hash whose preimage a script may ask for.
#[derive(Debug, Clone, Copy, PartialEq, Eq, Hash)]
pub struct Sha256dHash {
    pub bytes: [u8; 32],
}

impl PublicKey {
    /// A key is valid when its bytes encode a point of the curve.
    pub open spec fn valid(&self) -> bool {
        is_pubkey(self.bytes@)
    }

    /// Reads a compressed public key from 33 bytes, checking that it lies on the curve.
    pub fn from_slice(b: &[u8]) -> (r: Result<PublicKey, Error>)
        ensures
            b@.len() == 33 && is_pubkey(b@) ==> r is Ok && r->Ok_0.bytes@ == b@,
            !(b@.len() == 33 && is_pubkey(b@)) ==> r is Err && r->Err_0@ == crate::error::ErrorView::BadPubkey(b@),
            r is Ok ==> r->Ok_0.valid(),
    {
        if b.len() != 33 {
            return Err(Error::BadPubkey(slice_to_vec(b)));
        }
        if parse_pubkey(b) {
            let bytes: [u8; 33] = copy_bytes(b);
            Ok(PublicKey { bytes })
        } else {
            Err(Error::BadPubkey(slice_to_vec(b)))
        }
    }
}

impl Hash160 {
    /// Reads a digest from exactly 20 bytes.
    pub fn from_slice(b: &[u8]) -> (r: Option<Hash160>)
        ensures
            b@.len() == 20 <==> r is Some,
            r is Some ==> r->Some_0.bytes@ == b@,
    {
        if b.len() != 20 {
            return None;
        }
        Some(Hash160 { bytes: copy_bytes(b) })
    }
}

impl Sha256dHash {
    /// Reads a hash from exactly 32 bytes.
    pub fn from_slice(b: &[u8]) -> (r: Option<Sha256dHash>)
        ensures
            b@.len() == 32 <==> r is Some,
            r is Some ==> r->Some_0.bytes@ == b@,
    {
        if b.len() != 32 {
            return None;
        }
        Some(Sha256dHash { bytes: copy_bytes(b) })
    }
}

/// Copies a slice of exactly `N` bytes into an array.
pub fn copy_bytes<const N: usize>(b: &[u8]) -> (r: [u8; N])
    requires
        b@.len() == N,
    ensures
        r@ == b@,
{
    let mut r: [u8; N] = [0u8; N];
    let mut i: usize = 0;
    while i < N
        invariant
            b@.len() == N,
            i <= N,
            forall|j: int| 0 <= j < i ==> r@[j] == b@[j],
        decreases N - i,
    {
        r[i] = b[i];
        i = i + 1;
    }
    assert(r@ =~= b@);
    r
}

/// Copies a slice into a fresh vector.
pub fn slice_to_vec(b: &[u8]) -> (r: Vec<u8>)
    ensures
        r@ == b@,
{
    let mut r: Vec<u8> = Vec::new();
    let mut i: usize = 0;
    while i < b.len()
        invariant
            i <= b@.len(),
            r@ == b@.subrange(0, i as int),
        decreases b@.len() - i,
    {
        r.push(b[i]);
        i = i + 1;
        assert(r@ =~= b@.subrange(0, i as int));
    }
    assert(r@ =~= b@);
    r
}

/// Compares two byte slices.
pub fn bytes_eq(a: &[u8], b: &[u8]) -> (r: bool)
    ensures
        r == (a@ == b@),
{
    if a.len() != b.len() {
        return false;
    }
    let mut i: usize = 0;
    while i < a.len()
        invariant
            a@.len() == b@.len(),
            i <= a@.len(),
            forall|j: int| 0 <= j < i ==> a@[j] == b@[j],
        decreases a@.len() - i,
    {
        if a[i] != b[i] {
            return false;
        }
        i = i + 1;
    }
    assert(a@ =~= b@);
    true
}

/// Two keys with the same bytes are the same key.
pub proof fn lemma_pubkey_eq(a: PublicKey, b: PublicKey)
    requires
        a.bytes@ == b.bytes@,
    ensures
        a == b,
{
    assert(a.bytes =~= b.bytes) by {
        assert forall|i: int| 0 <= i < 33 implies a.bytes[i] == b.bytes[i] by {
            assert(a.bytes@[i] == b.bytes@[i]);
        }
    }
}

} // verus!

verus! {

/// The array whose first `k` bytes are those of `d` and whose other bytes are zero.
pub open spec fn array_prefix<const N: usize>(d: Seq<u8>, k: nat) -> [u8; N]
    decreases k,
{
    if k == 0 {
        vstd::array::spec_array_fill_for_copy_type::<u8, N>(0)
    } else {
        vstd::array::spec_array_update(array_prefix::<N>(d, (k - 1) as nat), k - 1, d[k - 1])
    }
}

/// The array holding the bytes of `d`, which has length `N`.
pub open spec fn array_of<const N: usize>(d: Seq<u8>) -> [u8; N] {
    array_prefix::<N>(d, N as nat)
}

proof fn lemma_array_prefix<const N: usize>(d: Seq<u8>, k: nat)
    requires
        d.len() == N,
        k <= N,
    ensures
        array_prefix::<N>(d, k)@.len() == N,
        forall|i: int| 0 <= i < k ==> array_prefix::<N>(d, k)@[i] == d[i],
    decreases k,
{
    if k > 0 {
        lemma_array_prefix::<N>(d, (k - 1) as nat);
    }
}

/// `array_of` holds exactly the given bytes.
pub proof fn lemma_array_of<const N: usize>(d: Seq<u8>)
    requires
        d.len() == N,
    ensures
        array_of::<N>(d)@ == d,
{
    lemma_array_prefix::<N>(d, N as nat);
    assert(array_of::<N>(d)@ =~= d);
}

/// An array is the `array_of` its bytes.
pub proof fn lemma_array_of_view<const N: usize>(a: [u8; N])
    ensures
        array_of::<N>(a@) == a,
{
    lemma_array_of::<N>(a@);
    assert(array_of::<N>(a@) =~= a) by {
        assert forall|i: int| 0 <= i < N implies array_of::<N>(a@)[i] == a[i] by {
            assert(array_of::<N>(a@)@[i] == a@[i]);
        }
    }
}

/// Copies `N` bytes of `b`, from `start` on, into an array.
pub fn copy_at<const N: usize>(b: &[u8], start: usize) -> (r: [u8; N])
    requires
        start + N <= b@.len(),
    ensures
        r@ == b@.subrange(start as int, start + N),
        r == array_of::<N>(b@.subrange(start as int, start + N)),
{
    let mut r: [u8; N] = [0u8; N];
    let blen = b.len();
    let mut i: usize = 0;
    while i < N
        invariant
            start + N <= b@.len(),
            blen == b@.len(),
            i <= N,
            forall|j: int| 0 <= j < i ==> r@[j] == b@[start + j],
        decreases N - i,
    {
        r[i] = b[start + i];
        i = i + 1;
    }
    assert(r@ =~= b@.subrange(start as int, start + N));
    proof {
        lemma_array_of_view::<N>(r);
    }
    r
}

/// Copies `len` bytes of `b`, from `start` on, into a fresh vector.
pub fn vec_at(b: &[u8], start: usize, len: usize) -> (r: Vec<u8>)
    requires
        start + len <= b@.len(),
    ensures
        r@ == b@.subrange(start as int, start + len),
{
    let mut r: Vec<u8> = Vec::new();
    let blen = b.len();
    let mut i: usize = 0;
    while i < len
        invariant
            start + len <= b@.len(),
            blen == b@.len(),
            i <= len,
            r@ == b@.subrange(start as int, start + i),
        decreases len - i,
    {
        r.push(b[start + i]);
        i = i + 1;
        assert(r@ =~= b@.subrange(start as int, start + i));
    }
    r
}

/// Compares `a` with the `a.len()` bytes of `b` from `start` on.
pub fn eq_at(a: &[u8], b: &[u8], start: usize) -> (r: bool)
    requires
        start <= b@.len(),
    ensures
        r == (start + a@.len() <= b@.len() && a@ == b@.subrange(start as int, start + a@.len())),
{
    if a.len() > b.len() - start {
        return false;
    }
    let blen = b.len();
    let mut i: usize = 0;
    while i < a.len()
        invariant
            start + a@.len() <= b@.len(),
            blen == b@.len(),
            i <= a@.len(),
            forall|j: int| 0 <= j < i ==> a@[j] == b@[start + j],
        decreases a@.len() - i,
    {
        if a[i] != b[start + i] {
            return false;
        }
        i = i + 1;
    }
    assert(a@ =~= b@.subrange(start as int, start + a@.len()));
    true
}

} // verus!
