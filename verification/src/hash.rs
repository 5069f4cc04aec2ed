//! Content hashing and message authentication.

use hmac::{Hmac, Mac};
use sha2::{Digest, Sha256};
use vstd::prelude::*;

verus! {

/// A SHA-256 output.
pub type Hash = [u8; 32];

/// The SHA-256 hash of `data`.
pub uninterp spec fn sha256(data: Seq<u8>) -> Seq<u8>;

/// The digest of `data`: its SHA-256 hash, which has 32 bytes. (Were the
/// hash of another length, the digest would be 32 zero bytes.)
pub open spec fn digest(data: Seq<u8>) -> Seq<u8> {
    if sha256(data).len() == 32 {
        sha256(data)
    } else {
        Seq::new(32, |i: int| 0u8)
    }
}

/// The HMAC-SHA-256 tag of `data` under `key`.
pub uninterp spec fn hmac_sha256(key: Seq<u8>, data: Seq<u8>) -> Seq<u8>;

/// Calls `sha2::Sha256::digest`. Trusted: the 32 bytes returned are the
/// SHA-256 hash of `data`, a function of `data` alone.
#[verifier::external_body]
fn sha256_digest(data: &[u8]) -> (h: Hash)
    ensures
        h@ == sha256(data@),
{
    Sha256::digest(data).into()
}

/// Feeds `data` to an `hmac::Hmac<Sha256>` keyed with `key` and returns the
/// finished tag. Trusted: the 32 bytes returned are the HMAC-SHA-256 tag, a
/// function of `key` and `data` alone. `new_from_slice` accepts a key of any
/// length.
#[verifier::external_body]
fn hmac_sha256_tag(key: &[u8], data: &[u8]) -> (t: Hash)
    ensures
        t@ == hmac_sha256(key@, data@),
{
    let mut mac = Hmac::<Sha256>::new_from_slice(key).expect("HMAC takes a key of any length");
    mac.update(data);
    mac.finalize().into_bytes().into()
}

/// Hashes `bytes`.
pub fn do_hash(bytes: &[u8]) -> (h: Hash)
    ensures
        h@ == digest(bytes@),
        h@ == sha256(bytes@),
{
    sha256_digest(bytes)
}

/// Authenticates `bytes` under the shared secret `sec_key`.
pub fn do_mac(bytes: &[u8], sec_key: &[u8]) -> (t: Hash)
    ensures
        t@ == hmac_sha256(sec_key@, bytes@),
{
    hmac_sha256_tag(sec_key, bytes)
}

/// Whether two byte strings are equal.
pub fn bytes_eq(a: &[u8], b: &[u8]) -> (r: bool)
    ensures
        r == (a@ == b@),
{
    if a.len() != b.len() {
        return false;
    }
    let mut i: usize = 0;
    while i < a.len()
        invariant
            a@.len() == b@.len(),
            i <= a@.len(),
            forall|j: int| 0 <= j < i ==> a@[j] == b@[j],
        decreases a@.len() - i,
    {
        if a[i] != b[i] {
            return false;
        }
        i += 1;
    }
    assert(a@ =~= b@);
    true
}

/// Whether two hashes are equal.
pub fn hash_eq(a: &Hash, b: &Hash) -> (r: bool)
    ensures
        r == (a@ == b@),
        r == (*a == *b),
{
    let r = bytes_eq(a.as_slice(), b.as_slice());
    proof {
        if r {
            assert(*a =~= *b);
        }
    }
    r
}

/// Whether `mac` is the tag of `bytes` under `sec_key`.
pub fn verf_mac(bytes: &[u8], sec_key: &[u8], mac: &[u8]) -> (ok: bool)
    ensures
        ok == (mac@ == hmac_sha256(sec_key@, bytes@)),
{
    let tag = do_mac(bytes, sec_key);
    bytes_eq(tag.as_slice(), mac)
}

} // verus!
