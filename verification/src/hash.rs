//! SHA-256 hashes of byte strings, with their 64-digit hex text form.

use vstd::prelude::*;

use crate::hex::{bytes_of_hex, bytes_to_hex, hex_of_bytes, hex_to_bytes, lemma_hex_of_bytes_len,
    lemma_hex_round_trip};
use sha2::Digest;

verus! {

/// The SHA-256 digest of a byte string. The digest depends on the bytes
/// alone; its 32-byte length is stated at the trusted call below.
pub uninterp spec fn sha256_of(data: Seq<u8>) -> Seq<u8>;

/// Relies on sha2::Sha256 (update then finalize): the digest of a byte
/// string is 32 bytes and is a function of the bytes alone.
#[verifier::external_body]
fn sha256_digest(data: &[u8]) -> (r: Vec<u8>)
    ensures
        r@ == sha256_of(data@),
        r@.len() == 32,
{
    let mut hasher = sha2::Sha256::new();
    hasher.update(data);
    hasher.finalize().to_vec()
}

/// A 32-byte SHA-256 hash value.
#[derive(Debug)]
pub struct HashSha256 {
    bytes: Vec<u8>,
}

impl View for HashSha256 {
    type V = Seq<u8>;

    closed spec fn view(&self) -> Seq<u8> {
        self.bytes@
    }
}

impl Clone for HashSha256 {
    fn clone(&self) -> (r: Self)
        ensures
            r@ == self@,
    {
        HashSha256 { bytes: self.bytes.clone() }
    }
}

impl HashSha256 {
    /// A hash value holds exactly 32 bytes.
    pub open spec fn wf(self) -> bool {
        self@.len() == 32
    }

    /// Hashes a byte string.
    pub fn new(data: &[u8]) -> (r: HashSha256)
        ensures
            r@ == sha256_of(data@),
            r.wf(),
    {
        HashSha256 { bytes: sha256_digest(data) }
    }

    /// Wraps an already computed 32-byte digest.
    pub fn from_bytes(bytes: Vec<u8>) -> (r: HashSha256)
        requires
            bytes@.len() == 32,
        ensures
            r@ == bytes@,
            r.wf(),
    {
        HashSha256 { bytes }
    }

    /// The digest bytes.
    pub fn bytes(&self) -> (r: &Vec<u8>)
        ensures
            r@ == self@,
    {
        &self.bytes
    }

    /// Byte-for-byte equality of two hash values.
    pub fn equals(&self, other: &HashSha256) -> (r: bool)
        ensures
            r == (self@ == other@),
    {
        crate::placement::bytes_eq(&self.bytes, &other.bytes)
    }

    /// The 64-digit lowercase hex rendering, high nibble of the first byte
    /// first.
    pub fn to_hex(&self) -> (r: String)
        requires
            self.wf(),
        ensures
            r@ == hex_of_bytes(self@),
            r@.len() == 64,
    {
        proof {
            lemma_hex_of_bytes_len(self@);
        }
        bytes_to_hex(&self.bytes)
    }

    /// Parses the text form back into a hash: accepted exactly when the
    /// text is 64 hex digits.
    pub fn from_str(s: &str) -> (r: Result<HashSha256, ()>)
        ensures
            match r {
                Ok(h) => s@.len() == 64 && bytes_of_hex(s@) == Some(h@) && h.wf(),
                Err(_) => s@.len() != 64 || bytes_of_hex(s@) is None,
            },
    {
        let len = s.unicode_len();
        if len != 64 {
            return Err(());
        }
        match hex_to_bytes(s) {
            None => Err(()),
            Some(bytes) => {
                proof {
                    lemma_parse_len(s@);
                }
                Ok(HashSha256 { bytes })
            },
        }
    }
}

/// A parse of a 64-digit sequence yields 32 bytes.
proof fn lemma_parse_len(s: Seq<char>)
    requires
        bytes_of_hex(s) is Some,
    ensures
        bytes_of_hex(s).unwrap().len() * 2 == s.len(),
    decreases s.len(),
{
    if s.len() > 0 {
        lemma_parse_len(s.subrange(0, s.len() - 2));
    }
}

/// Parsing the rendering of any 32-byte hash gives the hash back.
pub proof fn lemma_hash_hex_round_trip(h: Seq<u8>)
    requires
        h.len() == 32,
    ensures
        hex_of_bytes(h).len() == 64,
        bytes_of_hex(hex_of_bytes(h)) == Some(h),
{
    lemma_hex_of_bytes_len(h);
    lemma_hex_round_trip(h);
}

} // verus!
