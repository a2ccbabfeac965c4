//! Content fingerprints: SHA-256 digests and their hex rendering.

use vstd::prelude::*;
use crate::error::Error;

verus! {

/// The SHA-256 digest of a byte string.
pub uninterp spec fn sha256(data: Seq<u8>) -> Seq<u8>;

/// The lowercase hex digit that renders a value below sixteen.
pub open spec fn hex_digit(n: int) -> char {
    if n == 0 { '0' } else if n == 1 { '1' } else if n == 2 { '2' } else if n == 3 { '3' }
    else if n == 4 { '4' } else if n == 5 { '5' } else if n == 6 { '6' } else if n == 7 { '7' }
    else if n == 8 { '8' } else if n == 9 { '9' } else if n == 10 { 'a' } else if n == 11 { 'b' }
    else if n == 12 { 'c' } else if n == 13 { 'd' } else if n == 14 { 'e' } else { 'f' }
}

/// The value of a hex digit of either case, or `None` for any other character.
pub open spec fn hex_value(c: char) -> Option<int> {
    if '0' <= c <= '9' {
        Some(c as int - '0' as int)
    } else if 'a' <= c <= 'f' {
        Some(c as int - 'a' as int + 10)
    } else if 'A' <= c <= 'F' {
        Some(c as int - 'A' as int + 10)
    } else {
        None
    }
}

/// The hex rendering of a byte string: two lowercase digits per byte, high
/// nibble first.
pub open spec fn hex_encode(bytes: Seq<u8>) -> Seq<char> {
    Seq::new(2 * bytes.len(), |i: int| if i % 2 == 0 {
        hex_digit(bytes[i / 2] as int / 16)
    } else {
        hex_digit(bytes[i / 2] as int % 16)
    })
}

/// Whether a string is an even number of hex digits.
pub open spec fn is_hex(s: Seq<char>) -> bool {
    &&& s.len() % 2 == 0
    &&& forall|i: int| 0 <= i < s.len() ==> (#[trigger] hex_value(s[i])) is Some
}

/// The bytes that a string of hex digits spells.
pub open spec fn hex_decode(s: Seq<char>) -> Seq<u8> {
    Seq::new(s.len() / 2, |i: int| (hex_value(s[2 * i])->0 * 16 + hex_value(s[2 * i + 1])->0) as u8)
}

/// Decoding undoes encoding.
pub proof fn lemma_hex_roundtrip(bytes: Seq<u8>)
    ensures
        is_hex(hex_encode(bytes)),
        hex_decode(hex_encode(bytes)) == bytes,
{
    let s = hex_encode(bytes);
    assert forall|i: int| 0 <= i < s.len() implies (#[trigger] hex_value(s[i])) is Some by {
        let b = bytes[i / 2] as int;
        assert(0 <= b / 16 < 16);
        assert(0 <= b % 16 < 16);
    }
    assert forall|i: int| 0 <= i < bytes.len() implies hex_decode(s)[i] == bytes[i] by {
        let b = bytes[i] as int;
        assert(0 <= b / 16 < 16);
        assert(0 <= b % 16 < 16);
        assert((2 * i) / 2 == i);
        assert((2 * i + 1) / 2 == i);
        assert(hex_value(s[2 * i]) == Some(b / 16));
        assert(hex_value(s[2 * i + 1]) == Some(b % 16));
        assert(b / 16 * 16 + b % 16 == b);
    }
    assert(hex_decode(s) =~= bytes);
}

/// Computes SHA-256 with `sha2::Sha256` (`new`, `update`, `finalize`): the
/// result is the digest of exactly the bytes given.
#[verifier::external_body]
fn sha256_digest(data: &[u8]) -> (digest: [u8; 32])
    ensures
        digest@ == sha256(data@),
{
    let mut hasher = <sha2::Sha256 as sha2::Digest>::new();
    sha2::Digest::update(&mut hasher, data);
    sha2::Digest::finalize(hasher).into()
}

/// Renders bytes with `hex::encode`: two lowercase digits per byte.
#[verifier::external_body]
fn hex_encode_bytes(bytes: &[u8]) -> (s: String)
    ensures
        s@ == hex_encode(bytes@),
{
    hex::encode(bytes)
}

/// Parses with `hex::decode`, which accepts digits of either case and
/// rejects a string of odd length or one that holds any other character.
#[verifier::external_body]
fn hex_decode_str(s: &str) -> (r: Option<Vec<u8>>)
    ensures
        r is Some <==> is_hex(s@),
        r is Some ==> r->0@ == hex_decode(s@),
{
    hex::decode(s).ok()
}

/// A 256-bit content fingerprint.
#[derive(Clone, Copy, Debug, Hash)]
pub struct Hash(pub [u8; 32]);

impl View for Hash {
    type V = Seq<u8>;

    open spec fn view(&self) -> Seq<u8> {
        self.0@
    }
}

impl PartialEq for Hash {
    fn eq(&self, other: &Hash) -> (r: bool) {
        let mut i: usize = 0;
        while i < 32
            invariant
                i <= 32,
                forall|j: int| 0 <= j < i ==> self.0[j] == other.0[j],
            decreases 32 - i,
        {
            if self.0[i] != other.0[i] {
                return false;
            }
            i += 1;
        }
        assert(self.0@ =~= other.0@);
        true
    }
}

impl Eq for Hash {}

impl vstd::std_specs::cmp::PartialEqSpecImpl for Hash {
    open spec fn obeys_eq_spec() -> bool {
        true
    }

    open spec fn eq_spec(&self, other: &Hash) -> bool {
        self@ == other@
    }
}

impl Hash {
    /// The fingerprint of a byte string.
    pub fn from_data(data: &[u8]) -> (h: Hash)
        ensures
            h@ == sha256(data@),
    {
        Hash(sha256_digest(data))
    }

    /// Wraps 32 raw bytes as a fingerprint.
    pub fn from_bytes(bytes: [u8; 32]) -> (h: Hash)
        ensures
            h@ == bytes@,
            h.0 == bytes,
    {
        Hash(bytes)
    }

    /// The 32 raw bytes.
    pub fn as_bytes(&self) -> (bytes: &[u8; 32])
        ensures
            bytes@ == self@,
            *bytes == self.0,
    {
        &self.0
    }

    /// The canonical rendering: 64 lowercase hex digits.
    pub fn to_hex(&self) -> (s: String)
        ensures
            s@ == hex_encode(self@),
            s@.len() == 64,
    {
        hex_encode_bytes(&self.0)
    }

    /// Parses a fingerprint from hex digits of either case.
    ///
    /// Succeeds exactly on strings of 64 hex digits.
    pub fn from_hex(s: &str) -> (r: Result<Hash, Error>)
        ensures
            match r {
                Ok(h) => is_hex(s@) && s@.len() == 64 && h@ == hex_decode(s@),
                Err(e) => e == Error::InvalidHash && !(is_hex(s@) && s@.len() == 64),
            },
    {
        match hex_decode_str(s) {
            None => Err(Error::InvalidHash),
            Some(bytes) => {
                if bytes.len() != 32 {
                    return Err(Error::InvalidHash);
                }
                let mut hash = [0u8; 32];
                let mut i: usize = 0;
                while i < 32
                    invariant
                        i <= 32,
                        bytes@.len() == 32,
                        forall|j: int| 0 <= j < i ==> hash@[j] == bytes@[j],
                    decreases 32 - i,
                {
                    hash[i] = bytes[i];
                    i += 1;
                }
                assert(hash@ =~= bytes@);
                Ok(Hash(hash))
            },
        }
    }
}

/// A fingerprint survives rendering to hex and parsing back.
pub proof fn lemma_hash_hex_roundtrip(h: Hash)
    ensures
        is_hex(hex_encode(h@)),
        hex_encode(h@).len() == 64,
        hex_decode(hex_encode(h@)) == h@,
{
    lemma_hex_roundtrip(h@);
}

} // verus!
