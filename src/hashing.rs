//! Content-addressed keys: the SHA-256 digest of a document's UTF-8 bytes, as
//! lowercase hexadecimal.
use crate::text::string_from_chars;
use sha2::Digest;
use vstd::prelude::*;
use vstd::string::StringSliceAdditionalSpecFns;

verus! {

/// The SHA-256 digest of a byte sequence.
pub uninterp spec fn sha256_of(data: Seq<u8>) -> Seq<u8>;

/// Relies on `sha2::Sha256` (through `Digest::digest`): the 32-byte SHA-256
/// digest of the bytes.
#[verifier::external_body]
fn sha256(data: &[u8]) -> (r: Vec<u8>)
    ensures
        r@ == sha256_of(data@),
        r@.len() == 32,
{
    sha2::Sha256::digest(data).to_vec()
}

/// The lowercase hexadecimal digit of a value below 16.
pub open spec fn hex_digit(v: u8) -> char {
    if v < 10 {
        ((v + 48) as u8) as char
    } else {
        ((v + 87) as u8) as char
    }
}

/// Two lowercase hexadecimal digits per byte, high digit first.
pub open spec fn hex_of(b: Seq<u8>) -> Seq<char>
    decreases b.len(),
{
    if b.len() == 0 {
        seq![]
    } else {
        hex_of(b.drop_last()) + seq![hex_digit(b.last() / 16), hex_digit(b.last() % 16)]
    }
}

/// The content hash of a text: the hex digest of its UTF-8 bytes.
pub open spec fn content_hash_of(text: &str) -> Seq<char> {
    hex_of(sha256_of(text.spec_bytes()))
}

fn digit(v: u8) -> (r: char)
    requires
        v < 16,
    ensures
        r == hex_digit(v),
{
    if v < 10 {
        (v + 48) as char
    } else {
        (v + 87) as char
    }
}

/// Two lowercase hexadecimal digits per byte.
pub fn to_hex(b: &[u8]) -> (r: String)
    ensures
        r@ == hex_of(b@),
        r@.len() == 2 * b@.len(),
{
    let mut cs: Vec<char> = Vec::new();
    let mut i: usize = 0;
    while i < b.len()
        invariant
            i <= b@.len(),
            cs@ == hex_of(b@.take(i as int)),
            cs@.len() == 2 * i,
        decreases b@.len() - i,
    {
        let x = b[i];
        cs.push(digit(x / 16));
        cs.push(digit(x % 16));
        proof {
            let t = b@.take(i + 1);
            assert(t.drop_last() =~= b@.take(i as int));
            assert(t.last() == x);
        }
        i += 1;
    }
    assert(b@.take(i as int) =~= b@);
    string_from_chars(cs.as_slice())
}

/// The content hash of a document: 64 lowercase hex digits of the SHA-256
/// digest of its bytes. Byte-identical texts get the same hash.
pub fn content_hash(text: &str) -> (r: String)
    ensures
        r@ == content_hash_of(text),
        r@.len() == 64,
{
    let digest = sha256(text.as_bytes());
    to_hex(digest.as_slice())
}

} // verus!
