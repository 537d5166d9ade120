//! Content fingerprints.
//!
//! A fingerprint is the SHA-256 digest of a file's bytes, written in lower-case
//! hexadecimal behind the tag `sha256:`. Equal bytes give equal fingerprints,
//! and fingerprints are the only thing by which contents are compared.

use vstd::prelude::*;
use sha2::{Digest, Sha256};

verus! {

/// The SHA-256 digest of `data`, as `sha2` computes it.
pub uninterp spec fn sha256(data: Seq<u8>) -> Seq<u8>;

/// Computes the digest with `sha2::Sha256::digest`. The digest is a function of
/// the bytes alone; the contract gives it its name and claims nothing else.
#[verifier::external_body]
fn sha256_digest(data: &[u8]) -> (digest: Vec<u8>)
    ensures
        digest@ == sha256(data@),
{
    Sha256::digest(data).to_vec()
}

/// The code of the character `0`.
pub const DIGIT_ZERO: u8 = 48;

/// The code of the character `a`.
pub const LETTER_A: u8 = 97;

/// The lower-case hexadecimal digit of a value below sixteen: `0` to `9`, then
/// `a` to `f`.
pub open spec fn hex_digit(value: int) -> char {
    if value < 10 {
        ((DIGIT_ZERO + value) as u8) as char
    } else {
        ((LETTER_A + value - 10) as u8) as char
    }
}

/// The character at position `i` of the hexadecimal form of `data`: the high
/// half of a byte at the even positions, the low half at the odd ones.
pub open spec fn hex_at(data: Seq<u8>, i: int) -> char {
    if i % 2 == 0 {
        hex_digit(data[i / 2] as int / 16)
    } else {
        hex_digit(data[i / 2] as int % 16)
    }
}

/// `data` in lower-case hexadecimal, two digits to the byte.
pub open spec fn hex(data: Seq<u8>) -> Seq<char> {
    Seq::new(2 * data.len(), |i: int| hex_at(data, i))
}

/// The tag that names the digest algorithm.
pub open spec fn tag() -> Seq<char> {
    seq!['s', 'h', 'a', '2', '5', '6', ':']
}

/// The fingerprint that stands for the digest `digest`.
pub open spec fn tagged(digest: Seq<u8>) -> Seq<char> {
    tag() + hex(digest)
}

/// The fingerprint of the content `data`.
pub open spec fn fingerprint(data: Seq<u8>) -> Seq<char> {
    tagged(sha256(data))
}

/// The lower-case hexadecimal digit of `value`.
fn hex_char(value: u8) -> (digit: char)
    requires
        value < 16,
    ensures
        digit == hex_digit(value as int),
{
    if value < 10 {
        (DIGIT_ZERO + value) as char
    } else {
        (LETTER_A + (value - 10)) as char
    }
}

/// Writes a digest as a fingerprint: the tag, then the digest in lower-case
/// hexadecimal.
pub fn tagged_hex(digest: &[u8]) -> (text: String)
    ensures
        text@ == tagged(digest@),
{
    let mut text = String::new();
    text.push('s');
    text.push('h');
    text.push('a');
    text.push('2');
    text.push('5');
    text.push('6');
    text.push(':');
    assert(text@ =~= tag());
    let mut i: usize = 0;
    while i < digest.len()
        invariant
            i <= digest.len(),
            text@.len() == 7 + 2 * i,
            text@.take(7) == tag(),
            forall|k: int| 0 <= k < 2 * i ==> text@[7 + k] == hex_at(digest@, k),
        decreases digest.len() - i,
    {
        let byte = digest[i];
        let ghost before = text@;
        text.push(hex_char(byte / 16));
        text.push(hex_char(byte % 16));
        proof {
            assert(text@.take(7) =~= before.take(7));
            assert forall|k: int| 0 <= k < 2 * (i + 1) implies text@[7 + k] == hex_at(
                digest@,
                k,
            ) by {
                if k < 2 * i {
                    assert(text@[7 + k] == before[7 + k]);
                }
            }
        }
        i += 1;
    }
    assert(text@ =~= tagged(digest@));
    text
}

/// The fingerprint of a file's content.
pub fn hash_bytes(content: &[u8]) -> (fingerprint_text: String)
    ensures
        fingerprint_text@ == fingerprint(content@),
{
    let digest = sha256_digest(content);
    tagged_hex(digest.as_slice())
}

} // verus!
