//! Content fingerprints: the lowercase hexadecimal SHA-256 digest of a
//! byte string, used to identify configuration content.

use vstd::prelude::*;

use sha2::Digest;

use crate::parser::push_char;

verus! {

/// The SHA-256 digest of a byte sequence: a function of the bytes alone,
/// computed only by the outside hash implementation.
pub uninterp spec fn sha256_of(data: Seq<u8>) -> Seq<u8>;

/// Relies on sha2::Sha256::digest: the 32-byte digest of the input,
/// determined by the input bytes alone.
#[verifier::external_body]
fn sha256_bytes(data: &Vec<u8>) -> (r: Vec<u8>)
    ensures
        r@ == sha256_of(data@),
        r@.len() == 32,
{
    sha2::Sha256::digest(data.as_slice()).to_vec()
}

/// The lowercase hexadecimal digit of `n`.
pub open spec fn hex_digit(n: int) -> char {
    if n < 10 {
        ((48 + n) as u8) as char
    } else {
        ((87 + n) as u8) as char
    }
}

/// The lowercase hexadecimal rendering of the bytes, two digits each, high
/// digit first.
pub open spec fn hex_of_bytes(bs: Seq<u8>) -> Seq<char>
    decreases bs.len(),
{
    if bs.len() == 0 {
        Seq::empty()
    } else {
        hex_of_bytes(bs.drop_last()) + seq![
            hex_digit(bs.last() as int / 16),
            hex_digit(bs.last() as int % 16),
        ]
    }
}

/// Two digits per byte.
pub proof fn lemma_hex_len(bs: Seq<u8>)
    ensures
        hex_of_bytes(bs).len() == 2 * bs.len(),
    decreases bs.len(),
{
    if bs.len() > 0 {
        lemma_hex_len(bs.drop_last());
    }
}

/// The lowercase hexadecimal digit of `n`.
fn hex_char(n: u8) -> (c: char)
    requires
        n < 16,
    ensures
        c == hex_digit(n as int),
{
    if n < 10 {
        (48 + n) as char
    } else {
        (87 + n) as char
    }
}

/// Renders bytes as lowercase hexadecimal, two digits each.
pub fn hex_lower(bs: &Vec<u8>) -> (r: String)
    ensures
        r@ == hex_of_bytes(bs@),
{
    let mut r = String::new();
    let n = bs.len();
    let mut i: usize = 0;
    proof {
        assert(bs@.subrange(0, 0) =~= Seq::<u8>::empty());
    }
    while i < n
        invariant
            i <= n,
            n == bs@.len(),
            r@ == hex_of_bytes(bs@.subrange(0, i as int)),
        decreases n - i,
    {
        let b = bs[i];
        push_char(&mut r, hex_char(b / 16));
        push_char(&mut r, hex_char(b % 16));
        i = i + 1;
        proof {
            assert(bs@.subrange(0, i as int).drop_last() =~= bs@.subrange(0, i - 1));
            assert(bs@.subrange(0, i as int).last() == bs@[i - 1]);
            assert(r@ =~= hex_of_bytes(bs@.subrange(0, i as int)));
        }
    }
    proof {
        assert(bs@.subrange(0, n as int) =~= bs@);
    }
    r
}

/// The fingerprint of a byte string: its SHA-256 digest in lowercase
/// hexadecimal, 64 digits.
pub fn content_digest(data: &Vec<u8>) -> (r: String)
    ensures
        r@ == hex_of_bytes(sha256_of(data@)),
        r@.len() == 64,
{
    let d = sha256_bytes(data);
    let r = hex_lower(&d);
    proof {
        lemma_hex_len(d@);
    }
    r
}

} // verus!
