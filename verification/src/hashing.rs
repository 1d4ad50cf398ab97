//! Content fingerprints: the hex-encoded SHA-256 digest of a file's bytes.

use vstd::prelude::*;

verus! {

/// The 32-byte SHA-256 digest of a byte sequence.  The digest is a pure
/// function of the bytes, far too long to state here, so it is only named;
/// `sha256_digest` below is the one place that computes it.
pub uninterp spec fn sha256_of(bytes: Seq<u8>) -> Seq<u8>;

/// One hexadecimal digit, lower case.
pub open spec fn hex_char(n: u8) -> char {
    if n == 0 {
        '0'
    } else if n == 1 {
        '1'
    } else if n == 2 {
        '2'
    } else if n == 3 {
        '3'
    } else if n == 4 {
        '4'
    } else if n == 5 {
        '5'
    } else if n == 6 {
        '6'
    } else if n == 7 {
        '7'
    } else if n == 8 {
        '8'
    } else if n == 9 {
        '9'
    } else if n == 10 {
        'a'
    } else if n == 11 {
        'b'
    } else if n == 12 {
        'c'
    } else if n == 13 {
        'd'
    } else if n == 14 {
        'e'
    } else {
        'f'
    }
}

/// Lower-case hex encoding: two digits per byte, high nibble first.
pub open spec fn hex_of(bytes: Seq<u8>) -> Seq<char> {
    Seq::new(
        bytes.len() * 2,
        |i: int|
            if i % 2 == 0 {
                hex_char(bytes[i / 2] >> 4)
            } else {
                hex_char(bytes[i / 2] & 0x0f)
            },
    )
}

/// A content fingerprint: the SHA-256 digest of the bytes, hex-encoded.
/// Two byte sequences have equal fingerprints exactly when their digests
/// collide; for a cryptographic hash that is taken to mean equal contents.
pub open spec fn fingerprint_of(bytes: Seq<u8>) -> Seq<char> {
    hex_of(sha256_of(bytes))
}

/// Relies on `sha2::Sha256` through the `Digest` trait: the digest depends
/// on the input bytes alone and is always 32 bytes long.
#[verifier::external_body]
fn sha256_digest(bytes: &Vec<u8>) -> (r: Vec<u8>)
    ensures
        r@ == sha256_of(bytes@),
        r@.len() == 32,
{
    let digest = <sha2::Sha256 as sha2::Digest>::digest(bytes.as_slice());
    digest.as_slice().to_vec()
}

/// Relies on `String::push`: appends exactly the given character.
#[verifier::external_body]
fn push_char(s: &mut String, c: char)
    ensures
        final(s)@ == old(s)@.push(c),
{
    s.push(c);
}

/// One hexadecimal digit, lower case.
fn hex_char_exec(n: u8) -> (c: char)
    requires
        n < 16,
    ensures
        c == hex_char(n),
{
    if n == 0 {
        '0'
    } else if n == 1 {
        '1'
    } else if n == 2 {
        '2'
    } else if n == 3 {
        '3'
    } else if n == 4 {
        '4'
    } else if n == 5 {
        '5'
    } else if n == 6 {
        '6'
    } else if n == 7 {
        '7'
    } else if n == 8 {
        '8'
    } else if n == 9 {
        '9'
    } else if n == 10 {
        'a'
    } else if n == 11 {
        'b'
    } else if n == 12 {
        'c'
    } else if n == 13 {
        'd'
    } else if n == 14 {
        'e'
    } else {
        'f'
    }
}

/// Lower-case hex encoding of a byte vector.
fn hex_encode(bytes: &Vec<u8>) -> (r: String)
    ensures
        r@ == hex_of(bytes@),
{
    let mut out = String::new();
    let mut i: usize = 0;
    while i < bytes.len()
        invariant
            i <= bytes@.len(),
            out@ == hex_of(bytes@.take(i as int)),
        decreases bytes@.len() - i,
    {
        let b = bytes[i];
        let hi: u8 = b >> 4;
        let lo: u8 = b & 0x0f;
        assert(b >> 4 < 16 && b & 0x0f < 16) by (bit_vector);
        let c1 = hex_char_exec(hi);
        let c2 = hex_char_exec(lo);
        push_char(&mut out, c1);
        push_char(&mut out, c2);
        proof {
            assert(out@ =~= hex_of(bytes@.take(i + 1)));
        }
        i = i + 1;
    }
    proof {
        assert(bytes@.take(bytes@.len() as int) =~= bytes@);
    }
    out
}

/// The content fingerprint of a byte sequence: the hex-encoded SHA-256
/// digest, 64 characters long.
pub fn hash_bytes(bytes: &Vec<u8>) -> (r: String)
    ensures
        r@ == fingerprint_of(bytes@),
        r@.len() == 64,
{
    let digest = sha256_digest(bytes);
    hex_encode(&digest)
}

} // verus!
