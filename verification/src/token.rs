//! Token derivation: a path and a nanosecond timestamp are hashed and the
//! first four digest bytes, hex-encoded, become the opaque token.

use vstd::prelude::*;
use vstd::string::StrSliceExecFns;
use vstd::utf8::encode_utf8;

verus! {

/// The SHA-256 digest of a byte sequence. The digest is a pure function of
/// its input, so it is only named here; the computation itself is done by
/// the sha2 crate.
pub uninterp spec fn sha256_of(data: Seq<u8>) -> Seq<u8>;

/// The lowercase hex character for a nibble value.
pub open spec fn hex_digit(n: u8) -> char
    recommends
        n < 16,
{
    if n < 10 {
        ((n + 48) as u8) as char
    } else {
        ((n + 87) as u8) as char
    }
}

/// Lowercase hex encoding of a byte sequence: for each byte, the character
/// of its high nibble and then the character of its low nibble.
pub open spec fn hex_of(bytes: Seq<u8>) -> Seq<char>
    decreases bytes.len(),
{
    if bytes.len() == 0 {
        Seq::<char>::empty()
    } else {
        hex_of(bytes.drop_last()) + seq![
            hex_digit(bytes.last() / 16),
            hex_digit(bytes.last() % 16),
        ]
    }
}

pub proof fn lemma_hex_of_len(bytes: Seq<u8>)
    ensures
        hex_of(bytes).len() == 2 * bytes.len(),
    decreases bytes.len(),
{
    if bytes.len() > 0 {
        lemma_hex_of_len(bytes.drop_last());
    }
}

/// The decimal digits of `n`, as ASCII bytes, most significant first.
pub open spec fn dec_digits(n: nat) -> Seq<u8>
    decreases n,
{
    if n < 10 {
        seq![(n + 48) as u8]
    } else {
        dec_digits(n / 10) + seq![(n % 10 + 48) as u8]
    }
}

/// The bytes hashed to derive a token: the path's UTF-8 bytes followed by
/// the decimal digits of the timestamp, exactly the concatenation the hash
/// input string is built from.
pub open spec fn token_input(path: Seq<char>, nanos: nat) -> Seq<u8> {
    encode_utf8(path) + dec_digits(nanos)
}

/// The token derived from a path and a nanosecond timestamp: the first four
/// bytes of the SHA-256 digest of `token_input`, in lowercase hex.
pub open spec fn token_of(path: Seq<char>, nanos: nat) -> Seq<char> {
    hex_of(sha256_of(token_input(path, nanos)).subrange(0, 4))
}

pub proof fn lemma_token_of_len(path: Seq<char>, nanos: nat)
    requires
        sha256_of(token_input(path, nanos)).len() == 32,
    ensures
        token_of(path, nanos).len() == 8,
{
    lemma_hex_of_len(sha256_of(token_input(path, nanos)).subrange(0, 4));
}

/// Relies on sha2::Sha256::digest: the 32-byte SHA-256 digest of the input,
/// a function of the input bytes alone.
#[verifier::external_body]
fn sha256(data: &Vec<u8>) -> (r: Vec<u8>)
    ensures
        r@ == sha256_of(data@),
        r@.len() == 32,
{
    <sha2::Sha256 as sha2::Digest>::digest(data.as_slice()).to_vec()
}

/// Relies on hex::encode: lowercase hex, two digits per byte, high nibble
/// first.
#[verifier::external_body]
fn hex_encode(data: &Vec<u8>) -> (r: String)
    ensures
        r@ == hex_of(data@),
{
    hex::encode(data.as_slice())
}

/// Appends the decimal digits of `n` to `out`.
fn push_decimal(out: &mut Vec<u8>, n: u128)
    ensures
        final(out)@ == old(out)@ + dec_digits(n as nat),
    decreases n,
{
    if n < 10 {
        out.push((n as u8) + 48);
    } else {
        push_decimal(out, n / 10);
        out.push(((n % 10) as u8) + 48);
        proof {
            assert(out@ =~= old(out)@ + dec_digits(n as nat));
        }
    }
}

/// Derives the opaque token for `path` salted with `nanos`: eight lowercase
/// hex characters of the truncated digest.
pub fn generate_hash(path: &str, nanos: u128) -> (r: String)
    ensures
        r@ == token_of(path@, nanos as nat),
        r@.len() == 8,
{
    let mut input: Vec<u8> = path.as_bytes_vec();
    push_decimal(&mut input, nanos);
    let mut digest = sha256(&input);
    digest.truncate(4);
    proof {
        assert(digest@ =~= sha256_of(token_input(path@, nanos as nat)).subrange(0, 4));
        lemma_token_of_len(path@, nanos as nat);
    }
    hex_encode(&digest)
}

} // verus!
