use vstd::prelude::*;

use num_bigint::BigInt;
use sha1::{Digest, Sha1};

use crate::net::codec::be_value;
use crate::net::packets::hex_char;

verus! {

/// What the session server says of a player who joined: its name and its skin, with the
/// skin's signature.
pub struct PlayerData {
    pub username: String,
    pub textures: String,
    pub texture_signature: String,
}

/// The SHA-1 digest of `data`.
pub uninterp spec fn sha1_of(data: Seq<u8>) -> Seq<u8>;

/// The SHA-1 digest of `data`, through the `sha1` crate's `Digest::digest`. Claims only
/// that the result is the digest of exactly these bytes (a function of them alone) and,
/// as SHA-1's output type fixes, 20 bytes long.
#[verifier::external_body]
fn sha1_digest(data: &[u8]) -> (r: Vec<u8>)
    ensures
        r@ == sha1_of(data@),
        r@.len() == 20,
{
    Sha1::digest(data).to_vec()
}

/// The lowercase hex digits of `n`, most significant first, without leading zeros
/// ("0" for zero).
pub open spec fn hex_of(n: nat) -> Seq<char>
    decreases n,
{
    if n < 16 {
        seq![hex_char(n as int)]
    } else {
        hex_of(n / 16).push(hex_char((n % 16) as int))
    }
}

/// The integer that big-endian two's-complement bytes encode (0 for no bytes).
pub open spec fn signed_value(b: Seq<u8>) -> int {
    let u = be_value(b, 0, b.len()) as int;
    if b.len() > 0 && b[0] > 0x7f {
        u - crate::net::codec::pow256(b.len()) as int
    } else {
        u
    }
}

/// A signed integer in lowercase hex: a minus sign for a negative one, then the digits
/// of its magnitude.
pub open spec fn signed_hex(v: int) -> Seq<char> {
    if v < 0 {
        seq!['-'] + hex_of((-v) as nat)
    } else {
        hex_of(v as nat)
    }
}

/// The bytes read as a big-endian two's-complement integer and written in hex, through
/// `num_bigint`'s `BigInt::from_signed_bytes_be` and `to_str_radix(16)`. Claims the result
/// is that integer's lowercase hex digits without leading zeros, after a minus sign when
/// it is negative, as those functions' documentation and source give it.
#[verifier::external_body]
fn signed_hex_of_bytes(bytes: &[u8]) -> (r: String)
    ensures
        r@ == signed_hex(signed_value(bytes@)),
{
    BigInt::from_signed_bytes_be(bytes).to_str_radix(16)
}

/// The server id a client and the session server agree on for a login: the SHA-1
/// digest of the (empty) server name, the shared secret and the server's public key in
/// DER form, as a signed hex number.
pub fn server_hash(shared_secret: &[u8], public_key_der: &[u8]) -> (r: String)
    ensures
        r@ == signed_hex(signed_value(sha1_of(shared_secret@ + public_key_der@))),
{
    let mut data: Vec<u8> = Vec::new();
    let mut i: usize = 0;
    while i < shared_secret.len()
        invariant
            i <= shared_secret@.len(),
            data@ == shared_secret@.subrange(0, i as int),
        decreases shared_secret@.len() - i,
    {
        data.push(shared_secret[i]);
        i = i + 1;
        assert(data@ =~= shared_secret@.subrange(0, i as int));
    }
    let mut j: usize = 0;
    while j < public_key_der.len()
        invariant
            j <= public_key_der@.len(),
            data@ == shared_secret@ + public_key_der@.subrange(0, j as int),
        decreases public_key_der@.len() - j,
    {
        data.push(public_key_der[j]);
        j = j + 1;
        assert(data@ =~= shared_secret@ + public_key_der@.subrange(0, j as int));
    }
    assert(public_key_der@.subrange(0, j as int) =~= public_key_der@);
    let digest = sha1_digest(data.as_slice());
    signed_hex_of_bytes(digest.as_slice())
}

} // verus!
