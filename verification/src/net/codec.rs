use vstd::prelude::*;

use byteorder::{BigEndian, WriteBytesExt};

verus! {

/// Why a packet could not be read.
#[derive(Debug, Clone, Copy, PartialEq, Eq, Structural)]
pub enum CodecError {
    /// The bytes ran out before the value did.
    UnexpectedEnd,
    /// A VarInt ran on past its fifth byte.
    VarIntTooLong,
    /// A string's bytes are not UTF-8.
    InvalidUtf8,
    /// The packet carries another id than the one expected.
    UnexpectedPacketId(u32),
    /// An item slot adds data components, whose layout depends on each component.
    UnreadableComponents,
    /// The shared secret could not be decrypted with the server's private key.
    SecretNotDecrypted,
}

/// The VarInt that starts at byte `pos + i` of `buf`, its first `i` groups already
/// decoded into `acc`: each byte gives 7 bits, least significant group first, and
/// its top bit says whether another byte follows; at most five bytes.
pub open spec fn varint_from(buf: Seq<u8>, pos: int, i: nat, acc: u32) -> Result<(u32, int), CodecError>
    decreases 5 - i,
{
    if i >= 5 {
        Err(CodecError::VarIntTooLong)
    } else if pos + i >= buf.len() {
        Err(CodecError::UnexpectedEnd)
    } else {
        let b = buf[pos + i];
        let acc2 = acc | (((b & 0x7f) as u32) << ((7 * i) as u32));
        if b & 0x80 == 0 {
            Ok((acc2, pos + i + 1))
        } else {
            varint_from(buf, pos, i + 1, acc2)
        }
    }
}

/// The VarInt at byte `pos` of `buf` and the position just past it.
pub open spec fn varint_at(buf: Seq<u8>, pos: int) -> Result<(u32, int), CodecError> {
    varint_from(buf, pos, 0, 0)
}

/// The VarInt encoding of `v`: 7 bits to a byte, least significant group first, the
/// top bit set on every byte but the last.
pub open spec fn varint_bytes(v: u32) -> Seq<u8>
    decreases v,
{
    if v < 0x80 {
        seq![v as u8]
    } else {
        proof {
            assert(v >= 0x80 ==> v >> 7 < v) by (bit_vector);
        }
        seq![((v & 0x7f) | 0x80) as u8] + varint_bytes(v >> 7)
    }
}

/// The `s` lowest bits of `v`.
pub open spec fn low_bits(v: u32, s: u32) -> u32 {
    v & (((1u32 << s) - 1) as u32)
}

proof fn lemma_varint_decode(v: u32, buf: Seq<u8>, pos: int, i: nat)
    requires
        i <= 4,
        0 <= pos,
        pos + i + varint_bytes(v >> ((7 * i) as u32)).len() <= buf.len(),
        buf.subrange(pos + i, pos + i + varint_bytes(v >> ((7 * i) as u32)).len()) == varint_bytes(
            v >> ((7 * i) as u32),
        ),
    ensures
        varint_from(buf, pos, i, low_bits(v, (7 * i) as u32)) == Ok::<(u32, int), CodecError>(
            (v, pos + i + varint_bytes(v >> ((7 * i) as u32)).len()),
        ),
    decreases 5 - i,
{
    let s = (7 * i) as u32;
    let w = v >> s;
    let b = buf[pos + i];
    assert(b == varint_bytes(w)[0]);
    let acc = low_bits(v, s);
    if w < 0x80 {
        assert(b == w as u8);
        assert(b & 0x80 == 0 && (acc | (((b & 0x7f) as u32) << s)) == v) by (bit_vector)
            requires
                s <= 28,
                w == v >> s,
                w < 0x80,
                b == w as u8,
                acc == v & (((1u32 << s) - 1) as u32),
        ;
    } else {
        assert(i < 4) by {
            assert(s == 28 ==> v >> s < 0x80) by (bit_vector);
        }
        let s2 = (7 * (i + 1)) as u32;
        assert(b == ((w & 0x7f) | 0x80) as u8);
        assert(b & 0x80 != 0 && (acc | (((b & 0x7f) as u32) << s)) == low_bits(v, s2) && w >> 7u32
            == v >> s2) by (bit_vector)
            requires
                s <= 21,
                s2 == s + 7,
                w == v >> s,
                b == ((w & 0x7f) | 0x80) as u8,
                acc == v & (((1u32 << s) - 1) as u32),
        ;
        assert(w >= 0x80 ==> w >> 7 < w) by (bit_vector);
        let tail = varint_bytes(w >> 7u32);
        assert(varint_bytes(w) == seq![b] + tail);
        assert(buf.subrange(pos + i + 1, pos + i + 1 + tail.len()) =~= tail) by {
            assert forall|k: int| 0 <= k < tail.len() implies buf[pos + i + 1 + k] == tail[k] by {
                assert(buf.subrange(pos + i, pos + i + varint_bytes(w).len())[k + 1] == varint_bytes(
                    w,
                )[k + 1]);
            }
        }
        lemma_varint_decode(v, buf, pos, i + 1);
    }
}

/// Decoding undoes encoding: the VarInt read at the start of an encoding of `v`,
/// whatever follows it, is `v`, and it ends where the encoding ends.
pub proof fn lemma_varint_roundtrip(v: u32, rest: Seq<u8>)
    ensures
        varint_at(varint_bytes(v) + rest, 0) == Ok::<(u32, int), CodecError>(
            (v, varint_bytes(v).len() as int),
        ),
{
    let buf = varint_bytes(v) + rest;
    assert(v >> 0u32 == v) by (bit_vector);
    assert(low_bits(v, 0) == 0) by (bit_vector);
    assert(buf.subrange(0, varint_bytes(v).len() as int) =~= varint_bytes(v));
    lemma_varint_decode(v, buf, 0, 0);
}

/// Reads the VarInt at `pos`: its value and the position just past it.
pub fn read_var(buf: &[u8], pos: usize) -> (r: Result<(u32, usize), CodecError>)
    requires
        pos <= buf@.len(),
    ensures
        match r {
            Ok((v, p)) => varint_at(buf@, pos as int) == Ok::<(u32, int), CodecError>(
                (v, p as int),
            ),
            Err(e) => varint_at(buf@, pos as int) == Err::<(u32, int), CodecError>(e),
        },
        r matches Ok((_, p)) ==> pos < p <= buf@.len(),
{
    proof {
        lemma_varint_end(buf@, pos as int, 0, 0);
    }
    let mut value: u32 = 0;
    let mut i: usize = 0;
    while i < 5
        invariant
            i <= 5,
            pos <= buf@.len(),
            varint_at(buf@, pos as int) == varint_from(buf@, pos as int, i as nat, value),
        decreases 5 - i,
    {
        if i >= buf.len() - pos {
            return Err(CodecError::UnexpectedEnd);
        }
        let b = buf[pos + i];
        value = value | (((b & 0x7f) as u32) << ((7 * i) as u32));
        if b & 0x80 == 0 {
            return Ok((value, pos + i + 1));
        }
        i = i + 1;
    }
    Err(CodecError::VarIntTooLong)
}

/// Appends the VarInt encoding of `value` (its bits read as a `u32`).
pub fn write_var(out: &mut Vec<u8>, value: i32)
    ensures
        final(out)@ == old(out)@ + varint_bytes(value as u32),
{
    let mut v: u32 = value as u32;
    let ghost start = out@;
    assert(varint_bytes(value as u32) == Seq::<u8>::empty() + varint_bytes(v));
    let ghost mut done: Seq<u8> = Seq::empty();
    while v >= 0x80
        invariant
            varint_bytes(value as u32) == done + varint_bytes(v),
            out@ == start + done,
        decreases v,
    {
        assert(v >= 0x80 ==> v >> 7 < v) by (bit_vector);
        let b = ((v & 0x7f) | 0x80) as u8;
        out.push(b);
        proof {
            assert(varint_bytes(v) == seq![b] + varint_bytes(v >> 7));
            done = done + seq![b];
            assert(varint_bytes(value as u32) == done + varint_bytes(v >> 7));
        }
        v = v >> 7;
    }
    out.push(v as u8);
    assert(out@ =~= start + varint_bytes(value as u32));
}

/// A write to an output failed.
#[derive(Debug, Clone, Copy, PartialEq, Eq, Structural)]
pub enum WriteError {
    Io,
}

/// The `n` bytes of the big-endian encoding of `v` (its `n` lowest bytes).
pub open spec fn be_bytes(v: nat, n: nat) -> Seq<u8>
    decreases n,
{
    if n == 0 {
        Seq::empty()
    } else {
        be_bytes(v / 256, (n - 1) as nat).push((v % 256) as u8)
    }
}

/// Appends one byte through byteorder's `WriteBytesExt::write_u8`, which hands the byte
/// to `write_all`. A `Vec<u8>` takes every write (std documents its `Write` as appending,
/// the vector growing as needed), so the call succeeds and the byte is appended.
#[verifier::external_body]
pub(crate) fn write_u8_to(w: &mut Vec<u8>, v: u8) -> (r: Result<(), WriteError>)
    ensures
        r is Ok,
        final(w)@ == old(w)@.push(v),
{
    match w.write_u8(v) {
        Ok(()) => Ok(()),
        Err(_) => Err(WriteError::Io),
    }
}

/// Appends a big-endian `i32` through byteorder's `WriteBytesExt::write_i32::<BigEndian>`,
/// which writes the four bytes of the value's bits, most significant first, with
/// `write_all`. A `Vec<u8>` takes every write, so the call succeeds and those bytes are
/// appended.
#[verifier::external_body]
pub(crate) fn write_i32_to(w: &mut Vec<u8>, v: i32) -> (r: Result<(), WriteError>)
    ensures
        r is Ok,
        final(w)@ == old(w)@ + be_bytes((v as u32) as nat, 4),
{
    match w.write_i32::<BigEndian>(v) {
        Ok(()) => Ok(()),
        Err(_) => Err(WriteError::Io),
    }
}

/// Appends a big-endian `i64` through byteorder's `WriteBytesExt::write_i64::<BigEndian>`,
/// which writes the eight bytes of the value's bits, most significant first, with
/// `write_all`. A `Vec<u8>` takes every write, so the call succeeds and those bytes are
/// appended.
#[verifier::external_body]
pub(crate) fn write_i64_to(w: &mut Vec<u8>, v: i64) -> (r: Result<(), WriteError>)
    ensures
        r is Ok,
        final(w)@ == old(w)@ + be_bytes((v as u64) as nat, 8),
{
    match w.write_i64::<BigEndian>(v) {
        Ok(()) => Ok(()),
        Err(_) => Err(WriteError::Io),
    }
}

/// The big-endian unsigned value of the `n` bytes at `pos`.
pub open spec fn be_value(buf: Seq<u8>, pos: int, n: nat) -> nat
    decreases n,
{
    if n == 0 {
        0
    } else {
        be_value(buf, pos, (n - 1) as nat) * 256 + buf[pos + n - 1] as nat
    }
}

/// 256 to the power `n`.
pub open spec fn pow256(n: nat) -> nat
    decreases n,
{
    if n == 0 {
        1
    } else {
        pow256((n - 1) as nat) * 256
    }
}

proof fn lemma_be_bound(buf: Seq<u8>, pos: int, n: nat)
    ensures
        be_value(buf, pos, n) < pow256(n),
    decreases n,
{
    if n > 0 {
        lemma_be_bound(buf, pos, (n - 1) as nat);
        let a = be_value(buf, pos, (n - 1) as nat);
        let p = pow256((n - 1) as nat);
        let b = buf[pos + n - 1] as nat;
        assert(a * 256 + b < p * 256) by (nonlinear_arith)
            requires
                a < p,
                b < 256,
        ;
    }
}

proof fn lemma_pow256_16()
    ensures
        pow256(16) == 0x1_0000_0000_0000_0000_0000_0000_0000_0000,
        pow256(8) == 0x1_0000_0000_0000_0000,
        pow256(2) == 0x1_0000,
{
    reveal_with_fuel(pow256, 17);
}

/// The `n` bytes at `pos` (at most 16) read as a big-endian unsigned number.
fn read_be(buf: &[u8], pos: usize, n: usize) -> (r: Result<(u128, usize), CodecError>)
    requires
        pos <= buf@.len(),
        n <= 16,
    ensures
        pos + n <= buf@.len() ==> r == Ok::<(u128, usize), CodecError>(
            (be_value(buf@, pos as int, n as nat) as u128, (pos + n) as usize),
        ),
        pos + n > buf@.len() ==> r == Err::<(u128, usize), CodecError>(CodecError::UnexpectedEnd),
        r matches Ok((_, p)) ==> p == pos + n,
{
    if n > buf.len() - pos {
        return Err(CodecError::UnexpectedEnd);
    }
    let len = buf.len();
    let mut acc: u128 = 0;
    let mut k: usize = 0;
    proof {
        lemma_pow256_16();
    }
    while k < n
        invariant
            k <= n <= 16,
            pos + n <= buf@.len(),
            len == buf@.len(),
            acc == be_value(buf@, pos as int, k as nat),
            pow256(16) == 0x1_0000_0000_0000_0000_0000_0000_0000_0000,
        decreases n - k,
    {
        proof {
            lemma_be_bound(buf@, pos as int, (k + 1) as nat);
            lemma_pow_mono((k + 1) as nat, 16);
        }
        acc = acc * 256 + buf[pos + k] as u128;
        k = k + 1;
    }
    Ok((acc, pos + n))
}

proof fn lemma_pow_mono(a: nat, b: nat)
    requires
        a <= b,
    ensures
        pow256(a) <= pow256(b),
    decreases b,
{
    if a < b {
        lemma_pow_mono(a, (b - 1) as nat);
    }
}

/// The byte at `pos`.
pub fn read_u8(buf: &[u8], pos: usize) -> (r: Result<(u8, usize), CodecError>)
    requires
        pos <= buf@.len(),
    ensures
        pos < buf@.len() ==> r == Ok::<(u8, usize), CodecError>((buf@[pos as int], (pos + 1) as usize)),
        pos >= buf@.len() ==> r == Err::<(u8, usize), CodecError>(CodecError::UnexpectedEnd),
        r matches Ok((_, p)) ==> p == pos + 1,
{
    if pos < buf.len() {
        Ok((buf[pos], pos + 1))
    } else {
        Err(CodecError::UnexpectedEnd)
    }
}

/// The big-endian `u16` at `pos`.
pub fn read_u16_be(buf: &[u8], pos: usize) -> (r: Result<(u16, usize), CodecError>)
    requires
        pos <= buf@.len(),
    ensures
        pos + 2 <= buf@.len() ==> r == Ok::<(u16, usize), CodecError>(
            (be_value(buf@, pos as int, 2) as u16, (pos + 2) as usize),
        ),
        pos + 2 > buf@.len() ==> r == Err::<(u16, usize), CodecError>(CodecError::UnexpectedEnd),
        r matches Ok((_, p)) ==> p == pos + 2,
{
    let (v, p) = read_be(buf, pos, 2)?;
    proof {
        lemma_be_bound(buf@, pos as int, 2);
        lemma_pow256_16();
    }
    Ok((v as u16, p))
}

/// The big-endian two's-complement `i16` at `pos`.
pub fn read_i16_be(buf: &[u8], pos: usize) -> (r: Result<(i16, usize), CodecError>)
    requires
        pos <= buf@.len(),
    ensures
        pos + 2 <= buf@.len() ==> r == Ok::<(i16, usize), CodecError>(
            ((be_value(buf@, pos as int, 2) as u16) as i16, (pos + 2) as usize),
        ),
        pos + 2 > buf@.len() ==> r == Err::<(i16, usize), CodecError>(CodecError::UnexpectedEnd),
        r matches Ok((_, p)) ==> p == pos + 2,
{
    let (v, p) = read_u16_be(buf, pos)?;
    Ok((v as i16, p))
}

/// The big-endian `u32` at `pos` (the bits of a float, for one).
pub fn read_u32_be(buf: &[u8], pos: usize) -> (r: Result<(u32, usize), CodecError>)
    requires
        pos <= buf@.len(),
    ensures
        pos + 4 <= buf@.len() ==> r == Ok::<(u32, usize), CodecError>(
            (be_value(buf@, pos as int, 4) as u32, (pos + 4) as usize),
        ),
        pos + 4 > buf@.len() ==> r == Err::<(u32, usize), CodecError>(CodecError::UnexpectedEnd),
        r matches Ok((_, p)) ==> p == pos + 4,
{
    let (v, p) = read_be(buf, pos, 4)?;
    proof {
        lemma_be_bound(buf@, pos as int, 4);
        reveal_with_fuel(pow256, 5);
    }
    Ok((v as u32, p))
}

/// The block position packed in a 64-bit value: x in the top 26 bits, z in the next 26,
/// y in the low 12, each a two's-complement number.
pub open spec fn unpack_position(v: i64) -> (i32, i32, i32) {
    ((v >> 38u64) as i32, ((v << 52u64) >> 52u64) as i32, ((v << 26u64) >> 38u64) as i32)
}

/// Reads a packed block position at `pos`.
pub fn read_position(buf: &[u8], pos: usize) -> (r: Result<((i32, i32, i32), usize), CodecError>)
    requires
        pos <= buf@.len(),
    ensures
        pos + 8 <= buf@.len() ==> r == Ok::<((i32, i32, i32), usize), CodecError>(
            (unpack_position((be_value(buf@, pos as int, 8) as u64) as i64), (pos + 8) as usize),
        ),
        pos + 8 > buf@.len() ==> r == Err::<((i32, i32, i32), usize), CodecError>(
            CodecError::UnexpectedEnd,
        ),
        r matches Ok((_, p)) ==> p == pos + 8,
{
    let (v, p) = read_i64_be(buf, pos)?;
    let x = (v >> 38u64) as i32;
    let y = ((v << 52u64) >> 52u64) as i32;
    let z = ((v << 26u64) >> 38u64) as i32;
    Ok(((x, y, z), p))
}

/// The big-endian two's-complement `i64` at `pos`.
pub fn read_i64_be(buf: &[u8], pos: usize) -> (r: Result<(i64, usize), CodecError>)
    requires
        pos <= buf@.len(),
    ensures
        pos + 8 <= buf@.len() ==> r == Ok::<(i64, usize), CodecError>(
            ((be_value(buf@, pos as int, 8) as u64) as i64, (pos + 8) as usize),
        ),
        pos + 8 > buf@.len() ==> r == Err::<(i64, usize), CodecError>(CodecError::UnexpectedEnd),
        r matches Ok((_, p)) ==> p == pos + 8,
{
    let (v, p) = read_be(buf, pos, 8)?;
    proof {
        lemma_be_bound(buf@, pos as int, 8);
        lemma_pow256_16();
    }
    Ok(((v as u64) as i64, p))
}

/// The big-endian `u64` at `pos` (the bits of a double, for one).
pub fn read_u64_be(buf: &[u8], pos: usize) -> (r: Result<(u64, usize), CodecError>)
    requires
        pos <= buf@.len(),
    ensures
        pos + 8 <= buf@.len() ==> r == Ok::<(u64, usize), CodecError>(
            (be_value(buf@, pos as int, 8) as u64, (pos + 8) as usize),
        ),
        pos + 8 > buf@.len() ==> r == Err::<(u64, usize), CodecError>(CodecError::UnexpectedEnd),
        r matches Ok((_, p)) ==> p == pos + 8,
{
    let (v, p) = read_be(buf, pos, 8)?;
    proof {
        lemma_be_bound(buf@, pos as int, 8);
        lemma_pow256_16();
    }
    Ok((v as u64, p))
}

/// The big-endian two's-complement `i128` at `pos`.
pub fn read_i128_be(buf: &[u8], pos: usize) -> (r: Result<(i128, usize), CodecError>)
    requires
        pos <= buf@.len(),
    ensures
        pos + 16 <= buf@.len() ==> r == Ok::<(i128, usize), CodecError>(
            ((be_value(buf@, pos as int, 16) as u128) as i128, (pos + 16) as usize),
        ),
        pos + 16 > buf@.len() ==> r == Err::<(i128, usize), CodecError>(CodecError::UnexpectedEnd),
        r matches Ok((_, p)) ==> p == pos + 16,
{
    let (v, p) = read_be(buf, pos, 16)?;
    Ok((v as i128, p))
}

/// The `n` bytes at `pos`.
pub fn read_bytes(buf: &[u8], pos: usize, n: usize) -> (r: Result<(Vec<u8>, usize), CodecError>)
    requires
        pos <= buf@.len(),
    ensures
        pos + n <= buf@.len() ==> (r matches Ok((v, p)) && v@ == buf@.subrange(
            pos as int,
            pos + n,
        ) && p == pos + n),
        pos + n > buf@.len() ==> r == Err::<(Vec<u8>, usize), CodecError>(CodecError::UnexpectedEnd),
{
    if n > buf.len() - pos {
        return Err(CodecError::UnexpectedEnd);
    }
    let len = buf.len();
    let mut v: Vec<u8> = Vec::new();
    let mut k: usize = 0;
    while k < n
        invariant
            k <= n,
            pos + n <= buf@.len(),
            len == buf@.len(),
            v@ == buf@.subrange(pos as int, pos + k),
        decreases n - k,
    {
        v.push(buf[pos + k]);
        k = k + 1;
        assert(v@ =~= buf@.subrange(pos as int, pos + k));
    }
    Ok((v, pos + n))
}

/// The text that `bytes` encode in UTF-8, none where they are not UTF-8.
/// Calls `String::from_utf8`; its documentation promises a `String` of those bytes
/// exactly when they are valid UTF-8 and an error otherwise.
#[verifier::external_body]
fn string_from_utf8(bytes: Vec<u8>) -> (r: Option<String>)
    ensures
        r is Some <==> vstd::utf8::valid_utf8(bytes@),
        r matches Some(s) ==> s@ == vstd::utf8::decode_utf8(bytes@),
{
    String::from_utf8(bytes).ok()
}

/// A VarInt-length-prefixed UTF-8 string at `pos`.
pub open spec fn string_at(buf: Seq<u8>, pos: int) -> Result<(Seq<char>, int), CodecError> {
    match varint_at(buf, pos) {
        Err(e) => Err(e),
        Ok((n, p)) => if p + n > buf.len() {
            Err(CodecError::UnexpectedEnd)
        } else if !vstd::utf8::valid_utf8(buf.subrange(p, p + n)) {
            Err(CodecError::InvalidUtf8)
        } else {
            Ok((vstd::utf8::decode_utf8(buf.subrange(p, p + n)), p + n))
        },
    }
}

/// Reads a VarInt-length-prefixed UTF-8 string at `pos`.
pub fn read_string(buf: &[u8], pos: usize) -> (r: Result<(String, usize), CodecError>)
    requires
        pos <= buf@.len(),
    ensures
        match r {
            Ok((s, p)) => string_at(buf@, pos as int) == Ok::<(Seq<char>, int), CodecError>(
                (s@, p as int),
            ),
            Err(e) => string_at(buf@, pos as int) == Err::<(Seq<char>, int), CodecError>(e),
        },
        r matches Ok((_, p)) ==> pos < p <= buf@.len(),
{
    let (n, p) = read_var(buf, pos)?;
    proof {
        assert(varint_from(buf@, pos as int, 0, 0) matches Ok((_, q)) ==> q <= buf@.len()) by {
            lemma_varint_end(buf@, pos as int, 0, 0);
        }
    }
    let (bytes, q) = read_bytes(buf, p, n as usize)?;
    match string_from_utf8(bytes) {
        Some(s) => Ok((s, q)),
        None => Err(CodecError::InvalidUtf8),
    }
}

proof fn lemma_varint_end(buf: Seq<u8>, pos: int, i: nat, acc: u32)
    ensures
        varint_from(buf, pos, i, acc) matches Ok((_, q)) ==> pos < q <= buf.len(),
    decreases 5 - i,
{
    if i < 5 && pos + i < buf.len() && buf[pos + i] & 0x80 != 0 {
        lemma_varint_end(buf, pos, i + 1, acc | (((buf[pos + i] & 0x7f) as u32) << ((7 * i) as u32)));
    }
}

} // verus!
