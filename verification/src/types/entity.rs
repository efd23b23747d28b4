use vstd::prelude::*;
use vstd::string::StringSliceAdditionalSpecFns;

use crate::net::codec::{be_value, pow256};
use crate::net::packets::{hex_char, hex_text, uuid_text};
use crate::types::items::ItemStack;

verus! {

/// A moment of the monotonic clock; nothing is known of its value.
#[verifier::external_type_specification]
#[verifier::external_body]
pub struct ExInstant(std::time::Instant);

/// An item lying in the world: the stack, when it was dropped, and by whom.
pub struct ItemEntity {
    pub item_stack: ItemStack,
    pub dropped_at: std::time::Instant,
    pub dropped_by: Option<String>,
}

/// Hands out entity ids from `counter`: the current value, the counter then moving one
/// up (wrapping around, as an atomic `fetch_add` does).
pub fn next_entity_id(counter: &mut i32) -> (r: i32)
    ensures
        r == *old(counter),
        *final(counter) == old(counter).wrapping_add(1),
{
    let id = *counter;
    *counter = id.wrapping_add(1);
    id
}

/// How an entity's movement is sent to the players around it this tick.
#[derive(Clone, Copy, Debug, PartialEq, Eq, Structural)]
pub enum MoveSync {
    /// Nothing is sent (and a player's last position and look are kept).
    Nothing,
    /// The full position, as a teleport.
    FullSync,
    /// Only the new look.
    Rotation,
    /// The position change and the new look.
    PositionAndRotation,
    /// Only the position change.
    Position,
}

/// Decides how a player entity's movement is sent: its update counter counts up, and
/// from 20 a full sync is due, so that the position is sent in full every 20 ticks: a
/// due sync is sent and the counter starts over. Otherwise a player that stayed put gets
/// its new look if it turned, else nothing; one that moved gets the full sync when the
/// move is too long for a relative one, else its move with its look if it turned, or
/// its move alone. Gives the message and the counter.
pub fn player_move_sync(ticks_since_update: u32, moved: bool, far: bool, rotated: bool) -> (r: (
    MoveSync,
    u32,
))
    requires
        ticks_since_update < u32::MAX,
    ensures
        ({
            let t = ticks_since_update + 1;
            let force = t >= 20;
            r == if !moved {
                if force {
                    (MoveSync::FullSync, 0u32)
                } else if rotated {
                    (MoveSync::Rotation, t as u32)
                } else {
                    (MoveSync::Nothing, t as u32)
                }
            } else if force {
                (MoveSync::FullSync, 0u32)
            } else if far {
                (MoveSync::FullSync, t as u32)
            } else if rotated {
                (MoveSync::PositionAndRotation, t as u32)
            } else {
                (MoveSync::Position, t as u32)
            }
        }),
{
    let t = ticks_since_update + 1;
    let force = t >= 20;
    if !moved {
        if force {
            (MoveSync::FullSync, 0)
        } else if rotated {
            (MoveSync::Rotation, t)
        } else {
            (MoveSync::Nothing, t)
        }
    } else if force {
        (MoveSync::FullSync, 0)
    } else if far {
        (MoveSync::FullSync, t)
    } else if rotated {
        (MoveSync::PositionAndRotation, t)
    } else {
        (MoveSync::Position, t)
    }
}

/// Decides how an item entity's movement is sent: as for a player, but an item that
/// stayed put sends nothing until the full sync is due, and a moved item never sends
/// its look.
pub fn item_move_sync(ticks_since_update: u32, moved: bool, far: bool) -> (r: (MoveSync, u32))
    requires
        ticks_since_update < u32::MAX,
    ensures
        ({
            let t = ticks_since_update + 1;
            let force = t >= 20;
            r == if !moved {
                if force {
                    (MoveSync::FullSync, 0u32)
                } else {
                    (MoveSync::Nothing, t as u32)
                }
            } else if force {
                (MoveSync::FullSync, 0u32)
            } else if far {
                (MoveSync::FullSync, t as u32)
            } else {
                (MoveSync::Position, t as u32)
            }
        }),
{
    let t = ticks_since_update + 1;
    let force = t >= 20;
    if !moved {
        if force {
            (MoveSync::FullSync, 0)
        } else {
            (MoveSync::Nothing, t)
        }
    } else if force {
        (MoveSync::FullSync, 0)
    } else if far {
        (MoveSync::FullSync, t)
    } else {
        (MoveSync::Position, t)
    }
}

/// The bytes of a text without its `-` characters.
pub open spec fn without_dashes(b: Seq<u8>) -> Seq<u8>
    decreases b.len(),
{
    if b.len() == 0 {
        b
    } else if b.last() == 45 {
        without_dashes(b.drop_last())
    } else {
        without_dashes(b.drop_last()).push(b.last())
    }
}

/// The value of a hex digit byte (either case), if it is one.
pub open spec fn hex_digit_value(c: u8) -> Option<u8> {
    if 48 <= c <= 57 {
        Some((c - 48) as u8)
    } else if 97 <= c <= 102 {
        Some((c - 87) as u8)
    } else if 65 <= c <= 70 {
        Some((c - 55) as u8)
    } else {
        None
    }
}

/// Every byte of `b` is a hex digit.
pub open spec fn all_hex(b: Seq<u8>) -> bool {
    forall|k: int| 0 <= k < b.len() ==> (#[trigger] hex_digit_value(b[k])) is Some
}

/// The bytes that a string of hex digit pairs encodes: none when its length is odd or a
/// byte is no hex digit.
pub open spec fn hex_decoded(b: Seq<u8>) -> Option<Seq<u8>> {
    if b.len() % 2 != 0 || !all_hex(b) {
        None
    } else {
        Some(
            Seq::new(
                b.len() / 2,
                |i: int|
                    (hex_digit_value(b[2 * i])->0 * 16 + hex_digit_value(b[2 * i + 1])->0) as u8,
            ),
        )
    }
}

/// Decodes hex digit pairs through `hex::decode`, which, as its source shows, fails on
/// an odd length or a byte that is not a hex digit (of either case) and otherwise gives
/// one byte per pair, the first digit the high half. The result is that claim.
#[verifier::external_body]
fn hex_decode(data: &[u8]) -> (r: Option<Vec<u8>>)
    ensures
        r is Some <==> hex_decoded(data@) is Some,
        r matches Some(w) ==> hex_decoded(data@) == Some(w@),
{
    hex::decode(data).ok()
}

fn strip_dashes(b: &[u8]) -> (r: Vec<u8>)
    ensures
        r@ == without_dashes(b@),
{
    let mut out: Vec<u8> = Vec::new();
    let mut i: usize = 0;
    assert(b@.subrange(0, 0) =~= Seq::<u8>::empty());
    while i < b.len()
        invariant
            i <= b@.len(),
            out@ == without_dashes(b@.subrange(0, i as int)),
        decreases b@.len() - i,
    {
        assert(b@.subrange(0, i + 1).drop_last() =~= b@.subrange(0, i as int));
        if b[i] != 45 {
            out.push(b[i]);
        }
        i = i + 1;
    }
    assert(b@.subrange(0, i as int) =~= b@);
    out
}

/// The text is a UUID: without its dashes, 32 hex digits.
pub open spec fn uuid_shaped(text: Seq<u8>) -> bool {
    hex_decoded(without_dashes(text)) matches Some(v) && v.len() == 16
}

/// The 128 bits of a UUID given as text (hex digits, dashes anywhere), big-endian.
pub fn uuid_bits(uuid: &str) -> (r: u128)
    requires
        uuid_shaped(uuid.spec_bytes()),
    ensures
        r == be_value(hex_decoded(without_dashes(uuid.spec_bytes()))->0, 0, 16),
{
    let digits = strip_dashes(uuid.as_bytes());
    let bytes = hex_decode(digits.as_slice()).unwrap();
    let mut acc: u128 = 0;
    let mut k: usize = 0;
    while k < 16
        invariant
            k <= 16,
            bytes@.len() == 16,
            acc == be_value(bytes@, 0, k as nat),
            acc < crate::net::codec::pow256(k as nat),
        decreases 16 - k,
    {
        proof {
            assert(crate::net::codec::pow256((k + 1) as nat) == crate::net::codec::pow256(k as nat)
                * 256);
            lemma_pow256_le(k as nat);
            assert(acc * 256 + bytes@[k as int] < crate::net::codec::pow256(k as nat) * 256)
                by (nonlinear_arith)
                requires
                    acc < crate::net::codec::pow256(k as nat),
                    bytes@[k as int] < 256,
            ;
        }
        acc = acc * 256 + bytes[k] as u128;
        k = k + 1;
    }
    acc
}

proof fn lemma_pow256_le(k: nat)
    requires
        k < 16,
    ensures
        crate::net::codec::pow256(k + 1) <= 0x1_0000_0000_0000_0000_0000_0000_0000_0000,
    decreases k,
{
    reveal_with_fuel(crate::net::codec::pow256, 17);
    if k > 0 {
        lemma_pow256_le((k - 1) as nat);
        assert(crate::net::codec::pow256(k + 1) == crate::net::codec::pow256(k) * 256);
    }
}

proof fn lemma_hex_text_index(v: u128, n: nat)
    requires
        n <= 32,
    ensures
        hex_text(v, n).len() == n,
        forall|i: int|
            0 <= i < n ==> #[trigger] hex_text(v, n)[i] == hex_char(
                ((v >> (4 * (n - 1 - i)) as u128) & 0xf) as int,
            ),
    decreases n,
{
    if n > 0 {
        lemma_hex_text_index(v, (n - 1) as nat);
        let t = hex_text(v, n);
        assert forall|i: int| 0 <= i < n implies #[trigger] t[i] == hex_char(
            ((v >> (4 * (n - 1 - i)) as u128) & 0xf) as int,
        ) by {
            if i > 0 {
                assert(t[i] == hex_text(v, (n - 1) as nat)[i - 1]);
                assert(4 * ((n - 1) - 1 - (i - 1)) == 4 * (n - 1 - i));
            }
        }
    }
}

proof fn lemma_hex_concat(v: u128, n: nat, m: nat)
    requires
        n + m <= 32,
    ensures
        hex_text(v >> (4 * m) as u128, n) + hex_text(v, m) == hex_text(v, n + m),
    decreases n,
{
    if n == 0 {
        assert(hex_text(v >> (4 * m) as u128, 0) + hex_text(v, m) =~= hex_text(v, m));
    } else {
        lemma_hex_concat(v, (n - 1) as nat, m);
        let a = (4 * m) as u128;
        let b = (4 * (n - 1)) as u128;
        let c = (4 * (n + m - 1)) as u128;
        assert(((v >> a) >> b) & 0xf == (v >> c) & 0xf) by (bit_vector)
            requires
                c == a + b,
                c < 128,
        ;
        assert(hex_text(v >> a, n) + hex_text(v, m) =~= seq![hex_char((((v >> a) >> b) & 0xf) as int)]
            + (hex_text(v >> a, (n - 1) as nat) + hex_text(v, m)));
    }
}

/// The bytes of a text of ASCII characters.
spec fn ascii_bytes(s: Seq<char>) -> Seq<u8> {
    Seq::new(s.len(), |i: int| s[i] as u8)
}

proof fn lemma_without_dashes_concat(a: Seq<u8>, b: Seq<u8>)
    ensures
        without_dashes(a + b) == without_dashes(a) + without_dashes(b),
    decreases b.len(),
{
    if b.len() == 0 {
        assert(a + b =~= a);
        assert(without_dashes(a) + without_dashes(b) =~= without_dashes(a));
    } else {
        lemma_without_dashes_concat(a, b.drop_last());
        assert((a + b).drop_last() =~= a + b.drop_last());
        assert((a + b).last() == b.last());
        if b.last() == 45 {
        } else {
            assert(without_dashes(a) + without_dashes(b) =~= (without_dashes(a) + without_dashes(
                b.drop_last(),
            )).push(b.last()));
        }
    }
}

proof fn lemma_without_dashes_none(b: Seq<u8>)
    requires
        forall|i: int| 0 <= i < b.len() ==> #[trigger] b[i] != 45,
    ensures
        without_dashes(b) == b,
    decreases b.len(),
{
    if b.len() > 0 {
        lemma_without_dashes_none(b.drop_last());
        assert(b.drop_last().push(b.last()) =~= b);
    }
}

proof fn lemma_hex_char_facts(d: int)
    requires
        0 <= d < 16,
    ensures
        '\0' <= hex_char(d) <= '\u{7f}',
        hex_char(d) as u8 != 45,
        hex_digit_value(hex_char(d) as u8) == Some(d as u8),
{
}

proof fn lemma_hex_digits(v: u128, n: nat)
    requires
        n <= 32,
    ensures
        hex_text(v, n).len() == n,
        vstd::utf8::is_ascii_chars(hex_text(v, n)),
        forall|i: int| 0 <= i < n ==> (#[trigger] ascii_bytes(hex_text(v, n))[i]) != 45,
        forall|i: int|
            0 <= i < n ==> #[trigger] hex_digit_value(ascii_bytes(hex_text(v, n))[i]) == Some(
                ((v >> (4 * (n - 1 - i)) as u128) & 0xf) as u8,
            ),
{
    lemma_hex_text_index(v, n);
    assert forall|i: int| 0 <= i < n implies '\0' <= #[trigger] hex_text(v, n)[i] <= '\u{7f}'
        && (ascii_bytes(hex_text(v, n))[i]) != 45 && hex_digit_value(
        ascii_bytes(hex_text(v, n))[i],
    ) == Some(((v >> (4 * (n - 1 - i)) as u128) & 0xf) as u8) by {
        let sh = (4 * (n - 1 - i)) as u128;
        let d = (v >> sh) & 0xf;
        assert(d < 16) by (bit_vector)
            requires
                d == (v >> sh) & 0xf,
        ;
        lemma_hex_char_facts(d as int);
    }
}

/// A UUID written as text at login (`uuid_to_text`) reads back through `uuid_bits` as
/// the same 128 bits: its UTF-8 bytes are UUID-shaped and decode to the value.
pub proof fn lemma_uuid_text_roundtrip(u: u128)
    ensures
        uuid_shaped(vstd::utf8::encode_utf8(uuid_text(u))),
        be_value(hex_decoded(without_dashes(vstd::utf8::encode_utf8(uuid_text(u))))->0, 0, 16)
            == u,
{
    let h1 = hex_text(u >> 96u128, 8);
    let h2 = hex_text(u >> 80u128, 4);
    let h3 = hex_text(u >> 64u128, 4);
    let h4 = hex_text(u >> 48u128, 4);
    let h5 = hex_text(u, 12);
    let dash = seq!['-'];
    let t = uuid_text(u);
    assert(t == h1 + dash + h2 + dash + h3 + dash + h4 + dash + h5);
    lemma_hex_digits(u >> 96u128, 8);
    lemma_hex_digits(u >> 80u128, 4);
    lemma_hex_digits(u >> 64u128, 4);
    lemma_hex_digits(u >> 48u128, 4);
    lemma_hex_digits(u, 12);
    assert(vstd::utf8::is_ascii_chars(t)) by {
        assert forall|i: int| 0 <= i < t.len() implies '\0' <= #[trigger] t[i] <= '\u{7f}' by {
            if i < 8 {
                assert(t[i] == h1[i]);
            } else if i == 8 || i == 13 || i == 18 || i == 23 {
            } else if i < 13 {
                assert(t[i] == h2[i - 9]);
            } else if i < 18 {
                assert(t[i] == h3[i - 14]);
            } else if i < 23 {
                assert(t[i] == h4[i - 19]);
            } else {
                assert(t[i] == h5[i - 24]);
            }
        }
    }
    vstd::utf8::is_ascii_chars_encode_utf8(t);
    let e = vstd::utf8::encode_utf8(t);
    assert(e =~= ascii_bytes(h1) + ascii_bytes(dash) + ascii_bytes(h2) + ascii_bytes(dash)
        + ascii_bytes(h3) + ascii_bytes(dash) + ascii_bytes(h4) + ascii_bytes(dash) + ascii_bytes(
        h5,
    ));
    // the dashes go, the digits stay
    let d = ascii_bytes(dash);
    assert(d =~= seq![45u8]);
    assert(without_dashes(d) =~= Seq::<u8>::empty()) by {
        assert(d.len() == 1 && d.last() == 45);
        assert(d.drop_last() =~= Seq::<u8>::empty());
        assert(without_dashes(d) == without_dashes(d.drop_last()));
    }
    lemma_without_dashes_none(ascii_bytes(h1));
    lemma_without_dashes_none(ascii_bytes(h2));
    lemma_without_dashes_none(ascii_bytes(h3));
    lemma_without_dashes_none(ascii_bytes(h4));
    lemma_without_dashes_none(ascii_bytes(h5));
    let p1 = ascii_bytes(h1) + d;
    let p2 = p1 + ascii_bytes(h2);
    let p3 = p2 + d;
    let p4 = p3 + ascii_bytes(h3);
    let p5 = p4 + d;
    let p6 = p5 + ascii_bytes(h4);
    let p7 = p6 + d;
    lemma_without_dashes_concat(ascii_bytes(h1), d);
    lemma_without_dashes_concat(p1, ascii_bytes(h2));
    lemma_without_dashes_concat(p2, d);
    lemma_without_dashes_concat(p3, ascii_bytes(h3));
    lemma_without_dashes_concat(p4, d);
    lemma_without_dashes_concat(p5, ascii_bytes(h4));
    lemma_without_dashes_concat(p6, d);
    lemma_without_dashes_concat(p7, ascii_bytes(h5));
    assert(e =~= p7 + ascii_bytes(h5));
    let digits = ascii_bytes(h1) + ascii_bytes(h2) + ascii_bytes(h3) + ascii_bytes(h4)
        + ascii_bytes(h5);
    assert(without_dashes(e) =~= digits);
    // the digit groups join into the 32 digits of `u`
    lemma_hex_concat(u, 4, 12);
    lemma_hex_concat(u, 4, 16);
    lemma_hex_concat(u, 4, 20);
    lemma_hex_concat(u, 8, 24);
    let all = hex_text(u, 32);
    assert(all == h1 + h2 + h3 + h4 + h5) by {
        assert(h4 + h5 == hex_text(u, 16));
        assert(h3 + hex_text(u, 16) == hex_text(u, 20));
        assert(h2 + hex_text(u, 20) == hex_text(u, 24));
        assert(h1 + hex_text(u, 24) == hex_text(u, 32));
        assert(h1 + h2 + h3 + h4 + h5 =~= h1 + (h2 + (h3 + (h4 + h5))));
    }
    assert(digits =~= ascii_bytes(all));
    lemma_hex_digits(u, 32);
    assert(all_hex(digits)) by {
        assert forall|k: int| 0 <= k < digits.len() implies (#[trigger] hex_digit_value(
            digits[k],
        )) is Some by {
            assert(hex_digit_value(ascii_bytes(all)[k]) is Some);
        }
    }
    let bytes = hex_decoded(digits)->0;
    assert(bytes.len() == 16);
    // each pair of digits is one byte of `u`, most significant first
    assert forall|i: int| 0 <= i < 16 implies #[trigger] bytes[i] == ((u >> (8 * (15 - i)) as u128)
        & 0xff) as u8 by {
        let s = (8 * (15 - i)) as u128;
        assert((4 * (32 - 1 - 2 * i)) as u128 == s + 4);
        assert((4 * (32 - 1 - (2 * i + 1))) as u128 == s);
        let hi = (u >> (s + 4)) & 0xf;
        let lo = (u >> s) & 0xf;
        assert(hi < 16 && lo < 16 && (u >> s) & 0xff < 256) by (bit_vector)
            requires
                hi == (u >> (s + 4)) & 0xf,
                lo == (u >> s) & 0xf,
        ;
        assert(hex_digit_value(ascii_bytes(all)[2 * i]) == Some(hi as u8));
        assert(hex_digit_value(ascii_bytes(all)[2 * i + 1]) == Some(lo as u8));
        assert(digits[2 * i] == ascii_bytes(all)[2 * i]);
        assert(digits[2 * i + 1] == ascii_bytes(all)[2 * i + 1]);
        assert(hi * 16 + lo == (u >> s) & 0xff) by (bit_vector)
            requires
                s <= 120,
                hi == (u >> (s + 4)) & 0xf,
                lo == (u >> s) & 0xf,
        ;
    }
    lemma_bytes_value(u, bytes, 16);
    assert(u >> 0u128 == u) by (bit_vector);
}

proof fn lemma_bytes_value(u: u128, bytes: Seq<u8>, k: nat)
    requires
        1 <= k <= 16,
        bytes.len() == 16,
        forall|i: int| 0 <= i < 16 ==> #[trigger] bytes[i] == ((u >> (8 * (15 - i)) as u128) & 0xff) as u8,
    ensures
        be_value(bytes, 0, k) == (u >> (8 * (16 - k)) as u128),
    decreases k,
{
    let s = (8 * (16 - k)) as u128;
    let b = bytes[k - 1];
    assert(b == ((u >> s) & 0xff) as u8);
    assert((u >> s) & 0xff < 256) by (bit_vector);
    assert(b as int == ((u >> s) & 0xff) as int);
    if k == 1 {
        assert(be_value(bytes, 0, 0) == 0);
        assert(((u >> s) & 0xff) == u >> s) by (bit_vector)
            requires
                s == 120,
        ;
    } else {
        lemma_bytes_value(u, bytes, (k - 1) as nat);
        assert((8 * (16 - (k - 1))) as u128 == s + 8);
        assert((u >> (s + 8)) * 256 + ((u >> s) & 0xff) == u >> s) by (bit_vector)
            requires
                s <= 112,
        ;
    }
}

} // verus!
