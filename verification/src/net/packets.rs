use vstd::prelude::*;

use rsa::{Pkcs1v15Encrypt, RsaPrivateKey};

use crate::net::codec::{
    be_value, read_bytes, read_i128_be, read_i16_be, read_i64_be, read_position, read_string,
    read_u16_be, read_u32_be, read_u8, read_var, string_at, unpack_position, varint_at,
    CodecError, read_u64_be,
};
use crate::server::interaction::SlotChange;
use crate::types::items::ItemStack;
use crate::types::player::{movement_from_flags, movement_of, PlayerMovement};

verus! {

/// The start of a frame read from the connection: its length (not checked) and its id,
/// which must be `id`. Gives the position of the frame's body.
pub open spec fn frame_body_at(buf: Seq<u8>, id: u32) -> Result<int, CodecError> {
    match varint_at(buf, 0) {
        Err(e) => Err(e),
        Ok((_len, p1)) => match varint_at(buf, p1) {
            Err(e) => Err(e),
            Ok((got, p2)) => if got != id {
                Err(CodecError::UnexpectedPacketId(got))
            } else {
                Ok(p2)
            },
        },
    }
}

fn read_frame_start(buf: &[u8], id: u32) -> (r: Result<usize, CodecError>)
    ensures
        match r {
            Ok(p) => frame_body_at(buf@, id) == Ok::<int, CodecError>(p as int) && p <= buf@.len(),
            Err(e) => frame_body_at(buf@, id) == Err::<int, CodecError>(e),
        },
{
    let (_len, p1) = match read_var(buf, 0) {
        Ok(v) => v,
        Err(e) => return Err(e),
    };
    let (got, p2) = match read_var(buf, p1) {
        Ok(v) => v,
        Err(e) => return Err(e),
    };
    if got != id {
        return Err(CodecError::UnexpectedPacketId(got));
    }
    Ok(p2)
}

/// The first packet of a connection: the protocol the client speaks, the address and
/// port it connected to, and the state it asks for next (1 status, 2 login).
pub struct HandshakePacket {
    pub protocol_version: i32,
    pub server_address: String,
    pub server_port: u16,
    pub next_state: i32,
}

/// The handshake framed at the start of `buf` (id 0), its fields as plain values.
pub open spec fn handshake_at(buf: Seq<u8>) -> Result<(i32, Seq<char>, u16, i32), CodecError> {
    match frame_body_at(buf, 0) {
        Err(e) => Err(e),
        Ok(p2) => match varint_at(buf, p2) {
            Err(e) => Err(e),
            Ok((protocol, p3)) => match string_at(buf, p3) {
                Err(e) => Err(e),
                Ok((address, p4)) => if p4 + 2 > buf.len() {
                    Err(CodecError::UnexpectedEnd)
                } else {
                    match varint_at(buf, p4 + 2) {
                        Err(e) => Err(e),
                        Ok((next, _p5)) => Ok(
                            (protocol as i32, address, be_value(buf, p4, 2) as u16, next as i32),
                        ),
                    }
                },
            },
        },
    }
}

/// Reads the handshake framed at the start of `buf`.
pub fn read_handshake(buf: &[u8]) -> (r: Result<HandshakePacket, CodecError>)
    ensures
        match r {
            Ok(h) => handshake_at(buf@) == Ok::<(i32, Seq<char>, u16, i32), CodecError>(
                (h.protocol_version, h.server_address@, h.server_port, h.next_state),
            ),
            Err(e) => handshake_at(buf@) == Err::<(i32, Seq<char>, u16, i32), CodecError>(e),
        },
{
    let p2 = match read_frame_start(buf, 0) {
        Ok(v) => v,
        Err(e) => return Err(e),
    };
    let (protocol, p3) = match read_var(buf, p2) {
        Ok(v) => v,
        Err(e) => return Err(e),
    };
    let (address, p4) = match read_string(buf, p3) {
        Ok(v) => v,
        Err(e) => return Err(e),
    };
    let (port, p5) = match read_u16_be(buf, p4) {
        Ok(v) => v,
        Err(e) => return Err(e),
    };
    let (next, _p6) = match read_var(buf, p5) {
        Ok(v) => v,
        Err(e) => return Err(e),
    };
    Ok(
        HandshakePacket {
            protocol_version: protocol as i32,
            server_address: address,
            server_port: port,
            next_state: next as i32,
        },
    )
}

/// The player's name and UUID (in its usual hyphenated hex form) from a login start.
pub struct LoginStartPacket {
    pub name: String,
    pub uuid: String,
}

/// The lowercase hex digit of `d`.
pub open spec fn hex_char(d: int) -> char {
    if d < 10 {
        ('0' as int + d) as char
    } else {
        ('a' as int + d - 10) as char
    }
}

/// The `n` lowest hex digits of `v`, most significant first.
pub open spec fn hex_text(v: u128, n: nat) -> Seq<char>
    decreases n,
{
    if n == 0 {
        Seq::empty()
    } else {
        seq![hex_char(((v >> (4 * (n - 1)) as u128) & 0xf) as int)] + hex_text(v, (n - 1) as nat)
    }
}

/// The UUID whose 128 bits are `u`, written as 8-4-4-4-12 lowercase hex digits.
pub open spec fn uuid_text(u: u128) -> Seq<char> {
    hex_text(u >> 96u128, 8) + seq!['-'] + hex_text(u >> 80u128, 4) + seq!['-'] + hex_text(
        u >> 64u128,
        4,
    ) + seq!['-'] + hex_text(u >> 48u128, 4) + seq!['-'] + hex_text(u, 12)
}

fn hex_digit(d: u128) -> (r: &'static str)
    requires
        d < 16,
    ensures
        r@ == seq![hex_char(d as int)],
{
    if d == 0 {
        proof {
            reveal_strlit("0");
        }
        "0"
    } else if d == 1 {
        proof {
            reveal_strlit("1");
        }
        "1"
    } else if d == 2 {
        proof {
            reveal_strlit("2");
        }
        "2"
    } else if d == 3 {
        proof {
            reveal_strlit("3");
        }
        "3"
    } else if d == 4 {
        proof {
            reveal_strlit("4");
        }
        "4"
    } else if d == 5 {
        proof {
            reveal_strlit("5");
        }
        "5"
    } else if d == 6 {
        proof {
            reveal_strlit("6");
        }
        "6"
    } else if d == 7 {
        proof {
            reveal_strlit("7");
        }
        "7"
    } else if d == 8 {
        proof {
            reveal_strlit("8");
        }
        "8"
    } else if d == 9 {
        proof {
            reveal_strlit("9");
        }
        "9"
    } else if d == 10 {
        proof {
            reveal_strlit("a");
        }
        "a"
    } else if d == 11 {
        proof {
            reveal_strlit("b");
        }
        "b"
    } else if d == 12 {
        proof {
            reveal_strlit("c");
        }
        "c"
    } else if d == 13 {
        proof {
            reveal_strlit("d");
        }
        "d"
    } else if d == 14 {
        proof {
            reveal_strlit("e");
        }
        "e"
    } else {
        proof {
            reveal_strlit("f");
        }
        "f"
    }
}

fn push_hex(s: &mut String, v: u128, n: usize)
    requires
        n <= 32,
    ensures
        final(s)@ == old(s)@ + hex_text(v, n as nat),
{
    let mut k: usize = n;
    while k > 0
        invariant
            k <= n <= 32,
            s@ + hex_text(v, k as nat) == old(s)@ + hex_text(v, n as nat),
        decreases k,
    {
        let d = (v >> (4 * (k - 1)) as u128) & 0xf;
        assert(d < 16) by (bit_vector)
            requires
                d == (v >> (4 * (k - 1)) as u128) & 0xf,
        ;
        let ghost before = s@;
        s.append(hex_digit(d));
        proof {
            assert(hex_text(v, k as nat) == seq![hex_char(d as int)] + hex_text(v, (k - 1) as nat));
            assert(s@ + hex_text(v, (k - 1) as nat) =~= before + hex_text(v, k as nat));
        }
        k = k - 1;
    }
    assert(s@ =~= s@ + hex_text(v, 0));
}

fn push_dash(s: &mut String)
    ensures
        final(s)@ == old(s)@ + seq!['-'],
{
    proof {
        reveal_strlit("-");
    }
    s.append("-");
}

/// Writes a UUID as 8-4-4-4-12 lowercase hex digits.
pub fn uuid_to_text(u: u128) -> (r: String)
    ensures
        r@ == uuid_text(u),
{
    let mut s = String::new();
    push_hex(&mut s, u >> 96u128, 8);
    push_dash(&mut s);
    push_hex(&mut s, u >> 80u128, 4);
    push_dash(&mut s);
    push_hex(&mut s, u >> 64u128, 4);
    push_dash(&mut s);
    push_hex(&mut s, u >> 48u128, 4);
    push_dash(&mut s);
    push_hex(&mut s, u, 12);
    assert(s@ =~= uuid_text(u));
    s
}

/// The login start framed at the start of `buf` (id 0): the name and the UUID's bits.
pub open spec fn login_start_at(buf: Seq<u8>) -> Result<(Seq<char>, u128), CodecError> {
    match frame_body_at(buf, 0) {
        Err(e) => Err(e),
        Ok(p2) => match string_at(buf, p2) {
            Err(e) => Err(e),
            Ok((name, p3)) => if p3 + 16 > buf.len() {
                Err(CodecError::UnexpectedEnd)
            } else {
                Ok((name, be_value(buf, p3, 16) as u128))
            },
        },
    }
}

/// Reads the login start framed at the start of `buf`.
pub fn read_login_start(buf: &[u8]) -> (r: Result<LoginStartPacket, CodecError>)
    ensures
        match r {
            Ok(l) => exists|u: u128|
                login_start_at(buf@) == Ok::<(Seq<char>, u128), CodecError>((l.name@, u))
                    && l.uuid@ == uuid_text(u),
            Err(e) => login_start_at(buf@) == Err::<(Seq<char>, u128), CodecError>(e),
        },
{
    let p2 = match read_frame_start(buf, 0) {
        Ok(v) => v,
        Err(e) => return Err(e),
    };
    let (name, p3) = match read_string(buf, p2) {
        Ok(v) => v,
        Err(e) => return Err(e),
    };
    let (bits, _p4) = match read_i128_be(buf, p3) {
        Ok(v) => v,
        Err(e) => return Err(e),
    };
    let u = bits as u128;
    proof {
        let w = be_value(buf@, p3 as int, 16) as u128;
        assert(((w as i128) as u128) == w) by (bit_vector);
        assert(login_start_at(buf@) == Ok::<(Seq<char>, u128), CodecError>((name@, u)));
    }
    let uuid = uuid_to_text(u);
    Ok(LoginStartPacket { name, uuid })
}

/// The server's RSA private key; nothing is known of what it holds.
#[verifier::external_type_specification]
#[verifier::external_body]
pub struct ExRsaPrivateKey(RsaPrivateKey);

/// Decrypts the shared secret a client sent through rsa's `RsaPrivateKey::decrypt` with
/// PKCS#1 v1.5 padding (`Pkcs1v15Encrypt`), none where that reports an error. The result
/// depends on the key and the bytes alone (the call uses no blinding), but the key is
/// opaque, so nothing is claimed of what comes back.
#[verifier::external_body]
fn decrypt_shared_secret(key: &RsaPrivateKey, encrypted: &[u8]) -> (r: Option<Vec<u8>>) {
    key.decrypt(Pkcs1v15Encrypt, encrypted).ok()
}

/// The secret and token a client sends back, the secret decrypted with the server key.
pub struct EncryptionResponsePacket {
    pub shared_secret: Vec<u8>,
    pub verify_token: Vec<u8>,
}

/// A VarInt-length-prefixed byte string at `pos`, and the position after it.
pub open spec fn byte_string_at(buf: Seq<u8>, pos: int) -> Result<(Seq<u8>, int), CodecError> {
    match varint_at(buf, pos) {
        Err(e) => Err(e),
        Ok((n, p)) => if p + n > buf.len() {
            Err(CodecError::UnexpectedEnd)
        } else {
            Ok((buf.subrange(p, p + n), p + n))
        },
    }
}

fn read_byte_string(buf: &[u8], pos: usize) -> (r: Result<(Vec<u8>, usize), CodecError>)
    requires
        pos <= buf@.len(),
    ensures
        match r {
            Ok((v, p)) => byte_string_at(buf@, pos as int) == Ok::<(Seq<u8>, int), CodecError>(
                (v@, p as int),
            ) && p <= buf@.len(),
            Err(e) => byte_string_at(buf@, pos as int) == Err::<(Seq<u8>, int), CodecError>(e),
        },
{
    let (n, p) = match read_var(buf, pos) {
        Ok(v) => v,
        Err(e) => return Err(e),
    };
    read_bytes(buf, p, n as usize)
}

/// The encryption response framed at the start of `buf` (id 1): the secret as the client
/// encrypted it, and the verify token.
pub open spec fn encryption_response_at(buf: Seq<u8>) -> Result<(Seq<u8>, Seq<u8>), CodecError> {
    match frame_body_at(buf, 1) {
        Err(e) => Err(e),
        Ok(p2) => match byte_string_at(buf, p2) {
            Err(e) => Err(e),
            Ok((secret, p3)) => match byte_string_at(buf, p3) {
                Err(e) => Err(e),
                Ok((token, _p4)) => Ok((secret, token)),
            },
        },
    }
}

/// Reads the encryption response framed at the start of `buf` and decrypts its shared
/// secret with the server's private key `key`: gives the secret in the clear and the
/// verify token as sent. A frame that does not read gives its error; a secret that does
/// not decrypt gives `SecretNotDecrypted`.
pub fn read_encryption_response(buf: &[u8], key: &RsaPrivateKey) -> (r: Result<
    EncryptionResponsePacket,
    CodecError,
>)
    ensures
        match encryption_response_at(buf@) {
            Err(e) => r == Err::<EncryptionResponsePacket, CodecError>(e),
            Ok((_, token)) => match r {
                Ok(p) => p.verify_token@ == token,
                Err(e) => e == CodecError::SecretNotDecrypted,
            },
        },
{
    let p2 = match read_frame_start(buf, 1) {
        Ok(v) => v,
        Err(e) => return Err(e),
    };
    let (secret, p3) = match read_byte_string(buf, p2) {
        Ok(v) => v,
        Err(e) => return Err(e),
    };
    let (token, _p4) = match read_byte_string(buf, p3) {
        Ok(v) => v,
        Err(e) => return Err(e),
    };
    match decrypt_shared_secret(key, secret.as_slice()) {
        Some(shared_secret) => Ok(EncryptionResponsePacket { shared_secret, verify_token: token }),
        None => Err(CodecError::SecretNotDecrypted),
    }
}

/// Reads the login acknowledgement framed at the start of `buf` (id 3).
pub fn read_login_acknowledged(buf: &[u8]) -> (r: Result<(), CodecError>)
    ensures
        match r {
            Ok(_) => frame_body_at(buf@, 3) is Ok,
            Err(e) => frame_body_at(buf@, 3) == Err::<int, CodecError>(e),
        },
{
    if let Err(e) = read_frame_start(buf, 3) {
        return Err(e);
    }
    Ok(())
}

/// A chat message: its text, when it was sent and the salt of its signature.
pub struct Message {
    pub content: String,
    pub timestamp: i64,
    pub salt: i64,
}

/// The chat message body `buf`: text, then timestamp and salt as big-endian `i64`s.
pub open spec fn chat_message_at(buf: Seq<u8>) -> Result<(Seq<char>, i64, i64), CodecError> {
    match string_at(buf, 0) {
        Err(e) => Err(e),
        Ok((text, p)) => if p + 16 > buf.len() {
            Err(CodecError::UnexpectedEnd)
        } else {
            Ok(
                (
                    text,
                    (be_value(buf, p, 8) as u64) as i64,
                    (be_value(buf, p + 8, 8) as u64) as i64,
                ),
            )
        },
    }
}

/// Reads a chat message body.
pub fn read_chat_message(buf: &[u8]) -> (r: Result<Message, CodecError>)
    ensures
        match r {
            Ok(m) => chat_message_at(buf@) == Ok::<(Seq<char>, i64, i64), CodecError>(
                (m.content@, m.timestamp, m.salt),
            ),
            Err(e) => chat_message_at(buf@) == Err::<(Seq<char>, i64, i64), CodecError>(e),
        },
{
    let (content, p) = match read_string(buf, 0) {
        Ok(v) => v,
        Err(e) => return Err(e),
    };
    let (timestamp, p2) = match read_i64_be(buf, p) {
        Ok(v) => v,
        Err(e) => return Err(e),
    };
    let (salt, _p3) = match read_i64_be(buf, p2) {
        Ok(v) => v,
        Err(e) => return Err(e),
    };
    Ok(Message { content, timestamp, salt })
}

/// The VarInt at `pos`, without its end.
pub open spec fn var_value_at(buf: Seq<u8>, pos: int) -> Result<u32, CodecError> {
    match varint_at(buf, pos) {
        Ok((v, _)) => Ok(v),
        Err(e) => Err(e),
    }
}

/// Reads a chat command body: the command's text, without its slash.
pub fn read_chat_command(buf: &[u8]) -> (r: Result<String, CodecError>)
    ensures
        match r {
            Ok(s) => string_at(buf@, 0) matches Ok((t, _)) && t == s@,
            Err(e) => string_at(buf@, 0) == Err::<(Seq<char>, int), CodecError>(e),
        },
{
    let (s, _p) = match read_string(buf, 0) {
        Ok(v) => v,
        Err(e) => return Err(e),
    };
    Ok(s)
}

/// The VarInt body `buf` mapped by `f`, or the error that reading it gives.
pub open spec fn var_mapped<T>(buf: Seq<u8>, f: spec_fn(u32) -> T) -> Result<T, CodecError> {
    match var_value_at(buf, 0) {
        Ok(v) => Ok(f(v)),
        Err(e) => Err(e),
    }
}

/// Reads a client-status body: the action, where 0 asks to respawn.
pub fn read_client_status(buf: &[u8]) -> (r: Result<u32, CodecError>)
    ensures
        r == var_value_at(buf@, 0),
{
    let (v, _p) = match read_var(buf, 0) {
        Ok(v) => v,
        Err(e) => return Err(e),
    };
    Ok(v)
}

/// Reads a confirm-teleportation body: whether it confirms teleport 1, the one that
/// ends a player's initial sync.
pub fn read_confirm_teleportation(buf: &[u8]) -> (r: Result<bool, CodecError>)
    ensures
        r == var_mapped(buf@, |id: u32| id == 1),
{
    let (id, _p) = match read_var(buf, 0) {
        Ok(v) => v,
        Err(e) => return Err(e),
    };
    Ok(id == 1)
}

/// Reads a swing-arm body: whether the main hand (0) swings rather than the off hand.
pub fn read_swing_arm(buf: &[u8]) -> (r: Result<bool, CodecError>)
    ensures
        r == var_mapped(buf@, |hand: u32| hand == 0),
{
    let (hand, _p) = match read_var(buf, 0) {
        Ok(v) => v,
        Err(e) => return Err(e),
    };
    Ok(hand == 0)
}

/// Reads a container-close body: the id of the window closed.
pub fn read_container_close(buf: &[u8]) -> (r: Result<u32, CodecError>)
    ensures
        r == var_value_at(buf@, 0),
{
    let (v, _p) = match read_var(buf, 0) {
        Ok(v) => v,
        Err(e) => return Err(e),
    };
    Ok(v)
}

/// Reads a player-abilities body: whether the player flies (bit 1 of its flags).
pub fn read_player_abilities(buf: &[u8]) -> (r: Result<bool, CodecError>)
    ensures
        buf@.len() > 0 ==> r == Ok::<bool, CodecError>(buf@[0] & 0x02 != 0),
        buf@.len() == 0 ==> r == Err::<bool, CodecError>(CodecError::UnexpectedEnd),
{
    let (flags, _p) = match read_u8(buf, 0) {
        Ok(v) => v,
        Err(e) => return Err(e),
    };
    Ok(flags & 0x02 != 0)
}

/// Reads a player-input body: the movement keys held down.
pub fn read_player_input(buf: &[u8]) -> (r: Result<PlayerMovement, CodecError>)
    ensures
        buf@.len() > 0 ==> r == Ok::<PlayerMovement, CodecError>(movement_of(buf@[0])),
        buf@.len() == 0 ==> r == Err::<PlayerMovement, CodecError>(CodecError::UnexpectedEnd),
{
    let (flags, _p) = match read_u8(buf, 0) {
        Ok(v) => v,
        Err(e) => return Err(e),
    };
    Ok(movement_from_flags(flags))
}

/// The bits of the three big-endian doubles at `pos`.
pub open spec fn doubles_at(buf: Seq<u8>, pos: int) -> (u64, u64, u64) {
    (
        be_value(buf, pos, 8) as u64,
        be_value(buf, pos + 8, 8) as u64,
        be_value(buf, pos + 16, 8) as u64,
    )
}

/// Reads the three doubles at `pos`, as bits.
fn read_doubles(buf: &[u8], pos: usize) -> (r: Result<((u64, u64, u64), usize), CodecError>)
    requires
        pos <= buf@.len(),
    ensures
        pos + 24 <= buf@.len() ==> r == Ok::<((u64, u64, u64), usize), CodecError>(
            (doubles_at(buf@, pos as int), (pos + 24) as usize),
        ),
        pos + 24 > buf@.len() ==> r == Err::<((u64, u64, u64), usize), CodecError>(
            CodecError::UnexpectedEnd,
        ),
{
    let (x, p1) = read_u64_be(buf, pos)?;
    let (y, p2) = read_u64_be(buf, p1)?;
    let (z, p3) = read_u64_be(buf, p2)?;
    Ok(((x, y, z), p3))
}

/// Reads a set-player-position body: the position (the bits of three doubles) and
/// whether the player stands on the ground (bit 0 of the flags that follow).
pub fn read_set_player_position(buf: &[u8]) -> (r: Result<((u64, u64, u64), bool), CodecError>)
    ensures
        buf@.len() >= 25 ==> r == Ok::<((u64, u64, u64), bool), CodecError>(
            (doubles_at(buf@, 0), buf@[24] & 0x01 != 0),
        ),
        buf@.len() < 25 ==> r == Err::<((u64, u64, u64), bool), CodecError>(
            CodecError::UnexpectedEnd,
        ),
{
    let (position, p) = match read_doubles(buf, 0) {
        Ok(v) => v,
        Err(e) => return Err(e),
    };
    let (flags, _p2) = match read_u8(buf, p) {
        Ok(v) => v,
        Err(e) => return Err(e),
    };
    Ok((position, flags & 0x01 != 0))
}

/// Reads a set-player-rotation body: the yaw and the pitch, the bits of two floats.
pub fn read_set_player_rotation(buf: &[u8]) -> (r: Result<(u32, u32), CodecError>)
    ensures
        buf@.len() >= 8 ==> r == Ok::<(u32, u32), CodecError>(
            (be_value(buf@, 0, 4) as u32, be_value(buf@, 4, 4) as u32),
        ),
        buf@.len() < 8 ==> r == Err::<(u32, u32), CodecError>(CodecError::UnexpectedEnd),
{
    let (yaw, p) = match read_u32_be(buf, 0) {
        Ok(v) => v,
        Err(e) => return Err(e),
    };
    let (pitch, _p2) = match read_u32_be(buf, p) {
        Ok(v) => v,
        Err(e) => return Err(e),
    };
    Ok((yaw, pitch))
}

/// Reads a set-player-position-and-rotation body: the position, the yaw and pitch, and
/// whether the player stands on the ground.
pub fn read_set_player_position_and_rotation(buf: &[u8]) -> (r: Result<
    ((u64, u64, u64), (u32, u32), bool),
    CodecError,
>)
    ensures
        buf@.len() >= 33 ==> r == Ok::<((u64, u64, u64), (u32, u32), bool), CodecError>(
            (
                doubles_at(buf@, 0),
                (be_value(buf@, 24, 4) as u32, be_value(buf@, 28, 4) as u32),
                buf@[32] & 0x01 != 0,
            ),
        ),
        buf@.len() < 33 ==> r == Err::<((u64, u64, u64), (u32, u32), bool), CodecError>(
            CodecError::UnexpectedEnd,
        ),
{
    let (position, p1) = match read_doubles(buf, 0) {
        Ok(v) => v,
        Err(e) => return Err(e),
    };
    let (yaw, p2) = match read_u32_be(buf, p1) {
        Ok(v) => v,
        Err(e) => return Err(e),
    };
    let (pitch, p3) = match read_u32_be(buf, p2) {
        Ok(v) => v,
        Err(e) => return Err(e),
    };
    let (flags, _p4) = match read_u8(buf, p3) {
        Ok(v) => v,
        Err(e) => return Err(e),
    };
    Ok((position, (yaw, pitch), flags & 0x01 != 0))
}

/// Reads the body of a set-carried-item packet: the hotbar slot, as sent.
pub fn read_set_carried_item(buf: &[u8]) -> (r: Result<i16, CodecError>)
    ensures
        buf@.len() >= 2 ==> r == Ok::<i16, CodecError>((be_value(buf@, 0, 2) as u16) as i16),
        buf@.len() < 2 ==> r == Err::<i16, CodecError>(CodecError::UnexpectedEnd),
{
    let (v, _p) = match read_i16_be(buf, 0) {
        Ok(v) => v,
        Err(e) => return Err(e),
    };
    Ok(v)
}

/// The use-item body `buf`: the hand and the sequence number.
pub open spec fn use_item_at(buf: Seq<u8>) -> Result<(u32, u32), CodecError> {
    match varint_at(buf, 0) {
        Err(e) => Err(e),
        Ok((hand, p)) => match varint_at(buf, p) {
            Err(e) => Err(e),
            Ok((sequence, _)) => Ok((hand, sequence)),
        },
    }
}

/// Reads the body of a use-item packet: the hand and the sequence number.
pub fn read_use_item(buf: &[u8]) -> (r: Result<(u32, u32), CodecError>)
    ensures
        r == use_item_at(buf@),
{
    let (hand, p) = match read_var(buf, 0) {
        Ok(v) => v,
        Err(e) => return Err(e),
    };
    let (sequence, _p2) = match read_var(buf, p) {
        Ok(v) => v,
        Err(e) => return Err(e),
    };
    Ok((hand, sequence))
}

/// A click on a block face: the hand, the clicked block, the face, where on the face the
/// cursor was (the bits of three floats), and the client's sequence number.
#[derive(Clone, Copy, Debug)]
pub struct UseItemOnPacket {
    pub hand: u32,
    pub position: (i32, i32, i32),
    pub face: u8,
    pub cursor: (u32, u32, u32),
    pub inside_block: u8,
    pub world_border_hit: u8,
    pub sequence: u32,
}

/// The use-item-on body `buf`.
pub open spec fn use_item_on_at(buf: Seq<u8>) -> Result<UseItemOnPacket, CodecError> {
    match varint_at(buf, 0) {
        Err(e) => Err(e),
        Ok((hand, p1)) => if p1 + 23 > buf.len() {
            Err(CodecError::UnexpectedEnd)
        } else {
            match varint_at(buf, p1 + 23) {
                Err(e) => Err(e),
                Ok((sequence, _)) => Ok(
                    UseItemOnPacket {
                        hand,
                        position: unpack_position((be_value(buf, p1, 8) as u64) as i64),
                        face: buf[p1 + 8],
                        cursor: (
                            be_value(buf, p1 + 9, 4) as u32,
                            be_value(buf, p1 + 13, 4) as u32,
                            be_value(buf, p1 + 17, 4) as u32,
                        ),
                        inside_block: buf[p1 + 21],
                        world_border_hit: buf[p1 + 22],
                        sequence,
                    },
                ),
            }
        },
    }
}

/// Reads a use-item-on body.
pub fn read_use_item_on(buf: &[u8]) -> (r: Result<UseItemOnPacket, CodecError>)
    ensures
        r == use_item_on_at(buf@),
{
    let (hand, p1) = match read_var(buf, 0) {
        Ok(v) => v,
        Err(e) => return Err(e),
    };
    let (position, p2) = match read_position(buf, p1) {
        Ok(v) => v,
        Err(e) => return Err(e),
    };
    let (face, p3) = match read_u8(buf, p2) {
        Ok(v) => v,
        Err(e) => return Err(e),
    };
    let (cx, p4) = match read_u32_be(buf, p3) {
        Ok(v) => v,
        Err(e) => return Err(e),
    };
    let (cy, p5) = match read_u32_be(buf, p4) {
        Ok(v) => v,
        Err(e) => return Err(e),
    };
    let (cz, p6) = match read_u32_be(buf, p5) {
        Ok(v) => v,
        Err(e) => return Err(e),
    };
    let (inside_block, p7) = match read_u8(buf, p6) {
        Ok(v) => v,
        Err(e) => return Err(e),
    };
    let (world_border_hit, p8) = match read_u8(buf, p7) {
        Ok(v) => v,
        Err(e) => return Err(e),
    };
    let (sequence, _p9) = match read_var(buf, p8) {
        Ok(v) => v,
        Err(e) => return Err(e),
    };
    Ok(
        UseItemOnPacket {
            hand,
            position,
            face,
            cursor: (cx, cy, cz),
            inside_block,
            world_border_hit,
            sequence,
        },
    )
}

/// What a player does to a block or to the item it holds.
#[derive(Clone, Copy, Debug, PartialEq, Eq, Structural)]
pub enum ActionStatus {
    StartedDigging,
    FinishedDigging,
    DropItemStack,
    DropItem,
}

/// The action numbered `status` on the wire, if it is one the server acts on.
pub open spec fn action_of(status: u32) -> Option<ActionStatus> {
    if status == 0 {
        Some(ActionStatus::StartedDigging)
    } else if status == 2 {
        Some(ActionStatus::FinishedDigging)
    } else if status == 3 {
        Some(ActionStatus::DropItemStack)
    } else if status == 4 {
        Some(ActionStatus::DropItem)
    } else {
        None
    }
}

/// The action numbered `status` on the wire (0 started digging, 2 finished digging,
/// 3 drop the held stack, 4 drop one held item), if it is one the server acts on.
pub fn action_status(status: u32) -> (r: Option<ActionStatus>)
    ensures
        r == action_of(status),
{
    if status == 0 {
        Some(ActionStatus::StartedDigging)
    } else if status == 2 {
        Some(ActionStatus::FinishedDigging)
    } else if status == 3 {
        Some(ActionStatus::DropItemStack)
    } else if status == 4 {
        Some(ActionStatus::DropItem)
    } else {
        None
    }
}

/// A player-action body: the action, the block, the face and the sequence number.
#[derive(Clone, Copy, Debug)]
pub struct PlayerActionPacket {
    pub status: u32,
    pub position: (i32, i32, i32),
    pub face: u8,
    pub sequence: u32,
}

/// The player-action body `buf`.
pub open spec fn player_action_at(buf: Seq<u8>) -> Result<PlayerActionPacket, CodecError> {
    match varint_at(buf, 0) {
        Err(e) => Err(e),
        Ok((status, p1)) => if p1 + 9 > buf.len() {
            Err(CodecError::UnexpectedEnd)
        } else {
            match varint_at(buf, p1 + 9) {
                Err(e) => Err(e),
                Ok((sequence, _)) => Ok(
                    PlayerActionPacket {
                        status,
                        position: unpack_position((be_value(buf, p1, 8) as u64) as i64),
                        face: buf[p1 + 8],
                        sequence,
                    },
                ),
            }
        },
    }
}

/// Reads a player-action body.
pub fn read_player_action(buf: &[u8]) -> (r: Result<PlayerActionPacket, CodecError>)
    ensures
        r == player_action_at(buf@),
{
    let (status, p1) = match read_var(buf, 0) {
        Ok(v) => v,
        Err(e) => return Err(e),
    };
    let (position, p2) = match read_position(buf, p1) {
        Ok(v) => v,
        Err(e) => return Err(e),
    };
    let (face, p3) = match read_u8(buf, p2) {
        Ok(v) => v,
        Err(e) => return Err(e),
    };
    let (sequence, _p4) = match read_var(buf, p3) {
        Ok(v) => v,
        Err(e) => return Err(e),
    };
    Ok(PlayerActionPacket { status, position, face, sequence })
}

/// Reads the body of a pick-item-from-block packet: the block and whether the client
/// asks for its data too.
pub fn read_pick_item_from_block(buf: &[u8]) -> (r: Result<((i32, i32, i32), bool), CodecError>)
    ensures
        buf@.len() >= 9 ==> r == Ok::<((i32, i32, i32), bool), CodecError>(
            (unpack_position((be_value(buf@, 0, 8) as u64) as i64), buf@[8] != 0),
        ),
        buf@.len() < 9 ==> r == Err::<((i32, i32, i32), bool), CodecError>(
            CodecError::UnexpectedEnd,
        ),
{
    let (position, p) = match read_position(buf, 0) {
        Ok(v) => v,
        Err(e) => return Err(e),
    };
    let (data, _p2) = match read_u8(buf, p) {
        Ok(v) => v,
        Err(e) => return Err(e),
    };
    Ok((position, data != 0))
}

/// The end of `n` VarInts in a row from `pos`.
pub open spec fn varints_end(buf: Seq<u8>, pos: int, n: nat) -> Result<int, CodecError>
    decreases n,
{
    if n == 0 {
        Ok(pos)
    } else {
        match varint_at(buf, pos) {
            Err(e) => Err(e),
            Ok((_, q)) => varints_end(buf, q, (n - 1) as nat),
        }
    }
}

/// Skips `n` VarInts from `pos`.
fn skip_varints(buf: &[u8], pos: usize, n: u32) -> (r: Result<usize, CodecError>)
    requires
        pos <= buf@.len(),
    ensures
        match r {
            Ok(p) => varints_end(buf@, pos as int, n as nat) == Ok::<int, CodecError>(p as int)
                && p <= buf@.len(),
            Err(e) => varints_end(buf@, pos as int, n as nat) == Err::<int, CodecError>(e),
        },
{
    let mut p = pos;
    let mut i: u32 = 0;
    while i < n
        invariant
            i <= n,
            p <= buf@.len(),
            varints_end(buf@, pos as int, n as nat) == varints_end(
                buf@,
                p as int,
                (n - i) as nat,
            ),
        decreases n - i,
    {
        let (_v, q) = match read_var(buf, p) {
            Ok(v) => v,
            Err(e) => return Err(e),
        };
        p = q;
        i = i + 1;
    }
    Ok(p)
}

/// The end of `n` hashed components in a row from `pos`: each a VarInt type and a
/// 4-byte hash.
pub open spec fn hashed_adds_end(buf: Seq<u8>, pos: int, n: nat) -> Result<int, CodecError>
    decreases n,
{
    if n == 0 {
        Ok(pos)
    } else {
        match varint_at(buf, pos) {
            Err(e) => Err(e),
            Ok((_, q)) => if q + 4 > buf.len() {
                Err(CodecError::UnexpectedEnd)
            } else {
                hashed_adds_end(buf, q + 4, (n - 1) as nat)
            },
        }
    }
}

/// Skips `n` hashed components from `pos`.
fn skip_hashed_adds(buf: &[u8], pos: usize, n: u32) -> (r: Result<usize, CodecError>)
    requires
        pos <= buf@.len(),
    ensures
        match r {
            Ok(p) => hashed_adds_end(buf@, pos as int, n as nat) == Ok::<int, CodecError>(p as int)
                && p <= buf@.len(),
            Err(e) => hashed_adds_end(buf@, pos as int, n as nat) == Err::<int, CodecError>(e),
        },
{
    let mut p = pos;
    let mut i: u32 = 0;
    while i < n
        invariant
            i <= n,
            p <= buf@.len(),
            hashed_adds_end(buf@, pos as int, n as nat) == hashed_adds_end(
                buf@,
                p as int,
                (n - i) as nat,
            ),
        decreases n - i,
    {
        let (_v, q) = match read_var(buf, p) {
            Ok(v) => v,
            Err(e) => return Err(e),
        };
        if buf.len() - q < 4 {
            return Err(CodecError::UnexpectedEnd);
        }
        p = q + 4;
        i = i + 1;
    }
    Ok(p)
}

/// The item a slot holds: `count` items of kind `id`, the count kept to its low byte.
pub open spec fn slot_item(id: u32, count: u32) -> ItemStack {
    ItemStack { item_id: id as i32, count: count as u8 }
}

/// The full slot at `pos` and its end: a VarInt count, then, where it is not 0, the
/// item's id and the numbers of components added and removed, then the removed
/// components' types. A slot that adds components cannot be read.
pub open spec fn slot_at(buf: Seq<u8>, pos: int) -> Result<(Option<ItemStack>, int), CodecError> {
    match varint_at(buf, pos) {
        Err(e) => Err(e),
        Ok((count, p1)) => if count == 0 {
            Ok((None, p1))
        } else {
            match varint_at(buf, p1) {
                Err(e) => Err(e),
                Ok((id, p2)) => match varint_at(buf, p2) {
                    Err(e) => Err(e),
                    Ok((adds, p3)) => match varint_at(buf, p3) {
                        Err(e) => Err(e),
                        Ok((removes, p4)) => if adds != 0 {
                            Err(CodecError::UnreadableComponents)
                        } else {
                            match varints_end(buf, p4, removes as nat) {
                                Err(e) => Err(e),
                                Ok(p5) => Ok((Some(slot_item(id, count)), p5)),
                            }
                        },
                    },
                },
            }
        },
    }
}

/// Reads the full slot at `pos`.
pub fn read_slot(buf: &[u8], pos: usize) -> (r: Result<(Option<ItemStack>, usize), CodecError>)
    requires
        pos <= buf@.len(),
    ensures
        match r {
            Ok((s, p)) => slot_at(buf@, pos as int) == Ok::<(Option<ItemStack>, int), CodecError>(
                (s, p as int),
            ) && p <= buf@.len(),
            Err(e) => slot_at(buf@, pos as int) == Err::<(Option<ItemStack>, int), CodecError>(e),
        },
{
    let (count, p1) = read_var(buf, pos)?;
    if count == 0 {
        return Ok((None, p1));
    }
    let (id, p2) = read_var(buf, p1)?;
    let (adds, p3) = read_var(buf, p2)?;
    let (removes, p4) = read_var(buf, p3)?;
    if adds != 0 {
        return Err(CodecError::UnreadableComponents);
    }
    let p5 = skip_varints(buf, p4, removes)?;
    Ok((Some(ItemStack { item_id: id as i32, count: count as u8 }), p5))
}

/// The hashed slot at `pos` and its end: a flag for whether it holds an item; if so
/// the item's id and count, the added components (type and hash) and the removed
/// components' types, each list after its length.
pub open spec fn hashed_slot_at(buf: Seq<u8>, pos: int) -> Result<(Option<ItemStack>, int), CodecError> {
    if pos >= buf.len() {
        Err(CodecError::UnexpectedEnd)
    } else if buf[pos] == 0 {
        Ok((None, pos + 1))
    } else {
        match varint_at(buf, pos + 1) {
            Err(e) => Err(e),
            Ok((id, p1)) => match varint_at(buf, p1) {
                Err(e) => Err(e),
                Ok((count, p2)) => match varint_at(buf, p2) {
                    Err(e) => Err(e),
                    Ok((adds, p3)) => match hashed_adds_end(buf, p3, adds as nat) {
                        Err(e) => Err(e),
                        Ok(p4) => match varint_at(buf, p4) {
                            Err(e) => Err(e),
                            Ok((removes, p5)) => match varints_end(buf, p5, removes as nat) {
                                Err(e) => Err(e),
                                Ok(p6) => Ok((Some(slot_item(id, count)), p6)),
                            },
                        },
                    },
                },
            },
        }
    }
}

/// Reads the hashed slot at `pos`.
pub fn read_hashed_slot(buf: &[u8], pos: usize) -> (r: Result<(Option<ItemStack>, usize), CodecError>)
    requires
        pos <= buf@.len(),
    ensures
        match r {
            Ok((s, p)) => hashed_slot_at(buf@, pos as int) == Ok::<(Option<ItemStack>, int), CodecError>(
                (s, p as int),
            ) && p <= buf@.len(),
            Err(e) => hashed_slot_at(buf@, pos as int) == Err::<(Option<ItemStack>, int), CodecError>(
                e,
            ),
        },
{
    let (present, p0) = read_u8(buf, pos)?;
    if present == 0 {
        return Ok((None, p0));
    }
    let (id, p1) = read_var(buf, p0)?;
    let (count, p2) = read_var(buf, p1)?;
    let (adds, p3) = read_var(buf, p2)?;
    let p4 = skip_hashed_adds(buf, p3, adds)?;
    let (removes, p5) = read_var(buf, p4)?;
    let p6 = skip_varints(buf, p5, removes)?;
    Ok((Some(ItemStack { item_id: id as i32, count: count as u8 }), p6))
}

/// The set-creative-mode-slot body `buf`: the slot (2 bytes, -1 drops the item), then
/// the item as a full slot.
pub open spec fn creative_slot_body(buf: Seq<u8>) -> Result<(i16, Option<ItemStack>), CodecError> {
    if buf.len() < 2 {
        Err(CodecError::UnexpectedEnd)
    } else {
        match slot_at(buf, 2) {
            Ok((item, _)) => Ok(((be_value(buf, 0, 2) as u16) as i16, item)),
            Err(e) => Err(e),
        }
    }
}

/// Reads a set-creative-mode-slot body: the slot (-1 drops the item) and the item.
pub fn read_set_creative_mode_slot(buf: &[u8]) -> (r: Result<(i16, Option<ItemStack>), CodecError>)
    ensures
        r == creative_slot_body(buf@),
{
    let (slot, p) = match read_i16_be(buf, 0) {
        Ok(v) => v,
        Err(e) => return Err(e),
    };
    let (item, _p2) = match read_slot(buf, p) {
        Ok(v) => v,
        Err(e) => return Err(e),
    };
    Ok((slot, item))
}

/// The changed slot at `pos` of a container click: its index and its new content.
pub open spec fn slot_change_at(buf: Seq<u8>, pos: int) -> Result<(SlotChange, int), CodecError> {
    if pos + 2 > buf.len() {
        Err(CodecError::UnexpectedEnd)
    } else {
        match hashed_slot_at(buf, pos + 2) {
            Err(e) => Err(e),
            Ok((item, p)) => Ok((((be_value(buf, pos, 2) as u16) as i16, item), p)),
        }
    }
}

/// The `n` changed slots from `pos`, in order, and their end.
pub open spec fn slot_changes_at(buf: Seq<u8>, pos: int, n: nat) -> Result<
    (Seq<SlotChange>, int),
    CodecError,
>
    decreases n,
{
    if n == 0 {
        Ok((Seq::empty(), pos))
    } else {
        match slot_change_at(buf, pos) {
            Err(e) => Err(e),
            Ok((c, q)) => with_prefix(seq![c], slot_changes_at(buf, q, (n - 1) as nat)),
        }
    }
}

/// `r` with `a` put in front of the changes it holds.
pub open spec fn with_prefix(a: Seq<SlotChange>, r: Result<(Seq<SlotChange>, int), CodecError>) -> Result<
    (Seq<SlotChange>, int),
    CodecError,
> {
    match r {
        Ok((s, p)) => Ok((a + s, p)),
        Err(e) => Err(e),
    }
}

proof fn lemma_prefix_push(a: Seq<SlotChange>, c: SlotChange, r: Result<(Seq<SlotChange>, int), CodecError>)
    ensures
        with_prefix(a, with_prefix(seq![c], r)) == with_prefix(a.push(c), r),
{
    if let Ok((s, p)) = r {
        assert(a + (seq![c] + s) =~= a.push(c) + s);
    }
}

/// A click in a container window: the window, the slots it changed, in order, and
/// the item left on the cursor.
pub struct ContainerClick {
    pub window_id: u32,
    pub changes: Vec<SlotChange>,
    pub carried: Option<ItemStack>,
}

/// The container-click body `buf`: the window id, the state id, the clicked slot
/// (2 bytes), the button (1 byte) and the mode, then the changed slots after their
/// count, then the carried item.
pub open spec fn container_click_at(buf: Seq<u8>) -> Result<
    (u32, Seq<SlotChange>, Option<ItemStack>),
    CodecError,
> {
    match varint_at(buf, 0) {
        Err(e) => Err(e),
        Ok((window_id, p1)) => match varint_at(buf, p1) {
            Err(e) => Err(e),
            Ok((_, p2)) => if p2 + 3 > buf.len() {
                Err(CodecError::UnexpectedEnd)
            } else {
                match varint_at(buf, p2 + 3) {
                    Err(e) => Err(e),
                    Ok((_, p3)) => match varint_at(buf, p3) {
                        Err(e) => Err(e),
                        Ok((n, p4)) => match slot_changes_at(buf, p4, n as nat) {
                            Err(e) => Err(e),
                            Ok((changes, p5)) => match hashed_slot_at(buf, p5) {
                                Err(e) => Err(e),
                                Ok((carried, _)) => Ok((window_id, changes, carried)),
                            },
                        },
                    },
                }
            },
        },
    }
}

/// Reads the changed slots of a container click.
fn read_slot_changes(buf: &[u8], pos: usize, n: u32) -> (r: Result<(Vec<SlotChange>, usize), CodecError>)
    requires
        pos <= buf@.len(),
    ensures
        match r {
            Ok((v, p)) => slot_changes_at(buf@, pos as int, n as nat) == Ok::<
                (Seq<SlotChange>, int),
                CodecError,
            >((v@, p as int)) && p <= buf@.len(),
            Err(e) => slot_changes_at(buf@, pos as int, n as nat) == Err::<
                (Seq<SlotChange>, int),
                CodecError,
            >(e),
        },
{
    let mut changes: Vec<SlotChange> = Vec::new();
    let mut p = pos;
    let mut i: u32 = 0;
    while i < n
        invariant
            i <= n,
            p <= buf@.len(),
            slot_changes_at(buf@, pos as int, n as nat) == with_prefix(
                changes@,
                slot_changes_at(buf@, p as int, (n - i) as nat),
            ),
        decreases n - i,
    {
        let (slot, q) = match read_i16_be(buf, p) {
            Ok(v) => v,
            Err(e) => return Err(e),
        };
        let (item, q2) = match read_hashed_slot(buf, q) {
            Ok(v) => v,
            Err(e) => return Err(e),
        };
        proof {
            lemma_prefix_push(
                changes@,
                (slot, item),
                slot_changes_at(buf@, q2 as int, (n - i - 1) as nat),
            );
        }
        changes.push((slot, item));
        p = q2;
        i = i + 1;
    }
    proof {
        assert(changes@ + Seq::<SlotChange>::empty() =~= changes@);
    }
    Ok((changes, p))
}

/// Reads a container-click body.
pub fn read_container_click(buf: &[u8]) -> (r: Result<ContainerClick, CodecError>)
    ensures
        match r {
            Ok(c) => container_click_at(buf@) == Ok::<
                (u32, Seq<SlotChange>, Option<ItemStack>),
                CodecError,
            >((c.window_id, c.changes@, c.carried)),
            Err(e) => container_click_at(buf@) == Err::<
                (u32, Seq<SlotChange>, Option<ItemStack>),
                CodecError,
            >(e),
        },
{
    let (window_id, p1) = match read_var(buf, 0) {
        Ok(v) => v,
        Err(e) => return Err(e),
    };
    let (_state_id, p2) = match read_var(buf, p1) {
        Ok(v) => v,
        Err(e) => return Err(e),
    };
    if buf.len() - p2 < 3 {
        return Err(CodecError::UnexpectedEnd);
    }
    let (_mode, p3) = match read_var(buf, p2 + 3) {
        Ok(v) => v,
        Err(e) => return Err(e),
    };
    let (n, p4) = match read_var(buf, p3) {
        Ok(v) => v,
        Err(e) => return Err(e),
    };
    let (changes, p5) = match read_slot_changes(buf, p4, n) {
        Ok(v) => v,
        Err(e) => return Err(e),
    };
    let (carried, _p6) = match read_hashed_slot(buf, p5) {
        Ok(v) => v,
        Err(e) => return Err(e),
    };
    Ok(ContainerClick { window_id, changes, carried })
}

} // verus!
