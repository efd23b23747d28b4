use mist::net::codec::{
    read_i128_be, read_i16_be, read_i64_be, read_position, read_string, read_u16_be, read_u32_be,
    read_u8, read_var, write_var, CodecError,
};
use mist::types::items::ItemStack;
use mist::net::packets::{
    read_client_status, read_confirm_teleportation, read_container_click, read_container_close,
    read_hashed_slot, read_player_abilities, read_player_input, read_set_creative_mode_slot,
    read_set_player_position, read_set_player_position_and_rotation, read_set_player_rotation,
    read_slot, read_swing_arm,
    action_status, read_chat_command, read_chat_message, read_encryption_response, 
    read_handshake, read_login_acknowledged, read_login_start, read_pick_item_from_block,
    read_player_action, read_set_carried_item, read_use_item, read_use_item_on,
    uuid_to_text, ActionStatus,
};

#[test]
fn varint_small_and_large_values() {
    let mut out = Vec::new();
    write_var(&mut out, 0);
    assert_eq!(out, vec![0x00]);
    let mut out = Vec::new();
    write_var(&mut out, 300);
    assert_eq!(out, vec![0xac, 0x02]);
    let mut out = Vec::new();
    write_var(&mut out, -1);
    assert_eq!(out, vec![0xff, 0xff, 0xff, 0xff, 0x0f]);
    assert_eq!(read_var(&[0xac, 0x02, 0x99], 0), Ok((300, 2)));
    assert_eq!(read_var(&[0xff, 0xff, 0xff, 0xff, 0x0f], 0), Ok((u32::MAX, 5)));
}

#[test]
fn varint_roundtrip_on_concrete_values() {
    for v in [0i32, 1, 127, 128, 255, 25565, 2097151, i32::MAX, i32::MIN, -1, -300] {
        let mut out = Vec::new();
        write_var(&mut out, v);
        out.push(0x42);
        let (back, end) = read_var(&out, 0).unwrap();
        assert_eq!(back as i32, v);
        assert_eq!(end, out.len() - 1);
    }
}

#[test]
fn varint_errors() {
    assert_eq!(read_var(&[0x80, 0x80], 0), Err(CodecError::UnexpectedEnd));
    assert_eq!(read_var(&[], 0), Err(CodecError::UnexpectedEnd));
    assert_eq!(read_var(&[0x80, 0x80, 0x80, 0x80, 0x80, 0x01], 0), Err(CodecError::VarIntTooLong));
}

#[test]
fn fixed_width_reads() {
    let buf = [0x12, 0x34, 0xff, 0xfe, 0x00, 0x00, 0x00, 0x00, 0x00, 0x00, 0x01, 0x00];
    assert_eq!(read_u8(&buf, 0), Ok((0x12, 1)));
    assert_eq!(read_u16_be(&buf, 0), Ok((0x1234, 2)));
    assert_eq!(read_i16_be(&buf, 2), Ok((-2, 4)));
    assert_eq!(read_u32_be(&buf, 0), Ok((0x1234fffe, 4)));
    assert_eq!(read_i64_be(&buf, 4), Ok((0x100, 12)));
    assert_eq!(read_u16_be(&buf, 11), Err(CodecError::UnexpectedEnd));
    let mut wide = vec![0xffu8; 16];
    wide[15] = 0xfe;
    assert_eq!(read_i128_be(&wide, 0), Ok((-2, 16)));
    assert_eq!(read_u8(&buf, 12), Err(CodecError::UnexpectedEnd));
}

#[test]
fn strings_read_and_refuse_bad_utf8() {
    let buf = [3, b'a', b'b', b'c', 9];
    let (s, end) = read_string(&buf, 0).unwrap();
    assert_eq!(s, "abc");
    assert_eq!(end, 4);
    assert_eq!(read_string(&[2, 0xff, 0xfe], 0), Err(CodecError::InvalidUtf8));
    assert_eq!(read_string(&[5, b'a'], 0), Err(CodecError::UnexpectedEnd));
}

#[test]
fn positions_unpack_signed_fields() {
    // x = 18357644, y = 831, z = -20882616 (the protocol's own example)
    let v: u64 = 0b01000110000001110110001100_10110000010101101101001000_001100111111;
    let (pos, end) = read_position(&v.to_be_bytes(), 0).unwrap();
    assert_eq!(pos, (18357644, 831, -20882616));
    assert_eq!(end, 8);
    let minus_one = (-1i64).to_be_bytes();
    assert_eq!(read_position(&minus_one, 0).unwrap().0, (-1, -1, -1));
}

fn handshake_frame() -> Vec<u8> {
    let mut body = vec![0x00];
    write_var(&mut body, 770);
    body.push(9);
    body.extend_from_slice(b"localhost");
    body.extend_from_slice(&25565u16.to_be_bytes());
    body.push(2);
    let mut frame = Vec::new();
    write_var(&mut frame, body.len() as i32);
    frame.extend_from_slice(&body);
    frame
}

#[test]
fn handshake_reads_every_field() {
    let h = read_handshake(&handshake_frame()).unwrap();
    assert_eq!(h.protocol_version, 770);
    assert_eq!(h.server_address, "localhost");
    assert_eq!(h.server_port, 25565);
    assert_eq!(h.next_state, 2);
}

#[test]
fn handshake_with_another_id_is_refused() {
    let mut frame = handshake_frame();
    frame[1] = 0x05;
    assert!(matches!(read_handshake(&frame), Err(CodecError::UnexpectedPacketId(5))));
    assert!(matches!(read_handshake(&frame[..6]), Err(CodecError::UnexpectedPacketId(5))));
    let good = handshake_frame();
    assert!(matches!(read_handshake(&good[..good.len() - 1]), Err(CodecError::UnexpectedEnd)));
}

#[test]
fn uuid_text_is_hyphenated_lowercase_hex() {
    let u: u128 = 0x069a79f4_44e9_4726_a5be_fca90e38aaf5;
    assert_eq!(uuid_to_text(u), "069a79f4-44e9-4726-a5be-fca90e38aaf5");
    assert_eq!(uuid_to_text(0), "00000000-0000-0000-0000-000000000000");
    assert_eq!(uuid_to_text(u128::MAX), "ffffffff-ffff-ffff-ffff-ffffffffffff");
}

#[test]
fn login_start_reads_name_and_uuid() {
    let mut body = vec![0x00, 5];
    body.extend_from_slice(b"Notch");
    body.extend_from_slice(&0x069a79f4_44e9_4726_a5be_fca90e38aaf5u128.to_be_bytes());
    let mut frame = Vec::new();
    write_var(&mut frame, body.len() as i32);
    frame.extend_from_slice(&body);
    let l = read_login_start(&frame).unwrap();
    assert_eq!(l.name, "Notch");
    assert_eq!(l.uuid, "069a79f4-44e9-4726-a5be-fca90e38aaf5");
    assert!(matches!(read_login_start(&frame[..10]), Err(CodecError::UnexpectedEnd)));
}

#[test]
fn encryption_response_and_acknowledgement() {
    let mut rng = rand::thread_rng();
    let key = rsa::RsaPrivateKey::new(&mut rng, 512).unwrap();
    let public = rsa::RsaPublicKey::from(&key);
    let encrypted = public.encrypt(&mut rng, rsa::Pkcs1v15Encrypt, &[1, 2, 3]).unwrap();
    let mut body = vec![0x01, encrypted.len() as u8];
    body.extend_from_slice(&encrypted);
    body.extend_from_slice(&[2, 9, 8]);
    let mut frame = Vec::new();
    write_var(&mut frame, body.len() as i32);
    frame.extend_from_slice(&body);
    let p = read_encryption_response(&frame, &key).unwrap();
    assert_eq!(p.shared_secret, vec![1, 2, 3]);
    assert_eq!(p.verify_token, vec![9, 8]);
    assert!(matches!(read_encryption_response(&[8, 0x00], &key), Err(CodecError::UnexpectedPacketId(0))));
    let garbled = [8, 0x01, 3, 1, 2, 3, 2, 9, 8];
    assert!(matches!(read_encryption_response(&garbled, &key), Err(CodecError::SecretNotDecrypted)));
    assert!(read_login_acknowledged(&[1, 0x03]).is_ok());
    assert!(matches!(read_login_acknowledged(&[1, 0x02]), Err(CodecError::UnexpectedPacketId(2))));
}

#[test]
fn chat_bodies() {
    let mut buf = vec![2, b'h', b'i'];
    buf.extend_from_slice(&1234i64.to_be_bytes());
    buf.extend_from_slice(&(-5i64).to_be_bytes());
    let m = read_chat_message(&buf).unwrap();
    assert_eq!(m.content, "hi");
    assert_eq!(m.timestamp, 1234);
    assert_eq!(m.salt, -5);
    assert!(matches!(read_chat_message(&buf[..5]), Err(CodecError::UnexpectedEnd)));
    assert_eq!(read_chat_command(&[4, b'g', b'i', b'v', b'e']).unwrap(), "give");
}

#[test]
fn small_bodies() {
    assert_eq!(read_client_status(&[0x00]), Ok(0));
    assert_eq!(read_container_close(&[0x03]), Ok(3));
    assert_eq!(read_confirm_teleportation(&[0x01]), Ok(true));
    assert_eq!(read_confirm_teleportation(&[0x02]), Ok(false));
    assert_eq!(read_swing_arm(&[0x00]), Ok(true));
    assert_eq!(read_swing_arm(&[0x01]), Ok(false));
    assert_eq!(read_swing_arm(&[0x80]), Err(CodecError::UnexpectedEnd));
    assert_eq!(read_player_abilities(&[0x02]), Ok(true));
    assert_eq!(read_player_abilities(&[0x05]), Ok(false));
    assert_eq!(read_player_abilities(&[]), Err(CodecError::UnexpectedEnd));
    let m = read_player_input(&[0x01 | 0x08 | 0x10]).unwrap();
    assert!(m.forward && m.right && m.jumping);
    assert!(!m.backward && !m.left && !m.sneaking && !m.sprinting);
    assert_eq!(read_player_input(&[]), Err(CodecError::UnexpectedEnd));
    assert_eq!(read_set_carried_item(&[0x00, 0x04]), Ok(4));
    assert_eq!(read_set_carried_item(&[0xff, 0xff]), Ok(-1));
    assert_eq!(read_use_item(&[0x00, 0x07]), Ok((0, 7)));
    assert_eq!(read_use_item(&[0x00]), Err(CodecError::UnexpectedEnd));
}

#[test]
fn use_item_on_body() {
    let mut buf = vec![0x00];
    let packed: i64 = (5i64 << 38) | ((-3i64 & 0x3ff_ffff) << 12) | 70;
    buf.extend_from_slice(&packed.to_be_bytes());
    buf.push(1);
    buf.extend_from_slice(&0.5f32.to_bits().to_be_bytes());
    buf.extend_from_slice(&1.0f32.to_bits().to_be_bytes());
    buf.extend_from_slice(&0.25f32.to_bits().to_be_bytes());
    buf.push(0);
    buf.push(0);
    buf.push(42);
    let p = read_use_item_on(&buf).unwrap();
    assert_eq!(p.hand, 0);
    assert_eq!(p.position, (5, 70, -3));
    assert_eq!(p.face, 1);
    assert_eq!(f32::from_bits(p.cursor.1), 1.0);
    assert_eq!(p.sequence, 42);
    assert!(matches!(read_use_item_on(&buf[..10]), Err(CodecError::UnexpectedEnd)));
}

#[test]
fn player_action_body_and_statuses() {
    let mut buf = vec![0x02];
    let packed: i64 = (1i64 << 38) | (2i64 << 12) | 3;
    buf.extend_from_slice(&packed.to_be_bytes());
    buf.push(4);
    buf.push(9);
    let p = read_player_action(&buf).unwrap();
    assert_eq!((p.status, p.position, p.face, p.sequence), (2, (1, 3, 2), 4, 9));
    assert_eq!(action_status(0), Some(ActionStatus::StartedDigging));
    assert_eq!(action_status(1), None);
    assert_eq!(action_status(3), Some(ActionStatus::DropItemStack));
    assert_eq!(action_status(4), Some(ActionStatus::DropItem));
    let mut pick = packed.to_be_bytes().to_vec();
    pick.push(1);
    assert_eq!(read_pick_item_from_block(&pick).unwrap(), ((1, 3, 2), true));
}

#[test]
fn player_position_and_rotation() {
    let mut buf = Vec::new();
    buf.extend_from_slice(&1.5f64.to_be_bytes());
    buf.extend_from_slice(&(-64.0f64).to_be_bytes());
    buf.extend_from_slice(&2.25f64.to_be_bytes());
    buf.push(0x01);
    let (p, on_ground) = read_set_player_position(&buf).unwrap();
    assert_eq!((f64::from_bits(p.0), f64::from_bits(p.1), f64::from_bits(p.2)), (1.5, -64.0, 2.25));
    assert!(on_ground);
    assert_eq!(read_set_player_position(&buf[..24]), Err(CodecError::UnexpectedEnd));

    let mut rot = Vec::new();
    rot.extend_from_slice(&90.0f32.to_be_bytes());
    rot.extend_from_slice(&(-45.0f32).to_be_bytes());
    let (yaw, pitch) = read_set_player_rotation(&rot).unwrap();
    assert_eq!((f32::from_bits(yaw), f32::from_bits(pitch)), (90.0, -45.0));
    assert_eq!(read_set_player_rotation(&rot[..7]), Err(CodecError::UnexpectedEnd));

    let mut both = buf[..24].to_vec();
    both.extend_from_slice(&rot);
    both.push(0x00);
    let (p2, r2, g2) = read_set_player_position_and_rotation(&both).unwrap();
    assert_eq!(f64::from_bits(p2.1), -64.0);
    assert_eq!(f32::from_bits(r2.0), 90.0);
    assert!(!g2);
    assert_eq!(read_set_player_position_and_rotation(&both[..32]), Err(CodecError::UnexpectedEnd));
}

#[test]
fn item_slots() {
    assert_eq!(read_slot(&[0x00], 0), Ok((None, 1)));
    // 3 of item 42, no components added, one removed (type 7)
    assert_eq!(
        read_slot(&[0x03, 0x2a, 0x00, 0x01, 0x07], 0),
        Ok((Some(ItemStack { item_id: 42, count: 3 }), 5))
    );
    assert_eq!(read_slot(&[0x03, 0x2a, 0x01, 0x00], 0), Err(CodecError::UnreadableComponents));
    assert_eq!(read_slot(&[0x03, 0x2a, 0x00, 0x02, 0x07], 0), Err(CodecError::UnexpectedEnd));

    assert_eq!(read_hashed_slot(&[0x00], 0), Ok((None, 1)));
    // item 5, count 64, one added component (type 1, hash 4 bytes), none removed
    let hashed = [0x01, 0x05, 0x40, 0x01, 0x01, 0xde, 0xad, 0xbe, 0xef, 0x00];
    assert_eq!(read_hashed_slot(&hashed, 0), Ok((Some(ItemStack { item_id: 5, count: 64 }), 10)));
    assert_eq!(read_hashed_slot(&hashed[..8], 0), Err(CodecError::UnexpectedEnd));
    assert_eq!(read_hashed_slot(&[], 0), Err(CodecError::UnexpectedEnd));

    let mut creative = vec![0x00, 0x24];
    creative.extend_from_slice(&[0x01, 0x0a, 0x00, 0x00]);
    assert_eq!(
        read_set_creative_mode_slot(&creative),
        Ok((36, Some(ItemStack { item_id: 10, count: 1 })))
    );
    assert_eq!(read_set_creative_mode_slot(&[0xff, 0xff, 0x00]), Ok((-1, None)));
    assert_eq!(read_set_creative_mode_slot(&[0x00]), Err(CodecError::UnexpectedEnd));
}

#[test]
fn container_clicks() {
    // window 0, state 3, slot 36, button 0, mode 0, two changed slots, carried nothing
    let mut buf = vec![0x00, 0x03, 0x00, 0x24, 0x00, 0x00, 0x02];
    buf.extend_from_slice(&[0x00, 0x24, 0x01, 0x07, 0x02, 0x00, 0x00]);
    buf.extend_from_slice(&[0x00, 0x01, 0x00]);
    buf.push(0x00);
    let click = read_container_click(&buf).unwrap();
    assert_eq!(click.window_id, 0);
    assert_eq!(click.changes, vec![(36, Some(ItemStack { item_id: 7, count: 2 })), (1, None)]);
    assert_eq!(click.carried, None);
    assert!(matches!(read_container_click(&buf[..buf.len() - 1]), Err(CodecError::UnexpectedEnd)));
    assert!(matches!(read_container_click(&[0x00, 0x03, 0x00]), Err(CodecError::UnexpectedEnd)));
}

#[test]
fn region_files_read_back() {
    let payload: Vec<u8> = (0..200u8).collect();
    let file = mist::world::storage::region_file(&payload);
    assert_ne!(file, payload);
    assert_eq!(mist::world::storage::region_payload(&file), Some(payload));
    assert_eq!(mist::world::storage::region_payload(&[1, 2, 3]), None);
}
