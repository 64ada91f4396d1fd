use stress_client::packet::{
    from_bytes, CSLogin, CSMove, CSPacketType, CSTeleport, Direction, Incoming, PacketHeader,
    SCLoginOk, SCPacketType, SCPosPlayer, SCPutPlayer,
};

#[test]
fn a_step_has_its_header_direction_and_stamp() {
    let step = CSMove::new(Direction::D_LEFT, 77);
    assert_eq!(step.header, PacketHeader { size: 7, p_type: 2 });
    assert_eq!(step.direction, 2);
    assert_eq!(step.seq_no, 77);
}

#[test]
fn the_directions_have_their_codes() {
    assert_eq!(CSMove::new(Direction::D_UP, 0).direction, 0);
    assert_eq!(CSMove::new(Direction::D_DOWN, 0).direction, 1);
    assert_eq!(CSMove::new(Direction::D_LEFT, 0).direction, 2);
    assert_eq!(CSMove::new(Direction::D_RIGHT, 0).direction, 3);
}

#[test]
fn a_step_goes_out_least_significant_byte_first() {
    assert_eq!(
        CSMove::new(Direction::D_RIGHT, 0x0102_0304).to_bytes(),
        vec![7, 2, 3, 4, 3, 2, 1]
    );
    assert_eq!(
        CSMove::new(Direction::D_UP, -2).to_bytes(),
        vec![7, 2, 0, 0xfe, 0xff, 0xff, 0xff]
    );
}

#[test]
fn a_stamp_uses_all_bits() {
    let mut step = CSMove::new(Direction::D_DOWN, 0);
    step.set_move_time(0xffff_fffe);
    assert_eq!(step.seq_no, -2);
    assert_eq!(step.to_bytes(), vec![7, 2, 1, 0xfe, 0xff, 0xff, 0xff]);
    step.set_move_time(5);
    assert_eq!(step.seq_no, 5);
    assert_eq!(step.direction, 1);
}

#[test]
fn a_login_has_an_empty_name() {
    let login = CSLogin::new();
    assert_eq!(login.header, PacketHeader { size: 52, p_type: 1 });
    assert_eq!(login.id, [0i8; 50]);
    let bytes = login.to_bytes();
    assert_eq!(bytes.len(), 52);
    assert_eq!(bytes[0], 52);
    assert_eq!(bytes[1], 1);
    assert!(bytes[2..].iter().all(|b| *b == 0));
}

#[test]
fn a_login_name_goes_out_byte_by_byte() {
    let mut login = CSLogin::new();
    login.id[0] = 65;
    login.id[49] = -1;
    let bytes = login.to_bytes();
    assert_eq!(bytes[2], 65);
    assert_eq!(bytes[51], 255);
    assert_eq!(bytes[50], 0);
}

#[test]
fn a_teleport_is_only_a_header() {
    let teleport = CSTeleport::new();
    assert_eq!(teleport.header, PacketHeader { size: 2, p_type: 6 });
    assert_eq!(teleport.to_bytes(), vec![2, 6]);
}

#[test]
fn client_packet_types_have_their_codes() {
    assert_eq!(CSPacketType::CS_LOGIN.to_code(), 1);
    assert_eq!(CSPacketType::CS_MOVE.to_code(), 2);
    assert_eq!(CSPacketType::CS_ATTACK.to_code(), 3);
    assert_eq!(CSPacketType::CS_CHAT.to_code(), 4);
    assert_eq!(CSPacketType::CS_LOGOUT.to_code(), 5);
    assert_eq!(CSPacketType::CS_TELEPORT.to_code(), 6);
}

#[test]
fn type_bytes_name_packet_types() {
    assert_eq!(SCPacketType::from_u8(0), None);
    assert_eq!(SCPacketType::from_u8(1), Some(SCPacketType::SC_LOGIN_OK));
    assert_eq!(SCPacketType::from_u8(2), Some(SCPacketType::SC_LOGIN_FAIL));
    assert_eq!(SCPacketType::from_u8(3), Some(SCPacketType::SC_POS));
    assert_eq!(SCPacketType::from_u8(4), Some(SCPacketType::SC_PUT));
    assert_eq!(SCPacketType::from_u8(5), Some(SCPacketType::SC_REMOVE));
    assert_eq!(SCPacketType::from_u8(6), Some(SCPacketType::SC_CHAT));
    for byte in 7..=255u8 {
        assert_eq!(SCPacketType::from_u8(byte), None);
    }
}

#[test]
fn numbers_name_packet_types_by_their_low_bits() {
    assert_eq!(SCPacketType::from(1), SCPacketType::SC_LOGIN_OK);
    assert_eq!(SCPacketType::from(2), SCPacketType::SC_LOGIN_FAIL);
    assert_eq!(SCPacketType::from(3), SCPacketType::SC_POS);
    assert_eq!(SCPacketType::from(4), SCPacketType::SC_PUT);
    assert_eq!(SCPacketType::from(5), SCPacketType::SC_REMOVE);
    assert_eq!(SCPacketType::from(6), SCPacketType::SC_CHAT);
    assert_eq!(SCPacketType::from(0x1_0000_0003u64 as usize), SCPacketType::SC_POS);
}

#[test]
fn a_position_is_read_field_by_field() {
    let bytes = [14u8, 3, 0x04, 0x03, 0x02, 0x01, 0x10, 0x00, 0xff, 0xff, 0xfe, 0xff, 0xff, 0xff];
    let p: SCPosPlayer = from_bytes(&bytes);
    assert_eq!(p.header, PacketHeader { size: 14, p_type: 3 });
    assert_eq!(p.id, 0x0102_0304);
    assert_eq!(p.x, 16);
    assert_eq!(p.y, -1);
    assert_eq!(p.seq_no, -2);
    assert_eq!(p.get_move_time(), 0xffff_fffe);
    assert_eq!(SCPosPlayer::packet_size(), 14);
}

#[test]
fn a_login_answer_is_read_field_by_field() {
    let bytes = [
        18u8, 1, 9, 0, 0, 0x80, 1, 2, 3, 4, 100, 0, 5, 0, 0xe8, 0x03, 0, 0,
    ];
    let p: SCLoginOk = from_bytes(&bytes);
    assert_eq!(p.header, PacketHeader { size: 18, p_type: 1 });
    assert_eq!(p.id, i32::MIN + 9);
    assert_eq!(p.x, 0x0201);
    assert_eq!(p.y, 0x0403);
    assert_eq!(p.hp, 100);
    assert_eq!(p.level, 5);
    assert_eq!(p.exp, 1000);
    assert_eq!(SCLoginOk::packet_size(), 18);
}

#[test]
fn a_newcomer_is_read_field_by_field() {
    let bytes = [11u8, 4, 1, 0, 0, 0, 0xfd, 0x00, 0x80, 0xff, 0x7f];
    let p: SCPutPlayer = from_bytes(&bytes);
    assert_eq!(p.header, PacketHeader { size: 11, p_type: 4 });
    assert_eq!(p.id, 1);
    assert_eq!(p.o_type, -3);
    assert_eq!(p.x, i16::MIN);
    assert_eq!(p.y, i16::MAX);
    assert_eq!(SCPutPlayer::packet_size(), 11);
}

#[test]
fn packet_types_have_the_codes_that_name_them() {
    assert_eq!(SCPacketType::SC_LOGIN_OK.to_code(), 1);
    assert_eq!(SCPacketType::SC_LOGIN_FAIL.to_code(), 2);
    assert_eq!(SCPacketType::SC_POS.to_code(), 3);
    assert_eq!(SCPacketType::SC_PUT.to_code(), 4);
    assert_eq!(SCPacketType::SC_REMOVE.to_code(), 5);
    assert_eq!(SCPacketType::SC_CHAT.to_code(), 6);
    for code in 1..=6u8 {
        assert_eq!(SCPacketType::from_u8(code).unwrap().to_code(), code);
    }
}
