use serial_bridge::checksum::{append_checksum, checksum_of, strip_checksum};
use serial_bridge::protocol::{MessageType, ProtocolMessage};

fn record(kind: MessageType, data: &str, auth: &str) -> ProtocolMessage {
    ProtocolMessage::new(kind, data, auth)
}

#[test]
fn encode_without_auth() {
    assert_eq!(record(MessageType::CMD, "door_open", "").to_string(), "CMD_door_open");
}

#[test]
fn encode_with_auth() {
    assert_eq!(
        record(MessageType::CMD, "door_open", "deadbeef").to_string(),
        "CMD_door_open|deadbeef"
    );
}

#[test]
fn decode_with_auth() {
    let m = ProtocolMessage::from_string("CMD_door_open|deadbeef").unwrap();
    assert_eq!(m.message_type, MessageType::CMD);
    assert_eq!(m.data, "door_open");
    assert_eq!(m.auth, "deadbeef");
}

#[test]
fn decode_without_auth() {
    let m = ProtocolMessage::from_string("INFO_temp=21").unwrap();
    assert_eq!(m.message_type, MessageType::INFO);
    assert_eq!(m.data, "temp=21");
    assert_eq!(m.auth, "");
}

#[test]
fn kind_names() {
    assert_eq!(MessageType::AUTH.to_string(), "AUTH");
    assert_eq!(MessageType::INFO.to_string(), "INFO");
    assert_eq!(MessageType::ERR.to_string(), "ERR");
    assert_eq!(MessageType::ACK.to_string(), "ACK");
    assert_eq!(MessageType::MISS.to_string(), "MISS");
    assert_eq!(MessageType::CMD.to_string(), "CMD");
    assert_eq!(MessageType::OK.to_string(), "OK");
}

#[test]
fn every_kind_round_trips() {
    let kinds = [
        MessageType::AUTH,
        MessageType::INFO,
        MessageType::ERR,
        MessageType::ACK,
        MessageType::MISS,
        MessageType::CMD,
        MessageType::OK,
    ];
    for kind in kinds {
        for (data, auth) in [("", ""), ("a_b_c", ""), ("x", "y|z"), ("caf\u{e9}", "0123abcd")] {
            let text = record(kind, data, auth).to_string();
            let back = ProtocolMessage::from_string(&text).unwrap();
            assert_eq!(back.message_type, kind);
            assert_eq!(back.data, data);
            assert_eq!(back.auth, auth);
        }
    }
}

#[test]
fn data_with_a_bar_does_not_round_trip() {
    let text = record(MessageType::CMD, "a|b", "").to_string();
    let back = ProtocolMessage::from_string(&text).unwrap();
    assert_eq!(back.data, "a");
    assert_eq!(back.auth, "b");
}

#[test]
fn decode_splits_data_at_the_first_underscore() {
    let m = ProtocolMessage::from_string("ACK_CMD_success").unwrap();
    assert_eq!(m.message_type, MessageType::ACK);
    assert_eq!(m.data, "CMD_success");
}

#[test]
fn decode_splits_auth_at_the_first_bar() {
    let m = ProtocolMessage::from_string("AUTH_HDSHK_INIT|abc&1:2:4000|x").unwrap();
    assert_eq!(m.message_type, MessageType::AUTH);
    assert_eq!(m.data, "HDSHK_INIT");
    assert_eq!(m.auth, "abc&1:2:4000|x");
}

#[test]
fn decode_drops_one_byte_order_mark() {
    let m = ProtocolMessage::from_string("\u{feff}CMD_go").unwrap();
    assert_eq!(m.message_type, MessageType::CMD);
    assert_eq!(m.data, "go");
    assert!(ProtocolMessage::from_string("\u{feff}\u{feff}CMD_go").is_none());
}

#[test]
fn decode_refuses_unknown_kind() {
    assert!(ProtocolMessage::from_string("FOO_bar").is_none());
    assert!(ProtocolMessage::from_string("cmd_bar").is_none());
    assert!(ProtocolMessage::from_string("_bar").is_none());
    assert!(ProtocolMessage::from_string("CMDX_bar").is_none());
}

#[test]
fn decode_refuses_missing_kind() {
    assert!(ProtocolMessage::from_string("").is_none());
    assert!(ProtocolMessage::from_string("CMD").is_none());
    assert!(ProtocolMessage::from_string("CMD|auth_x").is_none());
    assert!(ProtocolMessage::from_string("|").is_none());
}

#[test]
fn decode_accepts_empty_data_and_empty_auth() {
    let m = ProtocolMessage::from_string("OK_").unwrap();
    assert_eq!(m.message_type, MessageType::OK);
    assert_eq!(m.data, "");
    let m = ProtocolMessage::from_string("OK_x|").unwrap();
    assert_eq!(m.data, "x");
    assert_eq!(m.auth, "");
}

#[test]
fn checksum_is_the_wrapped_byte_sum() {
    assert_eq!(checksum_of(b""), 0);
    assert_eq!(checksum_of(b"CMD_door_open"), 0x04f8);
    assert_eq!(checksum_of(&[0xffu8; 300]), 0x2ad4);
}

#[test]
fn checksum_variant_encodes() {
    assert_eq!(
        record(MessageType::CMD, "door_open", "").to_checked_bytes(),
        b"CMD_door_open;04F8".to_vec()
    );
    assert_eq!(
        record(MessageType::CMD, "door_open", "deadbeef").to_checked_bytes(),
        b"CMD_door_open|deadbeef;0894".to_vec()
    );
    assert_eq!(append_checksum(b""), b";0000".to_vec());
}

#[test]
fn checksum_variant_decodes() {
    let m = ProtocolMessage::from_checked_bytes(b"CMD_door_open|deadbeef;0894").unwrap();
    assert_eq!(m.message_type, MessageType::CMD);
    assert_eq!(m.data, "door_open");
    assert_eq!(m.auth, "deadbeef");
    assert_eq!(strip_checksum(b"CMD_door_open;04F8"), Some(b"CMD_door_open".to_vec()));
}

#[test]
fn checksum_variant_refuses() {
    assert!(ProtocolMessage::from_checked_bytes(b"CMD_door_open").is_none());
    assert!(ProtocolMessage::from_checked_bytes(b"CMD_door_open;04f8").is_none());
    assert!(ProtocolMessage::from_checked_bytes(b"CMD_door_open;04F9").is_none());
    assert!(ProtocolMessage::from_checked_bytes(b"CMD_door_open;4F8").is_none());
    assert!(ProtocolMessage::from_checked_bytes(b"CMD_door_open;04F80").is_none());
    assert!(ProtocolMessage::from_checked_bytes(b"CMD_a;b;0000").is_none());
    // the checksum agrees, but what it covers holds no record
    assert_eq!(strip_checksum(b"hello;0214"), Some(b"hello".to_vec()));
    assert!(ProtocolMessage::from_checked_bytes(b"hello;0214").is_none());
    // the checksum agrees, but what it covers is not text
    assert_eq!(strip_checksum(&[0xff, b';', b'0', b'0', b'F', b'F']), Some(vec![0xff]));
    assert!(ProtocolMessage::from_checked_bytes(&[0xff, b';', b'0', b'0', b'F', b'F']).is_none());
}

#[test]
fn every_single_byte_corruption_is_refused() {
    let frame = record(MessageType::CMD, "door_open", "deadbeef").to_checked_bytes();
    assert!(ProtocolMessage::from_checked_bytes(&frame).is_some());
    for i in 0..frame.len() {
        for b in 0..=255u8 {
            if b != frame[i] {
                let mut bad = frame.clone();
                bad[i] = b;
                assert!(ProtocolMessage::from_checked_bytes(&bad).is_none());
                assert!(strip_checksum(&bad).is_none());
            }
        }
    }
}

#[test]
fn checksum_variant_as_text() {
    assert_eq!(
        record(MessageType::CMD, "door_open", "").to_string_with_checksum(),
        "CMD_door_open;04F8"
    );
    let text = record(MessageType::INFO, "caf\u{e9}", "ab").to_string_with_checksum();
    assert_eq!(text, "INFO_caf\u{e9}|ab;0560");
    assert_eq!(text.as_bytes(), record(MessageType::INFO, "caf\u{e9}", "ab").to_checked_bytes());
    let m = ProtocolMessage::from_string_with_checksum(&text).unwrap();
    assert_eq!(m.message_type, MessageType::INFO);
    assert_eq!(m.data, "caf\u{e9}");
    assert_eq!(m.auth, "ab");
    assert!(ProtocolMessage::from_string_with_checksum("INFO_caf\u{e9}|ab;0561").is_none());
    assert!(ProtocolMessage::from_string_with_checksum("INFO_cafe|ab;0560").is_none());
    assert!(ProtocolMessage::from_string_with_checksum("INFO_x").is_none());
}
