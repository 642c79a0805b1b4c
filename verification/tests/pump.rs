use serial_bridge::auth::SessionState;
use serial_bridge::client::{client_command, inbound_step, outbound_line, ClientRead, InboundAction};
use serial_bridge::protocol::{MessageType, ProtocolMessage};
use serial_bridge::reader::{
    process_line, process_serial_data_with_broadcast, route_record, ReadEvent, ReaderState,
};
use serial_bridge::security::HashBuilder;
use serial_bridge::text::{
    chars_of, find_char, is_whitespace, range_equals, same_text, starts_with, string_of_range,
    trim_range,
};
use serial_bridge::writer::{handle_commands, needs_auth, signed_line, write_command_to_serial};

const H10: &str = "2c296db2ed47ebf6eee74d052cbaccd7";
const H15: &str = "bd09c6c4648acdfbea243b84e4b82cde";

fn session() -> SessionState {
    SessionState::new(HashBuilder { init: 10, step: 5, limit: 4000 })
}

fn data(text: &str) -> ReadEvent {
    ReadEvent::Data(text.as_bytes().to_vec())
}

#[test]
fn record_split_across_two_reads() {
    let mut state = ReaderState::new();
    let mut s = session();
    let step = process_serial_data_with_broadcast(&mut state, &mut s, "secret", data("CMD_doo"));
    assert!(step.broadcasts.is_empty());
    assert_eq!(step.pause_ms, 0);
    assert_eq!(state.pending(), "CMD_doo");
    let step = process_serial_data_with_broadcast(&mut state, &mut s, "secret", data("r_open\n"));
    assert_eq!(step.broadcasts, vec!["CMD_door_open".to_string()]);
    assert_eq!(state.pending(), "");
    let m = ProtocolMessage::from_string(&step.broadcasts[0]).unwrap();
    assert_eq!(m.message_type, MessageType::CMD);
    assert_eq!(m.data, "door_open");
    assert_eq!(m.auth, "");
    assert_eq!(s.init(), 10);
}

#[test]
fn several_lines_in_one_read() {
    let mut state = ReaderState::new();
    let mut s = session();
    let step = process_serial_data_with_broadcast(
        &mut state,
        &mut s,
        "secret",
        data("INFO_a\r\nrubbish\r\n\nOK_done\nACK_par"),
    );
    assert_eq!(
        step.broadcasts,
        vec![
            "INFO_a".to_string(),
            "ERR_rubbish".to_string(),
            "ERR_".to_string(),
            "OK_done".to_string()
        ]
    );
    assert_eq!(state.pending(), "ACK_par");
    assert!(!step.report);
}

#[test]
fn valid_auth_is_forwarded_and_moves_the_chain() {
    let mut state = ReaderState::new();
    let mut s = session();
    let line = format!("INFO_card|{}\nINFO_card|{}\n", H10, H15);
    let step = process_serial_data_with_broadcast(&mut state, &mut s, "secret", data(&line));
    assert_eq!(
        step.broadcasts,
        vec![format!("INFO_card|{}", H10), format!("INFO_card|{}", H15)]
    );
    assert_eq!(s.init(), 20);
    assert!(!s.is_sending());
}

#[test]
fn invalid_auth_is_dropped_with_one_error() {
    let mut state = ReaderState::new();
    let mut s = session();
    let step =
        process_serial_data_with_broadcast(&mut state, &mut s, "secret", data("INFO_card|bad\n"));
    assert_eq!(step.broadcasts, vec!["ERR_Authentication failed".to_string()]);
    assert_eq!(s.init(), 15);
    // a replay of the hash that was valid one step ago fails too
    let line = format!("INFO_card|{}\n", H10);
    let step = process_serial_data_with_broadcast(&mut state, &mut s, "secret", data(&line));
    assert_eq!(step.broadcasts, vec!["ERR_Authentication failed".to_string()]);
    assert_eq!(s.init(), 20);
}

#[test]
fn auth_records_and_records_without_auth_are_not_checked() {
    let mut state = ReaderState::new();
    let mut s = session();
    let step = process_serial_data_with_broadcast(
        &mut state,
        &mut s,
        "secret",
        data("AUTH_HDSHK_OK|whatever\nINFO_plain\n"),
    );
    assert_eq!(
        step.broadcasts,
        vec!["AUTH_HDSHK_OK|whatever".to_string(), "INFO_plain".to_string()]
    );
    assert_eq!(s.init(), 10);
}

#[test]
fn rejection_past_the_limit_asks_for_a_rehandshake() {
    let mut state = ReaderState::new();
    let mut s = SessionState::new(HashBuilder { init: 3999, step: 2, limit: 4000 });
    let step =
        process_serial_data_with_broadcast(&mut state, &mut s, "secret", data("INFO_x|bad\n"));
    assert_eq!(
        step.broadcasts,
        vec!["ERR_Authentication failed".to_string(), "AUTH_REHANDSHAKE_NEEDED".to_string()]
    );
    assert_eq!(s.init(), 4001);
    assert!(s.needs_rehandshake());
    let step =
        process_serial_data_with_broadcast(&mut state, &mut s, "secret", data("INFO_x|bad\n"));
    assert_eq!(step.broadcasts.len(), 2);
    assert_eq!(s.init(), 4003);
    assert!(s.is_exhausted());
    // an exhausted chain accepts nothing and stays where it is
    let step =
        process_serial_data_with_broadcast(&mut state, &mut s, "secret", data("INFO_x|bad\n"));
    assert_eq!(
        step.broadcasts,
        vec!["ERR_Authentication failed".to_string(), "AUTH_REHANDSHAKE_NEEDED".to_string()]
    );
    assert_eq!(s.init(), 4003);
}

#[test]
fn routing_by_the_outcome_of_the_check() {
    let m = ProtocolMessage::new(MessageType::INFO, "card", "abcd");
    assert_eq!(route_record(&m, true, false), vec!["INFO_card|abcd".to_string()]);
    assert_eq!(route_record(&m, true, true), vec!["INFO_card|abcd".to_string()]);
    assert_eq!(route_record(&m, false, false), vec!["ERR_Authentication failed".to_string()]);
    assert_eq!(
        route_record(&m, false, true),
        vec!["ERR_Authentication failed".to_string(), "AUTH_REHANDSHAKE_NEEDED".to_string()]
    );
}

#[test]
fn one_line_of_a_buffer() {
    let buffer: Vec<char> = "xx  CMD_go \r".chars().collect();
    let mut s = session();
    assert_eq!(process_line(&buffer, 2, buffer.len(), "secret", &mut s), vec!["CMD_go".to_string()]);
    assert_eq!(process_line(&buffer, 0, 6, "secret", &mut s), vec!["ERR_xx  CM".to_string()]);
    assert_eq!(process_line(&buffer, 3, 3, "secret", &mut s), vec!["ERR_".to_string()]);
}

#[test]
fn idle_and_failed_reads_change_nothing() {
    let mut state = ReaderState::new();
    let mut s = session();
    process_serial_data_with_broadcast(&mut state, &mut s, "secret", data("CMD_par"));
    let step = process_serial_data_with_broadcast(&mut state, &mut s, "secret", ReadEvent::TimedOut);
    assert!(step.broadcasts.is_empty());
    assert_eq!((step.pause_ms, step.report), (10, false));
    let step =
        process_serial_data_with_broadcast(&mut state, &mut s, "secret", ReadEvent::Data(vec![]));
    assert!(step.broadcasts.is_empty());
    assert_eq!((step.pause_ms, step.report), (10, false));
    let step = process_serial_data_with_broadcast(&mut state, &mut s, "secret", ReadEvent::Failed);
    assert!(step.broadcasts.is_empty());
    assert_eq!((step.pause_ms, step.report), (100, true));
    assert_eq!(state.pending(), "CMD_par");
    assert_eq!(s.init(), 10);
}

#[test]
fn chunk_that_is_not_text_is_dropped() {
    let mut state = ReaderState::new();
    let mut s = session();
    process_serial_data_with_broadcast(&mut state, &mut s, "secret", data("CMD_a"));
    let step = process_serial_data_with_broadcast(
        &mut state,
        &mut s,
        "secret",
        ReadEvent::Data(vec![b'x', 0xff, b'\n']),
    );
    assert!(step.broadcasts.is_empty());
    assert_eq!(step.pause_ms, 0);
    assert_eq!(state.pending(), "CMD_a");
    let step = process_serial_data_with_broadcast(
        &mut state,
        &mut s,
        "secret",
        ReadEvent::Data("\u{e9}\u{4e2d}\n".as_bytes().to_vec()),
    );
    assert_eq!(step.broadcasts, vec!["CMD_a\u{e9}\u{4e2d}".to_string()]);
}

#[test]
fn feed_takes_text() {
    let mut state = ReaderState::new();
    let mut s = session();
    assert!(state.feed("OK", "secret", &mut s).is_empty());
    assert_eq!(state.feed("_1\nOK_2\nOK", "secret", &mut s), vec!["OK_1".to_string(), "OK_2".to_string()]);
    assert_eq!(state.pending(), "OK");
}

#[test]
fn writer_attaches_the_next_hash() {
    let mut s = session();
    let m = ProtocolMessage::new(MessageType::CMD, "door_open", "");
    assert!(needs_auth(&m));
    let line = write_command_to_serial(m, &mut s, "secret").unwrap();
    assert_eq!(line, format!("CMD_door_open|{}\n", H10));
    assert_eq!(s.init(), 15);
    assert!(s.is_sending());
    // an auth that the record brought along is replaced
    let m = ProtocolMessage::new(MessageType::CMD, "door_open", "old");
    let line = write_command_to_serial(m, &mut s, "secret").unwrap();
    assert_eq!(line, format!("CMD_door_open|{}\n", H15));
    assert_eq!(s.init(), 20);
}

#[test]
fn writer_leaves_auth_and_handshake_records_alone() {
    let mut s = session();
    let m = ProtocolMessage::new(MessageType::AUTH, "anything", "");
    assert!(!needs_auth(&m));
    assert_eq!(write_command_to_serial(m, &mut s, "secret").unwrap(), "AUTH_anything\n");
    let m = ProtocolMessage::new(MessageType::CMD, "HDSHK_INIT", "x");
    assert!(!needs_auth(&m));
    assert_eq!(write_command_to_serial(m, &mut s, "secret").unwrap(), "CMD_HDSHK_INIT|x\n");
    let m = ProtocolMessage::new(MessageType::INFO, "HANDSHAKE_AUTH:ab", "");
    assert!(!needs_auth(&m));
    assert_eq!(write_command_to_serial(m, &mut s, "secret").unwrap(), "INFO_HANDSHAKE_AUTH:ab\n");
    assert!(needs_auth(&ProtocolMessage::new(MessageType::CMD, "HDSHK", "")));
    assert!(needs_auth(&ProtocolMessage::new(MessageType::CMD, "xHDSHK_", "")));
    assert_eq!(s.init(), 10);
    assert!(!s.is_sending());
}

#[test]
fn writer_has_no_line_on_an_exhausted_chain() {
    let mut s = SessionState::new(HashBuilder { init: 4000, step: 1, limit: 4000 });
    for _ in 0..2 {
        let m = ProtocolMessage::new(MessageType::CMD, "go", "");
        assert!(write_command_to_serial(m, &mut s, "secret").is_some());
    }
    assert_eq!(s.init(), 4002);
    let m = ProtocolMessage::new(MessageType::CMD, "go", "");
    assert!(write_command_to_serial(m, &mut s, "secret").is_none());
    assert_eq!(s.init(), 4002);
    let m = ProtocolMessage::new(MessageType::AUTH, "go", "");
    assert_eq!(write_command_to_serial(m, &mut s, "secret").unwrap(), "AUTH_go\n");
}

#[test]
fn signed_line_replaces_the_auth() {
    let m = ProtocolMessage::new(MessageType::CMD, "go", "old");
    assert_eq!(signed_line(m, "new".to_string()), "CMD_go|new\n");
    let m = ProtocolMessage::new(MessageType::CMD, "go", "old");
    assert_eq!(signed_line(m, String::new()), "CMD_go\n");
}

#[test]
fn commands_from_clients() {
    let mut s = session();
    assert_eq!(
        handle_commands("\u{feff}CMD_door_open", &mut s, "secret").unwrap(),
        format!("CMD_door_open|{}\n", H10)
    );
    assert!(handle_commands("door_open", &mut s, "secret").is_none());
    assert_eq!(s.init(), 15);
    assert_eq!(handle_commands("AUTH_x|y", &mut s, "secret").unwrap(), "AUTH_x|y\n");
    assert_eq!(s.init(), 15);
}

#[test]
fn client_lines_are_trimmed_and_empties_dropped() {
    assert_eq!(client_command("  CMD_go\r\n"), Some("CMD_go".to_string()));
    assert_eq!(client_command("\u{3000}a b\u{a0}\u{2028}"), Some("a b".to_string()));
    assert_eq!(client_command("\r\n"), None);
    assert_eq!(client_command(""), None);
    assert_eq!(client_command(" \t\u{85}"), None);
    assert_eq!(client_command("\u{200b}"), Some("\u{200b}".to_string()));
    for text in ["  x  ", "\u{1680}y\u{205f}", "\u{2000}\u{200a}z\u{202f}\u{2029}", "\u{b}\u{c}w"] {
        assert_eq!(client_command(text), Some(text.trim().to_string()));
    }
}

#[test]
fn inbound_task_steps() {
    assert!(matches!(inbound_step(ClientRead::Closed), InboundAction::Stop));
    assert!(matches!(inbound_step(ClientRead::Failed), InboundAction::Stop));
    assert!(matches!(inbound_step(ClientRead::Line("\n".to_string())), InboundAction::Skip));
    match inbound_step(ClientRead::Line(" CMD_go \n".to_string())) {
        InboundAction::Forward(cmd) => assert_eq!(cmd, "CMD_go"),
        _ => panic!("the command is forwarded"),
    }
}

#[test]
fn outbound_lines_end_with_a_newline() {
    assert_eq!(outbound_line("INFO_a"), "INFO_a\n");
    assert_eq!(outbound_line(""), "\n");
}

#[test]
fn white_space_is_what_the_standard_library_says() {
    for n in 0..=0x10ffffu32 {
        if let Some(c) = char::from_u32(n) {
            assert_eq!(is_whitespace(c), c.is_whitespace());
        }
    }
}

#[test]
fn text_helpers() {
    let v = chars_of("a\u{e9}|b|");
    assert_eq!(v, vec!['a', '\u{e9}', '|', 'b', '|']);
    assert_eq!(find_char(&v, 0, 5, '|'), Some(2));
    assert_eq!(find_char(&v, 3, 5, '|'), Some(1));
    assert_eq!(find_char(&v, 0, 2, '|'), None);
    assert_eq!(find_char(&v, 5, 5, '|'), None);
    assert_eq!(string_of_range(&v, 1, 4), "\u{e9}|b");
    assert!(range_equals(&v, 3, 5, "b|"));
    assert!(!range_equals(&v, 3, 5, "b"));
    assert!(!range_equals(&v, 3, 5, "b_"));
    assert!(same_text("", ""));
    assert!(!same_text("a", "A"));
    assert!(starts_with("HDSHK_INIT", "HDSHK_"));
    assert!(starts_with("x", ""));
    assert!(!starts_with("HDSH", "HDSHK_"));
    let w = chars_of(" \t x y \n");
    assert_eq!(trim_range(&w, 0, w.len()), (3, 6));
    assert_eq!(trim_range(&w, 4, w.len()), (5, 6));
    let blank = chars_of("  ");
    let (a, b) = trim_range(&blank, 0, 2);
    assert_eq!(a, b);
}
