//! The vici messages and packets.

use cross_platform_vpn::vici::message::{
    KEY_VALUE, LIST_ITEM, LIST_START, SECTION_END, SECTION_START,
};
use cross_platform_vpn::vici::protocol::{
    packet_len, write_packet, Action, CMD_REQUEST, CMD_RESPONSE, CMD_UNKNOWN, EVENT, EVENT_CONFIRM,
    EVENT_REGISTER, EVENT_UNKNOWN, EVENT_UNREGISTER,
};
use cross_platform_vpn::vici::{Client, CodecError, Error, Message, Value};

/// A packet as it comes without its length: the type and what follows it.
fn packet(ptype: u8, body: &[u8]) -> Vec<u8> {
    let mut p = vec![ptype];
    p.extend_from_slice(body);
    p
}

fn event_packet(name: &str, message: &Message) -> Vec<u8> {
    let mut body = vec![name.len() as u8];
    body.extend_from_slice(name.as_bytes());
    body.extend_from_slice(&message.encode().unwrap());
    packet(EVENT, &body)
}

#[test]
fn encodes_key_value_exactly() {
    let msg = Message::new().str("key", "value");
    assert_eq!(
        msg.encode().unwrap(),
        vec![KEY_VALUE, 3, b'k', b'e', b'y', 0, 5, b'v', b'a', b'l', b'u', b'e']
    );
}

#[test]
fn roundtrips_nested_structure() {
    let msg = Message::new()
        .str("version", "2")
        .list("remote_addrs", vec!["192.168.100.10".to_string()])
        .section(
            "local",
            Message::new().str("auth", "psk").str("id", "test-1@test.local"),
        )
        .list("proposals", vec!["aes256-sha256-prfsha256-modp3072".to_string()]);

    let bytes = msg.encode().unwrap();
    let back = Message::decode(&bytes).unwrap();
    assert_eq!(msg, back);
    assert_eq!(back.get_str("version").as_deref(), Some("2"));
    assert_eq!(
        back.get_section("local").unwrap().get_str("auth").as_deref(),
        Some("psk")
    );
    assert_eq!(
        back.get_list("remote_addrs"),
        Some(vec!["192.168.100.10".to_string()])
    );
}

#[test]
fn empty_list_roundtrips() {
    let msg = Message::new().list("owners", Vec::<String>::new());
    let back = Message::decode(&msg.encode().unwrap()).unwrap();
    assert_eq!(back.get_list("owners"), Some(vec![]));
}

#[test]
fn binary_value_survives() {
    let msg = Message::new().bytes("data", vec![0u8, 255, 10, 0, 3]);
    let back = Message::decode(&msg.encode().unwrap()).unwrap();
    assert_eq!(back.get("data"), Some(&Value::Str(vec![0, 255, 10, 0, 3])));
}

#[test]
fn truncated_input_is_error_not_panic() {
    assert!(Message::decode(&[KEY_VALUE, 3, b'k']).is_err());
    assert!(Message::decode(&[SECTION_START, 1, b'a']).is_err());
    assert!(Message::decode(&[99]).is_err());
}

/// Wherever a message is cut, it is refused or gives its first elements.
#[test]
fn a_cut_message_is_refused_or_gives_its_first_elements() {
    let build = |n: usize| {
        let mut m = Message::new();
        if n > 0 {
            m = m.str("version", "2");
        }
        if n > 1 {
            m = m.list("addrs", vec!["a".to_string(), "b".to_string()]);
        }
        if n > 2 {
            m = m.section("sub", Message::new().str("k", "v"));
        }
        m
    };
    let whole = build(3).encode().unwrap();
    let bounds: Vec<usize> = (0..3).map(|n| build(n).encode().unwrap().len()).collect();
    for n in 0..whole.len() {
        match Message::decode(&whole[..n]) {
            Ok(m) => {
                assert!(bounds.contains(&n), "a cut at {n} was accepted");
                assert_eq!(m.encode().unwrap(), &whole[..n]);
            }
            Err(e) => {
                assert!(matches!(e, CodecError::Malformed(_)));
                assert!(!bounds.contains(&n), "a cut at {n} was refused");
            }
        }
    }
}

#[test]
fn names_and_values_have_their_limits() {
    let long_name = "n".repeat(256);
    assert_eq!(
        Message::new().str(&long_name, "v").encode(),
        Err(CodecError::NameTooLong)
    );
    assert!(Message::new().str(&"n".repeat(255), "v").encode().is_ok());
    let long_value = "v".repeat(65_536);
    assert_eq!(
        Message::new().str("n", &long_value).encode(),
        Err(CodecError::ValueTooLong)
    );
    assert!(Message::new().str("n", &"v".repeat(65_535)).encode().is_ok());
}

#[test]
fn malformed_messages_say_what_is_wrong() {
    assert!(matches!(Message::decode(&[99]), Err(CodecError::Malformed(_))));
    assert!(matches!(
        Message::decode(&[SECTION_END]),
        Err(CodecError::Malformed(_))
    ));
    assert!(matches!(
        Message::decode(&[LIST_START, 1, b'a', LIST_ITEM, 0]),
        Err(CodecError::Malformed(_))
    ));
}

/// A value that is no text is shown with replacement characters.
#[test]
fn text_of_a_binary_value_is_lossy() {
    let msg = Message::new().bytes("data", vec![b'a', 255, b'b']);
    assert_eq!(msg.get_str("data").as_deref(), Some("a\u{fffd}b"));
}

#[test]
fn lookups_skip_values_of_another_kind() {
    let msg = Message::new()
        .str("a", "text")
        .list("b", vec!["x".to_string()])
        .section("c", Message::new());
    assert_eq!(msg.get_list("a"), None);
    assert_eq!(msg.get_str("b"), None);
    assert!(msg.get_section("a").is_none());
    assert_eq!(msg.sections().len(), 1);
    assert_eq!(msg.sections()[0].0, "c");
}

#[test]
fn request_frames_command_and_parses_response() {
    let mut client = Client::new();
    let w = client.request("load-conn", &Message::new().str("x", "y")).unwrap();

    let body = Message::new().str("success", "yes").encode().unwrap();
    let resp = match client.receive(&packet(CMD_RESPONSE, &body)) {
        Action::Done(_, m) => m,
        _ => panic!("no response"),
    };
    assert_eq!(resp.get_str("success").as_deref(), Some("yes"));

    // Written frame: len(4) + CMD_REQUEST + namelen + "load-conn" + msg.
    assert_eq!(w[4], CMD_REQUEST);
    assert_eq!(w[5], "load-conn".len() as u8);
    assert_eq!(&w[6..6 + 9], b"load-conn");
}

#[test]
fn the_length_in_front_reads_back() {
    let w = write_packet(CMD_REQUEST, "version", None).unwrap();
    let n = packet_len([w[0], w[1], w[2], w[3]]).unwrap();
    assert_eq!(n, w.len() - 4);
    assert_eq!(n, 1 + 1 + "version".len());
}

#[test]
fn packet_lengths_out_of_range_are_refused() {
    match packet_len([2, 0, 0, 0]) {
        Err(Error::PacketTooLarge(n)) => assert_eq!(n, 33_554_432),
        _ => panic!("accepted"),
    }
    assert_eq!(packet_len([1, 0, 0, 0]).unwrap(), 16_777_216);
}

#[test]
fn an_empty_packet_is_refused() {
    assert_eq!(packet_len([0, 0, 0, 0]).unwrap(), 0);
    let mut client = Client::new();
    client.request("version", &Message::new()).unwrap();
    assert!(matches!(client.receive(&[]), Action::Failed(Error::EmptyPacket)));
}

#[test]
fn a_command_name_has_its_limit() {
    assert!(matches!(
        write_packet(CMD_REQUEST, &"n".repeat(256), None),
        Err(Error::NameTooLong)
    ));
}

#[test]
fn an_unknown_command_is_reported_by_name() {
    let mut client = Client::new();
    client.request("nonsense", &Message::new()).unwrap();
    match client.receive(&packet(CMD_UNKNOWN, &[])) {
        Action::Failed(Error::UnknownCommand(c)) => assert_eq!(c, "nonsense"),
        _ => panic!("not reported"),
    }
}

#[test]
fn stray_packets_are_skipped() {
    let mut client = Client::new();
    client.request("version", &Message::new()).unwrap();
    let stray = event_packet("log", &Message::new().str("msg", "noise"));
    assert!(matches!(client.receive(&stray), Action::Read));
    let body = Message::new().str("version", "5.9").encode().unwrap();
    match client.receive(&packet(CMD_RESPONSE, &body)) {
        Action::Done(events, m) => {
            assert!(events.is_empty());
            assert_eq!(m.get_str("version").as_deref(), Some("5.9"));
        }
        _ => panic!("no response"),
    }
}

/// A streamed request registers for its event, sends the command, collects the events in the
/// order in which they come and gives the registration back.
#[test]
fn a_stream_collects_its_events_in_order() {
    let mut client = Client::new();
    let w = client.stream_request("list-sas", "list-sa", Message::new()).unwrap();
    assert_eq!(w[4], EVENT_REGISTER);
    assert_eq!(&w[6..], b"list-sa");

    let w = match client.receive(&packet(EVENT_CONFIRM, &[])) {
        Action::Send(w) => w,
        _ => panic!("the command does not follow"),
    };
    assert_eq!(w[4], CMD_REQUEST);
    assert_eq!(&w[6..6 + 8], b"list-sas");

    for n in ["one", "two", "three"] {
        let e = event_packet("list-sa", &Message::new().str("name", n));
        assert!(matches!(client.receive(&e), Action::Read));
    }
    let other = event_packet("log", &Message::new().str("name", "four"));
    assert!(matches!(client.receive(&other), Action::Read));

    let body = Message::new().str("success", "yes").encode().unwrap();
    let w = match client.receive(&packet(CMD_RESPONSE, &body)) {
        Action::Send(w) => w,
        _ => panic!("the registration is not given back"),
    };
    assert_eq!(w[4], EVENT_UNREGISTER);

    match client.receive(&packet(EVENT_CONFIRM, &[])) {
        Action::Done(events, m) => {
            let names: Vec<String> = events.iter().map(|e| e.get_str("name").unwrap()).collect();
            assert_eq!(names, ["one", "two", "three"]);
            assert_eq!(m.get_str("success").as_deref(), Some("yes"));
        }
        _ => panic!("the stream does not end"),
    }
}

#[test]
fn an_unknown_event_is_reported_by_name() {
    let mut client = Client::new();
    client.stream_request("list-sas", "no-such-event", Message::new()).unwrap();
    match client.receive(&packet(EVENT_UNKNOWN, &[])) {
        Action::Failed(Error::UnknownEvent(e)) => assert_eq!(e, "no-such-event"),
        _ => panic!("not reported"),
    }
}

#[test]
fn an_interrupted_exchange_is_an_io_error() {
    let mut client = Client::new();
    client.request("version", &Message::new()).unwrap();
    match client.interrupted(Error::Io("connection reset".to_string())) {
        Error::Io(why) => assert_eq!(why, "connection reset"),
        _ => panic!("another error"),
    }
}

fn refused() -> Client {
    let mut client = Client::new();
    client.stream_request("nonsense", "list-sa", Message::new()).unwrap();
    assert!(matches!(client.receive(&packet(EVENT_CONFIRM, &[])), Action::Send(_)));
    assert!(matches!(client.receive(&packet(CMD_UNKNOWN, &[])), Action::Send(_)));
    client
}

/// Whatever becomes of the stream behind it, a refused command ends as the unknown command.
#[test]
fn a_refused_command_stays_refused() {
    let mut client = refused();
    assert!(matches!(client.receive(&packet(EVENT, &[0])), Action::Read));
    match client.receive(&packet(EVENT_CONFIRM, &[])) {
        Action::Failed(Error::UnknownCommand(c)) => assert_eq!(c, "nonsense"),
        _ => panic!("another end"),
    }
    match refused().receive(&[]) {
        Action::Failed(Error::UnknownCommand(c)) => assert_eq!(c, "nonsense"),
        _ => panic!("another end"),
    }
    for why in [Error::Io("connection reset".to_string()), Error::PacketTooLarge(33_554_432)] {
        match refused().interrupted(why) {
            Error::UnknownCommand(c) => assert_eq!(c, "nonsense"),
            _ => panic!("another error"),
        }
    }
}

/// Different messages never encode alike.
#[test]
fn encodings_are_told_apart() {
    let a = Message::new().str("k", "v");
    let b = Message::new().list("k", vec!["v".to_string()]);
    let c = Message::new().section("k", Message::new().str("v", ""));
    let all = [a.encode().unwrap(), b.encode().unwrap(), c.encode().unwrap()];
    assert_ne!(all[0], all[1]);
    assert_ne!(all[1], all[2]);
    assert_ne!(all[0], all[2]);
}
