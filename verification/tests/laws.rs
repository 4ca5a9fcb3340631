use sawp_pop3::serial::serialize;
use sawp_pop3::{
    Command, Direction, Error, ErrorFlags, InnerMessage, Keyword, Message, Needed, Response,
    Status, POP3,
};

#[test]
fn rest_is_suffix_of_input() {
    let pop3 = POP3 {};
    let input = b"+OK 2 200\r\n+OK 3 300\r\n";
    let (rest, msg) = pop3.parse(input, Direction::ToClient).unwrap();
    assert!(msg.is_some());
    let consumed = input.len() - rest.len();
    assert_eq!(&input[consumed..], rest);
    assert_eq!(rest.len() + consumed, input.len());
}

#[test]
fn to_server_never_yields_response() {
    let pop3 = POP3 {};
    let (_, msg) = pop3.parse(b"STAT\r\n", Direction::ToServer).unwrap();
    assert!(matches!(msg.unwrap().inner, InnerMessage::Command(_)));
    let (_, msg) = pop3.parse(b"+OK done\r\n", Direction::ToClient).unwrap();
    assert!(matches!(msg.unwrap().inner, InnerMessage::Response(_)));
}

#[test]
fn serialize_command_bytes() {
    let msg = Message {
        error_flags: ErrorFlags::none(),
        inner: InnerMessage::Command(Command {
            keyword: Keyword::TOP,
            args: vec![b"1".to_vec(), b"10".to_vec()],
        }),
    };
    assert_eq!(serialize(&msg), b"TOP 1 10\r\n".to_vec());
}

#[test]
fn serialize_response_bytes_with_stuffing() {
    let msg = Message {
        error_flags: ErrorFlags::none(),
        inner: InnerMessage::Response(Response {
            status: Status::OK,
            header: b"120 octets".to_vec(),
            data: vec![b".6kg of flour".to_vec(), b"eggs".to_vec()],
        }),
    };
    assert_eq!(
        serialize(&msg),
        b"+OK 120 octets\r\n..6kg of flour\r\neggs\r\n.\r\n".to_vec()
    );
}

#[test]
fn round_trip_command() {
    let pop3 = POP3 {};
    let input = b"RETR 5\r\n";
    let (rest, msg) = pop3.parse(input, Direction::ToServer).unwrap();
    assert!(rest.is_empty());
    let msg = msg.unwrap();
    assert!(msg.error_flags.is_none());
    let wire = serialize(&msg);
    assert_eq!(wire, input.to_vec());
    let (rest2, msg2) = pop3.parse(&wire, Direction::ToServer).unwrap();
    assert!(rest2.is_empty());
    assert_eq!(msg2.unwrap(), msg);
}

#[test]
fn round_trip_multiline_response() {
    let pop3 = POP3 {};
    let input = b"+OK list\r\nalpha\r\n..dot line\r\n.\r\n";
    let (rest, msg) = pop3.parse(input, Direction::ToClient).unwrap();
    assert!(rest.is_empty());
    let msg = msg.unwrap();
    assert!(msg.error_flags.is_none());
    let wire = serialize(&msg);
    assert_eq!(wire, input.to_vec());
    let (rest2, msg2) = pop3.parse(&wire, Direction::ToClient).unwrap();
    assert!(rest2.is_empty());
    assert_eq!(msg2.unwrap(), msg);
}

#[test]
fn round_trip_armors_status_like_body_line() {
    // A body line that itself reads `+OK ...` comes out of a parse when the
    // wire had it dot-stuffed; the serializer must armor it again or a
    // re-parse would stop at the single-line shape.
    let pop3 = POP3 {};
    let input = b"+OK h\r\nfirst\r\n.+OK not a status\r\n.\r\n";
    let (_, msg) = pop3.parse(input, Direction::ToClient).unwrap();
    let msg = msg.unwrap();
    match &msg.inner {
        InnerMessage::Response(r) => {
            assert_eq!(r.data[1], b"+OK not a status".to_vec());
        }
        _ => panic!("expected a response"),
    }
    let wire = serialize(&msg);
    let (rest2, msg2) = pop3.parse(&wire, Direction::ToClient).unwrap();
    assert!(rest2.is_empty());
    assert_eq!(msg2.unwrap(), msg);
}

#[test]
fn incomplete_size_needs_that_many_octets() {
    let pop3 = POP3 {};
    // The buffer demands two more octets; one octet that agrees with the
    // grammar leaves the parse incomplete.
    assert_eq!(
        pop3.parse(b"QUIT\r", Direction::ToServer),
        Err(Error::Incomplete(Needed::Size(1)))
    );
    match pop3.parse(b"QUIT", Direction::ToServer) {
        Err(Error::Incomplete(Needed::Size(n))) => assert_eq!(n, 1),
        other => panic!("expected incomplete, got {:?}", other),
    }
}

#[test]
fn incomplete_unknown_when_no_line_ending() {
    let pop3 = POP3 {};
    assert_eq!(
        pop3.parse(b"+OK no line ending yet", Direction::ToClient),
        Err(Error::Incomplete(Needed::Unknown))
    );
}

#[test]
fn three_commands_stream() {
    let pop3 = POP3 {};
    let mut bytes: &[u8] = b"USER bob\r\nPASS hunter2\r\nQUIT\r\n";
    let mut count = 0;
    while !bytes.is_empty() {
        let (rest, msg) = pop3.parse(bytes, Direction::ToServer).unwrap();
        assert!(msg.is_some());
        count += 1;
        bytes = rest;
    }
    assert_eq!(count, 3);
    assert!(bytes.is_empty());
}

#[test]
fn three_responses_stream() {
    let pop3 = POP3 {};
    let mut bytes: &[u8] = b"+OK ready\r\n+OK 2 msgs\r\n-ERR no such message\r\n";
    let mut count = 0;
    while !bytes.is_empty() {
        let (rest, msg) = pop3.parse(bytes, Direction::ToClient).unwrap();
        assert!(msg.is_some());
        count += 1;
        bytes = rest;
    }
    assert_eq!(count, 3);
    assert!(bytes.is_empty());
}

#[test]
fn mixed_stream_unknown_direction() {
    let pop3 = POP3 {};
    let mut bytes: &[u8] = b"CAPA\r\nLIST 4\r\nNOOP\r\n";
    let mut kinds = Vec::new();
    while !bytes.is_empty() {
        let (rest, msg) = pop3.parse(bytes, Direction::Unknown).unwrap();
        match msg.unwrap().inner {
            InnerMessage::Command(c) => kinds.push(format!("{:?}", c.keyword)),
            InnerMessage::Response(_) => kinds.push("response".to_string()),
        }
        bytes = rest;
    }
    assert_eq!(kinds, vec!["CAPA", "LIST", "NOOP"]);
}

#[test]
fn header_crlf_alone_commits_to_single_line() {
    // The documented stateless limitation: with only the status line in the
    // buffer, the parser commits to the single-line shape even if the
    // response would have had a body.
    let pop3 = POP3 {};
    let (rest, msg) = pop3.parse(b"+OK 2 messages\r\n", Direction::ToClient).unwrap();
    assert!(rest.is_empty());
    match msg.unwrap().inner {
        InnerMessage::Response(r) => assert!(r.data.is_empty()),
        _ => panic!("expected a response"),
    }
}

#[test]
fn empty_header_without_space() {
    let pop3 = POP3 {};
    let (rest, msg) = pop3.parse(b"+OK\r\n", Direction::ToClient).unwrap();
    assert!(rest.is_empty());
    match msg.unwrap().inner {
        InnerMessage::Response(r) => {
            assert_eq!(r.status, Status::OK);
            assert!(r.header.is_empty());
            assert!(r.data.is_empty());
        }
        _ => panic!("expected a response"),
    }
}
