use sawp_pop3::{
    Command, Direction, Error, ErrorFlag, ErrorFlags, InnerMessage, Keyword, Message, Needed,
    ParseErrorKind, ProbeStatus, Response, Status, POP3,
};

fn flags_none() -> ErrorFlags {
    ErrorFlags::none()
}

fn flags_of(list: &[ErrorFlag]) -> ErrorFlags {
    let mut f = ErrorFlags::none();
    for flag in list {
        match flag {
            ErrorFlag::CommandTooLong => f.command_too_long = true,
            ErrorFlag::IncorrectArgumentNum => f.incorrect_argument_num = true,
            ErrorFlag::UnknownKeyword => f.unknown_keyword = true,
            ErrorFlag::ResponseTooLong => f.response_too_long = true,
        }
    }
    f
}

#[test]
fn test_name() {
    assert_eq!(POP3::name(), "pop3");
}

#[test]
fn status_to_str() {
    assert_eq!(Status::OK.to_str(), "OK");
    assert_eq!(Status::ERR.to_str(), "ERR");
}

#[test]
fn flags_contains() {
    let f = flags_of(&[ErrorFlag::UnknownKeyword]);
    assert!(f.contains(ErrorFlag::UnknownKeyword));
    assert!(!f.contains(ErrorFlag::CommandTooLong));
    assert!(!f.is_none());
    assert!(flags_none().is_none());
}

#[test]
fn response_empty_incomplete() {
    let pop3 = POP3 {};
    assert_eq!(
        pop3.parse(b"", Direction::ToClient),
        Err(Error::Incomplete(Needed::Size(3)))
    );
}

#[test]
fn response_incomplete_ok() {
    let pop3 = POP3 {};
    assert_eq!(
        pop3.parse(b"+OK", Direction::ToClient),
        Err(Error::Incomplete(Needed::Size(1)))
    );
}

#[test]
fn response_incomplete_err() {
    let pop3 = POP3 {};
    assert_eq!(
        pop3.parse(b"-ERR ", Direction::ToClient),
        Err(Error::Incomplete(Needed::Size(1)))
    );
}

#[test]
fn response_ok() {
    let pop3 = POP3 {};
    assert_eq!(
        pop3.parse(b"+OK 2 200\r\n", Direction::ToClient),
        Ok((
            b"".as_ref(),
            Some(Message {
                error_flags: flags_none(),
                inner: InnerMessage::Response(Response {
                    status: Status::OK,
                    header: b"2 200".to_vec(),
                    data: vec![],
                }),
            }),
        ))
    );
}

#[test]
fn response_multiple_responses() {
    let pop3 = POP3 {};
    assert_eq!(
        pop3.parse(b"+OK 2 200\r\n+OK 3 300\r\n", Direction::ToClient),
        Ok((
            b"+OK 3 300\r\n".as_ref(),
            Some(Message {
                error_flags: flags_none(),
                inner: InnerMessage::Response(Response {
                    status: Status::OK,
                    header: b"2 200".to_vec(),
                    data: vec![],
                }),
            }),
        ))
    );
}

#[test]
fn response_multiline() {
    let pop3 = POP3 {};
    assert_eq!(
        pop3.parse(
            b"+OK Capability list follows\r\nTOP\r\nUSER\r\nUIDL\r\n.\r\n",
            Direction::ToClient
        ),
        Ok((
            b"".as_ref(),
            Some(Message {
                error_flags: flags_none(),
                inner: InnerMessage::Response(Response {
                    status: Status::OK,
                    header: b"Capability list follows".to_vec(),
                    data: vec![b"TOP".to_vec(), b"USER".to_vec(), b"UIDL".to_vec()],
                }),
            }),
        ))
    );
}

#[test]
fn response_multiline_byte_stuffing() {
    let pop3 = POP3 {};
    assert_eq!(
        pop3.parse(
            b"+OK 120 octets\r\nGrocery list:\r\n..6kg of flour\r\n.\r\n",
            Direction::ToClient
        ),
        Ok((
            b"".as_ref(),
            Some(Message {
                error_flags: flags_none(),
                inner: InnerMessage::Response(Response {
                    status: Status::OK,
                    header: b"120 octets".to_vec(),
                    data: vec![b"Grocery list:".to_vec(), b".6kg of flour".to_vec()],
                }),
            }),
        ))
    );
}

#[test]
fn response_incomplete_multiline() {
    let pop3 = POP3 {};
    assert_eq!(
        pop3.parse(b"+OK Capability list follows\r\nTOP\r\n", Direction::ToClient),
        Err(Error::Incomplete(Needed::Size(3)))
    );
}

fn long_response() -> Vec<u8> {
    let mut input = b"-ERR ".to_vec();
    for _ in 0..10 {
        input.extend_from_slice(&[b'1'; 60]);
    }
    input.extend_from_slice(b"\r\n");
    input
}

#[test]
fn response_too_long() {
    let pop3 = POP3 {};
    let input = long_response();
    let expected_header = &input[5..input.len() - 2];
    let result = pop3.parse(&input, Direction::ToClient);
    assert_eq!(
        result,
        Ok((
            b"".as_ref(),
            Some(Message {
                error_flags: flags_of(&[ErrorFlag::ResponseTooLong]),
                inner: InnerMessage::Response(Response {
                    status: Status::ERR,
                    header: expected_header.to_vec(),
                    data: vec![],
                }),
            }),
        ))
    );
}

#[test]
fn response_invalid_status() {
    let pop3 = POP3 {};
    assert_eq!(
        pop3.parse(b"+SUCCESS 2 200\r\n", Direction::ToClient),
        Err(Error::Parse(ParseErrorKind::InvalidStatus))
    );
}

#[test]
fn command_empty_incomplete() {
    let pop3 = POP3 {};
    assert_eq!(
        pop3.parse(b"", Direction::ToServer),
        Err(Error::Incomplete(Needed::Size(1)))
    );
}

#[test]
fn command_incomplete() {
    let pop3 = POP3 {};
    assert_eq!(
        pop3.parse(b"TOP", Direction::ToServer),
        Err(Error::Incomplete(Needed::Size(1)))
    );
}

#[test]
fn command_unknown_keyword() {
    let pop3 = POP3 {};
    assert_eq!(
        pop3.parse(b"HELLO WORLD\r\n", Direction::ToServer),
        Ok((
            b"".as_ref(),
            Some(Message {
                error_flags: flags_of(&[ErrorFlag::UnknownKeyword]),
                inner: InnerMessage::Command(Command {
                    keyword: Keyword::Unknown(b"HELLO".to_vec()),
                    args: vec![b"WORLD".to_vec()],
                }),
            }),
        ))
    );
}

#[test]
fn command_invalid_keyword() {
    let pop3 = POP3 {};
    assert_eq!(
        pop3.parse(b"\x01\x02\x03\x04 WORLD\r\n", Direction::ToServer),
        Err(Error::Parse(ParseErrorKind::InvalidKeyword))
    );
}

#[test]
fn command_no_args() {
    let pop3 = POP3 {};
    assert_eq!(
        pop3.parse(b"CAPA\r\n", Direction::ToServer),
        Ok((
            b"".as_ref(),
            Some(Message {
                error_flags: flags_none(),
                inner: InnerMessage::Command(Command {
                    keyword: Keyword::CAPA,
                    args: vec![],
                }),
            }),
        ))
    );
}

#[test]
fn command_one_arg() {
    let pop3 = POP3 {};
    assert_eq!(
        pop3.parse(b"DELE 52\r\n", Direction::ToServer),
        Ok((
            b"".as_ref(),
            Some(Message {
                error_flags: flags_none(),
                inner: InnerMessage::Command(Command {
                    keyword: Keyword::DELE,
                    args: vec![b"52".to_vec()],
                }),
            }),
        ))
    );
}

#[test]
fn command_two_args() {
    let pop3 = POP3 {};
    assert_eq!(
        pop3.parse(
            b"APOP sawp 05aaf79d37225973a00cddaaf568eb96\r\n",
            Direction::ToServer
        ),
        Ok((
            b"".as_ref(),
            Some(Message {
                error_flags: flags_none(),
                inner: InnerMessage::Command(Command {
                    keyword: Keyword::APOP,
                    args: vec![
                        b"sawp".to_vec(),
                        b"05aaf79d37225973a00cddaaf568eb96".to_vec(),
                    ],
                }),
            }),
        ))
    );
}

fn long_pass_arg() -> Vec<u8> {
    let mut arg = Vec::new();
    for _ in 0..25 {
        arg.extend_from_slice(b"1234567890");
    }
    arg
}

#[test]
fn command_too_long() {
    let pop3 = POP3 {};
    let arg = long_pass_arg();
    assert_eq!(arg.len(), 250);
    let mut input = b"PASS ".to_vec();
    input.extend_from_slice(&arg);
    input.extend_from_slice(b"\r\n");
    assert_eq!(
        pop3.parse(&input, Direction::ToServer),
        Ok((
            b"".as_ref(),
            Some(Message {
                error_flags: flags_of(&[ErrorFlag::CommandTooLong]),
                inner: InnerMessage::Command(Command {
                    keyword: Keyword::PASS,
                    args: vec![arg],
                }),
            }),
        ))
    );
}

#[test]
fn command_missing_argument() {
    let pop3 = POP3 {};
    assert_eq!(
        pop3.parse(b"DELE\r\n", Direction::ToServer),
        Ok((
            b"".as_ref(),
            Some(Message {
                error_flags: flags_of(&[ErrorFlag::IncorrectArgumentNum]),
                inner: InnerMessage::Command(Command {
                    keyword: Keyword::DELE,
                    args: vec![],
                }),
            }),
        ))
    );
}

#[test]
fn command_extra_arguments() {
    let pop3 = POP3 {};
    assert_eq!(
        pop3.parse(b"CAPA HELLO WORLD\r\n", Direction::ToServer),
        Ok((
            b"".as_ref(),
            Some(Message {
                error_flags: flags_of(&[ErrorFlag::IncorrectArgumentNum]),
                inner: InnerMessage::Command(Command {
                    keyword: Keyword::CAPA,
                    args: vec![b"HELLO".to_vec(), b"WORLD".to_vec()],
                }),
            }),
        ))
    );
}

#[test]
fn command_trailing_space_is_error() {
    let pop3 = POP3 {};
    assert_eq!(
        pop3.parse(b"CAPA x \r\n", Direction::ToServer),
        Err(Error::Parse(ParseErrorKind::ExpectedCrlf))
    );
}

#[test]
fn keyword_empty_and_response_errors() {
    assert_eq!(
        sawp_pop3::command::keyword_from(b"", 0, 0),
        Err(ParseErrorKind::EmptyKeyword)
    );
    assert_eq!(
        sawp_pop3::command::keyword_from(b"+OK", 0, 3),
        Err(ParseErrorKind::KeywordIsResponse)
    );
    assert_eq!(
        sawp_pop3::command::keyword_from(b"A-B", 0, 3),
        Err(ParseErrorKind::InvalidKeyword)
    );
    assert_eq!(
        sawp_pop3::command::keyword_from(b"X1", 0, 2),
        Ok(Keyword::Unknown(b"X1".to_vec()))
    );
    assert_eq!(sawp_pop3::command::keyword_from(b"QUIT", 0, 4), Ok(Keyword::QUIT));
}

#[test]
fn probe_empty() {
    let pop3 = POP3 {};
    assert_eq!(pop3.probe(b"", Direction::Unknown), ProbeStatus::Incomplete);
}

#[test]
fn probe_incomplete_request() {
    let pop3 = POP3 {};
    assert_eq!(pop3.probe(b"TOP", Direction::Unknown), ProbeStatus::Incomplete);
}

#[test]
fn probe_incomplete_response_ok() {
    let pop3 = POP3 {};
    assert_eq!(pop3.probe(b"+OK", Direction::Unknown), ProbeStatus::Incomplete);
}

#[test]
fn probe_incomplete_response_err() {
    let pop3 = POP3 {};
    assert_eq!(pop3.probe(b"-ERR", Direction::Unknown), ProbeStatus::Incomplete);
}

#[test]
fn probe_unknown_keyword() {
    let pop3 = POP3 {};
    assert_eq!(
        pop3.probe(b"HELLO WORLD\r\n", Direction::Unknown),
        ProbeStatus::Unrecognized
    );
}

#[test]
fn probe_quit() {
    let pop3 = POP3 {};
    assert_eq!(pop3.probe(b"QUIT\r\n", Direction::Unknown), ProbeStatus::Recognized);
}

#[test]
fn probe_quit_parses_as_command() {
    let pop3 = POP3 {};
    assert_eq!(
        pop3.parse(b"QUIT\r\n", Direction::Unknown),
        Ok((
            b"".as_ref(),
            Some(Message {
                error_flags: flags_none(),
                inner: InnerMessage::Command(Command {
                    keyword: Keyword::QUIT,
                    args: vec![],
                }),
            }),
        ))
    );
}

#[test]
fn probe_incorrect_arguments() {
    let pop3 = POP3 {};
    assert_eq!(
        pop3.probe(b"QUIT ARG\r\n", Direction::Unknown),
        ProbeStatus::Unrecognized
    );
    assert_eq!(
        pop3.parse(b"QUIT ARG\r\n", Direction::Unknown),
        Ok((
            b"".as_ref(),
            Some(Message {
                error_flags: flags_of(&[ErrorFlag::IncorrectArgumentNum]),
                inner: InnerMessage::Command(Command {
                    keyword: Keyword::QUIT,
                    args: vec![b"ARG".to_vec()],
                }),
            }),
        ))
    );
}

#[test]
fn probe_command_too_long() {
    let pop3 = POP3 {};
    let mut input = b"PASS ".to_vec();
    input.extend_from_slice(&long_pass_arg());
    input.extend_from_slice(b"\r\n");
    assert_eq!(pop3.probe(&input, Direction::Unknown), ProbeStatus::Unrecognized);
}

#[test]
fn probe_server_response_too_long() {
    let pop3 = POP3 {};
    let input = long_response();
    assert_eq!(pop3.probe(&input, Direction::Unknown), ProbeStatus::Unrecognized);
}

#[test]
fn too_long_limits() {
    assert!(!POP3::client_command_too_long(4, 250));
    assert!(POP3::client_command_too_long(4, 251));
    assert!(!POP3::server_response_too_long(4, 505));
    assert!(POP3::server_response_too_long(4, 506));
}

#[test]
fn status_from_wire() {
    assert_eq!(Status::from_wire(b"+OK"), Ok(Status::OK));
    assert_eq!(Status::from_wire(b"-ERR"), Ok(Status::ERR));
    assert_eq!(
        Status::from_wire(b"+SUCCESS"),
        Err(ParseErrorKind::InvalidStatus)
    );
    assert_eq!(Status::from_wire(b""), Err(ParseErrorKind::InvalidStatus));
}

#[test]
fn keyword_wire_text() {
    assert_eq!(sawp_pop3::serial::keyword_wire(&Keyword::QUIT), b"QUIT".to_vec());
    assert_eq!(sawp_pop3::serial::keyword_wire(&Keyword::TOP), b"TOP".to_vec());
    assert_eq!(
        sawp_pop3::serial::keyword_wire(&Keyword::Unknown(b"XFOO".to_vec())),
        b"XFOO".to_vec()
    );
}

#[test]
fn header_without_separating_space() {
    // The optional space after the status token may be absent even when a
    // header follows directly.
    let pop3 = POP3 {};
    assert_eq!(
        pop3.parse(b"+OKready\r\n", Direction::ToClient),
        Ok((
            b"".as_ref(),
            Some(Message {
                error_flags: flags_none(),
                inner: InnerMessage::Response(Response {
                    status: Status::OK,
                    header: b"ready".to_vec(),
                    data: vec![],
                }),
            }),
        ))
    );
}

#[test]
fn runs_of_spaces_separate_tokens() {
    let pop3 = POP3 {};
    assert_eq!(
        pop3.parse(b"TOP   1    2\r\n", Direction::ToServer),
        Ok((
            b"".as_ref(),
            Some(Message {
                error_flags: flags_none(),
                inner: InnerMessage::Command(Command {
                    keyword: Keyword::TOP,
                    args: vec![b"1".to_vec(), b"2".to_vec()],
                }),
            }),
        ))
    );
}

#[test]
fn response_under_unknown_direction() {
    let pop3 = POP3 {};
    assert_eq!(
        pop3.parse(b"-ERR no such message\r\n", Direction::Unknown),
        Ok((
            b"".as_ref(),
            Some(Message {
                error_flags: flags_none(),
                inner: InnerMessage::Response(Response {
                    status: Status::ERR,
                    header: b"no such message".to_vec(),
                    data: vec![],
                }),
            }),
        ))
    );
}
