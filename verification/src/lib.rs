//! A streaming parser for the POP3 mail-retrieval protocol (RFC 1939 with the
//! RFC 2449 extensions). Given an octet buffer and a direction hint, the
//! parser consumes one complete protocol message from the head of the buffer
//! and returns a structured record plus the unconsumed tail. When the buffer
//! holds fewer octets than a complete message requires, the parser reports how
//! many additional octets it needs rather than failing.
use vstd::prelude::*;

pub mod command;
pub mod laws;
pub mod model;
pub mod response;
pub mod roundtrip;
pub mod scan;
pub mod serial;
pub mod stream;
pub mod types;

pub use types::{
    Command, Direction, Error, ErrorFlag, ErrorFlags, InnerMessage, Keyword, Message, Needed,
    ParseErrorKind, ProbeStatus, Response, Status, CLIENT_COMMAND_MAX_LEN, CRLF_LEN,
    SERVER_RESP_FIRST_LINE_MAX_LEN,
};

use command::{parse_command, ParseOutcome};
use model::{cmd_too_long, merge_needed, resp_too_long, spec_parse, SpecResult};
use response::parse_response;

verus! {

/// The POP3 protocol parser. It holds no state: parsing is a pure function
/// over the buffer and the direction hint.
pub struct POP3 {}

/// Reconciliation of two "more octets needed" reports, as
/// [`merge_needed`] describes.
fn merge_incomplete(a: Needed, b: Needed) -> (r: Needed)
    ensures
        r == merge_needed(a, b),
{
    match (a, b) {
        (Needed::Unknown, other) => other,
        (known, Needed::Unknown) => known,
        (Needed::Size(p), Needed::Size(q)) => if p < q {
            Needed::Size(p)
        } else {
            Needed::Size(q)
        },
    }
}

impl POP3 {
    /// The name of the protocol this parser recognizes.
    pub fn name() -> (r: &'static str)
        ensures
            r@ == "pop3"@,
    {
        "pop3"
    }

    /// Whether the first line of a server response of this shape exceeds the
    /// RFC 2449 limit: status token, one separating space, the header, and
    /// CRLF must fit in [`SERVER_RESP_FIRST_LINE_MAX_LEN`] octets.
    pub fn server_response_too_long(status_length: usize, payload_first_line_length: usize) -> (r:
        bool)
        ensures
            r == resp_too_long(status_length as int, payload_first_line_length as int),
    {
        if status_length > SERVER_RESP_FIRST_LINE_MAX_LEN
            || payload_first_line_length > SERVER_RESP_FIRST_LINE_MAX_LEN {
            true
        } else {
            status_length + 1 + payload_first_line_length + 2 > SERVER_RESP_FIRST_LINE_MAX_LEN
        }
    }

    /// Whether a client command line of this shape exceeds the RFC 2449
    /// limit: keyword, the arguments each with one separator octet, and CRLF
    /// must fit in [`CLIENT_COMMAND_MAX_LEN`] octets.
    pub fn client_command_too_long(command_length: usize, client_payload_length: usize) -> (r:
        bool)
        ensures
            r == cmd_too_long(command_length as int, client_payload_length as int),
    {
        if command_length > CLIENT_COMMAND_MAX_LEN
            || client_payload_length > CLIENT_COMMAND_MAX_LEN {
            true
        } else {
            command_length + client_payload_length + 2 > CLIENT_COMMAND_MAX_LEN
        }
    }

    /// One message from the head of `input`, routed by `direction`, exactly
    /// as [`spec_parse`] describes: on success the unconsumed tail and the
    /// message; an [`Error::Incomplete`] when the buffer holds a proper
    /// prefix of a message; an [`Error::Parse`] when it cannot be one.
    pub fn parse<'a>(&self, input: &'a [u8], direction: Direction) -> (r: Result<
        (&'a [u8], Option<Message>),
        Error,
    >)
        ensures
            match spec_parse(input@, direction) {
                SpecResult::Msg(n, mv) => r matches Ok((rest, m)) && n <= input@.len() && rest@
                    == input@.skip(n as int) && (m matches Some(msg) && msg@ == mv),
                SpecResult::Inc(nd) => r matches Err(e) && e == Error::Incomplete(nd),
                SpecResult::Fail(k) => r matches Err(e) && e == Error::Parse(k),
            },
    {
        let outcome: ParseOutcome = match direction {
            Direction::ToServer => parse_command(input),
            Direction::ToClient => parse_response(input),
            Direction::Unknown => match parse_command(input) {
                ParseOutcome::Msg(n, m) => ParseOutcome::Msg(n, m),
                c_other => match parse_response(input) {
                    ParseOutcome::Msg(n, m) => ParseOutcome::Msg(n, m),
                    r_other => match (c_other, r_other) {
                        (ParseOutcome::Inc(a), ParseOutcome::Inc(b)) => ParseOutcome::Inc(
                            merge_incomplete(a, b),
                        ),
                        (ParseOutcome::Inc(a), _) => ParseOutcome::Inc(a),
                        (_, ParseOutcome::Inc(b)) => ParseOutcome::Inc(b),
                        (c_err, _) => c_err,
                    },
                },
            },
        };
        match outcome {
            ParseOutcome::Msg(n, m) => {
                let rest = vstd::slice::slice_subrange(input, n, input.len());
                proof {
                    assert(input@.subrange(n as int, input@.len() as int) =~= input@.skip(
                        n as int,
                    ));
                }
                Ok((rest, Some(m)))
            },
            ParseOutcome::Inc(nd) => Err(Error::Incomplete(nd)),
            ParseOutcome::Fail(k) => Err(Error::Parse(k)),
        }
    }

    /// Classification of a buffer: a message with no conformance flag is
    /// recognized POP3; one with any flag set, or a grammar failure, is not;
    /// a proper prefix leaves the question open.
    pub fn probe(&self, input: &[u8], direction: Direction) -> (r: ProbeStatus)
        ensures
            match spec_parse(input@, direction) {
                SpecResult::Msg(_, mv) => r == (if mv.error_flags == ErrorFlags::empty() {
                    ProbeStatus::Recognized
                } else {
                    ProbeStatus::Unrecognized
                }),
                SpecResult::Inc(_) => r == ProbeStatus::Incomplete,
                SpecResult::Fail(_) => r == ProbeStatus::Unrecognized,
            },
    {
        match self.parse(input, direction) {
            Ok((_, Some(msg))) => if msg.error_flags.is_none() {
                ProbeStatus::Recognized
            } else {
                ProbeStatus::Unrecognized
            },
            Ok((_, None)) => ProbeStatus::Recognized,
            Err(Error::Incomplete(_)) => ProbeStatus::Incomplete,
            Err(Error::Parse(_)) => ProbeStatus::Unrecognized,
        }
    }
}

} // verus!
