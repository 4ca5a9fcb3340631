//! Data model for POP3 messages: keywords, statuses, commands, responses,
//! conformance flags, and the error taxonomy of the streaming parser.
use vstd::prelude::*;

verus! {

/// Line terminator used throughout POP3 (RFC 1939).
pub const CRLF_LEN: usize = 2;

/// A client command line, including the terminating CRLF, must not exceed
/// this many octets (RFC 2449).
pub const CLIENT_COMMAND_MAX_LEN: usize = 256;

/// The first line of a server response, including the terminating CRLF,
/// must not exceed this many octets (RFC 2449).
pub const SERVER_RESP_FIRST_LINE_MAX_LEN: usize = 512;

/// The supported POP3 client commands
#[derive(Debug, PartialEq, Eq)]
pub enum Keyword {
    QUIT,
    STAT,
    LIST,
    RETR,
    DELE,
    NOOP,
    RSET,
    TOP,
    UIDL,
    USER,
    PASS,
    APOP,
    CAPA,
    STLS,
    AUTH,
    SASL,
    /// A keyword made only of ASCII alphanumeric octets that is not one of
    /// the sixteen recognized verbs; carries the raw octets of the verb.
    Unknown(Vec<u8>),
}

/// POP3 servers can respond with either an OK or Error response based on client input
#[derive(Debug, Copy, Clone, PartialEq, Eq, Structural)]
pub enum Status {
    OK,
    ERR,
}

/// Parser-identified errors that are not fatal
#[derive(Debug, Copy, Clone, PartialEq, Eq, Structural)]
pub enum ErrorFlag {
    /// Command + space + argument + CRLF must not exceed 255 octets (RFC 2449)
    CommandTooLong,
    /// Number of arguments doesn't match the command
    IncorrectArgumentNum,
    /// Correct keyword format, but unknown value
    UnknownKeyword,
    /// First line of server response + CRLF must not exceed 512 octets (RFC 2449)
    ResponseTooLong,
}

/// A set of [`ErrorFlag`] values, any subset may be present on a message.
#[derive(Debug, Copy, Clone, PartialEq, Eq, Structural)]
pub struct ErrorFlags {
    pub command_too_long: bool,
    pub incorrect_argument_num: bool,
    pub unknown_keyword: bool,
    pub response_too_long: bool,
}

impl ErrorFlags {
    /// The empty flag set.
    pub fn none() -> (r: ErrorFlags)
        ensures
            r == ErrorFlags::empty(),
    {
        ErrorFlags { command_too_long: false, incorrect_argument_num: false, unknown_keyword: false, response_too_long: false }
    }

    /// The empty flag set, as a specification value.
    pub open spec fn empty() -> ErrorFlags {
        ErrorFlags { command_too_long: false, incorrect_argument_num: false, unknown_keyword: false, response_too_long: false }
    }

    /// Whether no flag is set.
    pub fn is_none(&self) -> (r: bool)
        ensures
            r == (*self == ErrorFlags::empty()),
    {
        !self.command_too_long && !self.incorrect_argument_num && !self.unknown_keyword && !self.response_too_long
    }

    /// Whether the given flag is in the set.
    pub fn contains(&self, flag: ErrorFlag) -> (r: bool)
        ensures
            r == self.spec_contains(flag),
    {
        match flag {
            ErrorFlag::CommandTooLong => self.command_too_long,
            ErrorFlag::IncorrectArgumentNum => self.incorrect_argument_num,
            ErrorFlag::UnknownKeyword => self.unknown_keyword,
            ErrorFlag::ResponseTooLong => self.response_too_long,
        }
    }

    /// Membership of a flag in the set, as a specification function.
    pub open spec fn spec_contains(&self, flag: ErrorFlag) -> bool {
        match flag {
            ErrorFlag::CommandTooLong => self.command_too_long,
            ErrorFlag::IncorrectArgumentNum => self.incorrect_argument_num,
            ErrorFlag::UnknownKeyword => self.unknown_keyword,
            ErrorFlag::ResponseTooLong => self.response_too_long,
        }
    }
}

/// A parsed client command: the resolved keyword and the raw octets of each argument.
#[derive(Debug, PartialEq, Eq)]
pub struct Command {
    pub keyword: Keyword,
    pub args: Vec<Vec<u8>>,
}

/// A parsed server response: the status, the remainder of the status line, and
/// the body lines of a multi-line response with byte-stuffing undone.
#[derive(Debug, PartialEq, Eq)]
pub struct Response {
    pub status: Status,
    pub header: Vec<u8>,
    pub data: Vec<Vec<u8>>,
}

/// Either side of the conversation.
#[derive(Debug, PartialEq, Eq)]
pub enum InnerMessage {
    Command(Command),
    Response(Response),
}

/// The public return unit of the parser: conformance flags plus the message.
#[derive(Debug, PartialEq, Eq)]
pub struct Message {
    pub error_flags: ErrorFlags,
    pub inner: InnerMessage,
}

/// The direction of the parsed traffic, when the caller knows it.
#[derive(Debug, Copy, Clone, PartialEq, Eq, Structural)]
pub enum Direction {
    /// Client to server: the command grammar applies.
    ToServer,
    /// Server to client: the response grammar applies.
    ToClient,
    /// Not known: both grammars are raced.
    Unknown,
}

/// How many more octets the parser requires before it can make progress.
#[derive(Debug, Copy, Clone, PartialEq, Eq, Structural)]
pub enum Needed {
    /// The amount cannot be determined from the octets seen so far.
    Unknown,
    /// At least this many additional octets are required.
    Size(usize),
}

/// Grammar violations that cannot be expressed as a conformance flag.
#[derive(Debug, Copy, Clone, PartialEq, Eq, Structural)]
pub enum ParseErrorKind {
    /// The keyword token was empty.
    EmptyKeyword,
    /// The keyword token begins with `+`: a server status line leaked into
    /// client-direction parsing.
    KeywordIsResponse,
    /// The keyword token holds an octet that is not ASCII alphanumeric, or
    /// does not begin with an ASCII alphabetic octet.
    InvalidKeyword,
    /// The status token is neither `+OK` nor `-ERR`.
    InvalidStatus,
    /// A CRLF line terminator was expected and something else stood there.
    ExpectedCrlf,
}

/// The error channel of the parser.
#[derive(Debug, Copy, Clone, PartialEq, Eq, Structural)]
pub enum Error {
    /// The buffer was exhausted before the grammar was satisfied; recoverable
    /// by supplying more octets.
    Incomplete(Needed),
    /// A grammar violation.
    Parse(ParseErrorKind),
}

/// What [`crate::POP3::probe`] reports of a buffer.
#[derive(Debug, Copy, Clone, PartialEq, Eq, Structural)]
pub enum ProbeStatus {
    /// The buffer parses as POP3 with no conformance flag.
    Recognized,
    /// The buffer is not POP3, or parses with a conformance flag set.
    Unrecognized,
    /// More octets are required to decide.
    Incomplete,
}

/// Specification-level keyword: the variant structure of [`Keyword`] with the
/// unknown verb as a sequence of octets.
#[verifier::ext_equal]
pub ghost enum KeywordV {
    QUIT,
    STAT,
    LIST,
    RETR,
    DELE,
    NOOP,
    RSET,
    TOP,
    UIDL,
    USER,
    PASS,
    APOP,
    CAPA,
    STLS,
    AUTH,
    SASL,
    Unknown(Seq<u8>),
}

/// Specification-level command.
#[verifier::ext_equal]
pub ghost struct CommandV {
    pub keyword: KeywordV,
    pub args: Seq<Seq<u8>>,
}

/// Specification-level response.
#[verifier::ext_equal]
pub ghost struct ResponseV {
    pub status: Status,
    pub header: Seq<u8>,
    pub data: Seq<Seq<u8>>,
}

/// Specification-level message body.
#[verifier::ext_equal]
pub ghost enum InnerMessageV {
    Command(CommandV),
    Response(ResponseV),
}

/// Specification-level message.
#[verifier::ext_equal]
pub ghost struct MessageV {
    pub error_flags: ErrorFlags,
    pub inner: InnerMessageV,
}

impl View for Keyword {
    type V = KeywordV;

    open spec fn view(&self) -> KeywordV {
        match self {
            Keyword::QUIT => KeywordV::QUIT,
            Keyword::STAT => KeywordV::STAT,
            Keyword::LIST => KeywordV::LIST,
            Keyword::RETR => KeywordV::RETR,
            Keyword::DELE => KeywordV::DELE,
            Keyword::NOOP => KeywordV::NOOP,
            Keyword::RSET => KeywordV::RSET,
            Keyword::TOP => KeywordV::TOP,
            Keyword::UIDL => KeywordV::UIDL,
            Keyword::USER => KeywordV::USER,
            Keyword::PASS => KeywordV::PASS,
            Keyword::APOP => KeywordV::APOP,
            Keyword::CAPA => KeywordV::CAPA,
            Keyword::STLS => KeywordV::STLS,
            Keyword::AUTH => KeywordV::AUTH,
            Keyword::SASL => KeywordV::SASL,
            Keyword::Unknown(raw) => KeywordV::Unknown(raw@),
        }
    }
}

impl View for Command {
    type V = CommandV;

    open spec fn view(&self) -> CommandV {
        CommandV { keyword: self.keyword@, args: self.args.deep_view() }
    }
}

impl View for Response {
    type V = ResponseV;

    open spec fn view(&self) -> ResponseV {
        ResponseV { status: self.status, header: self.header@, data: self.data.deep_view() }
    }
}

impl View for InnerMessage {
    type V = InnerMessageV;

    open spec fn view(&self) -> InnerMessageV {
        match self {
            InnerMessage::Command(c) => InnerMessageV::Command(c@),
            InnerMessage::Response(r) => InnerMessageV::Response(r@),
        }
    }
}

impl View for Message {
    type V = MessageV;

    open spec fn view(&self) -> MessageV {
        MessageV { error_flags: self.error_flags, inner: self.inner@ }
    }
}

impl Status {
    /// The status a raw token resolves to: exactly `+OK` or `-ERR`, anything
    /// else is a hard parse error.
    pub fn from_wire(token: &[u8]) -> (r: Result<Status, ParseErrorKind>)
        ensures
            token@ == crate::model::lit_ok() ==> r == Ok::<Status, ParseErrorKind>(Status::OK),
            token@ == crate::model::lit_err() ==> r == Ok::<Status, ParseErrorKind>(Status::ERR),
            token@ != crate::model::lit_ok() && token@ != crate::model::lit_err() ==> r == Err::<
                Status,
                ParseErrorKind,
            >(ParseErrorKind::InvalidStatus),
    {
        if token.len() == 3 && token[0] == 43 && token[1] == 79 && token[2] == 75 {
            proof {
                assert(token@ =~= crate::model::lit_ok());
            }
            Ok(Status::OK)
        } else if token.len() == 4 && token[0] == 45 && token[1] == 69 && token[2] == 82
            && token[3] == 82 {
            proof {
                assert(token@ =~= crate::model::lit_err());
                assert(token@[0] != crate::model::lit_ok()[0]);
            }
            Ok(Status::ERR)
        } else {
            proof {
                if token@ == crate::model::lit_ok() {
                    assert(token@.len() == 3 && token@[0] == 43 && token@[1] == 79 && token@[2]
                        == 75);
                }
                if token@ == crate::model::lit_err() {
                    assert(token@.len() == 4 && token@[0] == 45 && token@[1] == 69 && token@[2]
                        == 82 && token@[3] == 82);
                }
            }
            Err(ParseErrorKind::InvalidStatus)
        }
    }

    /// The bare name of the status, without the `+`/`-` sigil of the wire form.
    pub fn to_str(&self) -> (r: &'static str)
        ensures
            *self == Status::OK ==> r@ == "OK"@,
            *self == Status::ERR ==> r@ == "ERR"@,
    {
        match self {
            Status::OK => "OK",
            Status::ERR => "ERR",
        }
    }
}

} // verus!
