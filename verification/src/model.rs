//! The mathematical model of the POP3 grammar: specification functions that
//! define, octet by octet, what the streaming parser consumes and returns.
//!
//! Each primitive follows the streaming discipline: when it runs off the end
//! of the buffer it reports the minimum number of additional octets it would
//! accept (or [`Needed::Unknown`] where no minimum can be given), so that a
//! result is never invented from a buffer that might still grow.
use vstd::prelude::*;

use crate::types::{
    CommandV, Direction, ErrorFlags, InnerMessageV, KeywordV, MessageV, Needed, ParseErrorKind,
    ResponseV, Status,
};

verus! {

/// Carriage return.
pub const CR: u8 = 13;

/// Line feed.
pub const LF: u8 = 10;

/// Space.
pub const SP: u8 = 32;

/// Full stop, the byte-stuffing and terminator octet.
pub const DOT: u8 = 46;

/// Plus sign, the sigil of the success status token.
pub const PLUS: u8 = 43;

/// ASCII alphabetic octet.
pub open spec fn is_alpha(b: u8) -> bool {
    (65 <= b <= 90) || (97 <= b <= 122)
}

/// ASCII alphanumeric octet.
pub open spec fn is_alnum(b: u8) -> bool {
    is_alpha(b) || (48 <= b <= 57)
}

/// The space octet. POP3 separates tokens with 0x20 alone.
pub open spec fn is_space(b: u8) -> bool {
    b == SP
}

/// An octet that ends a line.
pub open spec fn is_line_end(b: u8) -> bool {
    b == CR || b == LF
}

/// [`is_alpha`] as a function value, shared by every scan of a keyword run.
pub open spec fn alpha_pred() -> spec_fn(u8) -> bool {
    |b: u8| is_alpha(b)
}

/// [`is_alnum`] as a function value, shared by every scan of an argument run.
pub open spec fn alnum_pred() -> spec_fn(u8) -> bool {
    |b: u8| is_alnum(b)
}

/// [`is_space`] as a function value, shared by every scan of a separator run.
pub open spec fn space_pred() -> spec_fn(u8) -> bool {
    |b: u8| is_space(b)
}

/// The octets a line may hold, as a function value: anything but `CR`/`LF`.
pub open spec fn line_pred() -> spec_fn(u8) -> bool {
    |b: u8| !is_line_end(b)
}

/// The wire form of the line terminator.
pub open spec fn lit_crlf() -> Seq<u8> {
    seq![CR, LF]
}

/// The wire form of the success status token.
pub open spec fn lit_ok() -> Seq<u8> {
    seq![43u8, 79u8, 75u8]
}

/// The wire form of the failure status token.
pub open spec fn lit_err() -> Seq<u8> {
    seq![45u8, 69u8, 82u8, 82u8]
}

/// The line that terminates a multi-line response body.
pub open spec fn lit_term() -> Seq<u8> {
    seq![46u8, CR, LF]
}

/// The verb `QUIT` on the wire.
pub open spec fn lit_quit() -> Seq<u8> {
    seq![81u8, 85u8, 73u8, 84u8]
}

/// The verb `STAT` on the wire.
pub open spec fn lit_stat() -> Seq<u8> {
    seq![83u8, 84u8, 65u8, 84u8]
}

/// The verb `LIST` on the wire.
pub open spec fn lit_list() -> Seq<u8> {
    seq![76u8, 73u8, 83u8, 84u8]
}

/// The verb `RETR` on the wire.
pub open spec fn lit_retr() -> Seq<u8> {
    seq![82u8, 69u8, 84u8, 82u8]
}

/// The verb `DELE` on the wire.
pub open spec fn lit_dele() -> Seq<u8> {
    seq![68u8, 69u8, 76u8, 69u8]
}

/// The verb `NOOP` on the wire.
pub open spec fn lit_noop() -> Seq<u8> {
    seq![78u8, 79u8, 79u8, 80u8]
}

/// The verb `RSET` on the wire.
pub open spec fn lit_rset() -> Seq<u8> {
    seq![82u8, 83u8, 69u8, 84u8]
}

/// The verb `TOP` on the wire.
pub open spec fn lit_top() -> Seq<u8> {
    seq![84u8, 79u8, 80u8]
}

/// The verb `UIDL` on the wire.
pub open spec fn lit_uidl() -> Seq<u8> {
    seq![85u8, 73u8, 68u8, 76u8]
}

/// The verb `USER` on the wire.
pub open spec fn lit_user() -> Seq<u8> {
    seq![85u8, 83u8, 69u8, 82u8]
}

/// The verb `PASS` on the wire.
pub open spec fn lit_pass() -> Seq<u8> {
    seq![80u8, 65u8, 83u8, 83u8]
}

/// The verb `APOP` on the wire.
pub open spec fn lit_apop() -> Seq<u8> {
    seq![65u8, 80u8, 79u8, 80u8]
}

/// The verb `CAPA` on the wire.
pub open spec fn lit_capa() -> Seq<u8> {
    seq![67u8, 65u8, 80u8, 65u8]
}

/// The verb `STLS` on the wire.
pub open spec fn lit_stls() -> Seq<u8> {
    seq![83u8, 84u8, 76u8, 83u8]
}

/// The verb `AUTH` on the wire.
pub open spec fn lit_auth() -> Seq<u8> {
    seq![65u8, 85u8, 84u8, 72u8]
}

/// The verb `SASL` on the wire.
pub open spec fn lit_sasl() -> Seq<u8> {
    seq![83u8, 65u8, 83u8, 76u8]
}

/// Length of the maximal prefix of `s` whose octets all satisfy `pred`.
pub open spec fn run_len(s: Seq<u8>, pred: spec_fn(u8) -> bool) -> nat
    decreases s.len(),
{
    if s.len() == 0 || !pred(s[0]) {
        0
    } else {
        1 + run_len(s.skip(1), pred)
    }
}

/// What a streaming primitive does with the head of the buffer.
pub ghost enum Scan {
    /// The primitive matched, consuming this many octets.
    Tok(nat),
    /// The buffer ended first; this many more octets are required.
    Inc(Needed),
    /// The head of the buffer cannot match the primitive.
    Fail,
}

/// A run of one or more octets satisfying `pred` (the streaming `alpha1`
/// family): fails on an immediate non-match, reports one more octet needed
/// when the run reaches the end of the buffer (the run might continue).
pub open spec fn scan1(s: Seq<u8>, pred: spec_fn(u8) -> bool) -> Scan {
    let k = run_len(s, pred);
    if k == s.len() {
        Scan::Inc(Needed::Size(1))
    } else if k == 0 {
        Scan::Fail
    } else {
        Scan::Tok(k)
    }
}

/// A fixed octet string at the head of the buffer (the streaming `tag`):
/// a mismatch within the overlap fails; a buffer that is a proper prefix of
/// the tag needs the remaining octets.
pub open spec fn scan_tag(t: Seq<u8>, s: Seq<u8>) -> Scan {
    if exists|i: int| 0 <= i < t.len() && i < s.len() && s[i] != t[i] {
        Scan::Fail
    } else if s.len() >= t.len() {
        Scan::Tok(t.len())
    } else {
        Scan::Inc(Needed::Size((t.len() - s.len()) as usize))
    }
}

/// The CRLF line terminator.
pub open spec fn scan_crlf(s: Seq<u8>) -> Scan {
    scan_tag(lit_crlf(), s)
}

/// Zero or more space octets (`opt(space1)`): never fails, but a run that
/// reaches the end of the buffer still needs more octets, because the run
/// might continue.
pub open spec fn scan_opt_space(s: Seq<u8>) -> Scan {
    match scan1(s, space_pred()) {
        Scan::Tok(k) => Scan::Tok(k),
        Scan::Inc(n) => Scan::Inc(n),
        Scan::Fail => Scan::Tok(0),
    }
}

/// The longest run of octets that are not `CR` or `LF`, stopping at a line
/// ending that must then be complete: a buffer without any line ending, or
/// ending in a bare `CR`, gives no bound on how many octets are missing; a
/// `CR` followed by anything but `LF` is a hard mismatch.
pub open spec fn scan_line(s: Seq<u8>) -> Scan {
    let k = run_len(s, line_pred());
    if k == s.len() {
        Scan::Inc(Needed::Unknown)
    } else if s[k as int] == LF {
        Scan::Tok(k)
    } else if k + 1 == s.len() {
        Scan::Inc(Needed::Unknown)
    } else if s[k as int + 1] == LF {
        Scan::Tok(k)
    } else {
        Scan::Fail
    }
}

/// How a token resolves to a [`KeywordV`].
pub ghost enum KwRes {
    Kw(KeywordV),
    Bad(ParseErrorKind),
}

/// Resolution of a raw keyword token: the sixteen known verbs match exactly
/// (case-sensitive); any other all-alphanumeric token is `Unknown`; a token
/// beginning with `+` is a response leaking into the command grammar; all
/// else is invalid.
pub open spec fn keyword_of(raw: Seq<u8>) -> KwRes {
    if raw.len() == 0 {
        KwRes::Bad(ParseErrorKind::EmptyKeyword)
    } else if raw[0] == PLUS {
        KwRes::Bad(ParseErrorKind::KeywordIsResponse)
    } else if raw == lit_quit() {
        KwRes::Kw(KeywordV::QUIT)
    } else if raw == lit_stat() {
        KwRes::Kw(KeywordV::STAT)
    } else if raw == lit_list() {
        KwRes::Kw(KeywordV::LIST)
    } else if raw == lit_retr() {
        KwRes::Kw(KeywordV::RETR)
    } else if raw == lit_dele() {
        KwRes::Kw(KeywordV::DELE)
    } else if raw == lit_noop() {
        KwRes::Kw(KeywordV::NOOP)
    } else if raw == lit_rset() {
        KwRes::Kw(KeywordV::RSET)
    } else if raw == lit_top() {
        KwRes::Kw(KeywordV::TOP)
    } else if raw == lit_uidl() {
        KwRes::Kw(KeywordV::UIDL)
    } else if raw == lit_user() {
        KwRes::Kw(KeywordV::USER)
    } else if raw == lit_pass() {
        KwRes::Kw(KeywordV::PASS)
    } else if raw == lit_apop() {
        KwRes::Kw(KeywordV::APOP)
    } else if raw == lit_capa() {
        KwRes::Kw(KeywordV::CAPA)
    } else if raw == lit_stls() {
        KwRes::Kw(KeywordV::STLS)
    } else if raw == lit_auth() {
        KwRes::Kw(KeywordV::AUTH)
    } else if raw == lit_sasl() {
        KwRes::Kw(KeywordV::SASL)
    } else if forall|i: int| 0 <= i < raw.len() ==> is_alnum(#[trigger] raw[i]) {
        KwRes::Kw(KeywordV::Unknown(raw))
    } else {
        KwRes::Bad(ParseErrorKind::InvalidKeyword)
    }
}

/// Whether the number of arguments disagrees with the verb's allowed arity.
/// An `Unknown` verb is not checked (it is already flagged).
pub open spec fn arity_wrong(kw: KeywordV, n: nat) -> bool {
    match kw {
        KeywordV::STAT | KeywordV::NOOP | KeywordV::RSET | KeywordV::QUIT | KeywordV::CAPA
            | KeywordV::STLS => n != 0,
        KeywordV::SASL => n == 0,
        KeywordV::LIST | KeywordV::UIDL => n > 1,
        KeywordV::RETR | KeywordV::DELE | KeywordV::USER | KeywordV::PASS => n != 1,
        KeywordV::AUTH => !(n == 1 || n == 2),
        KeywordV::TOP | KeywordV::APOP => n != 2,
        KeywordV::Unknown(_) => false,
    }
}

/// The octets an argument list accounts for on the wire: each argument plus
/// one separator octet, the last included by design.
pub open spec fn args_wire_len(args: Seq<Seq<u8>>) -> int
    decreases args.len(),
{
    if args.len() == 0 {
        0
    } else {
        args[0].len() + 1 + args_wire_len(args.skip(1))
    }
}

/// Whether a command line of this shape exceeds the RFC 2449 limit.
pub open spec fn cmd_too_long(kw_len: int, payload_len: int) -> bool {
    kw_len + payload_len + 2 > 256
}

/// Whether a response status line of this shape exceeds the RFC 2449 limit.
pub open spec fn resp_too_long(status_len: int, header_len: int) -> bool {
    status_len + 1 + header_len + 2 > 512
}

/// The conformance flags attached to a parsed command.
pub open spec fn cmd_flags(kw: KeywordV, kw_len: nat, args: Seq<Seq<u8>>) -> ErrorFlags {
    ErrorFlags {
        command_too_long: cmd_too_long(kw_len as int, args_wire_len(args)),
        incorrect_argument_num: arity_wrong(kw, args.len()),
        unknown_keyword: kw is Unknown,
        response_too_long: false,
    }
}

/// The conformance flags attached to a parsed response.
pub open spec fn resp_flags(status_len: nat, header_len: nat) -> ErrorFlags {
    ErrorFlags {
        command_too_long: false,
        incorrect_argument_num: false,
        unknown_keyword: false,
        response_too_long: resp_too_long(status_len as int, header_len as int),
    }
}

/// Outcome of a list parse (the argument list or a response body): the octets
/// consumed and the collected items, or a demand for more octets, or a hard
/// mismatch (only the response body can fail).
#[verifier::ext_equal]
pub ghost enum ListStep {
    Done(nat, Seq<Seq<u8>>),
    Inc(Needed),
    Fail(ParseErrorKind),
}

/// Arguments after the first: a separating run of spaces, then an
/// alphanumeric run, repeated; stops without consuming a trailing separator
/// (the grammar backtracks to just before it).
pub open spec fn args_more(s: Seq<u8>, acc: Seq<Seq<u8>>) -> ListStep
    decreases s.len(),
    via args_more_decreases
{
    match scan1(s, space_pred()) {
        Scan::Fail => ListStep::Done(0, acc),
        Scan::Inc(n) => ListStep::Inc(n),
        Scan::Tok(j) => match scan1(s.skip(j as int), alnum_pred()) {
            Scan::Fail => ListStep::Done(0, acc),
            Scan::Inc(n) => ListStep::Inc(n),
            Scan::Tok(k) => match args_more(
                s.skip(j + k as int),
                acc.push(s.skip(j as int).take(k as int)),
            ) {
                ListStep::Done(c, a) => ListStep::Done((j + k + c) as nat, a),
                ListStep::Inc(n) => ListStep::Inc(n),
                ListStep::Fail(e) => ListStep::Fail(e),
            },
        },
    }
}

#[via_fn]
proof fn args_more_decreases(s: Seq<u8>, acc: Seq<Seq<u8>>) {
    lemma_run_len_le(s, space_pred());
    lemma_run_len_le(s.skip(run_len(s, space_pred()) as int), alnum_pred());
}

/// The whole argument list: zero or more alphanumeric runs separated by runs
/// of spaces.
pub open spec fn spec_args(s: Seq<u8>) -> ListStep {
    match scan1(s, alnum_pred()) {
        Scan::Fail => ListStep::Done(0, seq![]),
        Scan::Inc(n) => ListStep::Inc(n),
        Scan::Tok(k) => match args_more(s.skip(k as int), seq![s.take(k as int)]) {
            ListStep::Done(c, a) => ListStep::Done((k + c) as nat, a),
            ListStep::Inc(n) => ListStep::Inc(n),
            ListStep::Fail(e) => ListStep::Fail(e),
        },
    }
}

/// The body lines of a multi-line response, each with one leading `.`
/// stripped (byte-stuffing reversal), up to and including the terminating
/// `.` line. The terminator is tried before each line.
pub open spec fn multilines(s: Seq<u8>, acc: Seq<Seq<u8>>) -> ListStep
    decreases s.len(),
    via multilines_decreases
{
    match scan_tag(lit_term(), s) {
        Scan::Tok(_) => ListStep::Done(3, acc),
        Scan::Inc(n) => ListStep::Inc(n),
        Scan::Fail => {
            if s.len() == 0 {
                ListStep::Inc(Needed::Size(1))
            } else {
                let d: nat = if s[0] == DOT { 1 } else { 0 };
                match scan_line(s.skip(d as int)) {
                    Scan::Inc(n) => ListStep::Inc(n),
                    Scan::Fail => ListStep::Fail(ParseErrorKind::ExpectedCrlf),
                    Scan::Tok(k) => match scan_crlf(s.skip(d + k as int)) {
                        Scan::Inc(n) => ListStep::Inc(n),
                        Scan::Fail => ListStep::Fail(ParseErrorKind::ExpectedCrlf),
                        Scan::Tok(_) => match multilines(
                            s.skip(d + k + 2int),
                            acc.push(s.skip(d as int).take(k as int)),
                        ) {
                            ListStep::Done(c, a) => ListStep::Done((d + k + 2 + c) as nat, a),
                            ListStep::Inc(n) => ListStep::Inc(n),
                            ListStep::Fail(e) => ListStep::Fail(e),
                        },
                    },
                }
            }
        },
    }
}

#[via_fn]
proof fn multilines_decreases(s: Seq<u8>, acc: Seq<Seq<u8>>) {
    if s.len() > 0 {
        let d: int = if s[0] == DOT { 1 } else { 0 };
        lemma_run_len_le(s.skip(d), line_pred());
    }
}

/// The body of a response. The grammar cannot tell from the status line
/// whether the body is multi-line, so it first accepts the single-line shape
/// (end of buffer, or another status token next), and only then reads a
/// multi-line body. A multi-line response whose body has not arrived yet is
/// therefore taken as single-line: correcting that needs session state,
/// which the parser does not keep.
pub open spec fn spec_body(s: Seq<u8>) -> ListStep {
    if s.len() == 0 {
        ListStep::Done(0, seq![])
    } else {
        match scan_tag(lit_ok(), s) {
            Scan::Tok(_) => ListStep::Done(0, seq![]),
            Scan::Inc(n) => ListStep::Inc(n),
            Scan::Fail => match scan_tag(lit_err(), s) {
                Scan::Tok(_) => ListStep::Done(0, seq![]),
                Scan::Inc(n) => ListStep::Inc(n),
                Scan::Fail => multilines(s, seq![]),
            },
        }
    }
}

/// Outcome of parsing one message from the head of a buffer.
#[verifier::ext_equal]
pub ghost enum SpecResult {
    /// The octets consumed and the message they parse to.
    Msg(nat, MessageV),
    /// More octets are required.
    Inc(Needed),
    /// The head of the buffer is not a message of the grammar.
    Fail(ParseErrorKind),
}

/// One client command line: an alphabetic keyword, optional spaces, a list
/// of alphanumeric arguments separated by spaces, and CRLF.
pub open spec fn spec_parse_command(s: Seq<u8>) -> SpecResult {
    match scan1(s, alpha_pred()) {
        Scan::Inc(n) => SpecResult::Inc(n),
        Scan::Fail => SpecResult::Fail(ParseErrorKind::InvalidKeyword),
        Scan::Tok(kw_len) => match scan_opt_space(s.skip(kw_len as int)) {
            Scan::Inc(n) => SpecResult::Inc(n),
            // An optional scan never fails; the arm completes the match.
            Scan::Fail => SpecResult::Fail(ParseErrorKind::InvalidKeyword),
            Scan::Tok(sp) => match keyword_of(s.take(kw_len as int)) {
                KwRes::Bad(e) => SpecResult::Fail(e),
                KwRes::Kw(kw) => match spec_args(s.skip(kw_len + sp as int)) {
                    ListStep::Inc(n) => SpecResult::Inc(n),
                    ListStep::Fail(e) => SpecResult::Fail(e),
                    ListStep::Done(alen, args) => match scan_crlf(
                        s.skip(kw_len + sp + alen as int),
                    ) {
                        Scan::Inc(n) => SpecResult::Inc(n),
                        Scan::Fail => SpecResult::Fail(ParseErrorKind::ExpectedCrlf),
                        Scan::Tok(_) => SpecResult::Msg(
                            (kw_len + sp + alen + 2) as nat,
                            MessageV {
                                error_flags: cmd_flags(kw, kw_len, args),
                                inner: InnerMessageV::Command(
                                    CommandV { keyword: kw, args },
                                ),
                            },
                        ),
                    },
                },
            },
        },
    }
}

/// One server response: a status token, optional spaces, the header up to
/// CRLF, and the body of [`spec_body`].
pub open spec fn spec_parse_response(s: Seq<u8>) -> SpecResult {
    let status_step: Scan = scan_tag(lit_ok(), s);
    let res = if status_step is Fail {
        scan_tag(lit_err(), s)
    } else {
        status_step
    };
    let status: Status = if status_step is Fail {
        Status::ERR
    } else {
        Status::OK
    };
    let status_len: nat = if status_step is Fail {
        4
    } else {
        3
    };
    match res {
        Scan::Inc(n) => SpecResult::Inc(n),
        Scan::Fail => SpecResult::Fail(ParseErrorKind::InvalidStatus),
        Scan::Tok(_) => match scan_opt_space(s.skip(status_len as int)) {
            Scan::Inc(n) => SpecResult::Inc(n),
            // An optional scan never fails; the arm completes the match.
            Scan::Fail => SpecResult::Fail(ParseErrorKind::InvalidStatus),
            Scan::Tok(sp) => match scan_line(s.skip(status_len + sp as int)) {
                Scan::Inc(n) => SpecResult::Inc(n),
                Scan::Fail => SpecResult::Fail(ParseErrorKind::ExpectedCrlf),
                Scan::Tok(h) => match scan_crlf(s.skip(status_len + sp + h as int)) {
                    Scan::Inc(n) => SpecResult::Inc(n),
                    Scan::Fail => SpecResult::Fail(ParseErrorKind::ExpectedCrlf),
                    Scan::Tok(_) => match spec_body(s.skip(status_len + sp + h + 2int)) {
                        ListStep::Inc(n) => SpecResult::Inc(n),
                        ListStep::Fail(e) => SpecResult::Fail(e),
                        ListStep::Done(c, data) => SpecResult::Msg(
                            (status_len + sp + h + 2 + c) as nat,
                            MessageV {
                                error_flags: resp_flags(status_len, h),
                                inner: InnerMessageV::Response(
                                    ResponseV {
                                        status,
                                        header: s.skip(status_len + sp as int).take(h as int),
                                        data,
                                    },
                                ),
                            },
                        ),
                    },
                },
            },
        },
    }
}

/// Reconciliation of the two grammars' "more octets needed" reports under
/// the unknown direction: an unknown amount defers to a known one, and of
/// two known amounts the smaller wins.
pub open spec fn merge_needed(a: Needed, b: Needed) -> Needed {
    match (a, b) {
        (Needed::Unknown, other) => other,
        (known, Needed::Unknown) => known,
        (Needed::Size(p), Needed::Size(q)) => if p < q {
            Needed::Size(p)
        } else {
            Needed::Size(q)
        },
    }
}

/// One message from the head of the buffer, routed by direction. Under the
/// unknown direction both grammars run: a successful command wins over a
/// successful response; two incomplete reports are merged by
/// [`merge_needed`]; one incomplete report wins over a hard failure; of two
/// hard failures the command grammar's is reported.
pub open spec fn spec_parse(s: Seq<u8>, direction: Direction) -> SpecResult {
    match direction {
        Direction::ToServer => spec_parse_command(s),
        Direction::ToClient => spec_parse_response(s),
        Direction::Unknown => {
            let c = spec_parse_command(s);
            let r = spec_parse_response(s);
            if c is Msg {
                c
            } else if r is Msg {
                r
            } else if c is Inc && r is Inc {
                SpecResult::Inc(merge_needed(c->Inc_0, r->Inc_0))
            } else if c is Inc {
                c
            } else if r is Inc {
                r
            } else {
                c
            }
        },
    }
}

/// The maximal run of octets satisfying `pred` is no longer than the buffer,
/// each octet in it satisfies `pred`, and the octet after it (if any) does
/// not.
pub proof fn lemma_run_len_props(s: Seq<u8>, pred: spec_fn(u8) -> bool)
    ensures
        run_len(s, pred) <= s.len(),
        forall|i: int| 0 <= i < run_len(s, pred) ==> pred(#[trigger] s[i]),
        run_len(s, pred) < s.len() ==> !pred(s[run_len(s, pred) as int]),
    decreases s.len(),
{
    if s.len() == 0 || !pred(s[0]) {
    } else {
        lemma_run_len_props(s.skip(1), pred);
        assert forall|i: int| 0 <= i < run_len(s, pred) implies pred(#[trigger] s[i]) by {
            if i > 0 {
                assert(s.skip(1)[i - 1] == s[i]);
            }
        }
        if run_len(s, pred) < s.len() {
            assert(s.skip(1)[run_len(s, pred) - 1] == s[run_len(s, pred) as int]);
        }
    }
}

/// Only the bound of [`lemma_run_len_props`].
pub proof fn lemma_run_len_le(s: Seq<u8>, pred: spec_fn(u8) -> bool)
    ensures
        run_len(s, pred) <= s.len(),
{
    lemma_run_len_props(s, pred);
}

/// A run is exactly characterized by its octets: if the first `k` octets
/// satisfy `pred` and the one after them (if any) does not, the maximal run
/// has length `k`.
pub proof fn lemma_run_len_is(s: Seq<u8>, pred: spec_fn(u8) -> bool, k: int)
    requires
        0 <= k <= s.len(),
        forall|i: int| 0 <= i < k ==> pred(#[trigger] s[i]),
        k < s.len() ==> !pred(s[k]),
    ensures
        run_len(s, pred) == k,
    decreases s.len(),
{
    if k == 0 {
        if s.len() > 0 && pred(s[0]) {
            assert(false);
        }
    } else {
        assert(pred(s[0]));
        assert forall|i: int| 0 <= i < k - 1 implies pred(#[trigger] s.skip(1)[i]) by {
            assert(s.skip(1)[i] == s[i + 1]);
        }
        if k - 1 < s.skip(1).len() {
            assert(s.skip(1)[k - 1] == s[k]);
        }
        lemma_run_len_is(s.skip(1), pred, k - 1);
    }
}

} // verus!
