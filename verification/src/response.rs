//! The verified response grammar: one server response, parsed exactly as
//! [`crate::model::spec_parse_response`] describes.
use vstd::prelude::*;

use crate::command::{lemma_deep_view_entries, outcome_matches, ParseOutcome};
use crate::model::{multilines, scan_tag, spec_body, spec_parse_response, ListStep, DOT};
use crate::scan::{
    copy_range, scan_crlf_at, scan_err_at, scan_line_at, scan_ok_at, scan_spaces, scan_term_at,
    ScanStep,
};
use crate::types::{
    ErrorFlags, InnerMessage, Message, Needed, ParseErrorKind, Response, Status,
};

verus! {

/// Outcome of parsing a response body.
pub enum BodyOutcome {
    /// The position after the consumed octets, and the collected body lines.
    Done(usize, Vec<Vec<u8>>),
    /// More octets are required.
    Inc(Needed),
    /// The body is malformed.
    Fail(ParseErrorKind),
}

/// Whether an executable body outcome at `pos` agrees with [`spec_body`] on
/// the suffix starting at `pos`.
pub open spec fn body_outcome_matches(r: BodyOutcome, pos: usize, g: ListStep) -> bool {
    match (r, g) {
        (BodyOutcome::Done(p, v), ListStep::Done(c, a)) => p == pos + c && v.deep_view() == a,
        (BodyOutcome::Inc(m), ListStep::Inc(n)) => m == n,
        (BodyOutcome::Fail(e), ListStep::Fail(f)) => e == f,
        _ => false,
    }
}

/// The body of a response from `pos`, exactly as [`spec_body`] describes.
#[verifier::loop_isolation(false)]
#[verifier::rlimit(60)]
pub fn parse_body(s: &[u8], pos: usize) -> (r: BodyOutcome)
    requires
        pos <= s@.len(),
    ensures
        body_outcome_matches(r, pos, spec_body(s@.skip(pos as int))),
        r matches BodyOutcome::Done(p, _) ==> pos <= p <= s@.len(),
{
    let ghost whole = spec_body(s@.skip(pos as int));
    if pos == s.len() {
        let empty: Vec<Vec<u8>> = Vec::new();
        proof {
            assert(empty.deep_view() =~= Seq::<Seq<u8>>::empty());
        }
        return BodyOutcome::Done(pos, empty);
    }
    match scan_ok_at(s, pos) {
        ScanStep::Inc(n) => {
            return BodyOutcome::Inc(n);
        },
        ScanStep::Tok(_) => {
            let empty: Vec<Vec<u8>> = Vec::new();
            proof {
                assert(empty.deep_view() =~= Seq::<Seq<u8>>::empty());
            }
            return BodyOutcome::Done(pos, empty);
        },
        ScanStep::Fail => {},
    }
    match scan_err_at(s, pos) {
        ScanStep::Inc(n) => {
            return BodyOutcome::Inc(n);
        },
        ScanStep::Tok(_) => {
            let empty: Vec<Vec<u8>> = Vec::new();
            proof {
                assert(empty.deep_view() =~= Seq::<Seq<u8>>::empty());
            }
            return BodyOutcome::Done(pos, empty);
        },
        ScanStep::Fail => {},
    }
    let mut data: Vec<Vec<u8>> = Vec::new();
    let mut cur: usize = pos;
    proof {
        assert(data.deep_view() =~= Seq::<Seq<u8>>::empty());
    }
    loop
        invariant
            pos <= cur <= s@.len(),
            ({
                match multilines(s@.skip(cur as int), data.deep_view()) {
                    ListStep::Done(c, a) => whole == ListStep::Done((cur - pos + c) as nat, a),
                    ListStep::Inc(n) => whole == ListStep::Inc(n),
                    ListStep::Fail(e) => whole == ListStep::Fail(e),
                }
            }),
        decreases s@.len() - cur,
    {
        match scan_term_at(s, cur) {
            ScanStep::Inc(n) => {
                return BodyOutcome::Inc(n);
            },
            ScanStep::Tok(p) => {
                return BodyOutcome::Done(p, data);
            },
            ScanStep::Fail => {
                proof {
                    if s@.len() == cur {
                        assert(scan_tag(crate::model::lit_term(), s@.skip(cur as int))
                            is Inc);
                    }
                }
                let d: usize = if s[cur] == DOT {
                    1
                } else {
                    0
                };
                proof {
                    assert(s@.skip(cur as int)[0] == s@[cur as int]);
                    assert(s@.skip(cur as int).skip(d as int) =~= s@.skip(cur + d));
                }
                match scan_line_at(s, cur + d) {
                    ScanStep::Inc(n) => {
                        return BodyOutcome::Inc(n);
                    },
                    ScanStep::Fail => {
                        return BodyOutcome::Fail(ParseErrorKind::ExpectedCrlf);
                    },
                    ScanStep::Tok(line_end) => {
                        proof {
                            assert(s@.skip(cur as int).skip(line_end - cur) =~= s@.skip(
                                line_end as int,
                            ));
                        }
                        match scan_crlf_at(s, line_end) {
                            ScanStep::Inc(n) => {
                                return BodyOutcome::Inc(n);
                            },
                            ScanStep::Fail => {
                                return BodyOutcome::Fail(ParseErrorKind::ExpectedCrlf);
                            },
                            ScanStep::Tok(after) => {
                                proof {
                                    assert(s@.skip(cur as int).skip(after - cur) =~= s@.skip(
                                        after as int,
                                    ));
                                    assert(s@.skip(cur + d).take(line_end - (cur + d)) =~= s@
                                        .subrange(cur + d, line_end as int));
                                }
                                let ghost prev = data.deep_view();
                                data.push(copy_range(s, cur + d, line_end));
                                proof {
                                    lemma_deep_view_entries(data);
                                    assert(data.deep_view() =~= prev.push(
                                        s@.subrange(cur + d, line_end as int),
                                    ));
                                }
                                cur = after;
                            },
                        }
                    },
                }
            },
        }
    }
}

/// One server response from the head of `s`, exactly as
/// [`spec_parse_response`] describes.
pub fn parse_response(s: &[u8]) -> (r: ParseOutcome)
    ensures
        outcome_matches(r, spec_parse_response(s@)),
        r matches ParseOutcome::Msg(n, _) ==> n <= s@.len(),
{
    proof {
        assert(s@.skip(0) =~= s@);
    }
    let st = scan_ok_at(s, 0);
    let (status, status_len): (Status, usize) = match st {
        ScanStep::Inc(n) => {
            return ParseOutcome::Inc(n);
        },
        ScanStep::Tok(_) => (Status::OK, 3),
        ScanStep::Fail => match scan_err_at(s, 0) {
            ScanStep::Inc(n) => {
                return ParseOutcome::Inc(n);
            },
            ScanStep::Fail => {
                return ParseOutcome::Fail(ParseErrorKind::InvalidStatus);
            },
            ScanStep::Tok(_) => (Status::ERR, 4),
        },
    };
    match scan_spaces(s, status_len) {
        ScanStep::Inc(n) => ParseOutcome::Inc(n),
        // An optional scan never fails; the arm completes the match.
        ScanStep::Fail => ParseOutcome::Fail(ParseErrorKind::InvalidStatus),
        ScanStep::Tok(hdr_start) => match scan_line_at(s, hdr_start) {
            ScanStep::Inc(n) => ParseOutcome::Inc(n),
            ScanStep::Fail => ParseOutcome::Fail(ParseErrorKind::ExpectedCrlf),
            ScanStep::Tok(hdr_end) => match scan_crlf_at(s, hdr_end) {
                ScanStep::Inc(n) => ParseOutcome::Inc(n),
                ScanStep::Fail => ParseOutcome::Fail(ParseErrorKind::ExpectedCrlf),
                ScanStep::Tok(body_start) => match parse_body(s, body_start) {
                    BodyOutcome::Inc(n) => ParseOutcome::Inc(n),
                    BodyOutcome::Fail(e) => ParseOutcome::Fail(e),
                    BodyOutcome::Done(end, data) => {
                        let hlen = hdr_end - hdr_start;
                        let too_long: bool = if hlen > 512 {
                            true
                        } else {
                            status_len + hlen + 3 > 512
                        };
                        let flags = ErrorFlags {
                            command_too_long: false,
                            incorrect_argument_num: false,
                            unknown_keyword: false,
                            response_too_long: too_long,
                        };
                        let header = copy_range(s, hdr_start, hdr_end);
                        proof {
                            assert(s@.skip(hdr_start as int).take(hdr_end - hdr_start) =~= s@
                                .subrange(hdr_start as int, hdr_end as int));
                        }
                        let msg = Message {
                            error_flags: flags,
                            inner: InnerMessage::Response(
                                Response { status, header, data },
                            ),
                        };
                        ParseOutcome::Msg(end, msg)
                    },
                },
            },
        },
    }
}

} // verus!
