//! Round-trip laws: parsing inverts serialization. A well-formed message,
//! written to the wire by [`crate::serial::serialize`]'s specification and
//! read back by the grammar, comes back unchanged — with any tail left
//! untouched behind it.
use vstd::prelude::*;

use crate::model::{
    alnum_pred, alpha_pred, args_more, cmd_flags, is_alnum, is_alpha, is_line_end, is_space,
    keyword_of, lit_apop, lit_auth, lit_capa, lit_crlf, lit_dele, lit_err, lit_list, lit_noop,
    lit_ok, lit_pass, lit_quit, lit_retr, lit_rset, lit_sasl, lit_stat, lit_stls, lit_term,
    lit_top, lit_uidl, lit_user, multilines, resp_flags, run_len, scan1,
    scan_crlf, scan_line, scan_opt_space, scan_tag, space_pred, spec_args, spec_body,
    spec_parse, spec_parse_command, spec_parse_response, KwRes, ListStep, Scan, SpecResult, CR,
    DOT, LF, PLUS, SP,
};
use crate::serial::{
    needs_stuffing, ser_args, ser_body, ser_command, ser_keyword, ser_lines, ser_message,
    ser_response, ser_status, starts_with, stuff_line,
};
use crate::types::{
    CommandV, Direction, ErrorFlags, InnerMessageV, KeywordV, MessageV, ResponseV,
};

verus! {

/// A well-formed argument: a non-empty run of ASCII alphanumeric octets.
pub open spec fn wf_arg(a: Seq<u8>) -> bool {
    a.len() > 0 && forall|j: int| 0 <= j < a.len() ==> is_alnum(#[trigger] a[j])
}

/// Every argument is well-formed.
pub open spec fn wf_args(args: Seq<Seq<u8>>) -> bool {
    forall|i: int| 0 <= i < args.len() ==> wf_arg(#[trigger] args[i])
}

/// A well-formed line: no carriage return or line feed inside it.
pub open spec fn wf_line(l: Seq<u8>) -> bool {
    forall|j: int| 0 <= j < l.len() ==> !is_line_end(#[trigger] l[j])
}

/// Every body line is well-formed.
pub open spec fn wf_lines(data: Seq<Seq<u8>>) -> bool {
    forall|i: int| 0 <= i < data.len() ==> wf_line(#[trigger] data[i])
}

/// A well-formed header: a line that does not begin with a space, as the
/// grammar never produces one (the optional space run is consumed whole).
pub open spec fn wf_header(h: Seq<u8>) -> bool {
    wf_line(h) && (h.len() > 0 ==> h[0] != SP)
}

/// A run token followed by a non-matching octet scans to exactly the token.
pub proof fn lemma_scan1_token(tok: Seq<u8>, rest: Seq<u8>, pred: spec_fn(u8) -> bool)
    requires
        tok.len() > 0,
        forall|i: int| 0 <= i < tok.len() ==> pred(#[trigger] tok[i]),
        rest.len() > 0,
        !pred(rest[0]),
    ensures
        scan1(tok + rest, pred) == Scan::Tok(tok.len()),
{
    let s = tok + rest;
    assert forall|i: int| 0 <= i < tok.len() implies pred(#[trigger] s[i]) by {
        assert(s[i] == tok[i]);
    }
    assert(s[tok.len() as int] == rest[0]);
    crate::model::lemma_run_len_is(s, pred, tok.len() as int);
}

/// A buffer whose first octet does not match scans to a failure.
pub proof fn lemma_scan1_none(s: Seq<u8>, pred: spec_fn(u8) -> bool)
    requires
        s.len() > 0,
        !pred(s[0]),
    ensures
        scan1(s, pred) == Scan::Fail,
{
    crate::model::lemma_run_len_is(s, pred, 0);
}

/// A buffer that begins with the whole tag matches it.
pub proof fn lemma_scan_tag_match(t: Seq<u8>, rest: Seq<u8>)
    ensures
        scan_tag(t, t + rest) == Scan::Tok(t.len()),
{
    let s = t + rest;
    assert forall|i: int| 0 <= i < t.len() && i < s.len() implies s[i] == t[i] by {
        assert(s[i] == t[i]);
    }
}

/// One differing octet within the overlap fails the tag.
pub proof fn lemma_scan_tag_mismatch(t: Seq<u8>, s: Seq<u8>, i: int)
    requires
        0 <= i < t.len(),
        i < s.len(),
        s[i] != t[i],
    ensures
        scan_tag(t, s) == Scan::Fail,
{
}

/// A line without line endings, followed by CRLF, scans to exactly the line.
pub proof fn lemma_scan_line_token(line: Seq<u8>, rest: Seq<u8>)
    requires
        wf_line(line),
        rest.len() >= 2,
        rest[0] == CR,
        rest[1] == LF,
    ensures
        scan_line(line + rest) == Scan::Tok(line.len()),
{
    let s = line + rest;
    assert forall|i: int| 0 <= i < line.len() implies crate::model::line_pred()(
        #[trigger] s[i],
    ) by {
        assert(s[i] == line[i]);
    }
    assert(s[line.len() as int] == rest[0]);
    crate::model::lemma_run_len_is(s, crate::model::line_pred(), line.len() as int);
    assert(s[line.len() as int + 1] == rest[1]);
}

/// The wire form of every known verb is a non-empty run of ASCII
/// alphabetic octets.
pub proof fn lemma_keyword_lit_alpha(kw: KeywordV)
    requires
        !(kw is Unknown),
    ensures
        ser_keyword(kw).len() > 0,
        forall|i: int| 0 <= i < ser_keyword(kw).len() ==> is_alpha(#[trigger] ser_keyword(kw)[i]),
{
    match kw {
            KeywordV::QUIT => {
                assert(lit_quit()[0] == 81);
                assert(lit_quit()[1] == 85);
                assert(lit_quit()[2] == 73);
                assert(lit_quit()[3] == 84);
                assert forall|i: int| 0 <= i < ser_keyword(kw).len() implies is_alpha(
                    #[trigger] ser_keyword(kw)[i],
                ) by {
                    assert(lit_quit().len() == 4);
                }
            },
            KeywordV::STAT => {
                assert(lit_stat()[0] == 83);
                assert(lit_stat()[1] == 84);
                assert(lit_stat()[2] == 65);
                assert(lit_stat()[3] == 84);
                assert forall|i: int| 0 <= i < ser_keyword(kw).len() implies is_alpha(
                    #[trigger] ser_keyword(kw)[i],
                ) by {
                    assert(lit_stat().len() == 4);
                }
            },
            KeywordV::LIST => {
                assert(lit_list()[0] == 76);
                assert(lit_list()[1] == 73);
                assert(lit_list()[2] == 83);
                assert(lit_list()[3] == 84);
                assert forall|i: int| 0 <= i < ser_keyword(kw).len() implies is_alpha(
                    #[trigger] ser_keyword(kw)[i],
                ) by {
                    assert(lit_list().len() == 4);
                }
            },
            KeywordV::RETR => {
                assert(lit_retr()[0] == 82);
                assert(lit_retr()[1] == 69);
                assert(lit_retr()[2] == 84);
                assert(lit_retr()[3] == 82);
                assert forall|i: int| 0 <= i < ser_keyword(kw).len() implies is_alpha(
                    #[trigger] ser_keyword(kw)[i],
                ) by {
                    assert(lit_retr().len() == 4);
                }
            },
            KeywordV::DELE => {
                assert(lit_dele()[0] == 68);
                assert(lit_dele()[1] == 69);
                assert(lit_dele()[2] == 76);
                assert(lit_dele()[3] == 69);
                assert forall|i: int| 0 <= i < ser_keyword(kw).len() implies is_alpha(
                    #[trigger] ser_keyword(kw)[i],
                ) by {
                    assert(lit_dele().len() == 4);
                }
            },
            KeywordV::NOOP => {
                assert(lit_noop()[0] == 78);
                assert(lit_noop()[1] == 79);
                assert(lit_noop()[2] == 79);
                assert(lit_noop()[3] == 80);
                assert forall|i: int| 0 <= i < ser_keyword(kw).len() implies is_alpha(
                    #[trigger] ser_keyword(kw)[i],
                ) by {
                    assert(lit_noop().len() == 4);
                }
            },
            KeywordV::RSET => {
                assert(lit_rset()[0] == 82);
                assert(lit_rset()[1] == 83);
                assert(lit_rset()[2] == 69);
                assert(lit_rset()[3] == 84);
                assert forall|i: int| 0 <= i < ser_keyword(kw).len() implies is_alpha(
                    #[trigger] ser_keyword(kw)[i],
                ) by {
                    assert(lit_rset().len() == 4);
                }
            },
            KeywordV::TOP => {
                assert(lit_top()[0] == 84);
                assert(lit_top()[1] == 79);
                assert(lit_top()[2] == 80);
                assert forall|i: int| 0 <= i < ser_keyword(kw).len() implies is_alpha(
                    #[trigger] ser_keyword(kw)[i],
                ) by {
                    assert(lit_top().len() == 3);
                }
            },
            KeywordV::UIDL => {
                assert(lit_uidl()[0] == 85);
                assert(lit_uidl()[1] == 73);
                assert(lit_uidl()[2] == 68);
                assert(lit_uidl()[3] == 76);
                assert forall|i: int| 0 <= i < ser_keyword(kw).len() implies is_alpha(
                    #[trigger] ser_keyword(kw)[i],
                ) by {
                    assert(lit_uidl().len() == 4);
                }
            },
            KeywordV::USER => {
                assert(lit_user()[0] == 85);
                assert(lit_user()[1] == 83);
                assert(lit_user()[2] == 69);
                assert(lit_user()[3] == 82);
                assert forall|i: int| 0 <= i < ser_keyword(kw).len() implies is_alpha(
                    #[trigger] ser_keyword(kw)[i],
                ) by {
                    assert(lit_user().len() == 4);
                }
            },
            KeywordV::PASS => {
                assert(lit_pass()[0] == 80);
                assert(lit_pass()[1] == 65);
                assert(lit_pass()[2] == 83);
                assert(lit_pass()[3] == 83);
                assert forall|i: int| 0 <= i < ser_keyword(kw).len() implies is_alpha(
                    #[trigger] ser_keyword(kw)[i],
                ) by {
                    assert(lit_pass().len() == 4);
                }
            },
            KeywordV::APOP => {
                assert(lit_apop()[0] == 65);
                assert(lit_apop()[1] == 80);
                assert(lit_apop()[2] == 79);
                assert(lit_apop()[3] == 80);
                assert forall|i: int| 0 <= i < ser_keyword(kw).len() implies is_alpha(
                    #[trigger] ser_keyword(kw)[i],
                ) by {
                    assert(lit_apop().len() == 4);
                }
            },
            KeywordV::CAPA => {
                assert(lit_capa()[0] == 67);
                assert(lit_capa()[1] == 65);
                assert(lit_capa()[2] == 80);
                assert(lit_capa()[3] == 65);
                assert forall|i: int| 0 <= i < ser_keyword(kw).len() implies is_alpha(
                    #[trigger] ser_keyword(kw)[i],
                ) by {
                    assert(lit_capa().len() == 4);
                }
            },
            KeywordV::STLS => {
                assert(lit_stls()[0] == 83);
                assert(lit_stls()[1] == 84);
                assert(lit_stls()[2] == 76);
                assert(lit_stls()[3] == 83);
                assert forall|i: int| 0 <= i < ser_keyword(kw).len() implies is_alpha(
                    #[trigger] ser_keyword(kw)[i],
                ) by {
                    assert(lit_stls().len() == 4);
                }
            },
            KeywordV::AUTH => {
                assert(lit_auth()[0] == 65);
                assert(lit_auth()[1] == 85);
                assert(lit_auth()[2] == 84);
                assert(lit_auth()[3] == 72);
                assert forall|i: int| 0 <= i < ser_keyword(kw).len() implies is_alpha(
                    #[trigger] ser_keyword(kw)[i],
                ) by {
                    assert(lit_auth().len() == 4);
                }
            },
            KeywordV::SASL => {
                assert(lit_sasl()[0] == 83);
                assert(lit_sasl()[1] == 65);
                assert(lit_sasl()[2] == 83);
                assert(lit_sasl()[3] == 76);
                assert forall|i: int| 0 <= i < ser_keyword(kw).len() implies is_alpha(
                    #[trigger] ser_keyword(kw)[i],
                ) by {
                    assert(lit_sasl().len() == 4);
                }
            },
            KeywordV::Unknown(_) => {},
        }
}

/// Resolving the wire form of a known verb gives that verb back.
pub proof fn lemma_keyword_of_ser(kw: KeywordV)
    requires
        !(kw is Unknown),
    ensures
        keyword_of(ser_keyword(kw)) == KwRes::Kw(kw),
{
    lemma_keyword_lit_alpha(kw);
    match kw {
            KeywordV::QUIT => {
                assert(lit_quit()[0] != PLUS);

            },
            KeywordV::STAT => {
                assert(lit_stat()[0] != PLUS);
                assert(lit_stat() != lit_quit()) by {
                    assert(lit_stat()[0] != lit_quit()[0]);
                }
            },
            KeywordV::LIST => {
                assert(lit_list()[0] != PLUS);
                assert(lit_list() != lit_quit()) by {
                    assert(lit_list()[0] != lit_quit()[0]);
                }
                assert(lit_list() != lit_stat()) by {
                    assert(lit_list()[0] != lit_stat()[0]);
                }
            },
            KeywordV::RETR => {
                assert(lit_retr()[0] != PLUS);
                assert(lit_retr() != lit_quit()) by {
                    assert(lit_retr()[0] != lit_quit()[0]);
                }
                assert(lit_retr() != lit_stat()) by {
                    assert(lit_retr()[0] != lit_stat()[0]);
                }
                assert(lit_retr() != lit_list()) by {
                    assert(lit_retr()[0] != lit_list()[0]);
                }
            },
            KeywordV::DELE => {
                assert(lit_dele()[0] != PLUS);
                assert(lit_dele() != lit_quit()) by {
                    assert(lit_dele()[0] != lit_quit()[0]);
                }
                assert(lit_dele() != lit_stat()) by {
                    assert(lit_dele()[0] != lit_stat()[0]);
                }
                assert(lit_dele() != lit_list()) by {
                    assert(lit_dele()[0] != lit_list()[0]);
                }
                assert(lit_dele() != lit_retr()) by {
                    assert(lit_dele()[0] != lit_retr()[0]);
                }
            },
            KeywordV::NOOP => {
                assert(lit_noop()[0] != PLUS);
                assert(lit_noop() != lit_quit()) by {
                    assert(lit_noop()[0] != lit_quit()[0]);
                }
                assert(lit_noop() != lit_stat()) by {
                    assert(lit_noop()[0] != lit_stat()[0]);
                }
                assert(lit_noop() != lit_list()) by {
                    assert(lit_noop()[0] != lit_list()[0]);
                }
                assert(lit_noop() != lit_retr()) by {
                    assert(lit_noop()[0] != lit_retr()[0]);
                }
                assert(lit_noop() != lit_dele()) by {
                    assert(lit_noop()[0] != lit_dele()[0]);
                }
            },
            KeywordV::RSET => {
                assert(lit_rset()[0] != PLUS);
                assert(lit_rset() != lit_quit()) by {
                    assert(lit_rset()[0] != lit_quit()[0]);
                }
                assert(lit_rset() != lit_stat()) by {
                    assert(lit_rset()[0] != lit_stat()[0]);
                }
                assert(lit_rset() != lit_list()) by {
                    assert(lit_rset()[0] != lit_list()[0]);
                }
                assert(lit_rset() != lit_retr()) by {
                    assert(lit_rset()[1] != lit_retr()[1]);
                }
                assert(lit_rset() != lit_dele()) by {
                    assert(lit_rset()[0] != lit_dele()[0]);
                }
                assert(lit_rset() != lit_noop()) by {
                    assert(lit_rset()[0] != lit_noop()[0]);
                }
            },
            KeywordV::TOP => {
                assert(lit_top()[0] != PLUS);
                assert(lit_top() != lit_quit()) by {
                    assert(lit_top().len() != lit_quit().len());
                }
                assert(lit_top() != lit_stat()) by {
                    assert(lit_top().len() != lit_stat().len());
                }
                assert(lit_top() != lit_list()) by {
                    assert(lit_top().len() != lit_list().len());
                }
                assert(lit_top() != lit_retr()) by {
                    assert(lit_top().len() != lit_retr().len());
                }
                assert(lit_top() != lit_dele()) by {
                    assert(lit_top().len() != lit_dele().len());
                }
                assert(lit_top() != lit_noop()) by {
                    assert(lit_top().len() != lit_noop().len());
                }
                assert(lit_top() != lit_rset()) by {
                    assert(lit_top().len() != lit_rset().len());
                }
            },
            KeywordV::UIDL => {
                assert(lit_uidl()[0] != PLUS);
                assert(lit_uidl() != lit_quit()) by {
                    assert(lit_uidl()[0] != lit_quit()[0]);
                }
                assert(lit_uidl() != lit_stat()) by {
                    assert(lit_uidl()[0] != lit_stat()[0]);
                }
                assert(lit_uidl() != lit_list()) by {
                    assert(lit_uidl()[0] != lit_list()[0]);
                }
                assert(lit_uidl() != lit_retr()) by {
                    assert(lit_uidl()[0] != lit_retr()[0]);
                }
                assert(lit_uidl() != lit_dele()) by {
                    assert(lit_uidl()[0] != lit_dele()[0]);
                }
                assert(lit_uidl() != lit_noop()) by {
                    assert(lit_uidl()[0] != lit_noop()[0]);
                }
                assert(lit_uidl() != lit_rset()) by {
                    assert(lit_uidl()[0] != lit_rset()[0]);
                }
                assert(lit_uidl() != lit_top()) by {
                    assert(lit_uidl().len() != lit_top().len());
                }
            },
            KeywordV::USER => {
                assert(lit_user()[0] != PLUS);
                assert(lit_user() != lit_quit()) by {
                    assert(lit_user()[0] != lit_quit()[0]);
                }
                assert(lit_user() != lit_stat()) by {
                    assert(lit_user()[0] != lit_stat()[0]);
                }
                assert(lit_user() != lit_list()) by {
                    assert(lit_user()[0] != lit_list()[0]);
                }
                assert(lit_user() != lit_retr()) by {
                    assert(lit_user()[0] != lit_retr()[0]);
                }
                assert(lit_user() != lit_dele()) by {
                    assert(lit_user()[0] != lit_dele()[0]);
                }
                assert(lit_user() != lit_noop()) by {
                    assert(lit_user()[0] != lit_noop()[0]);
                }
                assert(lit_user() != lit_rset()) by {
                    assert(lit_user()[0] != lit_rset()[0]);
                }
                assert(lit_user() != lit_top()) by {
                    assert(lit_user().len() != lit_top().len());
                }
                assert(lit_user() != lit_uidl()) by {
                    assert(lit_user()[1] != lit_uidl()[1]);
                }
            },
            KeywordV::PASS => {
                assert(lit_pass()[0] != PLUS);
                assert(lit_pass() != lit_quit()) by {
                    assert(lit_pass()[0] != lit_quit()[0]);
                }
                assert(lit_pass() != lit_stat()) by {
                    assert(lit_pass()[0] != lit_stat()[0]);
                }
                assert(lit_pass() != lit_list()) by {
                    assert(lit_pass()[0] != lit_list()[0]);
                }
                assert(lit_pass() != lit_retr()) by {
                    assert(lit_pass()[0] != lit_retr()[0]);
                }
                assert(lit_pass() != lit_dele()) by {
                    assert(lit_pass()[0] != lit_dele()[0]);
                }
                assert(lit_pass() != lit_noop()) by {
                    assert(lit_pass()[0] != lit_noop()[0]);
                }
                assert(lit_pass() != lit_rset()) by {
                    assert(lit_pass()[0] != lit_rset()[0]);
                }
                assert(lit_pass() != lit_top()) by {
                    assert(lit_pass().len() != lit_top().len());
                }
                assert(lit_pass() != lit_uidl()) by {
                    assert(lit_pass()[0] != lit_uidl()[0]);
                }
                assert(lit_pass() != lit_user()) by {
                    assert(lit_pass()[0] != lit_user()[0]);
                }
            },
            KeywordV::APOP => {
                assert(lit_apop()[0] != PLUS);
                assert(lit_apop() != lit_quit()) by {
                    assert(lit_apop()[0] != lit_quit()[0]);
                }
                assert(lit_apop() != lit_stat()) by {
                    assert(lit_apop()[0] != lit_stat()[0]);
                }
                assert(lit_apop() != lit_list()) by {
                    assert(lit_apop()[0] != lit_list()[0]);
                }
                assert(lit_apop() != lit_retr()) by {
                    assert(lit_apop()[0] != lit_retr()[0]);
                }
                assert(lit_apop() != lit_dele()) by {
                    assert(lit_apop()[0] != lit_dele()[0]);
                }
                assert(lit_apop() != lit_noop()) by {
                    assert(lit_apop()[0] != lit_noop()[0]);
                }
                assert(lit_apop() != lit_rset()) by {
                    assert(lit_apop()[0] != lit_rset()[0]);
                }
                assert(lit_apop() != lit_top()) by {
                    assert(lit_apop().len() != lit_top().len());
                }
                assert(lit_apop() != lit_uidl()) by {
                    assert(lit_apop()[0] != lit_uidl()[0]);
                }
                assert(lit_apop() != lit_user()) by {
                    assert(lit_apop()[0] != lit_user()[0]);
                }
                assert(lit_apop() != lit_pass()) by {
                    assert(lit_apop()[0] != lit_pass()[0]);
                }
            },
            KeywordV::CAPA => {
                assert(lit_capa()[0] != PLUS);
                assert(lit_capa() != lit_quit()) by {
                    assert(lit_capa()[0] != lit_quit()[0]);
                }
                assert(lit_capa() != lit_stat()) by {
                    assert(lit_capa()[0] != lit_stat()[0]);
                }
                assert(lit_capa() != lit_list()) by {
                    assert(lit_capa()[0] != lit_list()[0]);
                }
                assert(lit_capa() != lit_retr()) by {
                    assert(lit_capa()[0] != lit_retr()[0]);
                }
                assert(lit_capa() != lit_dele()) by {
                    assert(lit_capa()[0] != lit_dele()[0]);
                }
                assert(lit_capa() != lit_noop()) by {
                    assert(lit_capa()[0] != lit_noop()[0]);
                }
                assert(lit_capa() != lit_rset()) by {
                    assert(lit_capa()[0] != lit_rset()[0]);
                }
                assert(lit_capa() != lit_top()) by {
                    assert(lit_capa().len() != lit_top().len());
                }
                assert(lit_capa() != lit_uidl()) by {
                    assert(lit_capa()[0] != lit_uidl()[0]);
                }
                assert(lit_capa() != lit_user()) by {
                    assert(lit_capa()[0] != lit_user()[0]);
                }
                assert(lit_capa() != lit_pass()) by {
                    assert(lit_capa()[0] != lit_pass()[0]);
                }
                assert(lit_capa() != lit_apop()) by {
                    assert(lit_capa()[0] != lit_apop()[0]);
                }
            },
            KeywordV::STLS => {
                assert(lit_stls()[0] != PLUS);
                assert(lit_stls() != lit_quit()) by {
                    assert(lit_stls()[0] != lit_quit()[0]);
                }
                assert(lit_stls() != lit_stat()) by {
                    assert(lit_stls()[2] != lit_stat()[2]);
                }
                assert(lit_stls() != lit_list()) by {
                    assert(lit_stls()[0] != lit_list()[0]);
                }
                assert(lit_stls() != lit_retr()) by {
                    assert(lit_stls()[0] != lit_retr()[0]);
                }
                assert(lit_stls() != lit_dele()) by {
                    assert(lit_stls()[0] != lit_dele()[0]);
                }
                assert(lit_stls() != lit_noop()) by {
                    assert(lit_stls()[0] != lit_noop()[0]);
                }
                assert(lit_stls() != lit_rset()) by {
                    assert(lit_stls()[0] != lit_rset()[0]);
                }
                assert(lit_stls() != lit_top()) by {
                    assert(lit_stls().len() != lit_top().len());
                }
                assert(lit_stls() != lit_uidl()) by {
                    assert(lit_stls()[0] != lit_uidl()[0]);
                }
                assert(lit_stls() != lit_user()) by {
                    assert(lit_stls()[0] != lit_user()[0]);
                }
                assert(lit_stls() != lit_pass()) by {
                    assert(lit_stls()[0] != lit_pass()[0]);
                }
                assert(lit_stls() != lit_apop()) by {
                    assert(lit_stls()[0] != lit_apop()[0]);
                }
                assert(lit_stls() != lit_capa()) by {
                    assert(lit_stls()[0] != lit_capa()[0]);
                }
            },
            KeywordV::AUTH => {
                assert(lit_auth()[0] != PLUS);
                assert(lit_auth() != lit_quit()) by {
                    assert(lit_auth()[0] != lit_quit()[0]);
                }
                assert(lit_auth() != lit_stat()) by {
                    assert(lit_auth()[0] != lit_stat()[0]);
                }
                assert(lit_auth() != lit_list()) by {
                    assert(lit_auth()[0] != lit_list()[0]);
                }
                assert(lit_auth() != lit_retr()) by {
                    assert(lit_auth()[0] != lit_retr()[0]);
                }
                assert(lit_auth() != lit_dele()) by {
                    assert(lit_auth()[0] != lit_dele()[0]);
                }
                assert(lit_auth() != lit_noop()) by {
                    assert(lit_auth()[0] != lit_noop()[0]);
                }
                assert(lit_auth() != lit_rset()) by {
                    assert(lit_auth()[0] != lit_rset()[0]);
                }
                assert(lit_auth() != lit_top()) by {
                    assert(lit_auth().len() != lit_top().len());
                }
                assert(lit_auth() != lit_uidl()) by {
                    assert(lit_auth()[0] != lit_uidl()[0]);
                }
                assert(lit_auth() != lit_user()) by {
                    assert(lit_auth()[0] != lit_user()[0]);
                }
                assert(lit_auth() != lit_pass()) by {
                    assert(lit_auth()[0] != lit_pass()[0]);
                }
                assert(lit_auth() != lit_apop()) by {
                    assert(lit_auth()[1] != lit_apop()[1]);
                }
                assert(lit_auth() != lit_capa()) by {
                    assert(lit_auth()[0] != lit_capa()[0]);
                }
                assert(lit_auth() != lit_stls()) by {
                    assert(lit_auth()[0] != lit_stls()[0]);
                }
            },
            KeywordV::SASL => {
                assert(lit_sasl()[0] != PLUS);
                assert(lit_sasl() != lit_quit()) by {
                    assert(lit_sasl()[0] != lit_quit()[0]);
                }
                assert(lit_sasl() != lit_stat()) by {
                    assert(lit_sasl()[1] != lit_stat()[1]);
                }
                assert(lit_sasl() != lit_list()) by {
                    assert(lit_sasl()[0] != lit_list()[0]);
                }
                assert(lit_sasl() != lit_retr()) by {
                    assert(lit_sasl()[0] != lit_retr()[0]);
                }
                assert(lit_sasl() != lit_dele()) by {
                    assert(lit_sasl()[0] != lit_dele()[0]);
                }
                assert(lit_sasl() != lit_noop()) by {
                    assert(lit_sasl()[0] != lit_noop()[0]);
                }
                assert(lit_sasl() != lit_rset()) by {
                    assert(lit_sasl()[0] != lit_rset()[0]);
                }
                assert(lit_sasl() != lit_top()) by {
                    assert(lit_sasl().len() != lit_top().len());
                }
                assert(lit_sasl() != lit_uidl()) by {
                    assert(lit_sasl()[0] != lit_uidl()[0]);
                }
                assert(lit_sasl() != lit_user()) by {
                    assert(lit_sasl()[0] != lit_user()[0]);
                }
                assert(lit_sasl() != lit_pass()) by {
                    assert(lit_sasl()[0] != lit_pass()[0]);
                }
                assert(lit_sasl() != lit_apop()) by {
                    assert(lit_sasl()[0] != lit_apop()[0]);
                }
                assert(lit_sasl() != lit_capa()) by {
                    assert(lit_sasl()[0] != lit_capa()[0]);
                }
                assert(lit_sasl() != lit_stls()) by {
                    assert(lit_sasl()[1] != lit_stls()[1]);
                }
                assert(lit_sasl() != lit_auth()) by {
                    assert(lit_sasl()[0] != lit_auth()[0]);
                }
            },
            KeywordV::Unknown(_) => {},
        }
}


/// The serialized argument list, followed by anything that can neither
/// continue an argument nor separate one, parses back to exactly the
/// arguments already collected plus the serialized ones.
pub proof fn lemma_args_more_ser(args: Seq<Seq<u8>>, acc: Seq<Seq<u8>>, tail: Seq<u8>)
    requires
        wf_args(args),
        tail.len() > 0,
        !is_alnum(tail[0]),
        !is_space(tail[0]),
    ensures
        args_more(ser_args(args) + tail, acc) == ListStep::Done(ser_args(args).len(), acc + args),
    decreases args.len(),
{
    let s = ser_args(args) + tail;
    if args.len() == 0 {
        assert(s =~= tail);
        lemma_scan1_none(tail, space_pred());
        assert(acc + args =~= acc);
    } else {
        let a0 = args[0];
        assert(wf_arg(a0));
        let rest1 = a0 + (ser_args(args.skip(1)) + tail);
        assert(s =~= seq![SP] + rest1);
        assert(rest1[0] == a0[0]);
        lemma_scan1_token(seq![SP], rest1, space_pred());
        assert(scan1(s, space_pred()) == Scan::Tok(1));
        assert(s.skip(1) =~= rest1);
        let rest2 = ser_args(args.skip(1)) + tail;
        if args.skip(1).len() == 0 {
            assert(rest2 =~= tail);
            assert(!alnum_pred()(rest2[0]));
        } else {
            assert(ser_args(args.skip(1))[0] == SP);
            assert(rest2[0] == SP);
        }
        lemma_scan1_token(a0, rest2, alnum_pred());
        assert(rest1 =~= a0 + rest2);
        assert(scan1(s.skip(1), alnum_pred()) == Scan::Tok(a0.len()));
        assert(s.skip(1).take(a0.len() as int) =~= a0);
        assert(s.skip(1 + a0.len() as int) =~= rest2);
        lemma_args_more_ser(args.skip(1), acc.push(a0), tail);
        assert(acc.push(a0) + args.skip(1) =~= acc + args);
        assert(ser_args(args).len() == 1 + a0.len() + ser_args(args.skip(1)).len());
    }
}

/// The first serialized argument and the rest of the list parse to the list.
pub proof fn lemma_spec_args_ser(args: Seq<Seq<u8>>, tail: Seq<u8>)
    requires
        wf_args(args),
        args.len() > 0,
        tail.len() > 0,
        !is_alnum(tail[0]),
        !is_space(tail[0]),
    ensures
        spec_args(args[0] + (ser_args(args.skip(1)) + tail)) == ListStep::Done(
            args[0].len() + ser_args(args.skip(1)).len(),
            args,
        ),
{
    let a0 = args[0];
    assert(wf_arg(a0));
    let rest2 = ser_args(args.skip(1)) + tail;
    let s = a0 + rest2;
    if args.skip(1).len() == 0 {
        assert(rest2 =~= tail);
    } else {
        assert(ser_args(args.skip(1))[0] == SP);
        assert(rest2[0] == SP);
    }
    lemma_scan1_token(a0, rest2, alnum_pred());
    assert(s.take(a0.len() as int) =~= a0);
    assert(s.skip(a0.len() as int) =~= rest2);
    lemma_args_more_ser(args.skip(1), seq![a0], tail);
    assert(seq![a0] + args.skip(1) =~= args);
}

/// The serialized wire form of a command, with any tail behind it, parses to
/// exactly that command, consuming exactly the serialization. The
/// conformance flags come back as the flag computation on the same keyword
/// and arguments.
#[verifier::rlimit(100)]
#[verifier::spinoff_prover]
pub proof fn lemma_command_ser_parses(c: CommandV, tail: Seq<u8>)
    requires
        !(c.keyword is Unknown),
        wf_args(c.args),
    ensures
        spec_parse_command(ser_command(c) + tail) == SpecResult::Msg(
            ser_command(c).len(),
            MessageV {
                error_flags: cmd_flags(c.keyword, ser_keyword(c.keyword).len(), c.args),
                inner: InnerMessageV::Command(c),
            },
        ),
{
    let kwlit = ser_keyword(c.keyword);
    let sargs = ser_args(c.args);
    let s = ser_command(c) + tail;
    lemma_keyword_lit_alpha(c.keyword);
    let rest1 = sargs + (lit_crlf() + tail);
    assert(s =~= kwlit + rest1);
    if c.args.len() == 0 {
        assert(rest1 =~= lit_crlf() + tail);
        assert(rest1[0] == CR);
    } else {
        assert(sargs[0] == SP);
        assert(rest1[0] == SP);
    }
    lemma_scan1_token(kwlit, rest1, alpha_pred());
    assert(scan1(s, alpha_pred()) == Scan::Tok(kwlit.len()));
    let kw_len = kwlit.len();
    assert(s.take(kw_len as int) =~= kwlit);
    assert(s.skip(kw_len as int) =~= rest1);
    lemma_keyword_of_ser(c.keyword);
    if c.args.len() == 0 {
        // No space after the keyword; the argument list is empty.
        lemma_scan1_none(rest1, space_pred());
        assert(scan_opt_space(s.skip(kw_len as int)) == Scan::Tok(0));
        lemma_scan1_none(rest1, alnum_pred());
        assert(spec_args(rest1) == ListStep::Done(0, Seq::<Seq<u8>>::empty()));
        assert(Seq::<Seq<u8>>::empty() =~= c.args);
        assert(s.skip(kw_len as int) =~= lit_crlf() + tail);
        lemma_scan_tag_match(lit_crlf(), tail);
        assert(scan_crlf(s.skip(kw_len as int)) == Scan::Tok(2));
        assert(ser_command(c).len() == kw_len + 2);
    } else {
        let a0 = c.args[0];
        assert(wf_arg(a0));
        let rest2 = a0 + (ser_args(c.args.skip(1)) + (lit_crlf() + tail));
        assert(rest1 =~= seq![SP] + rest2);
        assert(rest2[0] == a0[0]);
        lemma_scan1_token(seq![SP], rest2, space_pred());
        assert(scan_opt_space(s.skip(kw_len as int)) == Scan::Tok(1));
        assert(s.skip(kw_len as int + 1) =~= rest2);
        let ctail = lit_crlf() + tail;
        assert(ctail[0] == CR);
        assert(rest2 =~= a0 + (ser_args(c.args.skip(1)) + ctail));
        lemma_spec_args_ser(c.args, ctail);
        let alen = a0.len() + ser_args(c.args.skip(1)).len();
        assert(spec_args(rest2) == ListStep::Done(alen, c.args));
        assert(s.skip(kw_len as int + 1 + alen) =~= ctail);
        lemma_scan_tag_match(lit_crlf(), tail);
        assert(scan_crlf(s.skip(kw_len as int + 1 + alen)) == Scan::Tok(2));
        assert(ser_command(c).len() == kw_len + 1 + alen + 2);
    }
}

/// A stuffed body line on the wire can be mistaken for neither a status
/// token nor the terminating line: the serializer armors exactly the lines
/// that could.
pub proof fn lemma_stuffed_line_shape(l: Seq<u8>, rest: Seq<u8>)
    requires
        wf_line(l),
    ensures
        scan_tag(lit_ok(), stuff_line(l) + (lit_crlf() + rest)) == Scan::Fail,
        scan_tag(lit_err(), stuff_line(l) + (lit_crlf() + rest)) == Scan::Fail,
        scan_tag(lit_term(), stuff_line(l) + (lit_crlf() + rest)) == Scan::Fail,
{
    let u = stuff_line(l) + (lit_crlf() + rest);
    if needs_stuffing(l) {
        assert(stuff_line(l) == seq![DOT] + l);
        assert(u[0] == DOT);
        lemma_scan_tag_mismatch(lit_ok(), u, 0);
        lemma_scan_tag_mismatch(lit_err(), u, 0);
        // The octet after the armor dot is the line's first octet, which is
        // `.`, `+` or `-`, never the carriage return of the terminator line.
        assert(l.len() > 0);
        assert(u[1] == l[0]);
        if l[0] == DOT {
            lemma_scan_tag_mismatch(lit_term(), u, 1);
        } else if starts_with(l, lit_ok()) {
            assert(l[0] == l.take(3)[0]);
            lemma_scan_tag_mismatch(lit_term(), u, 1);
        } else {
            assert(starts_with(l, lit_err()));
            assert(l[0] == l.take(4)[0]);
            lemma_scan_tag_mismatch(lit_term(), u, 1);
        }
    } else {
        if l.len() == 0 {
            assert(u[0] == CR);
            lemma_scan_tag_mismatch(lit_ok(), u, 0);
            lemma_scan_tag_mismatch(lit_err(), u, 0);
            lemma_scan_tag_mismatch(lit_term(), u, 0);
        } else {
            assert(u[0] == l[0]);
            assert(l[0] != DOT);
            lemma_scan_tag_mismatch(lit_term(), u, 0);
            lemma_line_no_status_tag(l, lit_crlf() + rest, lit_ok());
            lemma_line_no_status_tag(l, lit_crlf() + rest, lit_err());
        }
    }
}

/// A line that does not begin with the given status token, followed by a
/// carriage return, cannot match that token either.
proof fn lemma_line_no_status_tag(l: Seq<u8>, rest: Seq<u8>, t: Seq<u8>)
    requires
        !starts_with(l, t),
        rest.len() > 0,
        rest[0] == CR,
        forall|i: int| 0 <= i < t.len() ==> #[trigger] t[i] != CR,
        t.len() > 0,
    ensures
        scan_tag(t, l + rest) == Scan::Fail,
{
    let u = l + rest;
    if l.len() >= t.len() {
        // The token would have to stand at the head of the line itself.
        assert(!(l.take(t.len() as int) == t));
        if forall|i: int| 0 <= i < t.len() ==> #[trigger] l[i] == t[i] {
            assert(l.take(t.len() as int) =~= t);
            assert(false);
        }
        let i = choose|i: int| 0 <= i < t.len() && #[trigger] l[i] != t[i];
        assert(u[i] == l[i]);
        lemma_scan_tag_mismatch(t, u, i);
    } else {
        // The carriage return after the line falls inside the token.
        if forall|i: int| 0 <= i < l.len() ==> #[trigger] l[i] == t[i] {
            assert(u[l.len() as int] == CR);
            lemma_scan_tag_mismatch(t, u, l.len() as int);
        } else {
            let i = choose|i: int| 0 <= i < l.len() && #[trigger] l[i] != t[i];
            assert(u[i] == l[i]);
            lemma_scan_tag_mismatch(t, u, i);
        }
    }
}

/// The serialized body lines, the terminator, and any tail parse back to
/// exactly the collected lines plus the serialized ones.
#[verifier::rlimit(100)]
#[verifier::spinoff_prover]
pub proof fn lemma_multilines_ser(data: Seq<Seq<u8>>, acc: Seq<Seq<u8>>, tail: Seq<u8>)
    requires
        wf_lines(data),
    ensures
        multilines(ser_lines(data) + (lit_term() + tail), acc) == ListStep::Done(
            (ser_lines(data).len() + 3) as nat,
            acc + data,
        ),
    decreases data.len(),
{
    let u = ser_lines(data) + (lit_term() + tail);
    if data.len() == 0 {
        assert(u =~= lit_term() + tail);
        lemma_scan_tag_match(lit_term(), tail);
        assert(acc + data =~= acc);
    } else {
        let d0 = data[0];
        assert(wf_line(d0));
        let rest = ser_lines(data.skip(1)) + (lit_term() + tail);
        assert(u =~= stuff_line(d0) + (lit_crlf() + rest));
        lemma_stuffed_line_shape(d0, rest);
        assert(scan_tag(lit_term(), u) == Scan::Fail);
        assert(u.len() > 0);
        let d: nat = if needs_stuffing(d0) { 1 } else { 0 };
        if needs_stuffing(d0) {
            assert(stuff_line(d0) == seq![DOT] + d0);
            assert(u[0] == DOT);
        } else {
            if d0.len() == 0 {
                assert(u[0] == CR);
            } else {
                assert(u[0] == d0[0]);
                assert(d0[0] != DOT);
            }
        }
        assert((if u[0] == DOT { 1nat } else { 0nat }) == d);
        assert(u.skip(d as int) =~= d0 + (lit_crlf() + rest));
        lemma_scan_line_token(d0, lit_crlf() + rest);
        assert(scan_line(u.skip(d as int)) == Scan::Tok(d0.len()));
        assert(u.skip(d + d0.len() as int) =~= lit_crlf() + rest);
        lemma_scan_tag_match(lit_crlf(), rest);
        assert(scan_crlf(u.skip(d + d0.len() as int)) == Scan::Tok(2));
        assert(u.skip(d as int).take(d0.len() as int) =~= d0);
        assert(u.skip(d + d0.len() + 2int) =~= rest);
        lemma_multilines_ser(data.skip(1), acc.push(d0), tail);
        assert(acc.push(d0) + data.skip(1) =~= acc + data);
        assert(ser_lines(data).len() == stuff_line(d0).len() + 2 + ser_lines(
            data.skip(1),
        ).len());
        assert(stuff_line(d0).len() == d + d0.len());
    }
}

/// The serialized body and an admissible tail parse back to the body lines.
/// For a single-line response — no body on the wire — the tail must be
/// empty or begin with a status token, or the grammar would read it as body.
#[verifier::rlimit(100)]
#[verifier::spinoff_prover]
pub proof fn lemma_body_ser(data: Seq<Seq<u8>>, tail: Seq<u8>)
    requires
        wf_lines(data),
        data.len() == 0 ==> tail.len() == 0 || starts_with(tail, lit_ok()) || starts_with(
            tail,
            lit_err(),
        ),
    ensures
        spec_body(ser_body(data) + tail) == ListStep::Done(ser_body(data).len(), data),
{
    let u = ser_body(data) + tail;
    if data.len() == 0 {
        assert(u =~= tail);
        assert(data =~= Seq::<Seq<u8>>::empty());
        if tail.len() == 0 {
        } else if starts_with(tail, lit_ok()) {
            assert forall|i: int| 0 <= i < 3 && i < tail.len() implies tail[i] == lit_ok()[i] by {
                assert(tail.take(3)[i] == tail[i]);
            }
            assert(scan_tag(lit_ok(), tail) == Scan::Tok(3));
        } else {
            assert(starts_with(tail, lit_err()));
            assert forall|i: int| 0 <= i < 4 && i < tail.len() implies tail[i] == lit_err()[i] by {
                assert(tail.take(4)[i] == tail[i]);
            }
            assert(tail[0] == 45);
            lemma_scan_tag_mismatch(lit_ok(), tail, 0);
            assert(scan_tag(lit_err(), tail) == Scan::Tok(4));
        }
    } else {
        let d0 = data[0];
        let rest = ser_lines(data.skip(1)) + (lit_term() + tail);
        assert(u =~= stuff_line(d0) + (lit_crlf() + rest));
        lemma_stuffed_line_shape(d0, rest);
        assert(u.len() > 0);
        lemma_multilines_ser(data, Seq::<Seq<u8>>::empty(), tail);
        assert(u =~= ser_lines(data) + (lit_term() + tail));
        assert(Seq::<Seq<u8>>::empty() + data =~= data);
        assert(ser_body(data).len() == ser_lines(data).len() + 3);
    }
}

/// The serialized wire form of a response, with an admissible tail behind
/// it, parses to exactly that response, consuming exactly the
/// serialization.
/// The scans of a serialized status line: the status token, the optional
/// space, the header, and its CRLF, each landing exactly where the
/// serializer put them.
#[verifier::rlimit(100)]
#[verifier::spinoff_prover]
proof fn lemma_response_ser_scans(r: ResponseV, bodytail: Seq<u8>)
    requires
        wf_header(r.header),
    ensures
        ({
            let st = ser_status(r.status);
            let hdrpart: Seq<u8> = if r.header.len() > 0 {
                seq![SP] + r.header
            } else {
                Seq::empty()
            };
            let s = (st + hdrpart + lit_crlf()) + bodytail;
            let slen = st.len();
            let sp: nat = if r.header.len() > 0 {
                1
            } else {
                0
            };
            &&& scan_tag(lit_ok(), s) == (if r.status is OK {
                Scan::Tok(3nat)
            } else {
                Scan::Fail
            })
            &&& (r.status is ERR ==> scan_tag(lit_err(), s) == Scan::Tok(4))
            &&& scan_opt_space(s.skip(slen as int)) == Scan::Tok(sp)
            &&& scan_line(s.skip(slen + sp as int)) == Scan::Tok(r.header.len())
            &&& s.skip(slen + sp as int).take(r.header.len() as int) == r.header
            &&& scan_crlf(s.skip(slen + sp + r.header.len() as int)) == Scan::Tok(2)
            &&& s.skip(slen + sp + r.header.len() + 2int) == bodytail
        }),
{
    let st = ser_status(r.status);
    let hdrpart: Seq<u8> = if r.header.len() > 0 { seq![SP] + r.header } else { Seq::empty() };
    let s = (st + hdrpart + lit_crlf()) + bodytail;
    let rest1 = hdrpart + (lit_crlf() + bodytail);
    assert(s =~= st + rest1);
    let slen = st.len();
    match r.status {
        crate::types::Status::OK => {
            lemma_scan_tag_match(lit_ok(), rest1);
        },
        crate::types::Status::ERR => {
            assert(s[0] == 45);
            lemma_scan_tag_mismatch(lit_ok(), s, 0);
            lemma_scan_tag_match(lit_err(), rest1);
        },
    }
    assert(s.skip(slen as int) =~= rest1);
    let rest2 = r.header + (lit_crlf() + bodytail);
    let sp: nat = if r.header.len() > 0 { 1 } else { 0 };
    if r.header.len() > 0 {
        assert(rest1 =~= seq![SP] + rest2);
        assert(rest2[0] == r.header[0]);
        lemma_scan1_token(seq![SP], rest2, space_pred());
    } else {
        assert(rest1 =~= rest2);
        assert(rest2[0] == CR);
        lemma_scan1_none(rest2, space_pred());
    }
    assert(s.skip(slen + sp as int) =~= rest2);
    lemma_scan_line_token(r.header, lit_crlf() + bodytail);
    assert(s.skip(slen + sp as int).take(r.header.len() as int) =~= r.header);
    assert(s.skip(slen + sp + r.header.len() as int) =~= lit_crlf() + bodytail);
    lemma_scan_tag_match(lit_crlf(), bodytail);
    assert(s.skip(slen + sp + r.header.len() + 2int) =~= bodytail);
}

/// The serialized wire form of a response, with an admissible tail behind
/// it, parses to exactly that response, consuming exactly the
/// serialization.
#[verifier::rlimit(100)]
#[verifier::spinoff_prover]
pub proof fn lemma_response_ser_parses(r: ResponseV, tail: Seq<u8>)
    requires
        wf_header(r.header),
        wf_lines(r.data),
        r.data.len() == 0 ==> tail.len() == 0 || starts_with(tail, lit_ok()) || starts_with(
            tail,
            lit_err(),
        ),
    ensures
        spec_parse_response(ser_response(r) + tail) == SpecResult::Msg(
            ser_response(r).len(),
            MessageV {
                error_flags: resp_flags(ser_status(r.status).len(), r.header.len()),
                inner: InnerMessageV::Response(r),
            },
        ),
{
    let st = ser_status(r.status);
    let hdrpart: Seq<u8> = if r.header.len() > 0 { seq![SP] + r.header } else { Seq::empty() };
    let bodytail = ser_body(r.data) + tail;
    let s = ser_response(r) + tail;
    assert(s =~= (st + hdrpart + lit_crlf()) + bodytail);
    lemma_response_ser_scans(r, bodytail);
    lemma_body_ser(r.data, tail);
    let slen = st.len();
    let sp: nat = if r.header.len() > 0 { 1 } else { 0 };
    assert(ser_response(r).len() == slen + hdrpart.len() + 2 + ser_body(r.data).len());
    assert(hdrpart.len() == sp + r.header.len());
}

/// The arguments a parse collects are well-formed: the grammar only accepts
/// non-empty alphanumeric runs.
proof fn lemma_args_more_wf(s: Seq<u8>, acc: Seq<Seq<u8>>)
    requires
        wf_args(acc),
    ensures
        args_more(s, acc) matches ListStep::Done(_, a) ==> wf_args(a),
    decreases s.len(),
{
    if args_more(s, acc) is Done {
        crate::model::lemma_run_len_props(s, space_pred());
        match scan1(s, space_pred()) {
            Scan::Tok(j) => {
                crate::model::lemma_run_len_props(s.skip(j as int), alnum_pred());
                match scan1(s.skip(j as int), alnum_pred()) {
                    Scan::Tok(k) => {
                        let item = s.skip(j as int).take(k as int);
                        assert(wf_arg(item)) by {
                            assert forall|x: int| 0 <= x < item.len() implies is_alnum(
                                #[trigger] item[x],
                            ) by {
                                assert(item[x] == s.skip(j as int)[x]);
                            }
                        }
                        assert(wf_args(acc.push(item))) by {
                            assert forall|i: int|
                                0 <= i < acc.push(item).len() implies wf_arg(
                                #[trigger] acc.push(item)[i],
                            ) by {
                                if i < acc.len() {
                                    assert(acc.push(item)[i] == acc[i]);
                                } else {
                                    assert(acc.push(item)[i] == item);
                                }
                            }
                        }
                        lemma_args_more_wf(s.skip(j + k as int), acc.push(item));
                    },
                    _ => {},
                }
            },
            _ => {},
        }
    }
}

/// Every argument list the grammar yields is well-formed.
proof fn lemma_spec_args_wf(s: Seq<u8>)
    ensures
        spec_args(s) matches ListStep::Done(_, a) ==> wf_args(a),
{
    crate::model::lemma_run_len_props(s, alnum_pred());
    match scan1(s, alnum_pred()) {
        Scan::Tok(k) => {
            let item = s.take(k as int);
            assert(wf_arg(item)) by {
                assert forall|x: int| 0 <= x < item.len() implies is_alnum(
                    #[trigger] item[x],
                ) by {
                    assert(item[x] == s[x]);
                }
            }
            assert(wf_args(seq![item])) by {
                assert(seq![item][0] == item);
            }
            lemma_args_more_wf(s.skip(k as int), seq![item]);
        },
        Scan::Fail => {
            assert(wf_args(Seq::<Seq<u8>>::empty()));
        },
        _ => {},
    }
}

/// The body lines a parse collects are well-formed: each stops at the first
/// line ending.
proof fn lemma_multilines_wf(s: Seq<u8>, acc: Seq<Seq<u8>>)
    requires
        wf_lines(acc),
    ensures
        multilines(s, acc) matches ListStep::Done(_, a) ==> wf_lines(a),
    decreases s.len(),
{
    if multilines(s, acc) is Done {
        match scan_tag(lit_term(), s) {
            Scan::Fail => {
                if s.len() > 0 {
                    let d: nat = if s[0] == DOT {
                        1
                    } else {
                        0
                    };
                    crate::model::lemma_run_len_props(s.skip(d as int), crate::model::line_pred());
                    match scan_line(s.skip(d as int)) {
                        Scan::Tok(k) => {
                            match scan_crlf(s.skip(d + k as int)) {
                                Scan::Tok(_) => {
                                    let item = s.skip(d as int).take(k as int);
                                    assert(wf_line(item)) by {
                                        assert forall|x: int|
                                            0 <= x < item.len() implies !is_line_end(
                                            #[trigger] item[x],
                                        ) by {
                                            assert(item[x] == s.skip(d as int)[x]);
                                        }
                                    }
                                    assert(wf_lines(acc.push(item))) by {
                                        assert forall|i: int|
                                            0 <= i < acc.push(item).len() implies wf_line(
                                            #[trigger] acc.push(item)[i],
                                        ) by {
                                            if i < acc.len() {
                                                assert(acc.push(item)[i] == acc[i]);
                                            } else {
                                                assert(acc.push(item)[i] == item);
                                            }
                                        }
                                    }
                                    lemma_multilines_wf(s.skip(d + k + 2int), acc.push(item));
                                },
                                _ => {},
                            }
                        },
                        _ => {},
                    }
                }
            },
            _ => {},
        }
    }
}

/// A message the command grammar yields: a command with well-formed
/// arguments, whose unknown-keyword flag records exactly whether the verb
/// was unknown, and — for a known verb — whose flags are the flag
/// computation on that verb's wire form and the arguments.
#[verifier::rlimit(100)]
#[verifier::spinoff_prover]
pub proof fn lemma_command_parse_shape(b: Seq<u8>)
    ensures
        spec_parse_command(b) matches SpecResult::Msg(_, m) ==> {
            let c = m.inner->Command_0;
            &&& m.inner is Command
            &&& wf_args(c.args)
            &&& m.error_flags.unknown_keyword == (c.keyword is Unknown)
            &&& m.error_flags.response_too_long == false
            &&& (!(c.keyword is Unknown) ==> m.error_flags == cmd_flags(
                c.keyword,
                ser_keyword(c.keyword).len(),
                c.args,
            ))
        },
{
    if spec_parse_command(b) is Msg {
        crate::model::lemma_run_len_le(b, alpha_pred());
        match scan1(b, alpha_pred()) {
            Scan::Tok(kw_len) => {
                lemma_spec_args_wf(b.skip(kw_len + run_len(b.skip(kw_len as int), space_pred()) as int));
                let raw = b.take(kw_len as int);
                assert(raw.len() == kw_len);
                match keyword_of(raw) {
                    KwRes::Kw(kw) => {
                        if !(kw is Unknown) {
                            assert(raw == ser_keyword(kw));
                        }
                    },
                    _ => {},
                }
            },
            _ => {},
        }
    }
}

/// A message the response grammar yields: a response with a well-formed
/// header and well-formed body lines, whose flags are the flag computation
/// on the status token's wire form and the header.
#[verifier::rlimit(100)]
#[verifier::spinoff_prover]
pub proof fn lemma_response_parse_shape(b: Seq<u8>)
    ensures
        spec_parse_response(b) matches SpecResult::Msg(_, m) ==> {
            let r = m.inner->Response_0;
            &&& m.inner is Response
            &&& wf_header(r.header)
            &&& wf_lines(r.data)
            &&& m.error_flags == resp_flags(ser_status(r.status).len(), r.header.len())
        },
{
    if spec_parse_response(b) is Msg {
        let status_len: nat = if scan_tag(lit_ok(), b) is Fail {
            4
        } else {
            3
        };
        crate::model::lemma_run_len_props(b.skip(status_len as int), space_pred());
        match scan_opt_space(b.skip(status_len as int)) {
            Scan::Tok(sp) => {
                crate::model::lemma_run_len_props(
                    b.skip(status_len + sp as int),
                    crate::model::line_pred(),
                );
                match scan_line(b.skip(status_len + sp as int)) {
                    Scan::Tok(h) => {
                        let header = b.skip(status_len + sp as int).take(h as int);
                        assert(wf_line(header)) by {
                            assert forall|x: int| 0 <= x < header.len() implies !is_line_end(
                                #[trigger] header[x],
                            ) by {
                                assert(header[x] == b.skip(status_len + sp as int)[x]);
                            }
                        }
                        if h > 0 {
                            assert(header[0] == b.skip(status_len + sp as int)[0]);
                            assert(b.skip(status_len + sp as int)[0] == b.skip(
                                status_len as int,
                            )[sp as int]);
                            assert(header[0] != SP);
                        }
                        let body = b.skip(status_len + sp + h + 2int);
                        if body.len() > 0 && !(scan_tag(lit_ok(), body) is Tok) && !(scan_tag(
                            lit_err(),
                            body,
                        ) is Tok) {
                            assert(wf_lines(Seq::<Seq<u8>>::empty()));
                            lemma_multilines_wf(body, Seq::<Seq<u8>>::empty());
                        }
                    },
                    _ => {},
                }
            },
            _ => {},
        }
    }
}

/// A command message with well-formed fields and consistent flags parses
/// back from its own wire form.
#[verifier::rlimit(100)]
#[verifier::spinoff_prover]
proof fn lemma_cmd_msg_reparses(m: MessageV)
    requires
        m.inner is Command,
        !(m.inner->Command_0.keyword is Unknown),
        wf_args(m.inner->Command_0.args),
        m.error_flags == cmd_flags(
            m.inner->Command_0.keyword,
            ser_keyword(m.inner->Command_0.keyword).len(),
            m.inner->Command_0.args,
        ),
    ensures
        spec_parse_command(ser_message(m)) == SpecResult::Msg(ser_message(m).len(), m),
{
    let c = m.inner->Command_0;
    lemma_command_ser_parses(c, Seq::<u8>::empty());
    assert(ser_command(c) + Seq::<u8>::empty() =~= ser_command(c));
    assert(m == MessageV { error_flags: m.error_flags, inner: InnerMessageV::Command(c) });
}

/// A response message with well-formed fields and consistent flags parses
/// back from its own wire form, and the command grammar refuses that wire
/// form at its first octet.
#[verifier::rlimit(100)]
#[verifier::spinoff_prover]
proof fn lemma_resp_msg_reparses(m: MessageV)
    requires
        m.inner is Response,
        wf_header(m.inner->Response_0.header),
        wf_lines(m.inner->Response_0.data),
        m.error_flags == resp_flags(
            ser_status(m.inner->Response_0.status).len(),
            m.inner->Response_0.header.len(),
        ),
    ensures
        spec_parse_response(ser_message(m)) == SpecResult::Msg(ser_message(m).len(), m),
        spec_parse_command(ser_message(m)) == SpecResult::Fail(
            crate::types::ParseErrorKind::InvalidKeyword,
        ),
{
    let r = m.inner->Response_0;
    lemma_response_ser_parses(r, Seq::<u8>::empty());
    assert(ser_response(r) + Seq::<u8>::empty() =~= ser_response(r));
    assert(m == MessageV { error_flags: m.error_flags, inner: InnerMessageV::Response(r) });
    let s = ser_response(r);
    assert(s[0] == ser_status(r.status)[0]);
    assert(!is_alpha(s[0]));
    lemma_scan1_none(s, alpha_pred());
}

/// Re-serializing a message that parsed with no conformance flag, and
/// parsing it again in the same direction, yields the same message and
/// consumes the whole serialization.
#[verifier::rlimit(100)]
#[verifier::spinoff_prover]
pub proof fn lemma_round_trip(b: Seq<u8>, direction: Direction)
    requires
        spec_parse(b, direction) is Msg,
        spec_parse(b, direction)->Msg_1.error_flags == ErrorFlags::empty(),
    ensures
        ({
            let m = spec_parse(b, direction)->Msg_1;
            spec_parse(ser_message(m), direction) == SpecResult::Msg(ser_message(m).len(), m)
        }),
{
    let m = spec_parse(b, direction)->Msg_1;
    lemma_command_parse_shape(b);
    lemma_response_parse_shape(b);
    // In every direction a successful parse came from one of the two
    // grammars, and the message's kind tells which.
    assert(m.inner is Command ==> spec_parse_command(b) == SpecResult::Msg(
        spec_parse(b, direction)->Msg_0,
        m,
    ));
    assert(m.inner is Response ==> spec_parse_response(b) == SpecResult::Msg(
        spec_parse(b, direction)->Msg_0,
        m,
    ));
    if m.inner is Command {
        lemma_cmd_msg_reparses(m);
    } else {
        lemma_resp_msg_reparses(m);
    }
}

/// A well-formed command message: the fields the grammar could have
/// produced, with the flags computed from them.
pub open spec fn wf_command_message(m: MessageV) -> bool {
    &&& m.inner is Command
    &&& !(m.inner->Command_0.keyword is Unknown)
    &&& wf_args(m.inner->Command_0.args)
    &&& m.error_flags == cmd_flags(
        m.inner->Command_0.keyword,
        ser_keyword(m.inner->Command_0.keyword).len(),
        m.inner->Command_0.args,
    )
}

/// A well-formed response message: the fields the grammar could have
/// produced, with the flags computed from them.
pub open spec fn wf_response_message(m: MessageV) -> bool {
    &&& m.inner is Response
    &&& wf_header(m.inner->Response_0.header)
    &&& wf_lines(m.inner->Response_0.data)
    &&& m.error_flags == resp_flags(
        ser_status(m.inner->Response_0.status).len(),
        m.inner->Response_0.header.len(),
    )
}

/// The concatenated wire forms of a sequence of messages.
pub open spec fn cat_messages(msgs: Seq<MessageV>) -> Seq<u8>
    decreases msgs.len(),
{
    if msgs.len() == 0 {
        Seq::empty()
    } else {
        ser_message(msgs[0]) + cat_messages(msgs.skip(1))
    }
}

/// Iterated parsing: one message after another from the head of the buffer,
/// until the buffer is empty. `fuel` bounds the number of messages; the
/// result is the messages in order, or nothing if the buffer does not parse
/// cleanly within the fuel.
pub open spec fn parse_stream(s: Seq<u8>, direction: Direction, fuel: nat) -> Option<
    Seq<MessageV>,
>
    decreases fuel,
{
    if s.len() == 0 {
        Some(Seq::empty())
    } else if fuel == 0 {
        None
    } else {
        match spec_parse(s, direction) {
            SpecResult::Msg(n, m) => if 0 < n <= s.len() {
                match parse_stream(s.skip(n as int), direction, (fuel - 1) as nat) {
                    Some(rest) => Some(seq![m] + rest),
                    None => None,
                }
            } else {
                None
            },
            _ => None,
        }
    }
}

/// The wire form of a message is never empty.
proof fn lemma_ser_message_nonempty(m: MessageV)
    ensures
        ser_message(m).len() >= 2,
{
}

/// A buffer holding the concatenated wire forms of well-formed commands,
/// parsed iteratively toward the server, yields exactly those commands and
/// an empty tail.
#[verifier::rlimit(100)]
#[verifier::spinoff_prover]
pub proof fn lemma_stream_of_commands(msgs: Seq<MessageV>)
    requires
        forall|i: int| 0 <= i < msgs.len() ==> wf_command_message(#[trigger] msgs[i]),
    ensures
        parse_stream(cat_messages(msgs), Direction::ToServer, msgs.len()) == Some(msgs),
    decreases msgs.len(),
{
    if msgs.len() == 0 {
        assert(msgs =~= Seq::<MessageV>::empty());
    } else {
        let m0 = msgs[0];
        let c = m0.inner->Command_0;
        let tail = cat_messages(msgs.skip(1));
        let s = cat_messages(msgs);
        lemma_command_ser_parses(c, tail);
        assert(m0 == MessageV { error_flags: m0.error_flags, inner: InnerMessageV::Command(c) });
        lemma_ser_message_nonempty(m0);
        assert(s == ser_command(c) + tail);
        assert(spec_parse(s, Direction::ToServer) == SpecResult::Msg(ser_command(c).len(), m0));
        assert(s.skip(ser_command(c).len() as int) =~= tail);
        lemma_stream_of_commands(msgs.skip(1));
        assert(seq![m0] + msgs.skip(1) =~= msgs);
    }
}

/// The concatenated wire forms of responses, when non-empty, begin with a
/// status token.
proof fn lemma_cat_responses_head(msgs: Seq<MessageV>)
    requires
        msgs.len() > 0,
        msgs[0].inner is Response,
    ensures
        starts_with(cat_messages(msgs), ser_status(msgs[0].inner->Response_0.status)),
{
    let st = ser_status(msgs[0].inner->Response_0.status);
    let s = cat_messages(msgs);
    assert(s =~= st + ((if msgs[0].inner->Response_0.header.len() > 0 {
        seq![SP] + msgs[0].inner->Response_0.header
    } else {
        Seq::<u8>::empty()
    }) + lit_crlf() + ser_body(msgs[0].inner->Response_0.data) + cat_messages(msgs.skip(1))));
    assert(s.take(st.len() as int) =~= st);
}

/// A buffer holding the concatenated wire forms of well-formed responses,
/// parsed iteratively toward the client, yields exactly those responses and
/// an empty tail. A single-line response is always followed here by the end
/// of the buffer or the next status token, which is what keeps the
/// stateless multi-line disambiguation from swallowing it.
#[verifier::rlimit(100)]
#[verifier::spinoff_prover]
pub proof fn lemma_stream_of_responses(msgs: Seq<MessageV>)
    requires
        forall|i: int| 0 <= i < msgs.len() ==> wf_response_message(#[trigger] msgs[i]),
    ensures
        parse_stream(cat_messages(msgs), Direction::ToClient, msgs.len()) == Some(msgs),
    decreases msgs.len(),
{
    if msgs.len() == 0 {
        assert(msgs =~= Seq::<MessageV>::empty());
    } else {
        let m0 = msgs[0];
        let r = m0.inner->Response_0;
        let tail = cat_messages(msgs.skip(1));
        let s = cat_messages(msgs);
        if msgs.len() > 1 {
            assert(msgs.skip(1)[0] == msgs[1]);
            lemma_cat_responses_head(msgs.skip(1));
            assert(tail.len() >= 3);
        }
        lemma_response_ser_parses(r, tail);
        assert(m0 == MessageV {
            error_flags: m0.error_flags,
            inner: InnerMessageV::Response(r),
        });
        lemma_ser_message_nonempty(m0);
        assert(s == ser_response(r) + tail);
        assert(spec_parse(s, Direction::ToClient) == SpecResult::Msg(
            ser_response(r).len(),
            m0,
        ));
        assert(s.skip(ser_response(r).len() as int) =~= tail);
        lemma_stream_of_responses(msgs.skip(1));
        assert(seq![m0] + msgs.skip(1) =~= msgs);
    }
}

} // verus!
