//! Streaming laws: what a parse outcome on a buffer says about the same
//! parse on that buffer with more octets behind it. A match or a mismatch
//! is decided by octets the parser has already seen, so it survives any
//! extension; a demand for `n` more octets is a promise that fewer than `n`
//! cannot complete a message.
use vstd::prelude::*;

use crate::model::{
    alnum_pred, alpha_pred, args_more, is_alpha, lit_crlf, lit_err, lit_ok, lit_term,
    multilines, run_len, scan1, scan_crlf, scan_line, scan_opt_space, scan_tag, space_pred,
    spec_args, spec_body, spec_parse, spec_parse_command, spec_parse_response, ListStep, Scan,
    SpecResult, DOT, LF,
};
use crate::types::{Direction, Needed};

verus! {

/// Skipping within the first part of a concatenation leaves the second part
/// in place.
proof fn lemma_skip_concat(a: Seq<u8>, b: Seq<u8>, n: int)
    requires
        0 <= n <= a.len(),
    ensures
        (a + b).skip(n) == a.skip(n) + b,
{
    assert((a + b).skip(n) =~= a.skip(n) + b);
}

/// A one-or-more scan that matched or mismatched did so inside the buffer,
/// so more octets behind it change nothing.
proof fn lemma_scan1_extend(s: Seq<u8>, e: Seq<u8>, pred: spec_fn(u8) -> bool)
    ensures
        scan1(s, pred) is Tok ==> scan1(s + e, pred) == scan1(s, pred),
        scan1(s, pred) is Fail ==> scan1(s + e, pred) == Scan::Fail,
{
    crate::model::lemma_run_len_props(s, pred);
    let k = run_len(s, pred);
    if scan1(s, pred) is Tok || scan1(s, pred) is Fail {
        assert forall|i: int| 0 <= i < k implies pred(#[trigger] (s + e)[i]) by {
            assert((s + e)[i] == s[i]);
        }
        assert((s + e)[k as int] == s[k as int]);
        crate::model::lemma_run_len_is(s + e, pred, k as int);
    }
}

/// A tag that matched or mismatched did so inside the buffer; one that
/// demanded `n` more octets cannot match with fewer.
proof fn lemma_scan_tag_extend(t: Seq<u8>, s: Seq<u8>, e: Seq<u8>)
    ensures
        scan_tag(t, s) is Tok ==> scan_tag(t, s + e) == scan_tag(t, s),
        scan_tag(t, s) is Fail ==> scan_tag(t, s + e) == Scan::Fail,
        scan_tag(t, s) matches Scan::Inc(nd) ==> (nd matches Needed::Size(n) ==> (e.len() < n
            ==> !(scan_tag(t, s + e) is Tok))),
{
    if scan_tag(t, s) is Tok {
        assert forall|i: int| 0 <= i < t.len() && i < (s + e).len() implies (s + e)[i] == t[
            i
        ] by {
            assert((s + e)[i] == s[i]);
        }
    }
    if scan_tag(t, s) is Fail {
        let i = choose|i: int| 0 <= i < t.len() && i < s.len() && s[i] != t[i];
        assert((s + e)[i] == s[i]);
    }
}

/// A line scan that found its ending, or a bare carriage return, decided on
/// octets inside the buffer.
proof fn lemma_scan_line_extend(s: Seq<u8>, e: Seq<u8>)
    ensures
        scan_line(s) is Tok ==> scan_line(s + e) == scan_line(s),
        scan_line(s) is Fail ==> scan_line(s + e) == Scan::Fail,
{
    crate::model::lemma_run_len_props(s, crate::model::line_pred());
    let k = run_len(s, crate::model::line_pred());
    if scan_line(s) is Tok || scan_line(s) is Fail {
        assert forall|i: int| 0 <= i < k implies crate::model::line_pred()(
            #[trigger] (s + e)[i],
        ) by {
            assert((s + e)[i] == s[i]);
        }
        assert((s + e)[k as int] == s[k as int]);
        crate::model::lemma_run_len_is(s + e, crate::model::line_pred(), k as int);
        if !(s[k as int] == LF) {
            assert(k + 1 < s.len());
            assert((s + e)[k as int + 1] == s[k as int + 1]);
        }
    }
}

/// The optional space run, like the scans it is built from, is stable once
/// it has matched.
proof fn lemma_scan_opt_space_extend(s: Seq<u8>, e: Seq<u8>)
    ensures
        scan_opt_space(s) is Tok ==> scan_opt_space(s + e) == scan_opt_space(s),
{
    lemma_scan1_extend(s, e, space_pred());
}

/// An argument list that ended did so at an octet inside the buffer.
proof fn lemma_args_more_extend(s: Seq<u8>, acc: Seq<Seq<u8>>, e: Seq<u8>)
    ensures
        args_more(s, acc) is Done ==> args_more(s + e, acc) == args_more(s, acc),
    decreases s.len(),
{
    if args_more(s, acc) is Done {
        crate::model::lemma_run_len_props(s, space_pred());
        lemma_scan1_extend(s, e, space_pred());
        match scan1(s, space_pred()) {
            Scan::Tok(j) => {
                crate::model::lemma_run_len_props(s.skip(j as int), alnum_pred());
                lemma_skip_concat(s, e, j as int);
                lemma_scan1_extend(s.skip(j as int), e, alnum_pred());
                match scan1(s.skip(j as int), alnum_pred()) {
                    Scan::Tok(k) => {
                        lemma_skip_concat(s, e, j + k as int);
                        assert((s + e).skip(j as int).take(k as int) =~= s.skip(j as int).take(
                            k as int,
                        ));
                        lemma_args_more_extend(
                            s.skip(j + k as int),
                            acc.push(s.skip(j as int).take(k as int)),
                            e,
                        );
                    },
                    _ => {},
                }
            },
            _ => {},
        }
    }
}

/// A whole argument list that ended is likewise stable.
proof fn lemma_spec_args_extend(s: Seq<u8>, e: Seq<u8>)
    ensures
        spec_args(s) is Done ==> spec_args(s + e) == spec_args(s),
{
    crate::model::lemma_run_len_props(s, alnum_pred());
    lemma_scan1_extend(s, e, alnum_pred());
    match scan1(s, alnum_pred()) {
        Scan::Tok(k) => {
            lemma_skip_concat(s, e, k as int);
            assert((s + e).take(k as int) =~= s.take(k as int));
            lemma_args_more_extend(s.skip(k as int), seq![s.take(k as int)], e);
        },
        _ => {},
    }
}

/// An argument list can only ever ask for one more octet: every primitive
/// it is built from does.
proof fn lemma_args_more_inc(s: Seq<u8>, acc: Seq<Seq<u8>>)
    ensures
        args_more(s, acc) matches ListStep::Inc(n) ==> n == Needed::Size(1usize),
    decreases s.len(),
{
    crate::model::lemma_run_len_props(s, space_pred());
    match scan1(s, space_pred()) {
        Scan::Tok(j) => {
            crate::model::lemma_run_len_props(s.skip(j as int), alnum_pred());
            match scan1(s.skip(j as int), alnum_pred()) {
                Scan::Tok(k) => {
                    lemma_args_more_inc(
                        s.skip(j + k as int),
                        acc.push(s.skip(j as int).take(k as int)),
                    );
                },
                _ => {},
            }
        },
        _ => {},
    }
}

/// A multi-line body is only complete once its terminating line has been
/// read, which takes at least three octets.
proof fn lemma_multilines_done_min(s: Seq<u8>, acc: Seq<Seq<u8>>)
    ensures
        multilines(s, acc) is Done ==> s.len() >= 3,
    decreases s.len(),
{
    if multilines(s, acc) is Done {
        match scan_tag(lit_term(), s) {
            Scan::Fail => {
                if s.len() > 0 {
                    let d: nat = if s[0] == DOT {
                        1
                    } else {
                        0
                    };
                    crate::model::lemma_run_len_le(s.skip(d as int), crate::model::line_pred());
                    match scan_line(s.skip(d as int)) {
                        Scan::Tok(k) => {
                            match scan_crlf(s.skip(d + k as int)) {
                                Scan::Tok(_) => {
                                    lemma_multilines_done_min(
                                        s.skip(d + k + 2int),
                                        acc.push(s.skip(d as int).take(k as int)),
                                    );
                                },
                                _ => {},
                            }
                        },
                        _ => {},
                    }
                }
            },
            _ => {},
        }
    }
}

/// A short buffer that does not open with the terminator's dot cannot hold
/// a complete multi-line body.
proof fn lemma_multilines_short(s: Seq<u8>, acc: Seq<Seq<u8>>)
    requires
        s.len() <= 3,
        s.len() > 0 ==> s[0] != DOT,
    ensures
        !(multilines(s, acc) is Done),
{
    match scan_tag(lit_term(), s) {
        Scan::Fail => {
            if s.len() > 0 {
                let d: nat = if s[0] == DOT {
                    1
                } else {
                    0
                };
                crate::model::lemma_run_len_le(s.skip(d as int), crate::model::line_pred());
                match scan_line(s.skip(d as int)) {
                    Scan::Tok(k) => {
                        match scan_crlf(s.skip(d + k as int)) {
                            Scan::Tok(_) => {
                                lemma_multilines_done_min(
                                    s.skip(d + k + 2int),
                                    acc.push(s.skip(d as int).take(k as int)),
                                );
                            },
                            _ => {},
                        }
                    },
                    _ => {},
                }
            }
        },
        Scan::Tok(_) => {
            assert(s.len() >= 3);
            assert(s[0] == DOT);
        },
        _ => {},
    }
}

/// A multi-line body that mismatched did so inside the buffer; one that
/// demanded `n` more octets cannot be completed by fewer.
#[verifier::rlimit(100)]
#[verifier::spinoff_prover]
proof fn lemma_multilines_extend(s: Seq<u8>, acc: Seq<Seq<u8>>, e: Seq<u8>)
    ensures
        multilines(s, acc) is Fail ==> multilines(s + e, acc) is Fail,
        multilines(s, acc) matches ListStep::Inc(nd) ==> (nd matches Needed::Size(n) ==> (
        e.len() < n ==> !(multilines(s + e, acc) is Done))),
    decreases s.len(),
{
    lemma_scan_tag_extend(lit_term(), s, e);
    match scan_tag(lit_term(), s) {
        Scan::Tok(_) => {},
        Scan::Inc(nd) => {
            // The buffer is a proper matching prefix of the terminator line.
            match nd {
                Needed::Size(n) => {
                    if e.len() < n {
                        assert(s.len() + n == 3);
                        lemma_multilines_done_min(s + e, acc);
                    }
                },
                Needed::Unknown => {},
            }
        },
        Scan::Fail => {
            assert(s.len() > 0);
            let d: nat = if s[0] == DOT {
                1
            } else {
                0
            };
            assert((s + e)[0] == s[0]);
            crate::model::lemma_run_len_le(s.skip(d as int), crate::model::line_pred());
            lemma_skip_concat(s, e, d as int);
            lemma_scan_line_extend(s.skip(d as int), e);
            match scan_line(s.skip(d as int)) {
                Scan::Inc(_) => {},
                Scan::Fail => {},
                Scan::Tok(k) => {
                    lemma_skip_concat(s, e, d + k as int);
                    lemma_scan_tag_extend(lit_crlf(), s.skip(d + k as int), e);
                    match scan_crlf(s.skip(d + k as int)) {
                        Scan::Inc(nd) => {
                            match nd {
                                Needed::Size(n) => {
                                    if e.len() < n {
                                        assert(s.skip(d + k as int).len() + n == 2);
                                    }
                                },
                                Needed::Unknown => {},
                            }
                        },
                        Scan::Fail => {},
                        Scan::Tok(_) => {
                            lemma_skip_concat(s, e, d + k + 2int);
                            assert((s + e).skip(d as int).take(k as int) =~= s.skip(
                                d as int,
                            ).take(k as int));
                            lemma_multilines_extend(
                                s.skip(d + k + 2int),
                                acc.push(s.skip(d as int).take(k as int)),
                                e,
                            );
                        },
                    }
                },
            }
        },
    }
}

/// The command grammar never reads beyond the message it returns: a parsed
/// command, a mismatch, and a demand for more octets each survive
/// extension, the demand in that fewer octets than asked can never complete
/// a command.
#[verifier::rlimit(100)]
#[verifier::spinoff_prover]
pub proof fn lemma_command_extend(b: Seq<u8>, e: Seq<u8>)
    ensures
        spec_parse_command(b) is Msg ==> spec_parse_command(b + e) == spec_parse_command(b),
        spec_parse_command(b) is Fail ==> spec_parse_command(b + e) is Fail,
        spec_parse_command(b) matches SpecResult::Inc(nd) ==> (nd matches Needed::Size(n) ==> (
        e.len() < n ==> !(spec_parse_command(b + e) is Msg))),
{
    crate::model::lemma_run_len_props(b, alpha_pred());
    lemma_scan1_extend(b, e, alpha_pred());
    match scan1(b, alpha_pred()) {
        Scan::Inc(_) => {
            // One more octet is demanded; with none added the buffer is the
            // same.
            if e.len() == 0 {
                assert(b + e =~= b);
            }
        },
        Scan::Fail => {},
        Scan::Tok(kw_len) => {
            lemma_skip_concat(b, e, kw_len as int);
            crate::model::lemma_run_len_props(b.skip(kw_len as int), space_pred());
            lemma_scan_opt_space_extend(b.skip(kw_len as int), e);
            lemma_scan1_extend(b.skip(kw_len as int), e, space_pred());
            assert((b + e).take(kw_len as int) =~= b.take(kw_len as int));
            match scan_opt_space(b.skip(kw_len as int)) {
                Scan::Inc(_) => {
                    if e.len() == 0 {
                        assert(b + e =~= b);
                    }
                },
                Scan::Fail => {},
                Scan::Tok(sp) => {
                    crate::model::lemma_run_len_le(b.skip(kw_len as int), space_pred());
                    lemma_skip_concat(b, e, kw_len + sp as int);
                    lemma_spec_args_extend(b.skip(kw_len + sp as int), e);
                    lemma_args_more_inc_top(b.skip(kw_len + sp as int));
                    lemma_args_no_fail(b.skip(kw_len + sp as int));
                    match spec_args(b.skip(kw_len + sp as int)) {
                        ListStep::Inc(_) => {
                            if e.len() == 0 {
                                assert(b + e =~= b);
                            }
                        },
                        ListStep::Fail(_) => {},
                        ListStep::Done(alen, _) => {
                            crate::laws::lemma_args_more_consumed_top(
                                b.skip(kw_len + sp as int),
                            );
                            lemma_skip_concat(b, e, kw_len + sp + alen as int);
                            lemma_scan_tag_extend(
                                lit_crlf(),
                                b.skip(kw_len + sp + alen as int),
                                e,
                            );
                        },
                    }
                },
            }
        },
    }
}

/// An argument list never hard-fails: it ends, or asks for more octets.
proof fn lemma_args_more_no_fail(s: Seq<u8>, acc: Seq<Seq<u8>>)
    ensures
        !(args_more(s, acc) is Fail),
    decreases s.len(),
{
    crate::model::lemma_run_len_props(s, space_pred());
    match scan1(s, space_pred()) {
        Scan::Tok(j) => {
            crate::model::lemma_run_len_props(s.skip(j as int), alnum_pred());
            match scan1(s.skip(j as int), alnum_pred()) {
                Scan::Tok(k) => {
                    lemma_args_more_no_fail(
                        s.skip(j + k as int),
                        acc.push(s.skip(j as int).take(k as int)),
                    );
                },
                _ => {},
            }
        },
        _ => {},
    }
}

/// Nor does the whole argument list.
proof fn lemma_args_no_fail(s: Seq<u8>)
    ensures
        !(spec_args(s) is Fail),
{
    match scan1(s, alnum_pred()) {
        Scan::Tok(k) => {
            lemma_args_more_no_fail(s.skip(k as int), seq![s.take(k as int)]);
        },
        _ => {},
    }
}

/// An argument list at the top level likewise only ever asks for one octet.
proof fn lemma_args_more_inc_top(s: Seq<u8>)
    ensures
        spec_args(s) matches ListStep::Inc(n) ==> n == Needed::Size(1usize),
{
    match scan1(s, alnum_pred()) {
        Scan::Tok(k) => {
            lemma_args_more_inc(s.skip(k as int), seq![s.take(k as int)]);
        },
        _ => {},
    }
}

/// A response body that mismatched did so inside the buffer; a demand for
/// `n` more octets cannot be completed by fewer.
#[verifier::rlimit(100)]
#[verifier::spinoff_prover]
proof fn lemma_body_extend(u: Seq<u8>, e: Seq<u8>)
    requires
        u.len() > 0,
    ensures
        spec_body(u) is Fail ==> spec_body(u + e) is Fail,
        spec_body(u) matches ListStep::Inc(nd) ==> (nd matches Needed::Size(n) ==> (e.len() < n
            ==> !(spec_body(u + e) is Done))),
{
    lemma_scan_tag_extend(lit_ok(), u, e);
    lemma_scan_tag_extend(lit_err(), u, e);
    match scan_tag(lit_ok(), u) {
        Scan::Tok(_) => {},
        Scan::Inc(nd) => {
            // The buffer is a proper matching prefix of `+OK`, so it opens
            // with `+` and stays too short for any body.
            match nd {
                Needed::Size(n) => {
                    if e.len() < n {
                        assert(u.len() + n == 3);
                        assert(u[0] == lit_ok()[0]);
                        match scan_tag(lit_ok(), u + e) {
                            Scan::Fail => {
                                assert((u + e)[0] == u[0]);
                                lemma_scan_tag_mismatch_head(lit_err(), u + e);
                                lemma_multilines_short(u + e, Seq::<Seq<u8>>::empty());
                            },
                            _ => {},
                        }
                    }
                },
                Needed::Unknown => {},
            }
        },
        Scan::Fail => {
            match scan_tag(lit_err(), u) {
                Scan::Tok(_) => {},
                Scan::Inc(nd) => {
                    match nd {
                        Needed::Size(n) => {
                            if e.len() < n {
                                assert(u.len() + n == 4);
                                assert(u[0] == lit_err()[0]);
                                match scan_tag(lit_err(), u + e) {
                                    Scan::Fail => {
                                        assert((u + e)[0] == u[0]);
                                        lemma_multilines_short(u + e, Seq::<Seq<u8>>::empty());
                                    },
                                    _ => {},
                                }
                            }
                        },
                        Needed::Unknown => {},
                    }
                },
                Scan::Fail => {
                    lemma_multilines_extend(u, Seq::<Seq<u8>>::empty(), e);
                },
            }
        },
    }
}

/// A buffer whose first octet differs from the head of the tag fails it.
proof fn lemma_scan_tag_mismatch_head(t: Seq<u8>, s: Seq<u8>)
    requires
        t.len() > 0,
        s.len() > 0,
        s[0] != t[0],
    ensures
        scan_tag(t, s) == Scan::Fail,
{
}

/// The response grammar's mismatches survive extension, and its sized
/// demands promise that fewer octets cannot complete a response. A parsed
/// response itself is not always stable: a single-line response is accepted
/// at the end of the buffer, and octets arriving behind it can reopen the
/// multi-line question — the documented stateless limitation.
#[verifier::rlimit(100)]
#[verifier::spinoff_prover]
pub proof fn lemma_response_extend(b: Seq<u8>, e: Seq<u8>)
    ensures
        spec_parse_response(b) is Fail ==> spec_parse_response(b + e) is Fail,
        spec_parse_response(b) matches SpecResult::Inc(nd) ==> (nd matches Needed::Size(n) ==> (
        e.len() < n ==> !(spec_parse_response(b + e) is Msg))),
{
    lemma_scan_tag_extend(lit_ok(), b, e);
    lemma_scan_tag_extend(lit_err(), b, e);
    let status_step = scan_tag(lit_ok(), b);
    let res = if status_step is Fail {
        scan_tag(lit_err(), b)
    } else {
        status_step
    };
    let status_len: nat = if status_step is Fail {
        4
    } else {
        3
    };
    match res {
        Scan::Inc(nd) => {
            // A proper matching prefix of a status token: fewer than the
            // missing octets leave both status tokens unmatchable.
            match nd {
                Needed::Size(n) => {
                    if e.len() < n {
                        assert((b + e).len() < 4);
                        if status_step is Fail {
                            assert((b + e).len() < lit_err().len());
                        } else {
                            assert(b.len() + n == 3);
                            assert((b + e).len() < lit_ok().len());
                        }
                    }
                },
                Needed::Unknown => {},
            }
        },
        Scan::Fail => {},
        Scan::Tok(_) => {
            crate::model::lemma_run_len_props(b.skip(status_len as int), space_pred());
            lemma_skip_concat(b, e, status_len as int);
            lemma_scan_opt_space_extend(b.skip(status_len as int), e);
            lemma_scan1_extend(b.skip(status_len as int), e, space_pred());
            match scan_opt_space(b.skip(status_len as int)) {
                Scan::Inc(_) => {
                    if e.len() == 0 {
                        assert(b + e =~= b);
                    }
                },
                Scan::Fail => {},
                Scan::Tok(sp) => {
                    crate::model::lemma_run_len_le(b.skip(status_len as int), space_pred());
                    lemma_skip_concat(b, e, status_len + sp as int);
                    lemma_scan_line_extend(b.skip(status_len + sp as int), e);
                    crate::model::lemma_run_len_le(
                        b.skip(status_len + sp as int),
                        crate::model::line_pred(),
                    );
                    match scan_line(b.skip(status_len + sp as int)) {
                        Scan::Inc(_) => {},
                        Scan::Fail => {},
                        Scan::Tok(h) => {
                            lemma_skip_concat(b, e, status_len + sp + h as int);
                            lemma_scan_tag_extend(
                                lit_crlf(),
                                b.skip(status_len + sp + h as int),
                                e,
                            );
                            assert((b + e).skip(status_len + sp as int).take(h as int) =~= b
                                .skip(status_len + sp as int).take(h as int));
                            match scan_crlf(b.skip(status_len + sp + h as int)) {
                                Scan::Inc(nd) => {
                                    match nd {
                                        Needed::Size(n) => {
                                            if e.len() < n {
                                                assert(b.skip(
                                                    status_len + sp + h as int,
                                                ).len() + n == 2);
                                            }
                                        },
                                        Needed::Unknown => {},
                                    }
                                },
                                Scan::Fail => {},
                                Scan::Tok(_) => {
                                    let u = b.skip(status_len + sp + h + 2int);
                                    lemma_skip_concat(b, e, status_len + sp + h + 2int);
                                    if u.len() == 0 {
                                        // The single-line shape was taken at
                                        // the end of the buffer: the body is
                                        // complete, not incomplete or
                                        // mismatched.
                                    } else {
                                        lemma_body_extend(u, e);
                                    }
                                },
                            }
                        },
                    }
                },
            }
        },
    }
}

/// While the command grammar is still waiting for octets, the head of the
/// buffer — if any — is an alphabetic octet: every later wait sits behind a
/// matched keyword run.
proof fn lemma_command_inc_head(b: Seq<u8>)
    ensures
        spec_parse_command(b) is Inc ==> b.len() == 0 || is_alpha(b[0]),
{
    crate::model::lemma_run_len_props(b, alpha_pred());
}

/// What an incomplete report promises: a parse that asked for at least `n`
/// more octets cannot produce a message from fewer, whatever they hold.
/// Octets that contradict the grammar outright turn the report into a hard
/// failure instead; on any extension short of the demand that does not, the
/// parse still reports incomplete.
#[verifier::rlimit(100)]
#[verifier::spinoff_prover]
pub proof fn lemma_incomplete_demands_more(b: Seq<u8>, direction: Direction, n: usize, e: Seq<
    u8,
>)
    requires
        spec_parse(b, direction) == SpecResult::Inc(Needed::Size(n)),
        e.len() < n,
    ensures
        !(spec_parse(b + e, direction) is Msg),
        !(spec_parse(b + e, direction) is Fail) ==> spec_parse(b + e, direction) is Inc,
{
    lemma_command_extend(b, e);
    lemma_response_extend(b, e);
    match direction {
        Direction::ToServer => {},
        Direction::ToClient => {},
        Direction::Unknown => {
            let c = spec_parse_command(b);
            let r = spec_parse_response(b);
            if c is Inc && r is Inc {
                // Both grammars waiting at once happens only on the empty
                // buffer: a non-empty one opens alphabetic for the command
                // grammar to wait, which the response grammar refuses.
                lemma_command_inc_head(b);
                if b.len() > 0 {
                    assert(b[0] != lit_ok()[0]);
                    lemma_scan_tag_mismatch_head(lit_ok(), b);
                    assert(b[0] != lit_err()[0]);
                    lemma_scan_tag_mismatch_head(lit_err(), b);
                    assert(false);
                }
                assert(run_len(b, alpha_pred()) == 0);
                assert(c == SpecResult::Inc(Needed::Size(1usize)));
                assert(n == 1);
                assert(b + e =~= b);
            }
        },
    }
}

} // verus!
