//! Laws of the parser, proved over the grammar model: what it consumes
//! always lies at the head of the buffer, and each direction can yield only
//! its own kind of message.
use vstd::prelude::*;

use crate::model::{
    args_more, multilines, spec_args, spec_parse, spec_parse_command, spec_parse_response,
    ListStep, SpecResult,
};
use crate::types::Direction;

verus! {

/// An argument list never consumes more than the buffer holds.
pub proof fn lemma_args_more_consumed(s: Seq<u8>, acc: Seq<Seq<u8>>)
    ensures
        args_more(s, acc) matches ListStep::Done(c, _) ==> c <= s.len(),
    decreases s.len(),
{
    if args_more(s, acc) is Done {
        crate::model::lemma_run_len_le(s, crate::model::space_pred());
        match crate::model::scan1(s, crate::model::space_pred()) {
            crate::model::Scan::Tok(j) => {
                crate::model::lemma_run_len_le(s.skip(j as int), crate::model::alnum_pred());
                match crate::model::scan1(s.skip(j as int), crate::model::alnum_pred()) {
                    crate::model::Scan::Tok(k) => {
                        lemma_args_more_consumed(
                            s.skip(j + k as int),
                            acc.push(s.skip(j as int).take(k as int)),
                        );
                    },
                    _ => {},
                }
            },
            _ => {},
        }
    }
}

/// A multi-line body never consumes more than the buffer holds.
pub proof fn lemma_multilines_consumed(s: Seq<u8>, acc: Seq<Seq<u8>>)
    ensures
        multilines(s, acc) matches ListStep::Done(c, _) ==> c <= s.len(),
    decreases s.len(),
{
    if multilines(s, acc) is Done {
        match crate::model::scan_tag(crate::model::lit_term(), s) {
            crate::model::Scan::Fail => {
                if s.len() > 0 {
                    let d: nat = if s[0] == crate::model::DOT {
                        1
                    } else {
                        0
                    };
                    crate::model::lemma_run_len_le(s.skip(d as int), crate::model::line_pred());
                    match crate::model::scan_line(s.skip(d as int)) {
                        crate::model::Scan::Tok(k) => {
                            match crate::model::scan_crlf(s.skip(d + k as int)) {
                                crate::model::Scan::Tok(_) => {
                                    lemma_multilines_consumed(
                                        s.skip(d + k + 2int),
                                        acc.push(s.skip(d as int).take(k as int)),
                                    );
                                },
                                _ => {},
                            }
                        },
                        _ => {},
                    }
                }
            },
            _ => {},
        }
    }
}

/// What an argument list consumes at the top level is part of the buffer.
pub proof fn lemma_args_more_consumed_top(s: Seq<u8>)
    ensures
        spec_args(s) matches ListStep::Done(c, _) ==> c <= s.len(),
{
    crate::model::lemma_run_len_le(s, crate::model::alnum_pred());
    match crate::model::scan1(s, crate::model::alnum_pred()) {
        crate::model::Scan::Tok(k) => {
            lemma_args_more_consumed(s.skip(k as int), seq![s.take(k as int)]);
        },
        _ => {},
    }
}

/// What the command grammar consumes is part of the buffer.
pub proof fn lemma_command_consumed(b: Seq<u8>)
    ensures
        spec_parse_command(b) matches SpecResult::Msg(n, _) ==> n <= b.len(),
{
    if spec_parse_command(b) is Msg {
        crate::model::lemma_run_len_le(b, crate::model::alpha_pred());
        match crate::model::scan1(b, crate::model::alpha_pred()) {
            crate::model::Scan::Tok(kw_len) => {
                match crate::model::scan_opt_space(b.skip(kw_len as int)) {
                    crate::model::Scan::Tok(sp) => {
                        crate::model::lemma_run_len_le(
                            b.skip(kw_len as int),
                            crate::model::space_pred(),
                        );
                        lemma_args_more_le_helper(b, kw_len, sp);
                    },
                    _ => {},
                }
            },
            _ => {},
        }
    }
}

proof fn lemma_args_more_le_helper(b: Seq<u8>, kw_len: nat, sp: nat)
    requires
        kw_len + sp <= b.len(),
    ensures
        spec_args(b.skip(kw_len + sp as int)) matches ListStep::Done(c, _) ==> kw_len + sp + c
            <= b.len(),
{
    let s = b.skip(kw_len + sp as int);
    crate::model::lemma_run_len_le(s, crate::model::alnum_pred());
    match crate::model::scan1(s, crate::model::alnum_pred()) {
        crate::model::Scan::Tok(k) => {
            lemma_args_more_consumed(s.skip(k as int), seq![s.take(k as int)]);
        },
        _ => {},
    }
}

/// What the response grammar consumes is part of the buffer.
pub proof fn lemma_response_consumed(b: Seq<u8>)
    ensures
        spec_parse_response(b) matches SpecResult::Msg(n, _) ==> n <= b.len(),
{
    if spec_parse_response(b) is Msg {
        let status_len: nat = if crate::model::scan_tag(crate::model::lit_ok(), b) is Fail {
            4
        } else {
            3
        };
        match crate::model::scan_opt_space(b.skip(status_len as int)) {
            crate::model::Scan::Tok(sp) => {
                crate::model::lemma_run_len_le(
                    b.skip(status_len as int),
                    crate::model::space_pred(),
                );
                crate::model::lemma_run_len_le(
                    b.skip(status_len + sp as int),
                    crate::model::line_pred(),
                );
                match crate::model::scan_line(b.skip(status_len + sp as int)) {
                    crate::model::Scan::Tok(h) => {
                        let body = b.skip(status_len + sp + h + 2int);
                        if body.len() > 0 && !(crate::model::scan_tag(
                            crate::model::lit_ok(),
                            body,
                        ) is Tok) && !(crate::model::scan_tag(crate::model::lit_err(), body)
                            is Tok) {
                            lemma_multilines_consumed(body, seq![]);
                        }
                    },
                    _ => {},
                }
            },
            _ => {},
        }
    }
}

/// The octets a successful parse consumes, together with the unconsumed
/// tail, account exactly for the buffer: the tail is the suffix of the
/// buffer that starts where the consumed octets end.
pub proof fn lemma_consumed_plus_rest(b: Seq<u8>, direction: Direction)
    ensures
        spec_parse(b, direction) matches SpecResult::Msg(n, _) ==> n <= b.len() && b.skip(
            n as int,
        ).len() + n == b.len() && b.skip(n as int) == b.subrange(n as int, b.len() as int),
{
    lemma_command_consumed(b);
    lemma_response_consumed(b);
    if spec_parse(b, direction) is Msg {
        let n = spec_parse(b, direction)->Msg_0;
        assert(b.skip(n as int) =~= b.subrange(n as int, b.len() as int));
    }
}

/// The command grammar only ever yields commands.
pub proof fn lemma_command_yields_command(b: Seq<u8>)
    ensures
        spec_parse_command(b) matches SpecResult::Msg(_, m) ==> m.inner is Command,
{
}

/// The response grammar only ever yields responses.
pub proof fn lemma_response_yields_response(b: Seq<u8>)
    ensures
        spec_parse_response(b) matches SpecResult::Msg(_, m) ==> m.inner is Response,
{
}

/// Parsing toward the server never yields a response, and parsing toward
/// the client never yields a command.
pub proof fn lemma_direction_shapes_message(b: Seq<u8>, direction: Direction)
    ensures
        direction == Direction::ToServer ==> (spec_parse(b, direction) matches SpecResult::Msg(
            _,
            m,
        ) ==> m.inner is Command),
        direction == Direction::ToClient ==> (spec_parse(b, direction) matches SpecResult::Msg(
            _,
            m,
        ) ==> m.inner is Response),
{
    lemma_command_yields_command(b);
    lemma_response_yields_response(b);
}

} // verus!
