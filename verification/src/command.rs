//! The verified command grammar: one client command line, parsed exactly as
//! [`crate::model::spec_parse_command`] describes.
use vstd::prelude::*;

use crate::model::{
    args_more, args_wire_len, cmd_flags, keyword_of, lit_apop, lit_auth, lit_capa, lit_dele,
    lit_list, lit_noop, lit_pass, lit_quit, lit_retr, lit_rset, lit_sasl, lit_stat, lit_stls,
    lit_top, lit_uidl, lit_user, scan1, spec_args, spec_parse_command, KwRes, ListStep, Scan,
    SpecResult, PLUS,
};
use crate::scan::{copy_range, scan_crlf_at, scan_run1, scan_spaces, RunClass, ScanStep};
use crate::types::{
    Command, ErrorFlags, InnerMessage, Keyword, Message, Needed, ParseErrorKind,
};

verus! {

/// Outcome of running one grammar over the head of a buffer: the executable
/// mirror of [`SpecResult`].
pub enum ParseOutcome {
    /// The position after the consumed octets, and the parsed message.
    Msg(usize, Message),
    /// More octets are required.
    Inc(Needed),
    /// The head of the buffer is not a message of the grammar.
    Fail(ParseErrorKind),
}

/// Whether an executable outcome agrees with a specification outcome.
pub open spec fn outcome_matches(r: ParseOutcome, g: SpecResult) -> bool {
    match (r, g) {
        (ParseOutcome::Msg(n, m), SpecResult::Msg(c, mv)) => n == c && m@ == mv,
        (ParseOutcome::Inc(a), SpecResult::Inc(b)) => a == b,
        (ParseOutcome::Fail(a), SpecResult::Fail(b)) => a == b,
        _ => false,
    }
}

/// The deep view of a byte-string vector indexes to the views of its entries.
pub proof fn lemma_deep_view_entries(v: Vec<Vec<u8>>)
    ensures
        v.deep_view().len() == v@.len(),
        forall|i: int| 0 <= i < v@.len() ==> v.deep_view()[i] == v@[i]@,
{
    assert forall|i: int| 0 <= i < v@.len() implies v.deep_view()[i] == v@[i]@ by {
        assert(v@[i].deep_view() =~= v@[i]@);
    }
}

/// Whether the octets of `s` from `a` to `b` are exactly `t`.
#[verifier::loop_isolation(false)]
fn token_eq(s: &[u8], a: usize, b: usize, t: &[u8]) -> (r: bool)
    requires
        a <= b <= s@.len(),
    ensures
        r == (s@.subrange(a as int, b as int) == t@),
{
    let ghost tok = s@.subrange(a as int, b as int);
    if b - a != t.len() {
        proof {
            assert(tok.len() != t@.len());
        }
        return false;
    }
    let mut i: usize = 0;
    while i < t.len()
        invariant
            a <= b <= s@.len(),
            b - a == t@.len(),
            0 <= i <= t@.len(),
            forall|j: int| 0 <= j < i ==> s@[a + j] == t@[j],
        decreases t@.len() - i,
    {
        if s[a + i] != t[i] {
            proof {
                assert(s@.subrange(a as int, b as int)[i as int] == s@[a + i]);
            }
            return false;
        }
        i = i + 1;
    }
    proof {
        assert(tok =~= t@);
    }
    true
}

/// Resolution of the keyword token of `s` from `a` to `b`, exactly as
/// [`keyword_of`] describes.
#[verifier::loop_isolation(false)]
pub fn keyword_from(s: &[u8], a: usize, b: usize) -> (r: Result<Keyword, ParseErrorKind>)
    requires
        a <= b <= s@.len(),
    ensures
        match keyword_of(s@.subrange(a as int, b as int)) {
            KwRes::Kw(kv) => r matches Ok(kw) && kw@ == kv,
            KwRes::Bad(e) => r matches Err(e2) && e2 == e,
        },
{
    let ghost tok = s@.subrange(a as int, b as int);
    if a == b {
        return Err(ParseErrorKind::EmptyKeyword);
    }
    proof {
        assert(tok[0] == s@[a as int]);
    }
    if s[a] == PLUS {
        return Err(ParseErrorKind::KeywordIsResponse);
    }
    let w: [u8; 4] = [81, 85, 73, 84];
    if token_eq(s, a, b, w.as_slice()) {
        proof {
            assert(w@ =~= lit_quit());
        }
        return Ok(Keyword::QUIT);
    }
    let w: [u8; 4] = [83, 84, 65, 84];
    if token_eq(s, a, b, w.as_slice()) {
        proof {
            assert(w@ =~= lit_stat());
        }
        return Ok(Keyword::STAT);
    }
    let w: [u8; 4] = [76, 73, 83, 84];
    if token_eq(s, a, b, w.as_slice()) {
        proof {
            assert(w@ =~= lit_list());
        }
        return Ok(Keyword::LIST);
    }
    let w: [u8; 4] = [82, 69, 84, 82];
    if token_eq(s, a, b, w.as_slice()) {
        proof {
            assert(w@ =~= lit_retr());
        }
        return Ok(Keyword::RETR);
    }
    let w: [u8; 4] = [68, 69, 76, 69];
    if token_eq(s, a, b, w.as_slice()) {
        proof {
            assert(w@ =~= lit_dele());
        }
        return Ok(Keyword::DELE);
    }
    let w: [u8; 4] = [78, 79, 79, 80];
    if token_eq(s, a, b, w.as_slice()) {
        proof {
            assert(w@ =~= lit_noop());
        }
        return Ok(Keyword::NOOP);
    }
    let w: [u8; 4] = [82, 83, 69, 84];
    if token_eq(s, a, b, w.as_slice()) {
        proof {
            assert(w@ =~= lit_rset());
        }
        return Ok(Keyword::RSET);
    }
    let w3: [u8; 3] = [84, 79, 80];
    if token_eq(s, a, b, w3.as_slice()) {
        proof {
            assert(w3@ =~= lit_top());
        }
        return Ok(Keyword::TOP);
    }
    let w: [u8; 4] = [85, 73, 68, 76];
    if token_eq(s, a, b, w.as_slice()) {
        proof {
            assert(w@ =~= lit_uidl());
        }
        return Ok(Keyword::UIDL);
    }
    let w: [u8; 4] = [85, 83, 69, 82];
    if token_eq(s, a, b, w.as_slice()) {
        proof {
            assert(w@ =~= lit_user());
        }
        return Ok(Keyword::USER);
    }
    let w: [u8; 4] = [80, 65, 83, 83];
    if token_eq(s, a, b, w.as_slice()) {
        proof {
            assert(w@ =~= lit_pass());
        }
        return Ok(Keyword::PASS);
    }
    let w: [u8; 4] = [65, 80, 79, 80];
    if token_eq(s, a, b, w.as_slice()) {
        proof {
            assert(w@ =~= lit_apop());
        }
        return Ok(Keyword::APOP);
    }
    let w: [u8; 4] = [67, 65, 80, 65];
    if token_eq(s, a, b, w.as_slice()) {
        proof {
            assert(w@ =~= lit_capa());
        }
        return Ok(Keyword::CAPA);
    }
    let w: [u8; 4] = [83, 84, 76, 83];
    if token_eq(s, a, b, w.as_slice()) {
        proof {
            assert(w@ =~= lit_stls());
        }
        return Ok(Keyword::STLS);
    }
    let w: [u8; 4] = [65, 85, 84, 72];
    if token_eq(s, a, b, w.as_slice()) {
        proof {
            assert(w@ =~= lit_auth());
        }
        return Ok(Keyword::AUTH);
    }
    let w: [u8; 4] = [83, 65, 83, 76];
    if token_eq(s, a, b, w.as_slice()) {
        proof {
            assert(w@ =~= lit_sasl());
        }
        return Ok(Keyword::SASL);
    }
    let mut i: usize = a;
    while i < b
        invariant
            a <= i <= b <= s@.len(),
            forall|j: int| a <= j < i ==> crate::model::is_alnum(#[trigger] s@[j]),
        decreases b - i,
    {
        let c = s[i];
        if !((65 <= c && c <= 90) || (97 <= c && c <= 122) || (48 <= c && c <= 57)) {
            proof {
                assert(s@.subrange(a as int, b as int)[i - a] == s@[i as int]);
            }
            return Err(ParseErrorKind::InvalidKeyword);
        }
        i = i + 1;
    }
    proof {
        assert forall|j: int| 0 <= j < tok.len() implies crate::model::is_alnum(
            #[trigger] tok[j],
        ) by {
            assert(tok[j] == s@[a + j]);
        }
    }
    Ok(Keyword::Unknown(copy_range(s, a, b)))
}

/// Outcome of parsing the argument list.
pub enum ArgsOutcome {
    /// The position after the consumed octets, and the collected arguments.
    Done(usize, Vec<Vec<u8>>),
    /// More octets are required.
    Inc(Needed),
}

/// Whether an executable argument-list outcome at `pos` agrees with
/// [`spec_args`] on the suffix starting at `pos`.
pub open spec fn args_outcome_matches(r: ArgsOutcome, pos: usize, g: ListStep) -> bool {
    match (r, g) {
        (ArgsOutcome::Done(p, v), ListStep::Done(c, a)) => p == pos + c && v.deep_view() == a,
        (ArgsOutcome::Inc(m), ListStep::Inc(n)) => m == n,
        _ => false,
    }
}

/// The argument list of a command line, parsed from `pos`, exactly as
/// [`spec_args`] describes.
#[verifier::loop_isolation(false)]
pub fn parse_args(s: &[u8], pos: usize) -> (r: ArgsOutcome)
    requires
        pos <= s@.len(),
    ensures
        args_outcome_matches(r, pos, spec_args(s@.skip(pos as int))),
        r matches ArgsOutcome::Done(p, _) ==> pos <= p <= s@.len(),
{
    let ghost whole = spec_args(s@.skip(pos as int));
    match scan_run1(s, pos, RunClass::Alnum) {
        ScanStep::Inc(n) => ArgsOutcome::Inc(n),
        ScanStep::Fail => {
            let empty: Vec<Vec<u8>> = Vec::new();
            proof {
                assert(empty.deep_view() =~= Seq::<Seq<u8>>::empty());
            }
            ArgsOutcome::Done(pos, empty)
        },
        ScanStep::Tok(first_end) => {
            let mut args: Vec<Vec<u8>> = Vec::new();
            args.push(copy_range(s, pos, first_end));
            let mut cur: usize = first_end;
            proof {
                lemma_deep_view_entries(args);
                assert(args.deep_view() =~= seq![s@.subrange(pos as int, first_end as int)]);
                assert(s@.skip(pos as int).take(first_end - pos) =~= s@.subrange(
                    pos as int,
                    first_end as int,
                ));
                assert(s@.skip(pos as int).skip(first_end - pos) =~= s@.skip(first_end as int));
                assert(scan1(s@.skip(pos as int), crate::model::alnum_pred()) == Scan::Tok(
                    (first_end - pos) as nat,
                ));
                assert(args.deep_view() == seq![s@.skip(pos as int).take(first_end - pos)]);
            }
            loop
                invariant
                    pos <= cur <= s@.len(),
                    whole == spec_args(s@.skip(pos as int)),
                    ({
                        match args_more(s@.skip(cur as int), args.deep_view()) {
                            ListStep::Done(c, a) => whole == ListStep::Done(
                                (cur - pos + c) as nat,
                                a,
                            ),
                            ListStep::Inc(n) => whole == ListStep::Inc(n),
                            ListStep::Fail(e) => whole == ListStep::Fail(e),
                        }
                    }),
                decreases s@.len() - cur,
            {
                match scan_run1(s, cur, RunClass::Space) {
                    ScanStep::Inc(n) => {
                        return ArgsOutcome::Inc(n);
                    },
                    ScanStep::Fail => {
                        return ArgsOutcome::Done(cur, args);
                    },
                    ScanStep::Tok(arg_start) => {
                        proof {
                            assert(s@.skip(cur as int).skip(arg_start - cur) =~= s@.skip(
                                arg_start as int,
                            ));
                        }
                        match scan_run1(s, arg_start, RunClass::Alnum) {
                            ScanStep::Inc(n) => {
                                return ArgsOutcome::Inc(n);
                            },
                            ScanStep::Fail => {
                                return ArgsOutcome::Done(cur, args);
                            },
                            ScanStep::Tok(arg_end) => {
                                proof {
                                    assert(s@.skip(cur as int).skip(arg_end - cur) =~= s@.skip(
                                        arg_end as int,
                                    ));
                                }
                                let ghost prev = args.deep_view();
                                args.push(copy_range(s, arg_start, arg_end));
                                proof {
                                    lemma_deep_view_entries(args);
                                    assert(args.deep_view() =~= prev.push(
                                        s@.subrange(arg_start as int, arg_end as int),
                                    ));
                                    assert(s@.skip(arg_start as int).take(arg_end - arg_start)
                                        =~= s@.subrange(arg_start as int, arg_end as int));
                                    assert(s@.skip(arg_start as int).skip(arg_end - arg_start)
                                        =~= s@.skip(arg_end as int));
                                }
                                cur = arg_end;
                            },
                        }
                    },
                }
            }
        },
    }
}

/// The wire length the arguments account for, capped so that it can be
/// compared against the RFC 2449 limit without overflow. The cap is far above
/// the limit, so the comparison is exact.
const ARGS_LEN_CAP: usize = 600;

/// `x` capped at [`ARGS_LEN_CAP`].
spec fn capped(x: int) -> int {
    if x > ARGS_LEN_CAP as int {
        ARGS_LEN_CAP as int
    } else {
        x
    }
}

/// The wire length of an argument list is never negative.
proof fn lemma_args_wire_len_nonneg(a: Seq<Seq<u8>>)
    ensures
        args_wire_len(a) >= 0,
    decreases a.len(),
{
    if a.len() > 0 {
        lemma_args_wire_len_nonneg(a.skip(1));
    }
}

/// Appending one argument adds its length plus one separator octet.
proof fn lemma_args_wire_len_push(a: Seq<Seq<u8>>, x: Seq<u8>)
    ensures
        args_wire_len(a.push(x)) == args_wire_len(a) + x.len() + 1,
    decreases a.len(),
{
    if a.len() == 0 {
        assert(a.push(x)[0] == x);
        assert(a.push(x).skip(1) =~= Seq::<Seq<u8>>::empty());
        assert(args_wire_len(Seq::<Seq<u8>>::empty()) == 0);
        assert(args_wire_len(a) == 0);
        assert(args_wire_len(a.push(x)) == x.len() + 1 + args_wire_len(a.push(x).skip(1)));
    } else {
        assert(a.push(x)[0] == a[0]);
        assert(a.push(x).skip(1) =~= a.skip(1).push(x));
        lemma_args_wire_len_push(a.skip(1), x);
    }
}

/// The conformance flags of a parsed command line, computed exactly as
/// [`cmd_flags`] describes.
#[verifier::loop_isolation(false)]
pub fn compute_cmd_flags(kw: &Keyword, kw_len: usize, args: &Vec<Vec<u8>>) -> (f: ErrorFlags)
    ensures
        f == cmd_flags(kw@, kw_len as nat, args.deep_view()),
{
    let ghost dv = args.deep_view();
    proof {
        lemma_deep_view_entries(*args);
    }
    let mut wire: usize = 0;
    let mut i: usize = 0;
    while i < args.len()
        invariant
            0 <= i <= args@.len(),
            dv == args.deep_view(),
            dv.len() == args@.len(),
            forall|j: int| 0 <= j < args@.len() ==> dv[j] == args@[j]@,
            wire <= ARGS_LEN_CAP,
            wire == capped(args_wire_len(dv.take(i as int))),
        decreases args@.len() - i,
    {
        let al = args[i].len();
        let add = if al > ARGS_LEN_CAP {
            ARGS_LEN_CAP
        } else {
            al + 1
        };
        let next = if wire + add > ARGS_LEN_CAP {
            ARGS_LEN_CAP
        } else {
            wire + add
        };
        proof {
            assert(dv.take(i + 1) =~= dv.take(i as int).push(dv[i as int]));
            lemma_args_wire_len_push(dv.take(i as int), dv[i as int]);
            lemma_args_wire_len_nonneg(dv.take(i as int));
        }
        wire = next;
        i = i + 1;
    }
    proof {
        assert(dv.take(dv.len() as int) =~= dv);
        lemma_args_wire_len_nonneg(dv);
    }
    let too_long: bool = if kw_len > 256 {
        true
    } else {
        kw_len + wire + 2 > 256
    };
    let arity: bool = match kw {
        Keyword::STAT | Keyword::NOOP | Keyword::RSET | Keyword::QUIT | Keyword::CAPA
            | Keyword::STLS => args.len() != 0,
        Keyword::SASL => args.len() == 0,
        Keyword::LIST | Keyword::UIDL => args.len() > 1,
        Keyword::RETR | Keyword::DELE | Keyword::USER | Keyword::PASS => args.len() != 1,
        Keyword::AUTH => !(args.len() == 1 || args.len() == 2),
        Keyword::TOP | Keyword::APOP => args.len() != 2,
        Keyword::Unknown(_) => false,
    };
    ErrorFlags {
        command_too_long: too_long,
        incorrect_argument_num: arity,
        unknown_keyword: matches!(kw, Keyword::Unknown(_)),
        response_too_long: false,
    }
}

/// One client command line from the head of `s`, exactly as
/// [`spec_parse_command`] describes.
pub fn parse_command(s: &[u8]) -> (r: ParseOutcome)
    ensures
        outcome_matches(r, spec_parse_command(s@)),
        r matches ParseOutcome::Msg(n, _) ==> n <= s@.len(),
{
    proof {
        assert(s@.skip(0) =~= s@);
    }
    match scan_run1(s, 0, RunClass::Alpha) {
        ScanStep::Inc(n) => ParseOutcome::Inc(n),
        ScanStep::Fail => ParseOutcome::Fail(ParseErrorKind::InvalidKeyword),
        ScanStep::Tok(kw_end) => match scan_spaces(s, kw_end) {
            ScanStep::Inc(n) => ParseOutcome::Inc(n),
            // An optional scan never fails; the arm completes the match.
            ScanStep::Fail => ParseOutcome::Fail(ParseErrorKind::InvalidKeyword),
            ScanStep::Tok(args_start) => {
                proof {
                    assert(s@.take(kw_end as int) =~= s@.subrange(0, kw_end as int));
                }
                match keyword_from(s, 0, kw_end) {
                    Err(e) => ParseOutcome::Fail(e),
                    Ok(kw) => match parse_args(s, args_start) {
                        ArgsOutcome::Inc(n) => ParseOutcome::Inc(n),
                        ArgsOutcome::Done(args_end, args) => match scan_crlf_at(s, args_end) {
                            ScanStep::Inc(n) => ParseOutcome::Inc(n),
                            ScanStep::Fail => ParseOutcome::Fail(ParseErrorKind::ExpectedCrlf),
                            ScanStep::Tok(end) => {
                                let flags = compute_cmd_flags(&kw, kw_end, &args);
                                let msg = Message {
                                    error_flags: flags,
                                    inner: InnerMessage::Command(
                                        Command { keyword: kw, args },
                                    ),
                                };
                                ParseOutcome::Msg(end, msg)
                            },
                        },
                    },
                }
            },
        },
    }
}

} // verus!
