//! Serialization of messages back to the wire, and the byte-stuffing laws.
//!
//! The serializer writes the canonical wire form of a message: the keyword,
//! one space before each argument, CRLF; or the status token, one space
//! before a non-empty header, CRLF, and for a non-empty body each line
//! stuffed and a terminating `.` line. A body line is armored with one
//! leading `.` when it begins with `.` (RFC 1939 byte-stuffing) and also when
//! it begins with a status token, which the response grammar would otherwise
//! mistake for the start of the next message.
use vstd::prelude::*;

use crate::model::{
    lit_apop, lit_auth, lit_capa, lit_crlf, lit_dele, lit_err, lit_list, lit_noop, lit_ok,
    lit_pass, lit_quit, lit_retr, lit_rset, lit_sasl, lit_stat, lit_stls, lit_term, lit_top,
    lit_uidl, lit_user, CR, DOT, LF, SP,
};
use crate::types::{
    CommandV, InnerMessageV, Keyword, KeywordV, Message, MessageV, ResponseV, Status,
};

verus! {

/// Whether `t` is a prefix of `s`.
pub open spec fn starts_with(s: Seq<u8>, t: Seq<u8>) -> bool {
    s.len() >= t.len() && s.take(t.len() as int) == t
}

/// Whether a body line must be sent with one extra leading `.`: it begins
/// with `.`, or with an octet string the response grammar reads as a status
/// token.
pub open spec fn needs_stuffing(l: Seq<u8>) -> bool {
    (l.len() > 0 && l[0] == DOT) || starts_with(l, lit_ok()) || starts_with(l, lit_err())
}

/// Dot-stuffing of one body line for the wire.
pub open spec fn stuff_line(l: Seq<u8>) -> Seq<u8> {
    if needs_stuffing(l) {
        seq![DOT] + l
    } else {
        l
    }
}

/// The byte-stuffing reversal the parser applies to each body line: one
/// leading `.` is stripped.
pub open spec fn unstuff_line(l: Seq<u8>) -> Seq<u8> {
    if l.len() > 0 && l[0] == DOT {
        l.skip(1)
    } else {
        l
    }
}

/// Byte-stuffing reversal is a left inverse of dot-stuffing: what was
/// stuffed for the wire comes back unchanged.
pub proof fn lemma_unstuff_of_stuff(l: Seq<u8>)
    ensures
        unstuff_line(stuff_line(l)) == l,
{
    if needs_stuffing(l) {
        assert((seq![DOT] + l)[0] == DOT);
        assert((seq![DOT] + l).skip(1) =~= l);
    }
}

/// On a line that needs no stuffing — every line of a single-line response,
/// which has none — the reversal changes nothing, so applying it again
/// changes nothing either: the operation is idempotent there.
pub proof fn lemma_unstuff_idempotent(l: Seq<u8>)
    requires
        !needs_stuffing(l),
    ensures
        unstuff_line(l) == l,
        unstuff_line(unstuff_line(l)) == unstuff_line(l),
{
}

/// The wire form of a keyword.
pub open spec fn ser_keyword(kw: KeywordV) -> Seq<u8> {
    match kw {
        KeywordV::QUIT => lit_quit(),
        KeywordV::STAT => lit_stat(),
        KeywordV::LIST => lit_list(),
        KeywordV::RETR => lit_retr(),
        KeywordV::DELE => lit_dele(),
        KeywordV::NOOP => lit_noop(),
        KeywordV::RSET => lit_rset(),
        KeywordV::TOP => lit_top(),
        KeywordV::UIDL => lit_uidl(),
        KeywordV::USER => lit_user(),
        KeywordV::PASS => lit_pass(),
        KeywordV::APOP => lit_apop(),
        KeywordV::CAPA => lit_capa(),
        KeywordV::STLS => lit_stls(),
        KeywordV::AUTH => lit_auth(),
        KeywordV::SASL => lit_sasl(),
        KeywordV::Unknown(raw) => raw,
    }
}

/// The wire form of an argument list: one space before each argument.
pub open spec fn ser_args(args: Seq<Seq<u8>>) -> Seq<u8>
    decreases args.len(),
{
    if args.len() == 0 {
        Seq::empty()
    } else {
        seq![SP] + args[0] + ser_args(args.skip(1))
    }
}

/// The wire form of a command line.
pub open spec fn ser_command(c: CommandV) -> Seq<u8> {
    ser_keyword(c.keyword) + ser_args(c.args) + lit_crlf()
}

/// The wire form of the body lines, each stuffed and terminated by CRLF.
pub open spec fn ser_lines(data: Seq<Seq<u8>>) -> Seq<u8>
    decreases data.len(),
{
    if data.len() == 0 {
        Seq::empty()
    } else {
        stuff_line(data[0]) + lit_crlf() + ser_lines(data.skip(1))
    }
}

/// The wire form of a response body: nothing for a single-line response,
/// else the stuffed lines and the terminating `.` line.
pub open spec fn ser_body(data: Seq<Seq<u8>>) -> Seq<u8> {
    if data.len() == 0 {
        Seq::empty()
    } else {
        ser_lines(data) + lit_term()
    }
}

/// The wire form of a status token.
pub open spec fn ser_status(status: Status) -> Seq<u8> {
    match status {
        Status::OK => lit_ok(),
        Status::ERR => lit_err(),
    }
}

/// The wire form of a response: the status token, one space before a
/// non-empty header, CRLF, and the body.
pub open spec fn ser_response(r: ResponseV) -> Seq<u8> {
    ser_status(r.status) + (if r.header.len() > 0 {
        seq![SP] + r.header
    } else {
        Seq::empty()
    }) + lit_crlf() + ser_body(r.data)
}

/// The wire form of a message.
pub open spec fn ser_message(m: MessageV) -> Seq<u8> {
    match m.inner {
        InnerMessageV::Command(c) => ser_command(c),
        InnerMessageV::Response(r) => ser_response(r),
    }
}

/// Appending one argument appends one space and the argument.
pub proof fn lemma_ser_args_push(a: Seq<Seq<u8>>, x: Seq<u8>)
    ensures
        ser_args(a.push(x)) == ser_args(a) + seq![SP] + x,
    decreases a.len(),
{
    if a.len() == 0 {
        assert(a.push(x)[0] == x);
        assert(a.push(x).skip(1) =~= Seq::<Seq<u8>>::empty());
        assert(ser_args(a.push(x)) == seq![SP] + a.push(x)[0] + ser_args(a.push(x).skip(1)));
        assert(ser_args(Seq::<Seq<u8>>::empty()) == Seq::<u8>::empty());
        assert(ser_args(a.push(x)) =~= ser_args(a) + seq![SP] + x);
    } else {
        assert(a.push(x)[0] == a[0]);
        assert(a.push(x).skip(1) =~= a.skip(1).push(x));
        lemma_ser_args_push(a.skip(1), x);
        assert(ser_args(a.push(x)) =~= ser_args(a) + seq![SP] + x);
    }
}

/// Appending one body line appends its stuffed form and CRLF.
pub proof fn lemma_ser_lines_push(a: Seq<Seq<u8>>, x: Seq<u8>)
    ensures
        ser_lines(a.push(x)) == ser_lines(a) + stuff_line(x) + lit_crlf(),
    decreases a.len(),
{
    if a.len() == 0 {
        assert(a.push(x)[0] == x);
        assert(a.push(x).skip(1) =~= Seq::<Seq<u8>>::empty());
        assert(ser_lines(a.push(x)) == stuff_line(a.push(x)[0]) + lit_crlf() + ser_lines(
            a.push(x).skip(1),
        ));
        assert(ser_lines(Seq::<Seq<u8>>::empty()) == Seq::<u8>::empty());
        assert(ser_lines(a.push(x)) =~= ser_lines(a) + stuff_line(x) + lit_crlf());
    } else {
        assert(a.push(x)[0] == a[0]);
        assert(a.push(x).skip(1) =~= a.skip(1).push(x));
        lemma_ser_lines_push(a.skip(1), x);
        assert(ser_lines(a.push(x)) =~= ser_lines(a) + stuff_line(x) + lit_crlf());
    }
}

/// Appends the octets of `src` to `out`.
fn push_bytes(out: &mut Vec<u8>, src: &[u8])
    ensures
        final(out)@ == old(out)@ + src@,
{
    let mut i: usize = 0;
    while i < src.len()
        invariant
            0 <= i <= src@.len(),
            out@ == old(out)@ + src@.take(i as int),
        decreases src@.len() - i,
    {
        out.push(src[i]);
        proof {
            assert(old(out)@ + src@.take(i + 1) =~= (old(out)@ + src@.take(i as int)).push(
                src@[i as int],
            ));
        }
        i = i + 1;
    }
    proof {
        assert(src@.take(src@.len() as int) =~= src@);
    }
}

/// Appends the wire form of a keyword to `out`.
fn push_keyword(out: &mut Vec<u8>, kw: &Keyword)
    ensures
        final(out)@ == old(out)@ + ser_keyword(kw@),
{
    match kw {
        Keyword::QUIT => {
            let w: [u8; 4] = [81, 85, 73, 84];
            proof {
                assert(w@ =~= lit_quit());
            }
            push_bytes(out, w.as_slice());
        },
        Keyword::STAT => {
            let w: [u8; 4] = [83, 84, 65, 84];
            proof {
                assert(w@ =~= lit_stat());
            }
            push_bytes(out, w.as_slice());
        },
        Keyword::LIST => {
            let w: [u8; 4] = [76, 73, 83, 84];
            proof {
                assert(w@ =~= lit_list());
            }
            push_bytes(out, w.as_slice());
        },
        Keyword::RETR => {
            let w: [u8; 4] = [82, 69, 84, 82];
            proof {
                assert(w@ =~= lit_retr());
            }
            push_bytes(out, w.as_slice());
        },
        Keyword::DELE => {
            let w: [u8; 4] = [68, 69, 76, 69];
            proof {
                assert(w@ =~= lit_dele());
            }
            push_bytes(out, w.as_slice());
        },
        Keyword::NOOP => {
            let w: [u8; 4] = [78, 79, 79, 80];
            proof {
                assert(w@ =~= lit_noop());
            }
            push_bytes(out, w.as_slice());
        },
        Keyword::RSET => {
            let w: [u8; 4] = [82, 83, 69, 84];
            proof {
                assert(w@ =~= lit_rset());
            }
            push_bytes(out, w.as_slice());
        },
        Keyword::TOP => {
            let w: [u8; 3] = [84, 79, 80];
            proof {
                assert(w@ =~= lit_top());
            }
            push_bytes(out, w.as_slice());
        },
        Keyword::UIDL => {
            let w: [u8; 4] = [85, 73, 68, 76];
            proof {
                assert(w@ =~= lit_uidl());
            }
            push_bytes(out, w.as_slice());
        },
        Keyword::USER => {
            let w: [u8; 4] = [85, 83, 69, 82];
            proof {
                assert(w@ =~= lit_user());
            }
            push_bytes(out, w.as_slice());
        },
        Keyword::PASS => {
            let w: [u8; 4] = [80, 65, 83, 83];
            proof {
                assert(w@ =~= lit_pass());
            }
            push_bytes(out, w.as_slice());
        },
        Keyword::APOP => {
            let w: [u8; 4] = [65, 80, 79, 80];
            proof {
                assert(w@ =~= lit_apop());
            }
            push_bytes(out, w.as_slice());
        },
        Keyword::CAPA => {
            let w: [u8; 4] = [67, 65, 80, 65];
            proof {
                assert(w@ =~= lit_capa());
            }
            push_bytes(out, w.as_slice());
        },
        Keyword::STLS => {
            let w: [u8; 4] = [83, 84, 76, 83];
            proof {
                assert(w@ =~= lit_stls());
            }
            push_bytes(out, w.as_slice());
        },
        Keyword::AUTH => {
            let w: [u8; 4] = [65, 85, 84, 72];
            proof {
                assert(w@ =~= lit_auth());
            }
            push_bytes(out, w.as_slice());
        },
        Keyword::SASL => {
            let w: [u8; 4] = [83, 65, 83, 76];
            proof {
                assert(w@ =~= lit_sasl());
            }
            push_bytes(out, w.as_slice());
        },
        Keyword::Unknown(raw) => {
            push_bytes(out, raw.as_slice());
        },
    }
}

/// Whether the line must be armored on the wire, as [`needs_stuffing`]
/// describes.
fn line_needs_stuffing(l: &[u8]) -> (r: bool)
    ensures
        r == needs_stuffing(l@),
{
    if l.len() > 0 && l[0] == DOT {
        proof {
            assert(needs_stuffing(l@));
        }
        return true;
    }
    if l.len() >= 3 && l[0] == 43 && l[1] == 79 && l[2] == 75 {
        proof {
            assert(l@.take(3) =~= lit_ok());
        }
        return true;
    }
    if l.len() >= 4 && l[0] == 45 && l[1] == 69 && l[2] == 82 && l[3] == 82 {
        proof {
            assert(l@.take(4) =~= lit_err());
        }
        return true;
    }
    proof {
        if starts_with(l@, lit_ok()) {
            assert(l@[0] == lit_ok()[0] && l@[1] == lit_ok()[1] && l@[2] == lit_ok()[2]);
        }
        if starts_with(l@, lit_err()) {
            assert(l@[0] == lit_err()[0] && l@[1] == lit_err()[1] && l@[2] == lit_err()[2]
                && l@[3] == lit_err()[3]);
        }
    }
    false
}

/// The octets a keyword stands for on the wire: the verb's text, or the
/// raw octets of an unknown verb.
pub fn keyword_wire(kw: &Keyword) -> (out: Vec<u8>)
    ensures
        out@ == ser_keyword(kw@),
{
    let mut out: Vec<u8> = Vec::new();
    push_keyword(&mut out, kw);
    proof {
        assert(out@ =~= ser_keyword(kw@));
    }
    out
}

/// The canonical wire form of a message.
pub fn serialize(msg: &Message) -> (out: Vec<u8>)
    ensures
        out@ == ser_message(msg@),
{
    let mut out: Vec<u8> = Vec::new();
    match &msg.inner {
        crate::types::InnerMessage::Command(c) => {
            push_keyword(&mut out, &c.keyword);
            let mut i: usize = 0;
            let ghost dv = c.args.deep_view();
            proof {
                crate::command::lemma_deep_view_entries(c.args);
                assert(dv.take(0) =~= Seq::<Seq<u8>>::empty());
                assert(out@ + ser_args(dv.take(0)) =~= out@);
            }
            while i < c.args.len()
                invariant
                    0 <= i <= c.args@.len(),
                    dv == c.args.deep_view(),
                    dv.len() == c.args@.len(),
                    forall|j: int| 0 <= j < c.args@.len() ==> dv[j] == c.args@[j]@,
                    out@ == ser_keyword(c.keyword@) + ser_args(dv.take(i as int)),
                decreases c.args@.len() - i,
            {
                out.push(SP);
                push_bytes(&mut out, c.args[i].as_slice());
                proof {
                    assert(dv.take(i + 1) =~= dv.take(i as int).push(dv[i as int]));
                    lemma_ser_args_push(dv.take(i as int), dv[i as int]);
                    assert(out@ =~= ser_keyword(c.keyword@) + ser_args(dv.take(i + 1)));
                }
                i = i + 1;
            }
            out.push(CR);
            out.push(LF);
            proof {
                assert(dv.take(dv.len() as int) =~= dv);
                assert(out@ =~= ser_command(c@));
            }
        },
        crate::types::InnerMessage::Response(r) => {
            match r.status {
                Status::OK => {
                    let w: [u8; 3] = [43, 79, 75];
                    proof {
                        assert(w@ =~= lit_ok());
                    }
                    push_bytes(&mut out, w.as_slice());
                },
                Status::ERR => {
                    let w: [u8; 4] = [45, 69, 82, 82];
                    proof {
                        assert(w@ =~= lit_err());
                    }
                    push_bytes(&mut out, w.as_slice());
                },
            }
            if r.header.len() > 0 {
                out.push(SP);
                push_bytes(&mut out, r.header.as_slice());
                proof {
                    assert(out@ =~= ser_status(r.status) + (seq![SP] + r.header@));
                }
            }
            out.push(CR);
            out.push(LF);
            let ghost before_body = out@;
            proof {
                assert(before_body =~= ser_status(r.status) + (if r.header@.len() > 0 {
                    seq![SP] + r.header@
                } else {
                    Seq::<u8>::empty()
                }) + lit_crlf());
            }
            if r.data.len() > 0 {
                let mut i: usize = 0;
                let ghost dv = r.data.deep_view();
                proof {
                    crate::command::lemma_deep_view_entries(r.data);
                    assert(dv.take(0) =~= Seq::<Seq<u8>>::empty());
                    assert(before_body + ser_lines(dv.take(0)) =~= before_body);
                }
                while i < r.data.len()
                    invariant
                        0 <= i <= r.data@.len(),
                        dv == r.data.deep_view(),
                        dv.len() == r.data@.len(),
                        forall|j: int| 0 <= j < r.data@.len() ==> dv[j] == r.data@[j]@,
                        out@ == before_body + ser_lines(dv.take(i as int)),
                    decreases r.data@.len() - i,
                {
                    if line_needs_stuffing(r.data[i].as_slice()) {
                        out.push(DOT);
                        push_bytes(&mut out, r.data[i].as_slice());
                        proof {
                            assert(stuff_line(dv[i as int]) =~= seq![DOT] + dv[i as int]);
                        }
                    } else {
                        push_bytes(&mut out, r.data[i].as_slice());
                    }
                    out.push(CR);
                    out.push(LF);
                    proof {
                        assert(dv.take(i + 1) =~= dv.take(i as int).push(dv[i as int]));
                        lemma_ser_lines_push(dv.take(i as int), dv[i as int]);
                        assert(out@ =~= before_body + ser_lines(dv.take(i + 1)));
                    }
                    i = i + 1;
                }
                out.push(DOT);
                out.push(CR);
                out.push(LF);
                proof {
                    assert(dv.take(dv.len() as int) =~= dv);
                    assert(out@ =~= before_body + (ser_lines(dv) + lit_term()));
                    assert(out@ =~= ser_response(r@));
                }
            } else {
                proof {
                    assert(r@.data.len() == 0);
                    assert(before_body + Seq::<u8>::empty() =~= before_body);
                    assert(out@ =~= ser_response(r@));
                }
            }
        },
    }
    out
}

} // verus!
