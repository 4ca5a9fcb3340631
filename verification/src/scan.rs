//! Executable streaming primitives, each verified against its specification
//! in [`crate::model`]. All work on a byte slice and an absolute position,
//! and report the new position, a demand for more octets, or a mismatch.
use vstd::prelude::*;

use crate::model::{
    alnum_pred, alpha_pred, is_line_end, line_pred, lit_crlf, lit_err, lit_ok, lit_term, scan1,
    scan_crlf, scan_line, scan_opt_space, scan_tag, space_pred, Scan, CR, DOT, LF, SP,
};
use crate::types::Needed;

verus! {

/// Outcome of an executable scan: the new absolute position on a match.
#[derive(Debug, Copy, Clone, PartialEq, Eq, Structural)]
pub enum ScanStep {
    /// Matched; the position after the consumed octets.
    Tok(usize),
    /// More octets are required.
    Inc(Needed),
    /// The octets at the position cannot match.
    Fail,
}

/// Relation between an executable scan outcome at `pos` and the
/// specification scan on the suffix starting at `pos`.
pub open spec fn step_matches(r: ScanStep, pos: usize, g: Scan) -> bool {
    match g {
        Scan::Tok(k) => r matches ScanStep::Tok(p) && p as int == pos + k,
        Scan::Inc(n) => r == ScanStep::Inc(n),
        Scan::Fail => r == ScanStep::Fail,
    }
}

/// The classes of octet runs the grammar scans for.
#[derive(Debug, Copy, Clone, PartialEq, Eq, Structural)]
pub enum RunClass {
    Alpha,
    Alnum,
    Space,
}

/// The predicate a [`RunClass`] stands for.
pub open spec fn class_pred(c: RunClass) -> spec_fn(u8) -> bool {
    match c {
        RunClass::Alpha => alpha_pred(),
        RunClass::Alnum => alnum_pred(),
        RunClass::Space => space_pred(),
    }
}

/// Whether `b` belongs to the class `c`.
fn class_holds(c: RunClass, b: u8) -> (r: bool)
    ensures
        r == class_pred(c)(b),
{
    match c {
        RunClass::Alpha => (65 <= b && b <= 90) || (97 <= b && b <= 122),
        RunClass::Alnum => (65 <= b && b <= 90) || (97 <= b && b <= 122) || (48 <= b && b <= 57),
        RunClass::Space => b == SP,
    }
}

/// One-or-more scan of a class: the executable form of [`scan1`].
pub fn scan_run1(s: &[u8], pos: usize, c: RunClass) -> (r: ScanStep)
    requires
        pos <= s@.len(),
    ensures
        step_matches(r, pos, scan1(s@.skip(pos as int), class_pred(c))),
        r matches ScanStep::Tok(p) ==> pos < p <= s@.len(),
{
    let ghost suffix = s@.skip(pos as int);
    let mut i: usize = pos;
    while i < s.len() && class_holds(c, s[i])
        invariant
            pos <= i <= s@.len(),
            forall|j: int| pos <= j < i ==> class_pred(c)(#[trigger] s@[j]),
        decreases s@.len() - i,
    {
        i = i + 1;
    }
    proof {
        assert forall|j: int| 0 <= j < i - pos implies class_pred(c)(#[trigger] suffix[j]) by {
            assert(suffix[j] == s@[pos + j]);
        }
        if i < s@.len() {
            assert(suffix[i - pos] == s@[i as int]);
        }
        crate::model::lemma_run_len_is(suffix, class_pred(c), i - pos);
    }
    if i == s.len() {
        ScanStep::Inc(Needed::Size(1))
    } else if i == pos {
        ScanStep::Fail
    } else {
        ScanStep::Tok(i)
    }
}

/// Zero-or-more scan of spaces: the executable form of [`scan_opt_space`].
pub fn scan_spaces(s: &[u8], pos: usize) -> (r: ScanStep)
    requires
        pos <= s@.len(),
    ensures
        step_matches(r, pos, scan_opt_space(s@.skip(pos as int))),
        r matches ScanStep::Tok(p) ==> pos <= p <= s@.len(),
{
    match scan_run1(s, pos, RunClass::Space) {
        ScanStep::Tok(p) => ScanStep::Tok(p),
        ScanStep::Inc(n) => ScanStep::Inc(n),
        ScanStep::Fail => ScanStep::Tok(pos),
    }
}

/// A fixed octet string at `pos`: the executable form of [`scan_tag`].
fn scan_tag_at(s: &[u8], pos: usize, t: &[u8]) -> (r: ScanStep)
    requires
        pos <= s@.len(),
    ensures
        step_matches(r, pos, scan_tag(t@, s@.skip(pos as int))),
        r matches ScanStep::Tok(p) ==> p == pos + t@.len() && p <= s@.len(),
{
    let ghost suffix = s@.skip(pos as int);
    let slen = s.len();
    let n = slen - pos;
    let mut i: usize = 0;
    while i < t.len() && i < n
        invariant
            slen == s@.len(),
            n == s@.len() - pos,
            pos <= s@.len(),
            0 <= i <= t@.len(),
            i <= n,
            forall|j: int| 0 <= j < i ==> s@[pos + j] == t@[j],
        decreases t@.len() - i,
    {
        if s[pos + i] != t[i] {
            proof {
                assert(s@.skip(pos as int)[i as int] == s@[pos + i]);
            }
            return ScanStep::Fail;
        }
        i = i + 1;
    }
    proof {
        assert forall|j: int| 0 <= j < t@.len() && j < suffix.len() implies suffix[j] == t@[j] by {
            assert(suffix[j] == s@[pos + j]);
        }
    }
    if n >= t.len() {
        ScanStep::Tok(pos + t.len())
    } else {
        ScanStep::Inc(Needed::Size(t.len() - n))
    }
}

/// The `+OK` status token at `pos`.
pub fn scan_ok_at(s: &[u8], pos: usize) -> (r: ScanStep)
    requires
        pos <= s@.len(),
    ensures
        step_matches(r, pos, scan_tag(lit_ok(), s@.skip(pos as int))),
        r matches ScanStep::Tok(p) ==> p == pos + 3 && p <= s@.len(),
{
    let t: [u8; 3] = [43, 79, 75];
    proof {
        assert(t@ =~= lit_ok());
    }
    scan_tag_at(s, pos, t.as_slice())
}

/// The `-ERR` status token at `pos`.
pub fn scan_err_at(s: &[u8], pos: usize) -> (r: ScanStep)
    requires
        pos <= s@.len(),
    ensures
        step_matches(r, pos, scan_tag(lit_err(), s@.skip(pos as int))),
        r matches ScanStep::Tok(p) ==> p == pos + 4 && p <= s@.len(),
{
    let t: [u8; 4] = [45, 69, 82, 82];
    proof {
        assert(t@ =~= lit_err());
    }
    scan_tag_at(s, pos, t.as_slice())
}

/// The CRLF terminator at `pos`.
pub fn scan_crlf_at(s: &[u8], pos: usize) -> (r: ScanStep)
    requires
        pos <= s@.len(),
    ensures
        step_matches(r, pos, scan_crlf(s@.skip(pos as int))),
        r matches ScanStep::Tok(p) ==> p == pos + 2 && p <= s@.len(),
{
    let t: [u8; 2] = [CR, LF];
    proof {
        assert(t@ =~= lit_crlf());
    }
    scan_tag_at(s, pos, t.as_slice())
}

/// The `.` CRLF line that terminates a multi-line body, at `pos`.
pub fn scan_term_at(s: &[u8], pos: usize) -> (r: ScanStep)
    requires
        pos <= s@.len(),
    ensures
        step_matches(r, pos, scan_tag(lit_term(), s@.skip(pos as int))),
        r matches ScanStep::Tok(p) ==> p == pos + 3 && p <= s@.len(),
{
    let t: [u8; 3] = [DOT, CR, LF];
    proof {
        assert(t@ =~= lit_term());
    }
    scan_tag_at(s, pos, t.as_slice())
}

/// The longest line at `pos`: the executable form of [`scan_line`]. On a
/// match the token runs from `pos` to the returned position, and the line
/// ending itself is not consumed.
pub fn scan_line_at(s: &[u8], pos: usize) -> (r: ScanStep)
    requires
        pos <= s@.len(),
    ensures
        step_matches(r, pos, scan_line(s@.skip(pos as int))),
        r matches ScanStep::Tok(p) ==> pos <= p < s@.len(),
{
    let ghost suffix = s@.skip(pos as int);
    let mut i: usize = pos;
    while i < s.len() && s[i] != CR && s[i] != LF
        invariant
            pos <= i <= s@.len(),
            forall|j: int| pos <= j < i ==> !is_line_end(#[trigger] s@[j]),
        decreases s@.len() - i,
    {
        i = i + 1;
    }
    proof {
        assert forall|j: int| 0 <= j < i - pos implies line_pred()(#[trigger] suffix[j]) by {
            assert(suffix[j] == s@[pos + j]);
        }
        if i < s@.len() {
            assert(suffix[i - pos] == s@[i as int]);
        }
        crate::model::lemma_run_len_is(suffix, line_pred(), i - pos);
    }
    if i == s.len() {
        ScanStep::Inc(Needed::Unknown)
    } else if s[i] == LF {
        ScanStep::Tok(i)
    } else if i + 1 == s.len() {
        ScanStep::Inc(Needed::Unknown)
    } else if s[i + 1] == LF {
        proof {
            assert(suffix[i - pos + 1] == s@[i + 1]);
        }
        ScanStep::Tok(i)
    } else {
        proof {
            assert(suffix[i - pos + 1] == s@[i + 1]);
        }
        ScanStep::Fail
    }
}

/// A fresh copy of the octets of `s` from `a` to `b`.
pub fn copy_range(s: &[u8], a: usize, b: usize) -> (v: Vec<u8>)
    requires
        a <= b <= s@.len(),
    ensures
        v@ == s@.subrange(a as int, b as int),
{
    let mut v: Vec<u8> = Vec::new();
    let mut i: usize = a;
    while i < b
        invariant
            a <= i <= b <= s@.len(),
            v@ == s@.subrange(a as int, i as int),
        decreases b - i,
    {
        v.push(s[i]);
        proof {
            assert(v@ =~= s@.subrange(a as int, i + 1));
        }
        i = i + 1;
    }
    v
}

} // verus!
