//! The correction rules.  Each rule reads one source file and marks some
//! of a [`FileCoverage`]'s records as ignored; no rule adds, removes or
//! reorders records.  The fix engine applies the rules in a fixed order
//! and drops the ignored records afterwards.

use vstd::prelude::*;

use crate::common::SourceCode;
use crate::coverage::line_hit;
use crate::coverage::BranchCoverage;
use crate::coverage::FileCoverage;
use crate::coverage::LineCoverage;
use crate::error::Error;
use crate::marker::extract_marker;
use crate::marker::spec_extract_marker;
use crate::marker::CommentMarker;
use crate::pattern::comment_start;
use crate::pattern::comment_start_of;
use crate::pattern::contains_char_upto;
use crate::pattern::contains_upto;
use crate::pattern::count_char_upto;
use crate::pattern::count_in;
use crate::pattern::is_attr_line;
use crate::pattern::is_blank_line;
use crate::pattern::is_cfg_test_attr;
use crate::pattern::is_closing_line;
use crate::pattern::is_comment_line;
use crate::pattern::is_derive_attr;
use crate::pattern::is_fn_decl;
use crate::pattern::is_for_line;
use crate::pattern::is_mod_decl;
use crate::pattern::is_test_attr;
use crate::pattern::is_type_decl;
use crate::pattern::starts_with_close;
use crate::text::str_eq;

verus! {

/// The record with its line coverage marked ignored.
pub open spec fn ignored_line_rec(r: LineCoverage) -> LineCoverage {
    LineCoverage { line_number: r.line_number, count: None }
}

/// The record with its branch coverage marked ignored.
pub open spec fn ignored_branch_rec(r: BranchCoverage) -> BranchCoverage {
    BranchCoverage { line_number: r.line_number, block_number: r.block_number, taken: None }
}

/// Line records after ignoring every record whose line is flagged.
pub open spec fn apply_line_flags(s: Seq<LineCoverage>, flags: Seq<bool>) -> Seq<LineCoverage> {
    Seq::new(
        s.len(),
        |k: int|
            if s[k].line_number < flags.len() && flags[s[k].line_number as int] {
                ignored_line_rec(s[k])
            } else {
                s[k]
            },
    )
}

/// Branch records after ignoring every record whose line is flagged.
pub open spec fn apply_branch_flags(s: Seq<BranchCoverage>, flags: Seq<bool>) -> Seq<
    BranchCoverage,
> {
    Seq::new(
        s.len(),
        |k: int|
            if s[k].line_number < flags.len() && flags[s[k].line_number as int] {
                ignored_branch_rec(s[k])
            } else {
                s[k]
            },
    )
}

/// Applies per-line ignore flags to the line records.
#[verifier::loop_isolation(false)]
fn apply_flags_to_lines(v: &Vec<LineCoverage>, flags: &Vec<bool>) -> (r: Vec<LineCoverage>)
    ensures
        r@ == apply_line_flags(v@, flags@),
{
    let mut out: Vec<LineCoverage> = Vec::new();
    let mut i: usize = 0;
    while i < v.len()
        invariant
            i <= v.len(),
            out@.len() == i,
            forall|k: int| 0 <= k < i ==> out@[k] == apply_line_flags(v@, flags@)[k],
        decreases v.len() - i,
    {
        let rec = v[i];
        let ln = rec.line_number;
        if ln < flags.len() && flags[ln] {
            out.push(LineCoverage { line_number: ln, count: None });
        } else {
            out.push(rec);
        }
        i = i + 1;
    }
    proof {
        assert(out@ =~= apply_line_flags(v@, flags@));
    }
    out
}

/// Applies per-line ignore flags to the branch records.
#[verifier::loop_isolation(false)]
fn apply_flags_to_branches(v: &Vec<BranchCoverage>, flags: &Vec<bool>) -> (r: Vec<BranchCoverage>)
    ensures
        r@ == apply_branch_flags(v@, flags@),
{
    let mut out: Vec<BranchCoverage> = Vec::new();
    let mut i: usize = 0;
    while i < v.len()
        invariant
            i <= v.len(),
            out@.len() == i,
            forall|k: int| 0 <= k < i ==> out@[k] == apply_branch_flags(v@, flags@)[k],
        decreases v.len() - i,
    {
        let rec = v[i];
        let ln = rec.line_number;
        if ln < flags.len() && flags[ln] {
            out.push(BranchCoverage { line_number: ln, block_number: rec.block_number, taken: None });
        } else {
            out.push(rec);
        }
        i = i + 1;
    }
    proof {
        assert(out@ =~= apply_branch_flags(v@, flags@));
    }
    out
}

// ---------------------------------------------------------------- close-block

/// One flag per source line: the line holds only closing tokens.
pub open spec fn close_flags(src: Seq<Seq<char>>) -> Seq<bool> {
    Seq::new(src.len(), |k: int| is_closing_line(src[k]))
}

/// Computes [`close_flags`] for a source file.
#[verifier::loop_isolation(false)]
fn close_scan(source: &SourceCode) -> (r: Vec<bool>)
    ensures
        r@ == close_flags(source@),
{
    let n = source.lines.len();
    let mut flags: Vec<bool> = Vec::new();
    let mut i: usize = 0;
    while i < n
        invariant
            i <= n,
            flags@.len() == i,
            forall|k: int| 0 <= k < i ==> flags@[k] == close_flags(source@)[k],
        decreases n - i,
    {
        proof {
            assert(source@[i as int] == source.lines@[i as int]@);
        }
        flags.push(crate::pattern::closing_line(self_line(source, i)));
        i = i + 1;
    }
    proof {
        assert(flags@ =~= close_flags(source@));
    }
    flags
}

/// Borrow of the line at `i`; a scanning helper.
fn self_line(source: &SourceCode, i: usize) -> (r: &str)
    requires
        i < source@.len(),
    ensures
        r@ == source@[i as int],
{
    proof {
        assert(source@[i as int] == source.lines@[i as int]@);
    }
    source.lines[i].as_str()
}

// ---------------------------------------------------------------- test-config

/// Flags with every index at or beyond `start` forced on.
pub open spec fn mark_from(flags: Seq<bool>, start: int) -> Seq<bool> {
    Seq::new(flags.len(), |k: int| k >= start || flags[k])
}

/// One pass of the test-configuration scanner.  `inside` means a test item
/// body is open; `pc` and `pt` remember where a pending `#[cfg(test)]` or
/// `#[test]` attribute block began.
pub open spec fn test_scan_rec(
    src: Seq<Seq<char>>,
    i: int,
    inside: bool,
    pc: Option<int>,
    pt: Option<int>,
    acc: Seq<bool>,
) -> Seq<bool>
    decreases src.len() - i,
{
    if !(0 <= i < src.len()) {
        acc
    } else {
        let l = src[i];
        if inside {
            if starts_with_close(l) {
                test_scan_rec(src, i + 1, false, None, None, acc.push(true))
            } else {
                test_scan_rec(src, i + 1, true, None, None, acc.push(true))
            }
        } else if is_cfg_test_attr(l) {
            test_scan_rec(
                src,
                i + 1,
                false,
                if pc is Some {
                    pc
                } else {
                    Some(i)
                },
                pt,
                acc.push(false),
            )
        } else if is_test_attr(l) {
            test_scan_rec(
                src,
                i + 1,
                false,
                pc,
                if pt is Some {
                    pt
                } else {
                    Some(i)
                },
                acc.push(false),
            )
        } else if pc is Some && is_mod_decl(l) {
            test_scan_rec(src, i + 1, true, None, None, mark_from(acc, pc->0).push(true))
        } else if pt is Some && is_fn_decl(l) {
            test_scan_rec(src, i + 1, true, None, None, mark_from(acc, pt->0).push(true))
        } else if is_attr_line(l) || is_comment_line(l) || is_blank_line(l) {
            test_scan_rec(src, i + 1, false, pc, pt, acc.push(false))
        } else {
            test_scan_rec(src, i + 1, false, None, None, acc.push(false))
        }
    }
}

/// One flag per source line: the line belongs to a test-configured item.
pub open spec fn test_flags(src: Seq<Seq<char>>) -> Seq<bool> {
    test_scan_rec(src, 0, false, None, None, Seq::empty())
}

/// An index option as the ghost integer the scanner specification uses.
pub open spec fn opt_int(o: Option<usize>) -> Option<int> {
    match o {
        Some(k) => Some(k as int),
        None => None,
    }
}

/// Rebuilds the flags with everything at or beyond `start` forced on.
#[verifier::loop_isolation(false)]
fn mark_from_exec(v: &Vec<bool>, start: usize) -> (r: Vec<bool>)
    ensures
        r@ == mark_from(v@, start as int),
{
    let mut out: Vec<bool> = Vec::new();
    let mut i: usize = 0;
    while i < v.len()
        invariant
            i <= v.len(),
            out@.len() == i,
            forall|k: int| 0 <= k < i ==> out@[k] == mark_from(v@, start as int)[k],
        decreases v.len() - i,
    {
        if i >= start {
            out.push(true);
        } else {
            out.push(v[i]);
        }
        i = i + 1;
    }
    proof {
        assert(out@ =~= mark_from(v@, start as int));
    }
    out
}

/// Computes [`test_flags`] for a source file.
#[verifier::loop_isolation(false)]
fn test_scan(source: &SourceCode) -> (r: Vec<bool>)
    ensures
        r@ == test_flags(source@),
{
    let n = source.lines.len();
    let mut flags: Vec<bool> = Vec::new();
    let mut inside = false;
    let mut pc: Option<usize> = None;
    let mut pt: Option<usize> = None;
    let mut i: usize = 0;
    while i < n
        invariant
            i <= n,
            flags@.len() == i,
            test_flags(source@) == test_scan_rec(
                source@,
                i as int,
                inside,
                opt_int(pc),
                opt_int(pt),
                flags@,
            ),
        decreases n - i,
    {
        let l = self_line(source, i);
        if inside {
            if crate::pattern::line_starts_with_close(l) {
                inside = false;
            }
            pc = None;
            pt = None;
            flags.push(true);
        } else if crate::pattern::cfg_test_attr(l) {
            if pc.is_none() {
                pc = Some(i);
            }
            flags.push(false);
        } else if crate::pattern::test_attr(l) {
            if pt.is_none() {
                pt = Some(i);
            }
            flags.push(false);
        } else if pc.is_some() && crate::pattern::mod_decl(l) {
            let start = match pc {
                Some(s) => s,
                None => 0,
            };
            flags = mark_from_exec(&flags, start);
            flags.push(true);
            inside = true;
            pc = None;
            pt = None;
        } else if pt.is_some() && crate::pattern::fn_decl(l) {
            let start = match pt {
                Some(s) => s,
                None => 0,
            };
            flags = mark_from_exec(&flags, start);
            flags.push(true);
            inside = true;
            pc = None;
            pt = None;
        } else if crate::pattern::attr_line(l) || crate::pattern::comment_line(l)
            || crate::pattern::blank_line(l) {
            flags.push(false);
        } else {
            pc = None;
            pt = None;
            flags.push(false);
        }
        i = i + 1;
    }
    flags
}

// ---------------------------------------------------------------- derive

/// Scanner state of the derive rule.
#[derive(Clone, Copy, Debug)]
pub enum DeriveState {
    /// looking for a `#[derive(...)]` attribute
    Searching,
    /// after the attribute, before the type declaration
    ScanningDecl,
    /// inside the declared type's body; `depth` counts open braces, `seen`
    /// says whether any `{` was seen yet
    InsideDecl { depth: usize, seen: bool },
}

/// `d` forced into the machine-word range: below zero becomes zero, above
/// `usize::MAX` sticks there (relevant only to absurd nesting depths).
pub open spec fn clamp_depth(d: int) -> usize {
    if d <= 0 {
        0
    } else if d > usize::MAX {
        usize::MAX
    } else {
        d as usize
    }
}

/// The declared item ends on this line.
pub open spec fn decl_done(depth: int, seen: bool, opens: int, closes: int, semi: bool) -> bool {
    (seen && depth + opens <= closes) || (!seen && semi)
}

/// One step of the derive scanner: whether this line's records are ignored
/// and the following state.
pub open spec fn derive_step(st: DeriveState, l: Seq<char>) -> (bool, DeriveState) {
    let cut = comment_start(l);
    let opens = count_in(l, '{', 0, cut);
    let closes = count_in(l, '}', 0, cut);
    let semi = contains_upto(l, ';', cut);
    match st {
        DeriveState::Searching => {
            if is_derive_attr(l) {
                (true, DeriveState::ScanningDecl)
            } else {
                (false, DeriveState::Searching)
            }
        },
        DeriveState::ScanningDecl => {
            if is_type_decl(l) {
                let seen = opens > 0;
                if decl_done(0, seen, opens, closes, semi) {
                    (true, DeriveState::Searching)
                } else {
                    (true, DeriveState::InsideDecl { depth: clamp_depth(opens - closes), seen })
                }
            } else if is_attr_line(l) || is_comment_line(l) || is_blank_line(l) {
                (true, DeriveState::ScanningDecl)
            } else {
                (false, DeriveState::Searching)
            }
        },
        DeriveState::InsideDecl { depth, seen } => {
            let seen2 = seen || opens > 0;
            if decl_done(depth as int, seen2, opens, closes, semi) {
                (true, DeriveState::Searching)
            } else {
                (
                    true,
                    DeriveState::InsideDecl {
                        depth: clamp_depth(depth + opens - closes),
                        seen: seen2,
                    },
                )
            }
        },
    }
}

/// Scanner state before line `i`.
pub open spec fn derive_state_at(src: Seq<Seq<char>>, i: int) -> DeriveState
    decreases i,
{
    if i <= 0 {
        DeriveState::Searching
    } else {
        derive_step(derive_state_at(src, i - 1), src[i - 1]).1
    }
}

/// One flag per source line: the line belongs to a derive-attributed type
/// declaration.
pub open spec fn derive_flags(src: Seq<Seq<char>>) -> Seq<bool> {
    Seq::new(src.len(), |k: int| derive_step(derive_state_at(src, k), src[k]).0)
}

/// Executable step of the derive scanner.
fn derive_step_exec(st: DeriveState, l: &str) -> (r: (bool, DeriveState))
    ensures
        r == derive_step(st, l@),
{
    let cut = comment_start_of(l);
    let opens = count_char_upto(l, '{', cut);
    let closes = count_char_upto(l, '}', cut);
    let semi = contains_char_upto(l, ';', cut);
    proof {
        crate::pattern::lemma_count_in(l@, '{', 0, cut as int);
        crate::pattern::lemma_count_in(l@, '}', 0, cut as int);
    }
    match st {
        DeriveState::Searching => {
            if crate::pattern::derive_attr(l) {
                (true, DeriveState::ScanningDecl)
            } else {
                (false, DeriveState::Searching)
            }
        },
        DeriveState::ScanningDecl => {
            if crate::pattern::type_decl(l) {
                let seen = opens > 0;
                if (seen && opens <= closes) || (!seen && semi) {
                    (true, DeriveState::Searching)
                } else {
                    let nd = if opens >= closes {
                        opens - closes
                    } else {
                        0
                    };
                    (true, DeriveState::InsideDecl { depth: nd, seen })
                }
            } else if crate::pattern::attr_line(l) || crate::pattern::comment_line(l)
                || crate::pattern::blank_line(l) {
                (true, DeriveState::ScanningDecl)
            } else {
                (false, DeriveState::Searching)
            }
        },
        DeriveState::InsideDecl { depth, seen } => {
            let seen2 = seen || opens > 0;
            let done = (seen2 && depth <= closes && opens <= closes - depth) || (!seen2 && semi);
            if done {
                (true, DeriveState::Searching)
            } else {
                let nd = if opens >= closes {
                    let inc = opens - closes;
                    if usize::MAX - depth < inc {
                        usize::MAX
                    } else {
                        depth + inc
                    }
                } else {
                    let dec = closes - opens;
                    if depth >= dec {
                        depth - dec
                    } else {
                        0
                    }
                };
                (true, DeriveState::InsideDecl { depth: nd, seen: seen2 })
            }
        },
    }
}

/// Computes [`derive_flags`] for a source file.
#[verifier::loop_isolation(false)]
fn derive_scan(source: &SourceCode) -> (r: Vec<bool>)
    ensures
        r@ == derive_flags(source@),
{
    let n = source.lines.len();
    let mut flags: Vec<bool> = Vec::new();
    let mut st = DeriveState::Searching;
    let mut i: usize = 0;
    while i < n
        invariant
            i <= n,
            flags@.len() == i,
            st == derive_state_at(source@, i as int),
            forall|k: int| 0 <= k < i ==> flags@[k] == derive_flags(source@)[k],
        decreases n - i,
    {
        let l = self_line(source, i);
        let (ignore, next) = derive_step_exec(st, l);
        flags.push(ignore);
        st = next;
        i = i + 1;
    }
    proof {
        assert(flags@ =~= derive_flags(source@));
    }
    flags
}

// ---------------------------------------------------------------- comment

/// Scanner state of the comment rule: three independent booleans, one per
/// range mode, each toggled by its own begin and end markers.
#[derive(Clone, Copy, Debug)]
pub struct CommentState {
    /// an `ignore-line` range is open
    pub in_line: bool,
    /// an `ignore-branch` range is open
    pub in_branch: bool,
    /// a plain `ignore` range is open
    pub in_both: bool,
}

/// The scanner's initial state: no range open.
pub open spec fn comment_initial() -> CommentState {
    CommentState { in_line: false, in_branch: false, in_both: false }
}

/// State after a line carrying marker `m` was seen in state `st`: each
/// mode's flag is set by its begin marker and cleared by its end marker,
/// independently of the other modes.  A second begin of an open mode and
/// an end of a closed mode change nothing.
pub open spec fn comment_step(st: CommentState, m: Option<CommentMarker>) -> CommentState {
    match m {
        Some(CommentMarker::BeginIgnoreLine) => CommentState { in_line: true, ..st },
        Some(CommentMarker::EndIgnoreLine) => CommentState { in_line: false, ..st },
        Some(CommentMarker::BeginIgnoreBranch) => CommentState { in_branch: true, ..st },
        Some(CommentMarker::EndIgnoreBranch) => CommentState { in_branch: false, ..st },
        Some(CommentMarker::BeginIgnoreBoth) => CommentState { in_both: true, ..st },
        Some(CommentMarker::EndIgnoreBoth) => CommentState { in_both: false, ..st },
        _ => st,
    }
}

/// What a line with marker `m` seen in state `st` suppresses:
/// `(line records, branch records)`.  A line is suppressed by any open
/// range of a matching mode — the begin and end lines included, since the
/// flag is still, or already, set on them — or by the line's own one-line
/// or begin marker.
pub open spec fn comment_marks(st: CommentState, m: Option<CommentMarker>) -> (bool, bool) {
    let own_line = match m {
        Some(CommentMarker::IgnoreLine) => true,
        Some(CommentMarker::IgnoreBoth) => true,
        Some(CommentMarker::BeginIgnoreLine) => true,
        Some(CommentMarker::BeginIgnoreBoth) => true,
        _ => false,
    };
    let own_branch = match m {
        Some(CommentMarker::IgnoreBranch) => true,
        Some(CommentMarker::IgnoreBoth) => true,
        Some(CommentMarker::BeginIgnoreBranch) => true,
        Some(CommentMarker::BeginIgnoreBoth) => true,
        _ => false,
    };
    (st.in_line || st.in_both || own_line, st.in_branch || st.in_both || own_branch)
}

/// Scanner state before line `i`.
pub open spec fn comment_state_at(src: Seq<Seq<char>>, i: int) -> CommentState
    decreases i,
{
    if i <= 0 {
        comment_initial()
    } else {
        comment_step(comment_state_at(src, i - 1), spec_extract_marker(src[i - 1]))
    }
}

/// One flag per source line: line records suppressed by a marker.
pub open spec fn comment_line_flags(src: Seq<Seq<char>>) -> Seq<bool> {
    Seq::new(
        src.len(),
        |k: int| comment_marks(comment_state_at(src, k), spec_extract_marker(src[k])).0,
    )
}

/// One flag per source line: branch records suppressed by a marker.
pub open spec fn comment_branch_flags(src: Seq<Seq<char>>) -> Seq<bool> {
    Seq::new(
        src.len(),
        |k: int| comment_marks(comment_state_at(src, k), spec_extract_marker(src[k])).1,
    )
}

/// Executable step of the comment scanner.
fn comment_step_exec(st: CommentState, m: Option<CommentMarker>) -> (r: ((bool, bool), CommentState))
    ensures
        r.0 == comment_marks(st, m),
        r.1 == comment_step(st, m),
{
    let own_line = match m {
        Some(CommentMarker::IgnoreLine) => true,
        Some(CommentMarker::IgnoreBoth) => true,
        Some(CommentMarker::BeginIgnoreLine) => true,
        Some(CommentMarker::BeginIgnoreBoth) => true,
        _ => false,
    };
    let own_branch = match m {
        Some(CommentMarker::IgnoreBranch) => true,
        Some(CommentMarker::IgnoreBoth) => true,
        Some(CommentMarker::BeginIgnoreBranch) => true,
        Some(CommentMarker::BeginIgnoreBoth) => true,
        _ => false,
    };
    let marks = (st.in_line || st.in_both || own_line, st.in_branch || st.in_both || own_branch);
    let next = match m {
        Some(CommentMarker::BeginIgnoreLine) => CommentState { in_line: true, ..st },
        Some(CommentMarker::EndIgnoreLine) => CommentState { in_line: false, ..st },
        Some(CommentMarker::BeginIgnoreBranch) => CommentState { in_branch: true, ..st },
        Some(CommentMarker::EndIgnoreBranch) => CommentState { in_branch: false, ..st },
        Some(CommentMarker::BeginIgnoreBoth) => CommentState { in_both: true, ..st },
        Some(CommentMarker::EndIgnoreBoth) => CommentState { in_both: false, ..st },
        _ => st,
    };
    (marks, next)
}

/// Computes [`comment_line_flags`] and [`comment_branch_flags`].
#[verifier::loop_isolation(false)]
fn comment_scan(source: &SourceCode) -> (r: (Vec<bool>, Vec<bool>))
    ensures
        r.0@ == comment_line_flags(source@),
        r.1@ == comment_branch_flags(source@),
{
    let n = source.lines.len();
    let mut lf: Vec<bool> = Vec::new();
    let mut bf: Vec<bool> = Vec::new();
    let mut st = CommentState { in_line: false, in_branch: false, in_both: false };
    let mut i: usize = 0;
    while i < n
        invariant
            i <= n,
            lf@.len() == i,
            bf@.len() == i,
            st == comment_state_at(source@, i as int),
            forall|k: int| 0 <= k < i ==> lf@[k] == comment_line_flags(source@)[k],
            forall|k: int| 0 <= k < i ==> bf@[k] == comment_branch_flags(source@)[k],
        decreases n - i,
    {
        let l = self_line(source, i);
        let m = extract_marker(l);
        let (marks, next) = comment_step_exec(st, m);
        lf.push(marks.0);
        bf.push(marks.1);
        st = next;
        i = i + 1;
    }
    proof {
        assert(lf@ =~= comment_line_flags(source@));
        assert(bf@ =~= comment_branch_flags(source@));
    }
    (lf, bf)
}

/// The unknown marker keys of a source, in line order: one entry per line
/// whose `cov:` marker carries a key that means nothing.
pub open spec fn marker_warnings_spec(src: Seq<Seq<char>>) -> Seq<Seq<char>>
    decreases src.len(),
{
    if src.len() == 0 {
        Seq::empty()
    } else {
        marker_warnings_spec(src.drop_last()) + (match crate::marker::spec_unknown_key(
            src.last(),
        ) {
            Some(k) => seq![k],
            None => Seq::empty(),
        })
    }
}

/// Collects the unknown `cov:` marker keys of a source file, so the
/// caller can warn about them: the comment rule itself skips them.
#[verifier::loop_isolation(false)]
pub fn marker_warnings(source: &SourceCode) -> (r: Vec<String>)
    ensures
        crate::common::views_of(r@) == marker_warnings_spec(source@),
{
    let n = source.lines.len();
    let mut out: Vec<String> = Vec::new();
    let mut i: usize = 0;
    while i < n
        invariant
            i <= n,
            crate::common::views_of(out@) == marker_warnings_spec(source@.take(i as int)),
        decreases n - i,
    {
        let l = self_line(source, i);
        proof {
            assert(source@.take(i + 1).drop_last() =~= source@.take(i as int));
            assert(source@.take(i + 1).last() == l@);
        }
        match crate::marker::unknown_marker_key(l) {
            Some(k) => {
                proof {
                    assert(crate::common::views_of(out@.push(k)) =~= crate::common::views_of(out@)
                        + seq![k@]);
                }
                out.push(k);
            },
            None => {
                proof {
                    assert(marker_warnings_spec(source@.take(i + 1)) =~= crate::common::views_of(
                        out@,
                    ));
                }
            },
        }
        i = i + 1;
    }
    proof {
        assert(source@.take(n as int) =~= source@);
    }
    out
}

// ---------------------------------------------------------------- loop

/// The first line record with this line number decides whether the line
/// was executed.
pub open spec fn line_rec_hit_at(lines: Seq<LineCoverage>, ln: int) -> bool
    decreases lines.len(),
{
    if lines.len() == 0 {
        false
    } else if lines[0].line_number == ln {
        line_hit(lines[0])
    } else {
        line_rec_hit_at(lines.subrange(1, lines.len() as int), ln)
    }
}

/// The line qualifies for the loop rule: a for-loop header whose line
/// record shows execution.
pub open spec fn loop_line_cond(src: Seq<Seq<char>>, lines: Seq<LineCoverage>, ln: int) -> bool {
    0 <= ln < src.len() && is_for_line(src[ln]) && line_rec_hit_at(lines, ln)
}

/// A branch before `k` on the same line already reads "not taken".
pub open spec fn prev_false_before(branches: Seq<BranchCoverage>, k: int, ln: int) -> bool {
    exists|j: int|
        0 <= j < k && #[trigger] branches[j].line_number == ln && branches[j].taken == Some(false)
}

/// The branch record at `k` after the loop rule ran.
pub open spec fn loop_branch_result(
    src: Seq<Seq<char>>,
    lines: Seq<LineCoverage>,
    branches: Seq<BranchCoverage>,
    k: int,
) -> BranchCoverage {
    let b = branches[k];
    if loop_line_cond(src, lines, b.line_number as int) && b.taken == Some(false)
        && !prev_false_before(branches, k, b.line_number as int) {
        ignored_branch_rec(b)
    } else {
        b
    }
}

/// Branch records after the loop rule: on each qualifying line the first
/// "not taken" branch is ignored, the rest stay.
pub open spec fn loop_apply(
    src: Seq<Seq<char>>,
    lines: Seq<LineCoverage>,
    branches: Seq<BranchCoverage>,
) -> Seq<BranchCoverage> {
    Seq::new(branches.len(), |k: int| loop_branch_result(src, lines, branches, k))
}

/// Executable twin of [`line_rec_hit_at`].
#[verifier::loop_isolation(false)]
fn line_rec_hit(lines: &Vec<LineCoverage>, ln: usize) -> (r: bool)
    ensures
        r == line_rec_hit_at(lines@, ln as int),
{
    let n = lines.len();
    proof {
        assert(lines@.subrange(0, n as int) =~= lines@);
    }
    let mut i: usize = 0;
    while i < n
        invariant
            i <= n,
            line_rec_hit_at(lines@, ln as int) == line_rec_hit_at(
                lines@.subrange(i as int, n as int),
                ln as int,
            ),
        decreases n - i,
    {
        proof {
            assert(lines@.subrange(i as int, n as int)[0] == lines@[i as int]);
            assert(lines@.subrange(i as int, n as int).subrange(1, (n - i) as int)
                =~= lines@.subrange(i + 1, n as int));
        }
        let rec = lines[i];
        if rec.line_number == ln {
            return match rec.count {
                Some(c) => c > 0,
                None => false,
            };
        }
        i = i + 1;
    }
    false
}

/// Executable twin of [`prev_false_before`].
#[verifier::loop_isolation(false)]
fn prev_false(branches: &Vec<BranchCoverage>, k: usize, ln: usize) -> (r: bool)
    requires
        k <= branches@.len(),
    ensures
        r == prev_false_before(branches@, k as int, ln as int),
{
    let mut j: usize = 0;
    while j < k
        invariant
            j <= k,
            forall|t: int|
                0 <= t < j ==> !(#[trigger] branches@[t].line_number == ln && branches@[t].taken
                    == Some(false)),
        decreases k - j,
    {
        let b = branches[j];
        let is_false = match b.taken {
            Some(t) => !t,
            None => false,
        };
        if b.line_number == ln && is_false {
            return true;
        }
        j = j + 1;
    }
    false
}

/// Applies the loop rule to the branch records.
#[verifier::loop_isolation(false)]
fn loop_fix(source: &SourceCode, lines: &Vec<LineCoverage>, branches: &Vec<BranchCoverage>) -> (r:
    Vec<BranchCoverage>)
    ensures
        r@ == loop_apply(source@, lines@, branches@),
{
    let mut out: Vec<BranchCoverage> = Vec::new();
    let mut k: usize = 0;
    while k < branches.len()
        invariant
            k <= branches.len(),
            out@.len() == k,
            forall|t: int| 0 <= t < k ==> out@[t] == loop_apply(source@, lines@, branches@)[t],
        decreases branches.len() - k,
    {
        let b = branches[k];
        let ln = b.line_number;
        let header_is_for = match source.get_line(ln) {
            Some(l) => crate::pattern::for_line(l),
            None => false,
        };
        let is_false = match b.taken {
            Some(t) => !t,
            None => false,
        };
        if header_is_for && is_false && line_rec_hit(lines, ln) && !prev_false(branches, k, ln) {
            out.push(BranchCoverage { line_number: ln, block_number: b.block_number, taken: None });
        } else {
            out.push(b);
        }
        k = k + 1;
    }
    proof {
        assert(out@ =~= loop_apply(source@, lines@, branches@));
    }
    out
}

// ---------------------------------------------------------------- the rules

/// Ignores stand-alone closing delimiters, `else` headers, blank lines and
/// comment-only lines.
#[derive(Clone, Copy, Debug)]
pub struct CloseBlockRule;

/// Ignores `#[cfg(test)]` modules and `#[test]` functions.
#[derive(Clone, Copy, Debug)]
pub struct TestRule;

/// Ignores the never-taken back-edge branch of an executed for-loop header.
#[derive(Clone, Copy, Debug)]
pub struct LoopRule;

/// Ignores `#[derive(...)]`-attributed type declarations.
#[derive(Clone, Copy, Debug)]
pub struct DeriveRule;

/// Honors `cov:` suppression markers; it runs last so users can override
/// the other rules.
#[derive(Clone, Copy, Debug)]
pub struct CommentRule;

impl CloseBlockRule {
    pub fn new() -> (r: CloseBlockRule)
        ensures
            r == CloseBlockRule,
    {
        CloseBlockRule
    }

    /// Marks every record on a closing-only line as ignored.
    pub fn fix_file_coverage(&self, source: &SourceCode, file_cov: &mut FileCoverage)
        ensures
            final(file_cov).path == old(file_cov).path,
            final(file_cov).line_coverages@ == apply_line_flags(
                old(file_cov).line_coverages@,
                close_flags(source@),
            ),
            final(file_cov).branch_coverages@ == apply_branch_flags(
                old(file_cov).branch_coverages@,
                close_flags(source@),
            ),
    {
        let flags = close_scan(source);
        file_cov.line_coverages = apply_flags_to_lines(&file_cov.line_coverages, &flags);
        file_cov.branch_coverages = apply_flags_to_branches(&file_cov.branch_coverages, &flags);
    }
}

impl TestRule {
    pub fn new() -> (r: TestRule)
        ensures
            r == TestRule,
    {
        TestRule
    }

    /// Marks every record inside a test-configured item as ignored.
    pub fn fix_file_coverage(&self, source: &SourceCode, file_cov: &mut FileCoverage)
        ensures
            final(file_cov).path == old(file_cov).path,
            final(file_cov).line_coverages@ == apply_line_flags(
                old(file_cov).line_coverages@,
                test_flags(source@),
            ),
            final(file_cov).branch_coverages@ == apply_branch_flags(
                old(file_cov).branch_coverages@,
                test_flags(source@),
            ),
    {
        let flags = test_scan(source);
        file_cov.line_coverages = apply_flags_to_lines(&file_cov.line_coverages, &flags);
        file_cov.branch_coverages = apply_flags_to_branches(&file_cov.branch_coverages, &flags);
    }
}

impl LoopRule {
    pub fn new() -> (r: LoopRule)
        ensures
            r == LoopRule,
    {
        LoopRule
    }

    /// On each executed for-loop header line, marks the first "not taken"
    /// branch as ignored.
    pub fn fix_file_coverage(&self, source: &SourceCode, file_cov: &mut FileCoverage)
        ensures
            final(file_cov).path == old(file_cov).path,
            final(file_cov).line_coverages@ == old(file_cov).line_coverages@,
            final(file_cov).branch_coverages@ == loop_apply(
                source@,
                old(file_cov).line_coverages@,
                old(file_cov).branch_coverages@,
            ),
    {
        file_cov.branch_coverages = loop_fix(
            source,
            &file_cov.line_coverages,
            &file_cov.branch_coverages,
        );
    }
}

impl DeriveRule {
    pub fn new() -> (r: DeriveRule)
        ensures
            r == DeriveRule,
    {
        DeriveRule
    }

    /// Marks every record of a derive-attributed declaration as ignored.
    pub fn fix_file_coverage(&self, source: &SourceCode, file_cov: &mut FileCoverage)
        ensures
            final(file_cov).path == old(file_cov).path,
            final(file_cov).line_coverages@ == apply_line_flags(
                old(file_cov).line_coverages@,
                derive_flags(source@),
            ),
            final(file_cov).branch_coverages@ == apply_branch_flags(
                old(file_cov).branch_coverages@,
                derive_flags(source@),
            ),
    {
        let flags = derive_scan(source);
        file_cov.line_coverages = apply_flags_to_lines(&file_cov.line_coverages, &flags);
        file_cov.branch_coverages = apply_flags_to_branches(&file_cov.branch_coverages, &flags);
    }
}

impl CommentRule {
    pub fn new() -> (r: CommentRule)
        ensures
            r == CommentRule,
    {
        CommentRule
    }

    /// Applies the `cov:` suppression markers.
    pub fn fix_file_coverage(&self, source: &SourceCode, file_cov: &mut FileCoverage)
        ensures
            final(file_cov).path == old(file_cov).path,
            final(file_cov).line_coverages@ == apply_line_flags(
                old(file_cov).line_coverages@,
                comment_line_flags(source@),
            ),
            final(file_cov).branch_coverages@ == apply_branch_flags(
                old(file_cov).branch_coverages@,
                comment_branch_flags(source@),
            ),
    {
        let (lf, bf) = comment_scan(source);
        file_cov.line_coverages = apply_flags_to_lines(&file_cov.line_coverages, &lf);
        file_cov.branch_coverages = apply_flags_to_branches(&file_cov.branch_coverages, &bf);
    }
}

/// One correction rule; the fix engine runs a sequence of these.
#[derive(Clone, Copy, Debug)]
pub enum Rule {
    CloseBlock(CloseBlockRule),
    Test(TestRule),
    Loop(LoopRule),
    Derive(DeriveRule),
    Comment(CommentRule),
}

/// What one rule does to the records of a file, given its source.
pub open spec fn rule_apply_spec(
    rule: Rule,
    src: Seq<Seq<char>>,
    lines: Seq<LineCoverage>,
    branches: Seq<BranchCoverage>,
) -> (Seq<LineCoverage>, Seq<BranchCoverage>) {
    match rule {
        Rule::CloseBlock(_) => (
            apply_line_flags(lines, close_flags(src)),
            apply_branch_flags(branches, close_flags(src)),
        ),
        Rule::Test(_) => (
            apply_line_flags(lines, test_flags(src)),
            apply_branch_flags(branches, test_flags(src)),
        ),
        Rule::Loop(_) => (lines, loop_apply(src, lines, branches)),
        Rule::Derive(_) => (
            apply_line_flags(lines, derive_flags(src)),
            apply_branch_flags(branches, derive_flags(src)),
        ),
        Rule::Comment(_) => (
            apply_line_flags(lines, comment_line_flags(src)),
            apply_branch_flags(branches, comment_branch_flags(src)),
        ),
    }
}

impl Rule {
    /// Applies this rule to one file's records.
    pub fn fix_file_coverage(&self, source: &SourceCode, file_cov: &mut FileCoverage)
        ensures
            final(file_cov).path == old(file_cov).path,
            final(file_cov).line_coverages@ == rule_apply_spec(
                *self,
                source@,
                old(file_cov).line_coverages@,
                old(file_cov).branch_coverages@,
            ).0,
            final(file_cov).branch_coverages@ == rule_apply_spec(
                *self,
                source@,
                old(file_cov).line_coverages@,
                old(file_cov).branch_coverages@,
            ).1,
    {
        match self {
            Rule::CloseBlock(r) => r.fix_file_coverage(source, file_cov),
            Rule::Test(r) => r.fix_file_coverage(source, file_cov),
            Rule::Loop(r) => r.fix_file_coverage(source, file_cov),
            Rule::Derive(r) => r.fix_file_coverage(source, file_cov),
            Rule::Comment(r) => r.fix_file_coverage(source, file_cov),
        }
    }
}

/// The default rule order: close-block, test-config, loop, derive, comment.
pub open spec fn default_rule_seq() -> Seq<Rule> {
    seq![
        Rule::CloseBlock(CloseBlockRule),
        Rule::Test(TestRule),
        Rule::Loop(LoopRule),
        Rule::Derive(DeriveRule),
        Rule::Comment(CommentRule),
    ]
}

/// Builds the default rules, in their fixed order.
pub fn default_rules() -> (r: Vec<Rule>)
    ensures
        r@ == default_rule_seq(),
{
    let mut v: Vec<Rule> = Vec::new();
    v.push(Rule::CloseBlock(CloseBlockRule::new()));
    v.push(Rule::Test(TestRule::new()));
    v.push(Rule::Loop(LoopRule::new()));
    v.push(Rule::Derive(DeriveRule::new()));
    v.push(Rule::Comment(CommentRule::new()));
    proof {
        assert(v@ =~= default_rule_seq());
    }
    v
}

/// Resolves a rule name: exactly `close`, `test`, `loop`, `derive` and
/// `comment` are accepted; anything else is an [`Error::InvalidRuleName`].
pub fn from_str(s: &str) -> (r: Result<Rule, Error>)
    ensures
        r is Ok <==> (s@ == "close"@ || s@ == "test"@ || s@ == "loop"@ || s@ == "derive"@ || s@
            == "comment"@),
        s@ == "close"@ ==> r == Ok::<Rule, Error>(Rule::CloseBlock(CloseBlockRule)),
        s@ == "test"@ ==> r == Ok::<Rule, Error>(Rule::Test(TestRule)),
        s@ == "loop"@ ==> r == Ok::<Rule, Error>(Rule::Loop(LoopRule)),
        s@ == "derive"@ ==> r == Ok::<Rule, Error>(Rule::Derive(DeriveRule)),
        s@ == "comment"@ ==> r == Ok::<Rule, Error>(Rule::Comment(CommentRule)),
        match r {
            Ok(_) => true,
            Err(e) => e matches Error::InvalidRuleName(n) && n@ == s@,
        },
    {
    proof {
        reveal_strlit("close");
        reveal_strlit("test");
        reveal_strlit("loop");
        reveal_strlit("derive");
        reveal_strlit("comment");
        assert("close"@.len() == 5);
        assert("test"@.len() == 4);
        assert("loop"@.len() == 4);
        assert("derive"@.len() == 6);
        assert("comment"@.len() == 7);
        assert("test"@[0] == 't');
        assert("loop"@[0] == 'l');
    }
    if str_eq(s, "close") {
        Ok(Rule::CloseBlock(CloseBlockRule::new()))
    } else if str_eq(s, "test") {
        Ok(Rule::Test(TestRule::new()))
    } else if str_eq(s, "loop") {
        Ok(Rule::Loop(LoopRule::new()))
    } else if str_eq(s, "derive") {
        Ok(Rule::Derive(DeriveRule::new()))
    } else if str_eq(s, "comment") {
        Ok(Rule::Comment(CommentRule::new()))
    } else {
        Err(Error::InvalidRuleName(s.to_owned()))
    }
}

} // verus!
