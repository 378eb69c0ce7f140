//! The fix engine: sorts a file's records, applies the rules in order,
//! and drops the records the rules marked as ignored.  Files are handled
//! one by one and independently; the first file whose source is missing
//! fails the whole run.

use vstd::prelude::*;

use crate::common::store_find;
use crate::common::SourceEntry;
use crate::common::SourceStore;
use crate::coverage::branch_counted_pred;
use crate::coverage::line_counted_pred;
use crate::coverage::BranchCoverage;
use crate::coverage::FileCoverage;
use crate::coverage::LineCoverage;
use crate::coverage::PackageCoverage;
use crate::coverage::TotalCoverage;
use crate::error::Error;
use crate::numeric::dec_str;
use crate::numeric::to_dec_string;
use crate::rule::default_rule_seq;
use crate::rule::default_rules;
use crate::rule::rule_apply_spec;
use crate::rule::Rule;
use crate::sequences::lemma_insert_sorted_split;
use crate::sequences::lemma_filter_push;
use crate::sequences::lemma_stable_sort_len;
use crate::sequences::lemma_stable_sort_sorted;
use crate::sequences::sorted_by;
use crate::sequences::stable_sort;

verus! {

/// The sort key of a line record, shared by every statement about it.
pub open spec fn line_key() -> spec_fn(LineCoverage) -> int {
    |r: LineCoverage| r.line_number as int
}

/// The sort key of a branch record.
pub open spec fn branch_key() -> spec_fn(BranchCoverage) -> int {
    |r: BranchCoverage| r.line_number as int
}

/// Line records stably sorted by line number.
pub open spec fn sort_lines_spec(s: Seq<LineCoverage>) -> Seq<LineCoverage> {
    stable_sort(s, line_key())
}

/// Branch records stably sorted by line number.
pub open spec fn sort_branches_spec(s: Seq<BranchCoverage>) -> Seq<BranchCoverage> {
    stable_sort(s, branch_key())
}

/// First position whose record's line number exceeds `ln`; all records
/// before it have line numbers at most `ln`.
#[verifier::loop_isolation(false)]
fn insertion_pos_lines(out: &Vec<LineCoverage>, ln: usize) -> (p: usize)
    requires
        sorted_by(out@, line_key()),
    ensures
        p <= out@.len(),
        forall|t: int| 0 <= t < p ==> #[trigger] out@[t].line_number <= ln,
        forall|t: int| p <= t < out@.len() ==> #[trigger] out@[t].line_number > ln,
{
    let ghost key = line_key();
    let mut p: usize = out.len();
    while p > 0
        invariant
            p <= out@.len(),
            forall|t: int| p <= t < out@.len() ==> #[trigger] out@[t].line_number > ln,
        decreases p,
    {
        if out[p - 1].line_number <= ln {
            proof {
                assert forall|t: int| 0 <= t < p implies #[trigger] out@[t].line_number <= ln by {
                    if t < p - 1 {
                        assert(key(out@[t]) <= key(out@[p - 1]));
                    }
                }
            }
            return p;
        }
        p = p - 1;
    }
    0
}

/// First position whose record's line number exceeds `ln`, over branches.
#[verifier::loop_isolation(false)]
fn insertion_pos_branches(out: &Vec<BranchCoverage>, ln: usize) -> (p: usize)
    requires
        sorted_by(out@, branch_key()),
    ensures
        p <= out@.len(),
        forall|t: int| 0 <= t < p ==> #[trigger] out@[t].line_number <= ln,
        forall|t: int| p <= t < out@.len() ==> #[trigger] out@[t].line_number > ln,
{
    let ghost key = branch_key();
    let mut p: usize = out.len();
    while p > 0
        invariant
            p <= out@.len(),
            forall|t: int| p <= t < out@.len() ==> #[trigger] out@[t].line_number > ln,
        decreases p,
    {
        if out[p - 1].line_number <= ln {
            proof {
                assert forall|t: int| 0 <= t < p implies #[trigger] out@[t].line_number <= ln by {
                    if t < p - 1 {
                        assert(key(out@[t]) <= key(out@[p - 1]));
                    }
                }
            }
            return p;
        }
        p = p - 1;
    }
    0
}

/// Stable insertion sort of line records by line number.
#[verifier::loop_isolation(false)]
fn sort_lines(v: &Vec<LineCoverage>) -> (r: Vec<LineCoverage>)
    ensures
        r@ == sort_lines_spec(v@),
{
    let ghost key = line_key();
    let mut out: Vec<LineCoverage> = Vec::new();
    let mut i: usize = 0;
    while i < v.len()
        invariant
            i <= v.len(),
            out@ == stable_sort(v@.take(i as int), key),
        decreases v.len() - i,
    {
        proof {
            lemma_stable_sort_sorted(v@.take(i as int), key);
            lemma_stable_sort_len(v@.take(i as int), key);
        }
        let x = v[i];
        let p = insertion_pos_lines(&out, x.line_number);
        proof {
            lemma_insert_sorted_split(out@, x, key, p as int);
            assert(v@.take(i + 1).drop_last() =~= v@.take(i as int));
            assert(v@.take(i + 1).last() == x);
            assert(out@.insert(p as int, x) =~= out@.subrange(0, p as int) + seq![x]
                + out@.subrange(p as int, out@.len() as int));
        }
        out.insert(p, x);
        i = i + 1;
    }
    proof {
        assert(v@.take(v@.len() as int) =~= v@);
    }
    out
}

/// Stable insertion sort of branch records by line number.
#[verifier::loop_isolation(false)]
fn sort_branches(v: &Vec<BranchCoverage>) -> (r: Vec<BranchCoverage>)
    ensures
        r@ == sort_branches_spec(v@),
{
    let ghost key = branch_key();
    let mut out: Vec<BranchCoverage> = Vec::new();
    let mut i: usize = 0;
    while i < v.len()
        invariant
            i <= v.len(),
            out@ == stable_sort(v@.take(i as int), key),
        decreases v.len() - i,
    {
        proof {
            lemma_stable_sort_sorted(v@.take(i as int), key);
            lemma_stable_sort_len(v@.take(i as int), key);
        }
        let x = v[i];
        let p = insertion_pos_branches(&out, x.line_number);
        proof {
            lemma_insert_sorted_split(out@, x, key, p as int);
            assert(v@.take(i + 1).drop_last() =~= v@.take(i as int));
            assert(v@.take(i + 1).last() == x);
            assert(out@.insert(p as int, x) =~= out@.subrange(0, p as int) + seq![x]
                + out@.subrange(p as int, out@.len() as int));
        }
        out.insert(p, x);
        i = i + 1;
    }
    proof {
        assert(v@.take(v@.len() as int) =~= v@);
    }
    out
}

/// Keeps the line records whose coverage is still counted.
#[verifier::loop_isolation(false)]
fn compact_lines(v: &Vec<LineCoverage>) -> (r: Vec<LineCoverage>)
    ensures
        r@ == v@.filter(line_counted_pred()),
{
    let ghost pred = line_counted_pred();
    let mut out: Vec<LineCoverage> = Vec::new();
    let mut i: usize = 0;
    while i < v.len()
        invariant
            i <= v.len(),
            out@ == v@.take(i as int).filter(pred),
        decreases v.len() - i,
    {
        proof {
            assert(v@.take(i + 1) =~= v@.take(i as int).push(v@[i as int]));
            lemma_filter_push(v@.take(i as int), v@[i as int], pred);
        }
        let x = v[i];
        if x.count.is_some() {
            out.push(x);
        }
        i = i + 1;
    }
    proof {
        assert(v@.take(v@.len() as int) =~= v@);
    }
    out
}

/// Keeps the branch records whose coverage is still counted.
#[verifier::loop_isolation(false)]
fn compact_branches(v: &Vec<BranchCoverage>) -> (r: Vec<BranchCoverage>)
    ensures
        r@ == v@.filter(branch_counted_pred()),
{
    let ghost pred = branch_counted_pred();
    let mut out: Vec<BranchCoverage> = Vec::new();
    let mut i: usize = 0;
    while i < v.len()
        invariant
            i <= v.len(),
            out@ == v@.take(i as int).filter(pred),
        decreases v.len() - i,
    {
        proof {
            assert(v@.take(i + 1) =~= v@.take(i as int).push(v@[i as int]));
            lemma_filter_push(v@.take(i as int), v@[i as int], pred);
        }
        let x = v[i];
        if x.taken.is_some() {
            out.push(x);
        }
        i = i + 1;
    }
    proof {
        assert(v@.take(v@.len() as int) =~= v@);
    }
    out
}

/// The rules applied in order to one file's records.
pub open spec fn rules_apply_spec(
    rules: Seq<Rule>,
    src: Seq<Seq<char>>,
    lines: Seq<LineCoverage>,
    branches: Seq<BranchCoverage>,
) -> (Seq<LineCoverage>, Seq<BranchCoverage>)
    decreases rules.len(),
{
    if rules.len() == 0 {
        (lines, branches)
    } else {
        let step = rule_apply_spec(rules[0], src, lines, branches);
        rules_apply_spec(rules.subrange(1, rules.len() as int), src, step.0, step.1)
    }
}

/// The line records of one file after a full fix pass: sort, rules, drop
/// the ignored.
pub open spec fn fix_file_lines(
    lines: Seq<LineCoverage>,
    branches: Seq<BranchCoverage>,
    src: Seq<Seq<char>>,
    rules: Seq<Rule>,
) -> Seq<LineCoverage> {
    rules_apply_spec(rules, src, sort_lines_spec(lines), sort_branches_spec(branches)).0.filter(
        line_counted_pred(),
    )
}

/// The branch records of one file after a full fix pass.
pub open spec fn fix_file_branches(
    lines: Seq<LineCoverage>,
    branches: Seq<BranchCoverage>,
    src: Seq<Seq<char>>,
    rules: Seq<Rule>,
) -> Seq<BranchCoverage> {
    rules_apply_spec(rules, src, sort_lines_spec(lines), sort_branches_spec(branches)).1.filter(
        branch_counted_pred(),
    )
}

/// `newf` is `oldf` fully fixed against the store and rules.
pub open spec fn file_fixed(
    oldf: FileCoverage,
    newf: FileCoverage,
    entries: Seq<SourceEntry>,
    rules: Seq<Rule>,
) -> bool {
    &&& newf.path == oldf.path
    &&& store_find(entries, oldf.path@) is Some
    &&& newf.line_coverages@ == fix_file_lines(
        oldf.line_coverages@,
        oldf.branch_coverages@,
        store_find(entries, oldf.path@)->0@,
        rules,
    )
    &&& newf.branch_coverages@ == fix_file_branches(
        oldf.line_coverages@,
        oldf.branch_coverages@,
        store_find(entries, oldf.path@)->0@,
        rules,
    )
}

/// `newf` is `oldf` merely sorted: the state a file is left in when its
/// source turns out to be missing.
pub open spec fn file_sorted_only(oldf: FileCoverage, newf: FileCoverage) -> bool {
    &&& newf.path == oldf.path
    &&& newf.line_coverages@ == sort_lines_spec(oldf.line_coverages@)
    &&& newf.branch_coverages@ == sort_branches_spec(oldf.branch_coverages@)
}

/// The failure shape of a fix run: the file at `k` is the first whose
/// source is missing; files before it are fixed, it is sorted only, files
/// after it are untouched.
pub open spec fn fix_failed_at(
    k: int,
    old_files: Seq<FileCoverage>,
    new_files: Seq<FileCoverage>,
    entries: Seq<SourceEntry>,
    rules: Seq<Rule>,
    e: Error,
) -> bool {
    &&& 0 <= k < old_files.len()
    &&& new_files.len() == old_files.len()
    &&& store_find(entries, old_files[k].path@) is None
    &&& forall|j: int| 0 <= j < k ==> file_fixed(old_files[j], #[trigger] new_files[j], entries, rules)
    &&& file_sorted_only(old_files[k], new_files[k])
    &&& forall|j: int| k < j < old_files.len() ==> #[trigger] new_files[j] == old_files[j]
    &&& e matches Error::SourceFileNotFound(p) && p@ == old_files[k].path@
}

/// Fixes coverage information against the source text.
///
/// Records must be sorted for the rules to see them; this engine sorts
/// them itself, so readers may hand their output over directly.
pub struct CoverageFixer {
    /// the rules, in the order they run on each file
    pub rules: Vec<Rule>,
    /// kept for configuration compatibility; files are processed one at a
    /// time, and their results do not depend on this knob
    pub num_threads: usize,
}

impl CoverageFixer {
    /// A fixer with the default rules.
    pub fn new() -> (r: CoverageFixer)
        ensures
            r.rules@ == default_rule_seq(),
            r.num_threads == 1,
    {
        CoverageFixer { rules: default_rules(), num_threads: 1 }
    }

    /// A fixer with the given rules, applied in the given order.
    pub fn with_rules(rules: Vec<Rule>) -> (r: CoverageFixer)
        ensures
            r.rules == rules,
            r.num_threads == 1,
    {
        CoverageFixer { rules, num_threads: 1 }
    }

    /// Stores the wanted worker count.  Output never depends on it: files
    /// are processed independently and kept in input order.
    pub fn set_num_threads(&mut self, num_threads: usize)
        ensures
            final(self).num_threads == num_threads,
            final(self).rules == old(self).rules,
    {
        self.num_threads = num_threads;
    }

    /// Fixes every file of the package in place.
    ///
    /// With no rules configured nothing changes.  Otherwise each file is
    /// sorted, run through the rules against its source from `sources`,
    /// and compacted; the first file whose path the store does not know
    /// fails the run with `SourceFileNotFound`, leaving that file sorted
    /// and the files after it untouched.
    #[verifier::loop_isolation(false)]
    pub fn fix(&self, data: &mut PackageCoverage, sources: &SourceStore) -> (r: Result<(), Error>)
        ensures
            final(data).name == old(data).name,
            final(data).file_coverages@.len() == old(data).file_coverages@.len(),
            self.rules@.len() == 0 ==> r is Ok && *final(data) == *old(data),
            r is Ok <==> (self.rules@.len() == 0 || forall|i: int|
                0 <= i < old(data).file_coverages@.len() ==> store_find(
                    sources.entries@,
                    #[trigger] old(data).file_coverages@[i].path@,
                ) is Some),
            self.rules@.len() > 0 && r is Ok ==> forall|i: int|
                0 <= i < old(data).file_coverages@.len() ==> file_fixed(
                    old(data).file_coverages@[i],
                    #[trigger] final(data).file_coverages@[i],
                    sources.entries@,
                    self.rules@,
                ),
            r matches Err(e) ==> self.rules@.len() > 0 && exists|k: int|
                #[trigger] fix_failed_at(
                    k,
                    old(data).file_coverages@,
                    final(data).file_coverages@,
                    sources.entries@,
                    self.rules@,
                    e,
                ),
    {
        if self.rules.len() == 0 {
            return Ok(());
        }
        let ghost old_files = data.file_coverages@;
        let mut out: Vec<FileCoverage> = Vec::new();
        let mut failure: Option<Error> = None;
        let ghost mut fail_at: int = 0;
        while data.file_coverages.len() > 0
            invariant
                out@.len() + data.file_coverages@.len() == old_files.len(),
                data.file_coverages@ == old_files.subrange(
                    out@.len() as int,
                    old_files.len() as int,
                ),
                data.name == old(data).name,
                failure is None ==> forall|j: int|
                    0 <= j < out@.len() ==> file_fixed(
                        old_files[j],
                        #[trigger] out@[j],
                        sources.entries@,
                        self.rules@,
                    ),
                failure matches Some(e) ==> {
                    &&& 0 <= fail_at < out@.len()
                    &&& store_find(sources.entries@, old_files[fail_at].path@) is None
                    &&& forall|j: int|
                        0 <= j < fail_at ==> file_fixed(
                            old_files[j],
                            #[trigger] out@[j],
                            sources.entries@,
                            self.rules@,
                        )
                    &&& file_sorted_only(old_files[fail_at], out@[fail_at])
                    &&& forall|j: int| fail_at < j < out@.len() ==> #[trigger] out@[j] == old_files[j]
                    &&& e matches Error::SourceFileNotFound(p) && p@ == old_files[fail_at].path@
                },
            decreases data.file_coverages@.len(),
        {
            let ghost fidx = out@.len() as int;
            let mut fc = data.file_coverages.remove(0);
            proof {
                assert(fc == old_files[fidx]);
                assert(old_files.subrange(fidx, old_files.len() as int).subrange(
                    1,
                    old_files.len() - fidx,
                ) =~= old_files.subrange(fidx + 1, old_files.len() as int));
            }
            if failure.is_none() {
                let ghost orig = fc;
                fc.line_coverages = sort_lines(&fc.line_coverages);
                fc.branch_coverages = sort_branches(&fc.branch_coverages);
                match sources.find(fc.path.as_str()) {
                    Some(code) => {
                        let ghost sl = fc.line_coverages@;
                        let ghost sb = fc.branch_coverages@;
                        proof {
                            assert(self.rules@.subrange(0, self.rules@.len() as int)
                                =~= self.rules@);
                        }
                        let mut ri: usize = 0;
                        while ri < self.rules.len()
                            invariant
                                ri <= self.rules@.len(),
                                fc.path == orig.path,
                                rules_apply_spec(self.rules@, code@, sl, sb) == rules_apply_spec(
                                    self.rules@.subrange(ri as int, self.rules@.len() as int),
                                    code@,
                                    fc.line_coverages@,
                                    fc.branch_coverages@,
                                ),
                            decreases self.rules@.len() - ri,
                        {
                            proof {
                                let rest = self.rules@.subrange(ri as int, self.rules@.len() as int);
                                assert(rest[0] == self.rules@[ri as int]);
                                assert(rest.subrange(1, rest.len() as int) =~= self.rules@.subrange(
                                    ri + 1,
                                    self.rules@.len() as int,
                                ));
                            }
                            let rule = self.rules[ri];
                            rule.fix_file_coverage(code, &mut fc);
                            ri = ri + 1;
                        }
                        proof {
                            assert(self.rules@.subrange(
                                self.rules@.len() as int,
                                self.rules@.len() as int,
                            ).len() == 0);
                        }
                        fc.line_coverages = compact_lines(&fc.line_coverages);
                        fc.branch_coverages = compact_branches(&fc.branch_coverages);
                        proof {
                            assert(file_fixed(orig, fc, sources.entries@, self.rules@));
                        }
                    },
                    None => {
                        failure = Some(Error::SourceFileNotFound(fc.path.clone()));
                        proof {
                            fail_at = fidx;
                        }
                    },
                }
            }
            out.push(fc);
        }
        proof {
            assert(old_files.subrange(out@.len() as int, old_files.len() as int).len() == 0);
            assert(out@.len() == old_files.len());
            if failure is None {
                assert forall|i: int| 0 <= i < old_files.len() implies store_find(
                    sources.entries@,
                    #[trigger] old_files[i].path@,
                ) is Some by {
                    assert(file_fixed(old_files[i], out@[i], sources.entries@, self.rules@));
                }
            }
        }
        data.file_coverages = out;
        match failure {
            None => Ok(()),
            Some(e) => {
                proof {
                    assert(fix_failed_at(
                        fail_at,
                        old_files,
                        data.file_coverages@,
                        sources.entries@,
                        self.rules@,
                        e,
                    ));
                }
                Err(e)
            },
        }
    }
}

impl Default for CoverageFixer {
    /// The default fixer: the default rules, one worker.
    fn default() -> (r: CoverageFixer)
        ensures
            r.rules@ == default_rule_seq(),
            r.num_threads == 1,
    {
        CoverageFixer::new()
    }
}

/// The four totals of a package, captured before and after a fix run.
#[derive(Clone, Copy, Debug, PartialEq)]
pub struct CoverageSummary {
    pub line_executed: usize,
    pub line_total: usize,
    pub branch_executed: usize,
    pub branch_total: usize,
}

impl CoverageSummary {
    /// Captures the package's totals (saturating at `usize::MAX`; see
    /// [`TotalCoverage`]).
    pub fn new(data: &PackageCoverage) -> (r: CoverageSummary)
        ensures
            r.line_executed == data.spec_line_executed() || (r.line_executed == usize::MAX
                && data.spec_line_executed() > usize::MAX),
            r.line_total == data.spec_line_total() || (r.line_total == usize::MAX
                && data.spec_line_total() > usize::MAX),
            r.branch_executed == data.spec_branch_executed() || (r.branch_executed == usize::MAX
                && data.spec_branch_executed() > usize::MAX),
            r.branch_total == data.spec_branch_total() || (r.branch_total == usize::MAX
                && data.spec_branch_total() > usize::MAX),
    {
        CoverageSummary {
            line_executed: data.line_executed(),
            line_total: data.line_total(),
            branch_executed: data.branch_executed(),
            branch_total: data.branch_total(),
        }
    }
}

/// `executed` over `total` as a percentage with two decimals; zero when
/// the total is zero.
pub open spec fn percent_chars(e: nat, t: nat) -> Seq<char> {
    let pct = if t == 0 {
        0nat
    } else {
        e * 10000 / t
    };
    let whole = pct / 100;
    let frac = pct % 100;
    dec_str(whole) + seq!['.'] + (if frac < 10 {
        seq!['0']
    } else {
        Seq::empty()
    }) + dec_str(frac)
}

/// Formats a percentage with two decimals.
fn percent_string(e: usize, t: usize) -> (r: String)
    ensures
        r@ == percent_chars(e as nat, t as nat),
{
    let pct: u128 = if t == 0 {
        0
    } else {
        (e as u128) * 10000 / (t as u128)
    };
    let whole = pct / 100;
    let frac = pct % 100;
    let mut s = to_dec_string(whole);
    proof {
        reveal_strlit(".");
        reveal_strlit("0");
        assert("."@ =~= seq!['.']);
        assert("0"@ =~= seq!['0']);
    }
    s.append(".");
    if frac < 10 {
        s.append("0");
    }
    let f = to_dec_string(frac);
    s.append(f.as_str());
    proof {
        assert(s@ =~= percent_chars(e as nat, t as nat));
    }
    s
}

/// The before/after text of a fix run, as [`report_diff`] builds it.
pub open spec fn report_diff_chars(o: CoverageSummary, n: CoverageSummary) -> Seq<char> {
    "  line:   "@ + percent_chars(o.line_executed as nat, o.line_total as nat) + "% ("@ + dec_str(
        o.line_executed as nat,
    ) + " of "@ + dec_str(o.line_total as nat) + " lines)    => "@ + percent_chars(
        n.line_executed as nat,
        n.line_total as nat,
    ) + "% ("@ + dec_str(n.line_executed as nat) + " of "@ + dec_str(n.line_total as nat)
        + " lines)\n  branch: "@ + percent_chars(
        o.branch_executed as nat,
        o.branch_total as nat,
    ) + "% ("@ + dec_str(o.branch_executed as nat) + " of "@ + dec_str(o.branch_total as nat)
        + " branches) => "@ + percent_chars(n.branch_executed as nat, n.branch_total as nat)
        + "% ("@ + dec_str(n.branch_executed as nat) + " of "@ + dec_str(n.branch_total as nat)
        + " branches)\n"@
}

/// Renders how the totals changed, for the caller to log.
pub fn report_diff(old_summary: &CoverageSummary, new_summary: &CoverageSummary) -> (r: String)
    ensures
        r@ == report_diff_chars(*old_summary, *new_summary),
{
    let mut s = String::new();
    s.append("  line:   ");
    let p = percent_string(old_summary.line_executed, old_summary.line_total);
    s.append(p.as_str());
    s.append("% (");
    let d = to_dec_string(old_summary.line_executed as u128);
    s.append(d.as_str());
    s.append(" of ");
    let d = to_dec_string(old_summary.line_total as u128);
    s.append(d.as_str());
    s.append(" lines)    => ");
    let p = percent_string(new_summary.line_executed, new_summary.line_total);
    s.append(p.as_str());
    s.append("% (");
    let d = to_dec_string(new_summary.line_executed as u128);
    s.append(d.as_str());
    s.append(" of ");
    let d = to_dec_string(new_summary.line_total as u128);
    s.append(d.as_str());
    s.append(" lines)\n  branch: ");
    let p = percent_string(old_summary.branch_executed, old_summary.branch_total);
    s.append(p.as_str());
    s.append("% (");
    let d = to_dec_string(old_summary.branch_executed as u128);
    s.append(d.as_str());
    s.append(" of ");
    let d = to_dec_string(old_summary.branch_total as u128);
    s.append(d.as_str());
    s.append(" branches) => ");
    let p = percent_string(new_summary.branch_executed, new_summary.branch_total);
    s.append(p.as_str());
    s.append("% (");
    let d = to_dec_string(new_summary.branch_executed as u128);
    s.append(d.as_str());
    s.append(" of ");
    let d = to_dec_string(new_summary.branch_total as u128);
    s.append(d.as_str());
    s.append(" branches)\n");
    proof {
        assert(s@ =~= report_diff_chars(*old_summary, *new_summary));
    }
    s
}

} // verus!
