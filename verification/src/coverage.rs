//! The in-memory coverage data model: line records, branch records,
//! per-file and per-package coverage, and aggregation totals.
//!
//! Line numbers are 0-indexed everywhere inside this crate; the on-disk
//! formats are 1-indexed and the format adapters translate on read and write.

use vstd::prelude::*;

use crate::sequences::lemma_filter_push;

verus! {

/// Coverage information for a single line.
///
/// `count` of `None` means the record is ignored (not executable); a rule
/// marks a record this way and the fix engine drops it before emitting.
/// `count` of `Some(0)` means executable but never hit.
#[derive(Clone, Copy, Debug, PartialEq)]
pub struct LineCoverage {
    /// 0-indexed line in the source file
    pub line_number: usize,
    /// execution count of the line; `None` means "ignored"
    pub count: Option<u32>,
}

/// Coverage information for a single branch.
///
/// Several records may share one `line_number`.  `taken` of `None` means
/// the record is ignored, exactly as `count` does for lines.
#[derive(Clone, Copy, Debug, PartialEq)]
pub struct BranchCoverage {
    /// 0-indexed line in the source file
    pub line_number: usize,
    /// block id which contains this branch
    pub block_number: Option<usize>,
    /// whether this branch was executed; `None` means "ignored"
    pub taken: Option<bool>,
}

/// The record still counts toward the line total.
pub open spec fn line_counted(r: LineCoverage) -> bool {
    r.count is Some
}

/// The record counts as an executed line.
pub open spec fn line_hit(r: LineCoverage) -> bool {
    r.count is Some && r.count->0 > 0
}

/// The record still counts toward the branch total.
pub open spec fn branch_counted(r: BranchCoverage) -> bool {
    r.taken is Some
}

/// The record counts as an executed branch.
pub open spec fn branch_hit(r: BranchCoverage) -> bool {
    r.taken == Some(true)
}

/// [`line_counted`] as a first-class predicate, shared by every statement
/// about it so that all of them speak of one function value.
pub open spec fn line_counted_pred() -> spec_fn(LineCoverage) -> bool {
    |r: LineCoverage| line_counted(r)
}

/// [`line_hit`] as a first-class predicate.
pub open spec fn line_hit_pred() -> spec_fn(LineCoverage) -> bool {
    |r: LineCoverage| line_hit(r)
}

/// [`branch_counted`] as a first-class predicate.
pub open spec fn branch_counted_pred() -> spec_fn(BranchCoverage) -> bool {
    |r: BranchCoverage| branch_counted(r)
}

/// [`branch_hit`] as a first-class predicate.
pub open spec fn branch_hit_pred() -> spec_fn(BranchCoverage) -> bool {
    |r: BranchCoverage| branch_hit(r)
}

/// Number of line records that count toward the total.
pub open spec fn spec_line_total_of(s: Seq<LineCoverage>) -> nat {
    s.filter(line_counted_pred()).len()
}

/// Number of line records that count as executed.
pub open spec fn spec_line_executed_of(s: Seq<LineCoverage>) -> nat {
    s.filter(line_hit_pred()).len()
}

/// Number of branch records that count toward the total.
pub open spec fn spec_branch_total_of(s: Seq<BranchCoverage>) -> nat {
    s.filter(branch_counted_pred()).len()
}

/// Number of branch records that count as executed.
pub open spec fn spec_branch_executed_of(s: Seq<BranchCoverage>) -> nat {
    s.filter(branch_hit_pred()).len()
}

/// Per-file executed-line count, as a first-class function over files.
pub open spec fn file_line_executed_fn() -> spec_fn(FileCoverage) -> nat {
    |f: FileCoverage| spec_line_executed_of(f.line_coverages@)
}

/// Per-file line total, as a first-class function over files.
pub open spec fn file_line_total_fn() -> spec_fn(FileCoverage) -> nat {
    |f: FileCoverage| spec_line_total_of(f.line_coverages@)
}

/// Per-file executed-branch count, as a first-class function over files.
pub open spec fn file_branch_executed_fn() -> spec_fn(FileCoverage) -> nat {
    |f: FileCoverage| spec_branch_executed_of(f.branch_coverages@)
}

/// Per-file branch total, as a first-class function over files.
pub open spec fn file_branch_total_fn() -> spec_fn(FileCoverage) -> nat {
    |f: FileCoverage| spec_branch_total_of(f.branch_coverages@)
}

/// Coverage information for a single source file.
#[derive(Debug, PartialEq)]
pub struct FileCoverage {
    /// path of the source file the records refer to
    pub path: String,
    /// line records, sorted by the fix engine before rules run
    pub line_coverages: Vec<LineCoverage>,
    /// branch records, sorted by the fix engine before rules run
    pub branch_coverages: Vec<BranchCoverage>,
}

impl FileCoverage {
    pub fn new(
        path: &str,
        line_coverages: Vec<LineCoverage>,
        branch_coverages: Vec<BranchCoverage>,
    ) -> (r: FileCoverage)
        ensures
            r.path@ == path@,
            r.line_coverages == line_coverages,
            r.branch_coverages == branch_coverages,
    {
        FileCoverage { path: path.to_owned(), line_coverages, branch_coverages }
    }

    pub fn path(&self) -> (r: &str)
        ensures
            r@ == self.path@,
    {
        self.path.as_str()
    }

    pub fn line_coverages(&self) -> (r: &[LineCoverage])
        ensures
            r@ == self.line_coverages@,
    {
        self.line_coverages.as_slice()
    }

    pub fn branch_coverages(&self) -> (r: &[BranchCoverage])
        ensures
            r@ == self.branch_coverages@,
    {
        self.branch_coverages.as_slice()
    }
}

/// Coverage information for a whole package: one test-run label and the
/// file coverages in the order the reader produced them.
#[derive(Debug, PartialEq)]
pub struct PackageCoverage {
    /// test-run label, possibly empty
    pub name: String,
    /// per-file coverages, in reader order
    pub file_coverages: Vec<FileCoverage>,
}

impl PackageCoverage {
    pub fn new(file_coverages: Vec<FileCoverage>) -> (r: PackageCoverage)
        ensures
            r.name@ == Seq::<char>::empty(),
            r.file_coverages == file_coverages,
    {
        let r = Self::with_test_name("", file_coverages);
        proof {
            reveal_strlit("");
            assert(r.name@ =~= Seq::<char>::empty());
        }
        r
    }

    pub fn with_test_name(name: &str, file_coverages: Vec<FileCoverage>) -> (r: PackageCoverage)
        ensures
            r.name@ == name@,
            r.file_coverages == file_coverages,
    {
        PackageCoverage { name: name.to_owned(), file_coverages }
    }

    pub fn name(&self) -> (r: &str)
        ensures
            r@ == self.name@,
    {
        self.name.as_str()
    }

    pub fn file_coverages(&self) -> (r: &[FileCoverage])
        ensures
            r@ == self.file_coverages@,
    {
        self.file_coverages.as_slice()
    }
}

/// Sum of `f` over a sequence of file coverages.
pub open spec fn sum_over_files(files: Seq<FileCoverage>, f: spec_fn(FileCoverage) -> nat) -> nat
    decreases files.len(),
{
    if files.len() == 0 {
        0
    } else {
        sum_over_files(files.drop_last(), f) + f(files.last())
    }
}

/// Aggregated totals over line and branch records.
///
/// Each getter returns the mathematical total whenever it fits a machine
/// word; the package-level getters saturate at `usize::MAX` otherwise.
pub trait TotalCoverage {
    spec fn spec_line_executed(&self) -> nat;

    spec fn spec_line_total(&self) -> nat;

    spec fn spec_branch_executed(&self) -> nat;

    spec fn spec_branch_total(&self) -> nat;

    fn line_executed(&self) -> (r: usize)
        ensures
            r == self.spec_line_executed() || (r == usize::MAX && self.spec_line_executed()
                > usize::MAX),
    ;

    fn line_total(&self) -> (r: usize)
        ensures
            r == self.spec_line_total() || (r == usize::MAX && self.spec_line_total()
                > usize::MAX),
    ;

    fn branch_executed(&self) -> (r: usize)
        ensures
            r == self.spec_branch_executed() || (r == usize::MAX && self.spec_branch_executed()
                > usize::MAX),
    ;

    fn branch_total(&self) -> (r: usize)
        ensures
            r == self.spec_branch_total() || (r == usize::MAX && self.spec_branch_total()
                > usize::MAX),
    ;
}

/// Counts the line records that satisfy `line_counted`.
#[verifier::loop_isolation(false)]
fn count_counted_lines(v: &Vec<LineCoverage>) -> (r: usize)
    ensures
        r == spec_line_total_of(v@),
{
    let ghost pred = line_counted_pred();
    let mut cnt: usize = 0;
    let mut i: usize = 0;
    while i < v.len()
        invariant
            i <= v.len(),
            cnt <= i,
            cnt == v@.take(i as int).filter(pred).len(),
        decreases v.len() - i,
    {
        let x = v[i];
        proof {
            assert(x == v@[i as int]);
            assert(pred(x) == line_counted(x));
            assert(v@.take(i as int + 1) =~= v@.take(i as int).push(x));
            lemma_filter_push(v@.take(i as int), x, pred);
            assert(v@.take(i as int + 1).filter(pred).len() == v@.take(i as int).filter(pred).len()
                + if pred(x) {
                1int
            } else {
                0int
            });
        }
        if x.count.is_some() {
            cnt = cnt + 1;
        }
        i = i + 1;
    }
    proof {
        assert(v@.take(v@.len() as int) =~= v@);
    }
    cnt
}

/// Counts the line records that satisfy `line_hit`.
#[verifier::loop_isolation(false)]
fn count_hit_lines(v: &Vec<LineCoverage>) -> (r: usize)
    ensures
        r == spec_line_executed_of(v@),
{
    let ghost pred = line_hit_pred();
    let mut cnt: usize = 0;
    let mut i: usize = 0;
    while i < v.len()
        invariant
            i <= v.len(),
            cnt <= i,
            cnt == v@.take(i as int).filter(pred).len(),
        decreases v.len() - i,
    {
        proof {
            assert(v@.take(i + 1) =~= v@.take(i as int).push(v@[i as int]));
            lemma_filter_push(v@.take(i as int), v@[i as int], pred);
        }
        let hit = match v[i].count {
            Some(c) => c > 0,
            None => false,
        };
        if hit {
            cnt = cnt + 1;
        }
        i = i + 1;
    }
    proof {
        assert(v@.take(v@.len() as int) =~= v@);
    }
    cnt
}

/// Counts the branch records that satisfy `branch_counted`.
#[verifier::loop_isolation(false)]
fn count_counted_branches(v: &Vec<BranchCoverage>) -> (r: usize)
    ensures
        r == spec_branch_total_of(v@),
{
    let ghost pred = branch_counted_pred();
    let mut cnt: usize = 0;
    let mut i: usize = 0;
    while i < v.len()
        invariant
            i <= v.len(),
            cnt <= i,
            cnt == v@.take(i as int).filter(pred).len(),
        decreases v.len() - i,
    {
        proof {
            assert(v@.take(i + 1) =~= v@.take(i as int).push(v@[i as int]));
            lemma_filter_push(v@.take(i as int), v@[i as int], pred);
        }
        if v[i].taken.is_some() {
            cnt = cnt + 1;
        }
        i = i + 1;
    }
    proof {
        assert(v@.take(v@.len() as int) =~= v@);
    }
    cnt
}

/// Counts the branch records that satisfy `branch_hit`.
#[verifier::loop_isolation(false)]
fn count_hit_branches(v: &Vec<BranchCoverage>) -> (r: usize)
    ensures
        r == spec_branch_executed_of(v@),
{
    let ghost pred = branch_hit_pred();
    let mut cnt: usize = 0;
    let mut i: usize = 0;
    while i < v.len()
        invariant
            i <= v.len(),
            cnt <= i,
            cnt == v@.take(i as int).filter(pred).len(),
        decreases v.len() - i,
    {
        proof {
            assert(v@.take(i + 1) =~= v@.take(i as int).push(v@[i as int]));
            lemma_filter_push(v@.take(i as int), v@[i as int], pred);
        }
        let hit = match v[i].taken {
            Some(t) => t,
            None => false,
        };
        if hit {
            cnt = cnt + 1;
        }
        i = i + 1;
    }
    proof {
        assert(v@.take(v@.len() as int) =~= v@);
    }
    cnt
}

impl TotalCoverage for FileCoverage {
    open spec fn spec_line_executed(&self) -> nat {
        spec_line_executed_of(self.line_coverages@)
    }

    open spec fn spec_line_total(&self) -> nat {
        spec_line_total_of(self.line_coverages@)
    }

    open spec fn spec_branch_executed(&self) -> nat {
        spec_branch_executed_of(self.branch_coverages@)
    }

    open spec fn spec_branch_total(&self) -> nat {
        spec_branch_total_of(self.branch_coverages@)
    }

    fn line_executed(&self) -> (r: usize)
    {
        count_hit_lines(&self.line_coverages)
    }

    fn line_total(&self) -> (r: usize)
    {
        count_counted_lines(&self.line_coverages)
    }

    fn branch_executed(&self) -> (r: usize)
    {
        count_hit_branches(&self.branch_coverages)
    }

    fn branch_total(&self) -> (r: usize)
    {
        count_counted_branches(&self.branch_coverages)
    }
}

/// Adds `t` to `acc`, saturating at `usize::MAX`, and keeps the invariant
/// "exact or saturated" against the mathematical sum `s`.
fn saturating_acc(acc: usize, t: usize) -> (r: usize)
    ensures
        r == acc + t || (r == usize::MAX && acc + t > usize::MAX),
{
    if usize::MAX - acc < t {
        usize::MAX
    } else {
        acc + t
    }
}

impl TotalCoverage for PackageCoverage {
    open spec fn spec_line_executed(&self) -> nat {
        sum_over_files(self.file_coverages@, file_line_executed_fn())
    }

    open spec fn spec_line_total(&self) -> nat {
        sum_over_files(self.file_coverages@, file_line_total_fn())
    }

    open spec fn spec_branch_executed(&self) -> nat {
        sum_over_files(self.file_coverages@, file_branch_executed_fn())
    }

    open spec fn spec_branch_total(&self) -> nat {
        sum_over_files(self.file_coverages@, file_branch_total_fn())
    }

    #[verifier::loop_isolation(false)]
    fn line_executed(&self) -> (r: usize) {
        let ghost f = file_line_executed_fn();
        let mut total: usize = 0;
        let mut i: usize = 0;
        while i < self.file_coverages.len()
            invariant
                i <= self.file_coverages.len(),
                total == sum_over_files(self.file_coverages@.take(i as int), f) || (total
                    == usize::MAX && sum_over_files(self.file_coverages@.take(i as int), f)
                    > usize::MAX),
            decreases self.file_coverages.len() - i,
        {
            let t = count_hit_lines(&self.file_coverages[i].line_coverages);
            proof {
                assert(self.file_coverages@.take(i + 1).drop_last() =~= self.file_coverages@.take(
                    i as int,
                ));
                assert(self.file_coverages@.take(i + 1).last() == self.file_coverages@[i as int]);
            }
            total = saturating_acc(total, t);
            i = i + 1;
        }
        proof {
            assert(self.file_coverages@.take(self.file_coverages@.len() as int)
                =~= self.file_coverages@);
        }
        total
    }

    #[verifier::loop_isolation(false)]
    fn line_total(&self) -> (r: usize) {
        let ghost f = file_line_total_fn();
        let mut total: usize = 0;
        let mut i: usize = 0;
        while i < self.file_coverages.len()
            invariant
                i <= self.file_coverages.len(),
                total == sum_over_files(self.file_coverages@.take(i as int), f) || (total
                    == usize::MAX && sum_over_files(self.file_coverages@.take(i as int), f)
                    > usize::MAX),
            decreases self.file_coverages.len() - i,
        {
            let t = count_counted_lines(&self.file_coverages[i].line_coverages);
            proof {
                assert(self.file_coverages@.take(i + 1).drop_last() =~= self.file_coverages@.take(
                    i as int,
                ));
                assert(self.file_coverages@.take(i + 1).last() == self.file_coverages@[i as int]);
            }
            total = saturating_acc(total, t);
            i = i + 1;
        }
        proof {
            assert(self.file_coverages@.take(self.file_coverages@.len() as int)
                =~= self.file_coverages@);
        }
        total
    }

    #[verifier::loop_isolation(false)]
    fn branch_executed(&self) -> (r: usize) {
        let ghost f = file_branch_executed_fn();
        let mut total: usize = 0;
        let mut i: usize = 0;
        while i < self.file_coverages.len()
            invariant
                i <= self.file_coverages.len(),
                total == sum_over_files(self.file_coverages@.take(i as int), f) || (total
                    == usize::MAX && sum_over_files(self.file_coverages@.take(i as int), f)
                    > usize::MAX),
            decreases self.file_coverages.len() - i,
        {
            let t = count_hit_branches(&self.file_coverages[i].branch_coverages);
            proof {
                assert(self.file_coverages@.take(i + 1).drop_last() =~= self.file_coverages@.take(
                    i as int,
                ));
                assert(self.file_coverages@.take(i + 1).last() == self.file_coverages@[i as int]);
            }
            total = saturating_acc(total, t);
            i = i + 1;
        }
        proof {
            assert(self.file_coverages@.take(self.file_coverages@.len() as int)
                =~= self.file_coverages@);
        }
        total
    }

    #[verifier::loop_isolation(false)]
    fn branch_total(&self) -> (r: usize) {
        let ghost f = file_branch_total_fn();
        let mut total: usize = 0;
        let mut i: usize = 0;
        while i < self.file_coverages.len()
            invariant
                i <= self.file_coverages.len(),
                total == sum_over_files(self.file_coverages@.take(i as int), f) || (total
                    == usize::MAX && sum_over_files(self.file_coverages@.take(i as int), f)
                    > usize::MAX),
            decreases self.file_coverages.len() - i,
        {
            let t = count_counted_branches(&self.file_coverages[i].branch_coverages);
            proof {
                assert(self.file_coverages@.take(i + 1).drop_last() =~= self.file_coverages@.take(
                    i as int,
                ));
                assert(self.file_coverages@.take(i + 1).last() == self.file_coverages@[i as int]);
            }
            total = saturating_acc(total, t);
            i = i + 1;
        }
        proof {
            assert(self.file_coverages@.take(self.file_coverages@.len() as int)
                =~= self.file_coverages@);
        }
        total
    }
}

} // verus!
