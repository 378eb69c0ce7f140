//! Laws of the fix engine, stated and proved over the specification
//! functions that the engine's contracts use: order preservation, no
//! fabrication of records, idempotence, independence of file order, and
//! monotonicity of the totals.

use vstd::prelude::*;

use crate::coverage::branch_counted;
use crate::coverage::branch_counted_pred;
use crate::coverage::file_branch_total_fn;
use crate::coverage::file_line_total_fn;
use crate::coverage::line_counted;
use crate::coverage::line_counted_pred;
use crate::coverage::spec_branch_total_of;
use crate::coverage::spec_line_total_of;
use crate::coverage::sum_over_files;
use crate::coverage::BranchCoverage;
use crate::coverage::FileCoverage;
use crate::coverage::LineCoverage;
use crate::fix::branch_key;
use crate::fix::file_fixed;
use crate::fix::fix_file_branches;
use crate::fix::fix_file_lines;
use crate::fix::line_key;
use crate::fix::rules_apply_spec;
use crate::fix::sort_branches_spec;
use crate::fix::sort_lines_spec;
use crate::rule::apply_branch_flags;
use crate::rule::apply_line_flags;
use crate::rule::close_flags;
use crate::rule::comment_branch_flags;
use crate::rule::comment_line_flags;
use crate::rule::derive_flags;
use crate::rule::ignored_branch_rec;
use crate::rule::ignored_line_rec;
use crate::rule::loop_apply;
use crate::rule::rule_apply_spec;
use crate::rule::test_flags;
use crate::rule::Rule;
use crate::sequences::lemma_filter_all_id;
use crate::sequences::lemma_filter_filter_le;
use crate::sequences::lemma_filter_len_pointwise_iff;
use crate::sequences::lemma_filter_len_pointwise_implies;
use crate::sequences::lemma_filter_nonempty;
use crate::sequences::lemma_filter_preserves_forall;
use crate::sequences::lemma_filter_sorted;
use crate::sequences::lemma_filter_two;
use crate::sequences::lemma_stable_sort_filter_len;
use crate::sequences::lemma_stable_sort_len;
use crate::sequences::lemma_stable_sort_of_sorted;
use crate::sequences::lemma_stable_sort_sorted;
use crate::sequences::sorted_by;

verus! {

/// The per-line ignore flags a rule applies to line records; the loop rule
/// has none.
pub open spec fn rule_line_flags_of(rule: Rule, src: Seq<Seq<char>>) -> Seq<bool> {
    match rule {
        Rule::CloseBlock(_) => close_flags(src),
        Rule::Test(_) => test_flags(src),
        Rule::Loop(_) => Seq::empty(),
        Rule::Derive(_) => derive_flags(src),
        Rule::Comment(_) => comment_line_flags(src),
    }
}

/// The per-line ignore flags a rule applies to branch records; the loop
/// rule works record-wise instead and has none.
pub open spec fn rule_branch_flags_of(rule: Rule, src: Seq<Seq<char>>) -> Seq<bool> {
    match rule {
        Rule::CloseBlock(_) => close_flags(src),
        Rule::Test(_) => test_flags(src),
        Rule::Loop(_) => Seq::empty(),
        Rule::Derive(_) => derive_flags(src),
        Rule::Comment(_) => comment_branch_flags(src),
    }
}

/// The rule flags line records on this line.
pub open spec fn rule_flags_line(rule: Rule, src: Seq<Seq<char>>, ln: usize) -> bool {
    let f = rule_line_flags_of(rule, src);
    ln < f.len() && f[ln as int]
}

/// The rule flags branch records on this line.
pub open spec fn rule_flags_branch(rule: Rule, src: Seq<Seq<char>>, ln: usize) -> bool {
    let f = rule_branch_flags_of(rule, src);
    ln < f.len() && f[ln as int]
}

/// No rule in the sequence flags line records on this line.
pub open spec fn line_unflagged(rules: Seq<Rule>, src: Seq<Seq<char>>, ln: usize) -> bool {
    forall|m: int| 0 <= m < rules.len() ==> !rule_flags_line(#[trigger] rules[m], src, ln)
}

/// No rule in the sequence flags branch records on this line.
pub open spec fn branch_unflagged(rules: Seq<Rule>, src: Seq<Seq<char>>, ln: usize) -> bool {
    forall|m: int| 0 <= m < rules.len() ==> !rule_flags_branch(#[trigger] rules[m], src, ln)
}

/// The sequence holds no loop rule.
pub open spec fn no_loop_rule(rules: Seq<Rule>) -> bool {
    forall|m: int| 0 <= m < rules.len() ==> !((#[trigger] rules[m]) is Loop)
}

/// Record lineage through the rule pipeline: every rule leaves each record
/// in place, either untouched or with its coverage marked ignored, and a
/// record that still counts afterwards was never touched at all.
pub proof fn lemma_rules_lineage(
    rules: Seq<Rule>,
    src: Seq<Seq<char>>,
    l: Seq<LineCoverage>,
    b: Seq<BranchCoverage>,
)
    ensures
        rules_apply_spec(rules, src, l, b).0.len() == l.len(),
        rules_apply_spec(rules, src, l, b).1.len() == b.len(),
        forall|k: int|
            0 <= k < l.len() ==> (#[trigger] rules_apply_spec(rules, src, l, b).0[k] == l[k]
                || rules_apply_spec(rules, src, l, b).0[k] == ignored_line_rec(l[k])),
        forall|k: int|
            0 <= k < b.len() ==> (#[trigger] rules_apply_spec(rules, src, l, b).1[k] == b[k]
                || rules_apply_spec(rules, src, l, b).1[k] == ignored_branch_rec(b[k])),
        forall|k: int|
            0 <= k < l.len() && line_counted(#[trigger] rules_apply_spec(rules, src, l, b).0[k])
                ==> rules_apply_spec(rules, src, l, b).0[k] == l[k] && line_unflagged(
                rules,
                src,
                l[k].line_number,
            ),
        forall|k: int|
            0 <= k < b.len() && branch_counted(#[trigger] rules_apply_spec(rules, src, l, b).1[k])
                ==> rules_apply_spec(rules, src, l, b).1[k] == b[k] && branch_unflagged(
                rules,
                src,
                b[k].line_number,
            ),
    decreases rules.len(),
{
    if rules.len() == 0 {
    } else {
        let step = rule_apply_spec(rules[0], src, l, b);
        let rest = rules.subrange(1, rules.len() as int);
        lemma_rules_lineage(rest, src, step.0, step.1);
        // one rule's own step keeps records in place
        assert forall|k: int| 0 <= k < l.len() implies (#[trigger] step.0[k] == l[k] || step.0[k]
            == ignored_line_rec(l[k])) && (line_counted(step.0[k]) ==> step.0[k] == l[k]
            && !rule_flags_line(rules[0], src, l[k].line_number)) by {
            match rules[0] {
                Rule::Loop(_) => {
                    assert(step.0[k] == l[k]);
                },
                _ => {
                    assert(step.0 == apply_line_flags(l, rule_line_flags_of(rules[0], src)));
                },
            }
        }
        assert forall|k: int| 0 <= k < b.len() implies (#[trigger] step.1[k] == b[k] || step.1[k]
            == ignored_branch_rec(b[k])) && (branch_counted(step.1[k]) ==> step.1[k] == b[k]
            && !rule_flags_branch(rules[0], src, b[k].line_number)) by {
            match rules[0] {
                Rule::Loop(_) => {
                    assert(step.1 == loop_apply(src, l, b));
                },
                _ => {
                    assert(step.1 == apply_branch_flags(b, rule_branch_flags_of(rules[0], src)));
                },
            }
        }
        let out = rules_apply_spec(rules, src, l, b);
        assert(out == rules_apply_spec(rest, src, step.0, step.1));
        assert forall|k: int| 0 <= k < l.len() && line_counted(#[trigger] out.0[k]) implies out.0[k]
            == l[k] && line_unflagged(rules, src, l[k].line_number) by {
            assert(out.0[k] == step.0[k]);
            assert(step.0[k] == l[k]);
            assert(line_unflagged(rest, src, step.0[k].line_number));
            assert forall|m: int| 0 <= m < rules.len() implies !rule_flags_line(
                #[trigger] rules[m],
                src,
                l[k].line_number,
            ) by {
                if m >= 1 {
                    assert(rules[m] == rest[m - 1]);
                }
            }
        }
        assert forall|k: int| 0 <= k < b.len() && branch_counted(#[trigger] out.1[k]) implies
            out.1[k] == b[k] && branch_unflagged(rules, src, b[k].line_number) by {
            assert(out.1[k] == step.1[k]);
            assert(step.1[k] == b[k]);
            assert(branch_unflagged(rest, src, step.1[k].line_number));
            assert forall|m: int| 0 <= m < rules.len() implies !rule_flags_branch(
                #[trigger] rules[m],
                src,
                b[k].line_number,
            ) by {
                if m >= 1 {
                    assert(rules[m] == rest[m - 1]);
                }
            }
        }
    }
}

/// SORTEDNESS PRESERVATION.  After a fix pass, both record sequences are
/// ascending by line number; duplicates may remain only among branches:
/// line records are strictly ascending whenever the input carried no two
/// line records with one line number (see
/// [`lemma_fix_file_lines_strictly_sorted`]).
pub proof fn lemma_fix_file_sorted(
    lines: Seq<LineCoverage>,
    branches: Seq<BranchCoverage>,
    src: Seq<Seq<char>>,
    rules: Seq<Rule>,
)
    ensures
        sorted_by(fix_file_lines(lines, branches, src, rules), line_key()),
        sorted_by(fix_file_branches(lines, branches, src, rules), branch_key()),
{
    let sl = sort_lines_spec(lines);
    let sb = sort_branches_spec(branches);
    lemma_stable_sort_sorted(lines, line_key());
    lemma_stable_sort_sorted(branches, branch_key());
    lemma_rules_lineage(rules, src, sl, sb);
    let out = rules_apply_spec(rules, src, sl, sb);
    assert forall|i: int, j: int| 0 <= i < j < out.0.len() implies line_key()(
        #[trigger] out.0[i],
    ) <= line_key()(#[trigger] out.0[j]) by {
        assert(out.0[i].line_number == sl[i].line_number);
        assert(out.0[j].line_number == sl[j].line_number);
        assert(line_key()(sl[i]) <= line_key()(sl[j]));
    }
    assert forall|i: int, j: int| 0 <= i < j < out.1.len() implies branch_key()(
        #[trigger] out.1[i],
    ) <= branch_key()(#[trigger] out.1[j]) by {
        assert(out.1[i].line_number == sb[i].line_number);
        assert(out.1[j].line_number == sb[j].line_number);
        assert(branch_key()(sb[i]) <= branch_key()(sb[j]));
    }
    lemma_filter_sorted(out.0, line_key(), line_counted_pred());
    lemma_filter_sorted(out.1, branch_key(), branch_counted_pred());
}

/// The line records that sit on one line, as a first-class predicate.
pub open spec fn line_at_pred(n: usize) -> spec_fn(LineCoverage) -> bool {
    |r: LineCoverage| r.line_number == n
}

/// The branch records that sit on one line, as a first-class predicate.
pub open spec fn branch_at_pred(n: usize) -> spec_fn(BranchCoverage) -> bool {
    |r: BranchCoverage| r.line_number == n
}

/// How many line records sit on line `n`.
pub open spec fn line_records_at(s: Seq<LineCoverage>, n: usize) -> nat {
    s.filter(line_at_pred(n)).len()
}

/// How many branch records sit on line `n`.
pub open spec fn branch_records_at(s: Seq<BranchCoverage>, n: usize) -> nat {
    s.filter(branch_at_pred(n)).len()
}

/// NO FABRICATION.  For every line number, the output holds at most as
/// many records on it as the input did: the multiset of output line
/// numbers is a sub-multiset of the input's, and no record is added.
pub proof fn lemma_fix_file_no_fabrication(
    lines: Seq<LineCoverage>,
    branches: Seq<BranchCoverage>,
    src: Seq<Seq<char>>,
    rules: Seq<Rule>,
)
    ensures
        forall|n: usize|
            #[trigger] line_records_at(fix_file_lines(lines, branches, src, rules), n)
                <= line_records_at(lines, n),
        forall|n: usize|
            #[trigger] branch_records_at(fix_file_branches(lines, branches, src, rules), n)
                <= branch_records_at(branches, n),
        fix_file_lines(lines, branches, src, rules).len() <= lines.len(),
        fix_file_branches(lines, branches, src, rules).len() <= branches.len(),
{
    let sl = sort_lines_spec(lines);
    let sb = sort_branches_spec(branches);
    lemma_rules_lineage(rules, src, sl, sb);
    let out = rules_apply_spec(rules, src, sl, sb);
    assert forall|n: usize| #[trigger] line_records_at(
        fix_file_lines(lines, branches, src, rules),
        n,
    ) <= line_records_at(lines, n) by {
        lemma_stable_sort_filter_len(lines, line_key(), line_at_pred(n));
        lemma_filter_len_pointwise_iff(out.0, sl, line_at_pred(n));
        lemma_filter_filter_le(out.0, line_counted_pred(), line_at_pred(n));
    }
    assert forall|n: usize| #[trigger] branch_records_at(
        fix_file_branches(lines, branches, src, rules),
        n,
    ) <= branch_records_at(branches, n) by {
        lemma_stable_sort_filter_len(branches, branch_key(), branch_at_pred(n));
        lemma_filter_len_pointwise_iff(out.1, sb, branch_at_pred(n));
        lemma_filter_filter_le(out.1, branch_counted_pred(), branch_at_pred(n));
    }
    lemma_stable_sort_len(lines, line_key());
    lemma_stable_sort_len(branches, branch_key());
    out.0.lemma_filter_len(line_counted_pred());
    out.1.lemma_filter_len(branch_counted_pred());
}

/// SORTEDNESS, strict form for lines: when no two input line records share
/// a line number, the output's line numbers are strictly ascending.
pub proof fn lemma_fix_file_lines_strictly_sorted(
    lines: Seq<LineCoverage>,
    branches: Seq<BranchCoverage>,
    src: Seq<Seq<char>>,
    rules: Seq<Rule>,
)
    requires
        forall|i: int, j: int|
            0 <= i < j < lines.len() ==> (#[trigger] lines[i]).line_number != (
            #[trigger] lines[j]).line_number,
    ensures
        forall|i: int, j: int|
            0 <= i < j < fix_file_lines(lines, branches, src, rules).len() ==> (
            #[trigger] fix_file_lines(lines, branches, src, rules)[i]).line_number < (
            #[trigger] fix_file_lines(lines, branches, src, rules)[j]).line_number,
{
    let out = fix_file_lines(lines, branches, src, rules);
    lemma_fix_file_sorted(lines, branches, src, rules);
    lemma_fix_file_no_fabrication(lines, branches, src, rules);
    assert forall|i: int, j: int| 0 <= i < j < out.len() implies (
    #[trigger] out[i]).line_number < (#[trigger] out[j]).line_number by {
        assert(line_key()(out[i]) <= line_key()(out[j]));
        if out[i].line_number == out[j].line_number {
            let n = out[i].line_number;
            lemma_filter_two(out, line_at_pred(n), i, j);
            assert(line_records_at(out, n) >= 2);
            // but the input has at most one record on any line
            if lines.filter(line_at_pred(n)).len() >= 2 {
                let w1 = lemma_filter_nonempty(lines, line_at_pred(n));
                let shorter = lines.remove(w1);
                // a second witness exists because removing one matching
                // element keeps the filter non-empty
                lemma_filter_remove_one(lines, line_at_pred(n), w1);
                let w2 = lemma_filter_nonempty(shorter, line_at_pred(n));
                if w2 < w1 {
                    assert(lines[w2].line_number == n);
                } else {
                    assert(shorter[w2] == lines[w2 + 1]);
                }
            }
            assert(line_records_at(lines, n) <= 1);
        }
    }
}

/// Removing one matching element lowers the filter count by exactly one.
pub proof fn lemma_filter_remove_one<A>(s: Seq<A>, pred: spec_fn(A) -> bool, i: int)
    requires
        0 <= i < s.len(),
        pred(s[i]),
    ensures
        s.remove(i).filter(pred).len() == s.filter(pred).len() - 1,
    decreases s.len(),
{
    reveal(Seq::filter);
    if i == s.len() - 1 {
        assert(s.remove(i) =~= s.drop_last());
    } else {
        lemma_filter_remove_one(s.drop_last(), pred, i);
        assert(s.remove(i).drop_last() =~= s.drop_last().remove(i));
        assert(s.remove(i).last() == s.last());
    }
}

/// RULE INDEPENDENCE OF FILE ORDER.  The fixed form of a file depends on
/// that file, its source and the rules alone; permuting a package's files
/// permutes the results the same way.
pub proof fn lemma_fix_file_order_independence(
    files1: Seq<FileCoverage>,
    files2: Seq<FileCoverage>,
    perm: Seq<int>,
    entries: Seq<crate::common::SourceEntry>,
    rules: Seq<Rule>,
    fixed1: Seq<FileCoverage>,
    fixed2: Seq<FileCoverage>,
)
    requires
        files2.len() == files1.len(),
        perm.len() == files1.len(),
        forall|i: int| 0 <= i < perm.len() ==> 0 <= #[trigger] perm[i] < files1.len(),
        forall|i: int| 0 <= i < files2.len() ==> #[trigger] files2[i] == files1[perm[i]],
        fixed1.len() == files1.len(),
        fixed2.len() == files2.len(),
        forall|i: int|
            0 <= i < files1.len() ==> file_fixed(files1[i], #[trigger] fixed1[i], entries, rules),
        forall|i: int|
            0 <= i < files2.len() ==> file_fixed(files2[i], #[trigger] fixed2[i], entries, rules),
    ensures
        forall|i: int|
            0 <= i < files2.len() ==> {
                &&& (#[trigger] fixed2[i]).path@ == fixed1[perm[i]].path@
                &&& fixed2[i].line_coverages@ == fixed1[perm[i]].line_coverages@
                &&& fixed2[i].branch_coverages@ == fixed1[perm[i]].branch_coverages@
            },
{
    assert forall|i: int| 0 <= i < files2.len() implies {
        &&& (#[trigger] fixed2[i]).path@ == fixed1[perm[i]].path@
        &&& fixed2[i].line_coverages@ == fixed1[perm[i]].line_coverages@
        &&& fixed2[i].branch_coverages@ == fixed1[perm[i]].branch_coverages@
    } by {
        assert(file_fixed(files2[i], fixed2[i], entries, rules));
        assert(file_fixed(files1[perm[i]], fixed1[perm[i]], entries, rules));
        assert(files2[i] == files1[perm[i]]);
    }
}

/// TOTALS MONOTONICITY, per file: ignoring can only lower the line and
/// branch totals.
pub proof fn lemma_fix_file_totals_monotone(
    lines: Seq<LineCoverage>,
    branches: Seq<BranchCoverage>,
    src: Seq<Seq<char>>,
    rules: Seq<Rule>,
)
    ensures
        spec_line_total_of(fix_file_lines(lines, branches, src, rules)) <= spec_line_total_of(
            lines,
        ),
        spec_branch_total_of(fix_file_branches(lines, branches, src, rules))
            <= spec_branch_total_of(branches),
{
    let sl = sort_lines_spec(lines);
    let sb = sort_branches_spec(branches);
    lemma_rules_lineage(rules, src, sl, sb);
    let out = rules_apply_spec(rules, src, sl, sb);
    lemma_stable_sort_filter_len(lines, line_key(), line_counted_pred());
    lemma_stable_sort_filter_len(branches, branch_key(), branch_counted_pred());
    assert forall|k: int| 0 <= k < out.0.len() implies (line_counted_pred()(
        #[trigger] out.0[k],
    ) ==> line_counted_pred()(sl[k])) by {
        if line_counted(out.0[k]) {
            assert(out.0[k] == sl[k]);
        }
    }
    lemma_filter_len_pointwise_implies(out.0, sl, line_counted_pred());
    lemma_filter_filter_le(out.0, line_counted_pred(), line_counted_pred());
    assert forall|k: int| 0 <= k < out.1.len() implies (branch_counted_pred()(
        #[trigger] out.1[k],
    ) ==> branch_counted_pred()(sb[k])) by {
        if branch_counted(out.1[k]) {
            assert(out.1[k] == sb[k]);
        }
    }
    lemma_filter_len_pointwise_implies(out.1, sb, branch_counted_pred());
    lemma_filter_filter_le(out.1, branch_counted_pred(), branch_counted_pred());
}

/// TOTALS MONOTONICITY, package level: summed over fixed files, the line
/// and branch totals never grow.
pub proof fn lemma_fix_package_totals_monotone(
    old_files: Seq<FileCoverage>,
    new_files: Seq<FileCoverage>,
    entries: Seq<crate::common::SourceEntry>,
    rules: Seq<Rule>,
)
    requires
        new_files.len() == old_files.len(),
        forall|i: int|
            0 <= i < old_files.len() ==> file_fixed(
                old_files[i],
                #[trigger] new_files[i],
                entries,
                rules,
            ),
    ensures
        sum_over_files(new_files, file_line_total_fn()) <= sum_over_files(
            old_files,
            file_line_total_fn(),
        ),
        sum_over_files(new_files, file_branch_total_fn()) <= sum_over_files(
            old_files,
            file_branch_total_fn(),
        ),
    decreases old_files.len(),
{
    if old_files.len() > 0 {
        lemma_fix_package_totals_monotone(
            old_files.drop_last(),
            new_files.drop_last(),
            entries,
            rules,
        );
        let o = old_files.last();
        let n = new_files.last();
        assert(file_fixed(o, n, entries, rules));
        let src = crate::common::store_find(entries, o.path@)->0@;
        lemma_fix_file_totals_monotone(o.line_coverages@, o.branch_coverages@, src, rules);
    }
}

/// TOTALS MONOTONICITY, second half: the engine's ignore set covers every
/// configured rule's own ignore set.  No record that any rule in the
/// sequence flags — the purely textual close-block rule included — is left
/// in the output.
pub proof fn lemma_fix_file_ignores_every_rule(
    lines: Seq<LineCoverage>,
    branches: Seq<BranchCoverage>,
    src: Seq<Seq<char>>,
    rules: Seq<Rule>,
)
    ensures
        forall|j: int|
            0 <= j < fix_file_lines(lines, branches, src, rules).len() ==> line_unflagged(
                rules,
                src,
                (#[trigger] fix_file_lines(lines, branches, src, rules)[j]).line_number,
            ),
        forall|j: int|
            0 <= j < fix_file_branches(lines, branches, src, rules).len() ==> branch_unflagged(
                rules,
                src,
                (#[trigger] fix_file_branches(lines, branches, src, rules)[j]).line_number,
            ),
{
    let sl = sort_lines_spec(lines);
    let sb = sort_branches_spec(branches);
    lemma_rules_lineage(rules, src, sl, sb);
    let out = rules_apply_spec(rules, src, sl, sb);
    let lprop = |r: LineCoverage| line_counted(r) ==> line_unflagged(rules, src, r.line_number);
    let bprop = |r: BranchCoverage| branch_counted(r) ==> branch_unflagged(
        rules,
        src,
        r.line_number,
    );
    assert forall|k: int| 0 <= k < out.0.len() implies lprop(#[trigger] out.0[k]) by {}
    assert forall|k: int| 0 <= k < out.1.len() implies bprop(#[trigger] out.1[k]) by {}
    lemma_filter_preserves_forall(out.0, line_counted_pred(), lprop);
    lemma_filter_preserves_forall(out.1, branch_counted_pred(), bprop);
    broadcast use vstd::seq_lib::group_filter_ensures;

}

/// IDEMPOTENCE.  Running the fix pass twice equals running it once, for
/// every rule sequence without the loop rule: the second pass finds every
/// surviving record unflagged and keeps it.  (With the loop rule a second
/// pass can ignore a further "not taken" branch on a line that carried
/// more than one, so the law is stated without it.)
pub proof fn lemma_fix_file_idempotent(
    lines: Seq<LineCoverage>,
    branches: Seq<BranchCoverage>,
    src: Seq<Seq<char>>,
    rules: Seq<Rule>,
)
    requires
        no_loop_rule(rules),
    ensures
        ({
            let lc = fix_file_lines(lines, branches, src, rules);
            let bc = fix_file_branches(lines, branches, src, rules);
            fix_file_lines(lc, bc, src, rules) == lc && fix_file_branches(lc, bc, src, rules) == bc
        }),
{
    let sl = sort_lines_spec(lines);
    let sb = sort_branches_spec(branches);
    lemma_rules_lineage(rules, src, sl, sb);
    let out = rules_apply_spec(rules, src, sl, sb);
    let lc = out.0.filter(line_counted_pred());
    let bc = out.1.filter(branch_counted_pred());
    // every surviving record still counts and sits on an unflagged line
    let lprop = |r: LineCoverage| line_counted(r) ==> line_unflagged(rules, src, r.line_number);
    let bprop = |r: BranchCoverage| branch_counted(r) ==> branch_unflagged(
        rules,
        src,
        r.line_number,
    );
    assert forall|k: int| 0 <= k < out.0.len() implies lprop(#[trigger] out.0[k]) by {}
    assert forall|k: int| 0 <= k < out.1.len() implies bprop(#[trigger] out.1[k]) by {}
    lemma_filter_preserves_forall(out.0, line_counted_pred(), lprop);
    lemma_filter_preserves_forall(out.1, branch_counted_pred(), bprop);
    broadcast use vstd::seq_lib::group_filter_ensures;

    // the second sort is the identity
    lemma_fix_file_sorted(lines, branches, src, rules);
    lemma_stable_sort_of_sorted(lc, line_key());
    lemma_stable_sort_of_sorted(bc, branch_key());
    // the second rule pass is the identity
    lemma_rules_apply_unflagged_id(rules, src, lc, bc);
    // the second compaction is the identity
    lemma_filter_all_id(lc, line_counted_pred());
    lemma_filter_all_id(bc, branch_counted_pred());
}

/// A rule pass over records that still count and sit on unflagged lines
/// changes nothing.
pub proof fn lemma_rules_apply_unflagged_id(
    rules: Seq<Rule>,
    src: Seq<Seq<char>>,
    l: Seq<LineCoverage>,
    b: Seq<BranchCoverage>,
)
    requires
        no_loop_rule(rules),
        forall|k: int|
            0 <= k < l.len() ==> line_counted(#[trigger] l[k]) && line_unflagged(
                rules,
                src,
                l[k].line_number,
            ),
        forall|k: int|
            0 <= k < b.len() ==> branch_counted(#[trigger] b[k]) && branch_unflagged(
                rules,
                src,
                b[k].line_number,
            ),
    ensures
        rules_apply_spec(rules, src, l, b) == (l, b),
    decreases rules.len(),
{
    if rules.len() > 0 {
        let step = rule_apply_spec(rules[0], src, l, b);
        assert(!(rules[0] is Loop));
        assert(step.0 == apply_line_flags(l, rule_line_flags_of(rules[0], src)));
        assert(step.1 == apply_branch_flags(b, rule_branch_flags_of(rules[0], src)));
        assert forall|k: int| 0 <= k < l.len() implies #[trigger] step.0[k] == l[k] by {
            assert(!rule_flags_line(rules[0], src, l[k].line_number));
        }
        assert forall|k: int| 0 <= k < b.len() implies #[trigger] step.1[k] == b[k] by {
            assert(!rule_flags_branch(rules[0], src, b[k].line_number));
        }
        assert(step.0 =~= l);
        assert(step.1 =~= b);
        let rest = rules.subrange(1, rules.len() as int);
        assert forall|k: int| 0 <= k < l.len() implies line_counted(#[trigger] l[k])
            && line_unflagged(rest, src, l[k].line_number) by {
            assert forall|m: int| 0 <= m < rest.len() implies !rule_flags_line(
                #[trigger] rest[m],
                src,
                l[k].line_number,
            ) by {
                assert(rest[m] == rules[m + 1]);
                assert(!rule_flags_line(rules[m + 1], src, l[k].line_number));
            }
        }
        assert forall|k: int| 0 <= k < b.len() implies branch_counted(#[trigger] b[k])
            && branch_unflagged(rest, src, b[k].line_number) by {
            assert forall|m: int| 0 <= m < rest.len() implies !rule_flags_branch(
                #[trigger] rest[m],
                src,
                b[k].line_number,
            ) by {
                assert(rest[m] == rules[m + 1]);
                assert(!rule_flags_branch(rules[m + 1], src, b[k].line_number));
            }
        }
        assert(no_loop_rule(rest)) by {
            assert forall|m: int| 0 <= m < rest.len() implies !((#[trigger] rest[m]) is Loop) by {
                assert(rest[m] == rules[m + 1]);
            }
        }
        lemma_rules_apply_unflagged_id(rest, src, l, b);
    }
}

} // verus!
