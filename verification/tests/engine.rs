//! End-to-end behavior of the fix engine: one scenario per rule, the
//! error path, and concrete checks of the engine's laws.

use rust_covfix::common::SourceStore;
use rust_covfix::error::Error;
use rust_covfix::fix::CoverageFixer;
use rust_covfix::fix::CoverageSummary;
use rust_covfix::fix::report_diff;
use rust_covfix::rule::from_str;
use rust_covfix::BranchCoverage;
use rust_covfix::FileCoverage;
use rust_covfix::LineCoverage;
use rust_covfix::PackageCoverage;
use rust_covfix::TotalCoverage;

fn lc(line: usize, count: u32) -> LineCoverage {
    LineCoverage { line_number: line, count: Some(count) }
}

fn bc(line: usize, taken: bool) -> BranchCoverage {
    BranchCoverage { line_number: line, block_number: None, taken: Some(taken) }
}

const CLOSING_SRC: &str = "fn main() {
    let a = 1;
    let mut b = 0;
    if a > 0 {
        b = a;
        b += 1;
    }
    print(b);
    done();
}

";

#[test]
fn closing_brackets() {
    let original = vec![
        lc(0, 1),
        lc(1, 1),
        lc(2, 1),
        lc(3, 1),
        lc(4, 1),
        lc(5, 0),
        lc(6, 0),
        lc(7, 0),
        lc(9, 0),
        lc(10, 0),
    ];
    let expected = vec![lc(0, 1), lc(1, 1), lc(2, 1), lc(3, 1), lc(4, 1), lc(5, 0), lc(7, 0)];
    let mut coverage =
        PackageCoverage::new(vec![FileCoverage::new("a.rs", original, Vec::new())]);
    let mut store = SourceStore::new();
    store.add("a.rs", CLOSING_SRC);
    let fixer = CoverageFixer::new();
    fixer.fix(&mut coverage, &store).unwrap();
    assert_eq!(coverage.file_coverages()[0].line_coverages(), &expected[..]);
}

fn test_config_source() -> String {
    let mut lines: Vec<String> = Vec::new();
    lines.push("fn setup() {".to_string());
    lines.push("    init();".to_string());
    lines.push("    run();".to_string());
    lines.push(format!("#[{}({})]", "cfg", "test"));
    lines.push("mod tests {".to_string());
    lines.push("    use other;".to_string());
    lines.push("".to_string());
    lines.push("    #[test]".to_string());
    lines.push("    fn checks() {".to_string());
    lines.push("        run_case();".to_string());
    lines.push("    }".to_string());
    lines.push("".to_string());
    lines.push("    helper();".to_string());
    lines.push("}".to_string());
    lines.push("".to_string());
    lines.push("fn teardown() {".to_string());
    lines.push("    cleanup();".to_string());
    lines.push("}".to_string());
    lines.push("".to_string());
    lines.push("fn more() {".to_string());
    lines.push("    a();".to_string());
    lines.push("    b();".to_string());
    lines.push("    c();".to_string());
    lines.join("\n")
}

#[test]
fn test_config_module() {
    let original_lines =
        vec![lc(1, 1), lc(2, 1), lc(3, 1), lc(12, 1), lc(13, 1), lc(21, 1), lc(22, 1)];
    let original_branches = vec![bc(12, true), bc(22, false)];
    let expected_lines = vec![lc(1, 1), lc(2, 1), lc(21, 1), lc(22, 1)];
    let expected_branches = vec![bc(22, false)];
    let src = test_config_source();
    let mut coverage = PackageCoverage::new(vec![FileCoverage::new(
        "b.rs",
        original_lines,
        original_branches,
    )]);
    let mut store = SourceStore::new();
    store.add("b.rs", src.as_str());
    let fixer = CoverageFixer::new();
    fixer.fix(&mut coverage, &store).unwrap();
    assert_eq!(coverage.file_coverages()[0].line_coverages(), &expected_lines[..]);
    assert_eq!(coverage.file_coverages()[0].branch_coverages(), &expected_branches[..]);
}

const DERIVES_SRC: &str = "#[derive(Clone)]
pub struct Point {
    x: i64,
    y: i64
}

impl Point {
    pub fn new(x: i64, y: i64) -> Self {
        Point {
            x,
            y
        }
    }
}

#[derive(PartialEq)]
pub struct Color(u8, u8, u8);

impl Color {
    pub fn r() -> u8 {
        self.0
    }

    pub fn g() -> u8 {
        self.1
    }

    pub fn b() -> u8 {
        self.2
    }
}

#[derive(Debug)]
#[allow(dead_code)]
enum E {
    #[allow(dead_code)]
    A(String)
}

impl E {
    pub fn new(s: String) -> Self {
        Self::A(s)
    }
}

#[derive(Copy, Clone)]
union MyUnion {
    f1: u32,
    f2: u32,
}

#[derive(Clone, Copy)]
struct UnitType;

enum EmptyEnum {}
";

#[test]
fn derives() {
    let original_lines = vec![
        lc(0, 0),
        lc(2, 0),
        lc(3, 0),
        lc(7, 0),
        lc(8, 0),
        lc(9, 0),
        lc(10, 0),
        lc(12, 0),
        lc(15, 0),
        lc(16, 0),
        lc(19, 0),
        lc(20, 0),
        lc(21, 0),
        lc(23, 0),
        lc(24, 0),
        lc(25, 0),
        lc(27, 0),
        lc(28, 0),
        lc(29, 0),
        lc(32, 0),
        lc(33, 0),
        lc(34, 0),
        lc(35, 0),
        lc(36, 0),
        lc(40, 0),
        lc(41, 0),
        lc(42, 0),
        lc(45, 0),
        lc(46, 0),
        lc(47, 0),
        lc(48, 0),
        lc(51, 0),
        lc(52, 0),
    ];
    let original_branches = vec![bc(16, false)];
    let expected_lines = vec![
        lc(7, 0),
        lc(8, 0),
        lc(9, 0),
        lc(10, 0),
        lc(19, 0),
        lc(20, 0),
        lc(23, 0),
        lc(24, 0),
        lc(27, 0),
        lc(28, 0),
        lc(40, 0),
        lc(41, 0),
    ];
    let mut coverage = PackageCoverage::new(vec![FileCoverage::new(
        "d.rs",
        original_lines,
        original_branches,
    )]);
    let mut store = SourceStore::new();
    store.add("d.rs", DERIVES_SRC);
    let fixer = CoverageFixer::new();
    fixer.fix(&mut coverage, &store).unwrap();
    assert_eq!(coverage.file_coverages()[0].line_coverages(), &expected_lines[..]);
    assert_eq!(coverage.file_coverages()[0].branch_coverages(), &[]);
}

const LOOP_SRC: &str = "fn main() {
    let mut total = 0;
    for i in 0..10 {
        total += i;
    }
}
";

#[test]
fn loop_back_edge() {
    let original_lines = vec![lc(2, 11), lc(3, 10)];
    let original_branches = vec![bc(2, true), bc(2, true), bc(2, false)];
    let expected_branches = vec![bc(2, true), bc(2, true)];
    let mut coverage = PackageCoverage::new(vec![FileCoverage::new(
        "l.rs",
        original_lines.clone(),
        original_branches,
    )]);
    let mut store = SourceStore::new();
    store.add("l.rs", LOOP_SRC);
    let fixer = CoverageFixer::new();
    fixer.fix(&mut coverage, &store).unwrap();
    assert_eq!(coverage.file_coverages()[0].line_coverages(), &original_lines[..]);
    assert_eq!(coverage.file_coverages()[0].branch_coverages(), &expected_branches[..]);
}

#[test]
fn loop_back_edge_not_executed() {
    // a header that never ran keeps its not-taken branch
    let original_lines = vec![lc(2, 0)];
    let original_branches = vec![bc(2, false)];
    let mut coverage = PackageCoverage::new(vec![FileCoverage::new(
        "l.rs",
        original_lines.clone(),
        original_branches.clone(),
    )]);
    let mut store = SourceStore::new();
    store.add("l.rs", LOOP_SRC);
    let fixer = CoverageFixer::with_rules(vec![from_str("loop").unwrap()]);
    fixer.fix(&mut coverage, &store).unwrap();
    assert_eq!(coverage.file_coverages()[0].branch_coverages(), &original_branches[..]);
}

const COMMENT_SRC: &str = "let x = 1;           // cov:ignore
let y = 2;
// cov:begin-ignore-branch
if cond { a } else { b };
// cov:end-ignore-branch
if other { c };
";

#[test]
fn comment_markers() {
    let original_lines = vec![lc(0, 1), lc(1, 1), lc(2, 1), lc(3, 1), lc(4, 1), lc(5, 1)];
    let original_branches = vec![bc(3, true), bc(3, false), bc(5, true), bc(5, false)];
    let expected_lines = vec![lc(1, 1), lc(2, 1), lc(3, 1), lc(4, 1), lc(5, 1)];
    let expected_branches = vec![bc(5, true), bc(5, false)];
    let mut coverage = PackageCoverage::new(vec![FileCoverage::new(
        "c.rs",
        original_lines,
        original_branches,
    )]);
    let mut store = SourceStore::new();
    store.add("c.rs", COMMENT_SRC);
    let fixer = CoverageFixer::with_rules(vec![from_str("comment").unwrap()]);
    fixer.fix(&mut coverage, &store).unwrap();
    assert_eq!(coverage.file_coverages()[0].line_coverages(), &expected_lines[..]);
    assert_eq!(coverage.file_coverages()[0].branch_coverages(), &expected_branches[..]);
}

const NESTED_CLOSE_SRC: &str = "fn outer() {
    if a {
        if b {
            work();
        }}
    done();
}}
";

#[test]
fn closing_brace_runs() {
    // lines made of several closing braces are ignored as a whole
    let original = vec![lc(3, 1), lc(4, 0), lc(5, 1), lc(6, 0)];
    let expected = vec![lc(3, 1), lc(5, 1)];
    let mut coverage =
        PackageCoverage::new(vec![FileCoverage::new("n.rs", original, Vec::new())]);
    let mut store = SourceStore::new();
    store.add("n.rs", NESTED_CLOSE_SRC);
    let fixer = CoverageFixer::with_rules(vec![from_str("close").unwrap()]);
    fixer.fix(&mut coverage, &store).unwrap();
    assert_eq!(coverage.file_coverages()[0].line_coverages(), &expected[..]);
}

const OVERLAP_SRC: &str = "// cov:begin-ignore-line
let a = 1;
// cov:begin-ignore-branch
let b = 2;
// cov:end-ignore-line
let c = 3;
// cov:end-ignore-branch
let d = 4;
";

#[test]
fn comment_ranges_overlap() {
    // a branch range opened inside a line range runs independently of it
    let original_lines =
        vec![lc(0, 1), lc(1, 1), lc(2, 1), lc(3, 1), lc(4, 1), lc(5, 1), lc(6, 1), lc(7, 1)];
    let original_branches = vec![
        bc(1, true),
        bc(3, true),
        bc(5, true),
        bc(7, true),
    ];
    let expected_lines = vec![lc(5, 1), lc(6, 1), lc(7, 1)];
    let expected_branches = vec![bc(1, true), bc(7, true)];
    let mut coverage = PackageCoverage::new(vec![FileCoverage::new(
        "o.rs",
        original_lines,
        original_branches,
    )]);
    let mut store = SourceStore::new();
    store.add("o.rs", OVERLAP_SRC);
    let fixer = CoverageFixer::with_rules(vec![from_str("comment").unwrap()]);
    fixer.fix(&mut coverage, &store).unwrap();
    assert_eq!(coverage.file_coverages()[0].line_coverages(), &expected_lines[..]);
    assert_eq!(coverage.file_coverages()[0].branch_coverages(), &expected_branches[..]);
}

#[test]
fn fix_twice_is_identity() {
    let original = vec![
        lc(0, 1),
        lc(1, 1),
        lc(2, 1),
        lc(3, 1),
        lc(4, 1),
        lc(5, 0),
        lc(6, 0),
        lc(7, 0),
        lc(9, 0),
        lc(10, 0),
    ];
    let branches = vec![bc(3, true), bc(3, false), bc(6, false)];
    let mut coverage =
        PackageCoverage::new(vec![FileCoverage::new("a.rs", original, branches)]);
    let mut store = SourceStore::new();
    store.add("a.rs", CLOSING_SRC);
    let fixer = CoverageFixer::new();
    fixer.fix(&mut coverage, &store).unwrap();
    let once_lines = coverage.file_coverages()[0].line_coverages().to_vec();
    let once_branches = coverage.file_coverages()[0].branch_coverages().to_vec();
    let before = CoverageSummary::new(&coverage);
    fixer.fix(&mut coverage, &store).unwrap();
    let after = CoverageSummary::new(&coverage);
    assert_eq!(coverage.file_coverages()[0].line_coverages(), &once_lines[..]);
    assert_eq!(coverage.file_coverages()[0].branch_coverages(), &once_branches[..]);
    assert_eq!(before, after);
}

#[test]
fn fix_sorts_and_fabricates_nothing() {
    let original = vec![lc(5, 1), lc(2, 0), lc(9, 1), lc(1, 3)];
    let mut coverage =
        PackageCoverage::new(vec![FileCoverage::new("a.rs", original.clone(), Vec::new())]);
    let mut store = SourceStore::new();
    store.add("a.rs", CLOSING_SRC);
    let fixer = CoverageFixer::new();
    fixer.fix(&mut coverage, &store).unwrap();
    let out = coverage.file_coverages()[0].line_coverages();
    for w in out.windows(2) {
        assert!(w[0].line_number < w[1].line_number);
    }
    for r in out {
        assert!(original.iter().any(|o| o.line_number == r.line_number));
    }
}

#[test]
fn fix_is_per_file() {
    let la = vec![lc(5, 1), lc(6, 0)];
    let lb = vec![lc(2, 1), lc(9, 0)];
    let mut store = SourceStore::new();
    store.add("a.rs", CLOSING_SRC);
    store.add("b.rs", LOOP_SRC);
    let mut p1 = PackageCoverage::new(vec![
        FileCoverage::new("a.rs", la.clone(), Vec::new()),
        FileCoverage::new("b.rs", lb.clone(), Vec::new()),
    ]);
    let mut p2 = PackageCoverage::new(vec![
        FileCoverage::new("b.rs", lb, Vec::new()),
        FileCoverage::new("a.rs", la, Vec::new()),
    ]);
    let fixer = CoverageFixer::new();
    fixer.fix(&mut p1, &store).unwrap();
    fixer.fix(&mut p2, &store).unwrap();
    assert_eq!(p1.file_coverages()[0], p2.file_coverages()[1]);
    assert_eq!(p1.file_coverages()[1], p2.file_coverages()[0]);
}

#[test]
fn fix_totals_never_grow() {
    let original = vec![lc(0, 1), lc(6, 0), lc(9, 0), lc(10, 2)];
    let branches = vec![bc(6, true), bc(3, false)];
    let mut coverage =
        PackageCoverage::new(vec![FileCoverage::new("a.rs", original, branches)]);
    let line_total_before = coverage.line_total();
    let branch_total_before = coverage.branch_total();
    let mut store = SourceStore::new();
    store.add("a.rs", CLOSING_SRC);
    let fixer = CoverageFixer::new();
    fixer.fix(&mut coverage, &store).unwrap();
    assert!(coverage.line_total() <= line_total_before);
    assert!(coverage.branch_total() <= branch_total_before);
}

#[test]
fn missing_source_fails() {
    let mut coverage = PackageCoverage::new(vec![FileCoverage::new(
        "missing.rs",
        vec![lc(0, 1)],
        Vec::new(),
    )]);
    let store = SourceStore::new();
    let fixer = CoverageFixer::new();
    let e = fixer.fix(&mut coverage, &store).unwrap_err();
    assert_eq!(e, Error::SourceFileNotFound(String::from("missing.rs")));
    assert_eq!(e.message(), "Source file not found: missing.rs");
}

#[test]
fn empty_rules_change_nothing() {
    let original = vec![lc(6, 0), lc(2, 1)];
    let mut coverage =
        PackageCoverage::new(vec![FileCoverage::new("a.rs", original.clone(), Vec::new())]);
    let store = SourceStore::new();
    let fixer = CoverageFixer::with_rules(Vec::new());
    fixer.fix(&mut coverage, &store).unwrap();
    assert_eq!(coverage.file_coverages()[0].line_coverages(), &original[..]);
}

#[test]
fn totals_and_getters() {
    let f = FileCoverage::new(
        "x.rs",
        vec![lc(0, 2), lc(1, 0), LineCoverage { line_number: 2, count: None }],
        vec![bc(0, true), bc(0, false), BranchCoverage { line_number: 1, block_number: None, taken: None }],
    );
    assert_eq!(f.path(), "x.rs");
    assert_eq!(f.line_executed(), 1);
    assert_eq!(f.line_total(), 2);
    assert_eq!(f.branch_executed(), 1);
    assert_eq!(f.branch_total(), 2);
    let p = PackageCoverage::with_test_name("run", vec![f]);
    assert_eq!(p.name(), "run");
    assert_eq!(p.line_total(), 2);
    assert_eq!(p.branch_executed(), 1);
}

#[test]
fn report_diff_text() {
    let old_summary =
        CoverageSummary { line_executed: 1, line_total: 2, branch_executed: 1, branch_total: 2 };
    let new_summary =
        CoverageSummary { line_executed: 1, line_total: 1, branch_executed: 0, branch_total: 0 };
    let text = report_diff(&old_summary, &new_summary);
    assert_eq!(
        text,
        "  line:   50.00% (1 of 2 lines)    => 100.00% (1 of 1 lines)\n  branch: 50.00% (1 of 2 branches) => 0.00% (0 of 0 branches)\n"
    );
}
