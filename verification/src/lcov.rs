//! The LCOV trace adapter: parsing the line-oriented records of an
//! `lcov.info` stream into the data model, and writing the model back out.
//! On disk the lines are 1-indexed; the records in memory are 0-indexed.

use vstd::prelude::*;

use crate::common::views_of;
use crate::coverage::branch_counted_pred;
use crate::coverage::branch_hit_pred;
use crate::coverage::line_counted_pred;
use crate::coverage::line_hit_pred;
use crate::coverage::BranchCoverage;
use crate::coverage::FileCoverage;
use crate::coverage::LineCoverage;
use crate::coverage::PackageCoverage;
use crate::coverage::TotalCoverage;
use crate::error::Error;
use crate::numeric::all_digits;
use crate::numeric::dec_str;
use crate::numeric::dec_value;
use crate::numeric::parse_u32;
use crate::numeric::parse_usize;
use crate::numeric::to_dec_string;
use crate::text::find_char_from;
use crate::text::find_from;
use crate::text::has_prefix_at;
use crate::text::lemma_find_from;
use crate::text::lemma_trimmed_len;
use crate::text::str_eq;
use crate::text::trimmed_len;
use crate::text::trimmed_len_of;

verus! {

/// One parsed line of an LCOV trace.
#[derive(Debug, Clone, PartialEq)]
pub enum RawData {
    /// test name
    TN(String),
    /// source file that begins a record
    SF(String),
    /// function start line and name
    FN(usize, String),
    /// function execution count and name
    FNDA(u32, String),
    /// functions found
    FNF(u32),
    /// functions executed
    FNH(u32),
    /// executions of a 1-indexed line
    DA(usize, u32),
    /// lines found
    LF(u32),
    /// lines executed
    LH(u32),
    /// branch on a 1-indexed line: line, block, branch index, taken
    BRDA(usize, usize, usize, bool),
    /// branches found
    BRF(u32),
    /// branches executed
    BRH(u32),
    /// end of a file record
    EndOfRecord,
}

/// Ghost mirror of [`RawData`], over sequence views and integers.
pub enum RawSpec {
    TN(Seq<char>),
    SF(Seq<char>),
    FN(int, Seq<char>),
    FNDA(int, Seq<char>),
    FNF(int),
    FNH(int),
    DA(int, int),
    LF(int),
    LH(int),
    BRDA(int, int, int, bool),
    BRF(int),
    BRH(int),
    EndOfRecord,
}

/// The `k`-th comma-separated field of `s`, if `s` has that many fields.
pub open spec fn comma_field(s: Seq<char>, k: int) -> Option<Seq<char>>
    decreases k,
{
    let d = find_from(s, ',', 0);
    if k <= 0 {
        Some(s.subrange(0, d))
    } else if d == s.len() {
        None
    } else {
        comma_field(s.subrange(d + 1, s.len() as int), k - 1)
    }
}

/// A digit field whose value fits below `bound`.
pub open spec fn field_num(s: Seq<char>, k: int, bound: int) -> Option<int> {
    match comma_field(s, k) {
        None => None,
        Some(f) => if f.len() > 0 && all_digits(f) && dec_value(f) <= bound {
            Some(dec_value(f) as int)
        } else {
            None
        },
    }
}

/// What one LCOV line means.  The line is first stripped of trailing
/// whitespace.  A line that means nothing is either unrecognized (skipped
/// by the reader) or malformed (see [`lcov_line_malformed`]; the reader
/// fails on it).
pub open spec fn spec_parse_line(raw: Seq<char>) -> Option<RawSpec> {
    let l = raw.take(trimmed_len(raw, raw.len() as int));
    if l == "end_of_record"@ {
        Some(RawSpec::EndOfRecord)
    } else {
        let colon = find_from(l, ':', 0);
        if colon == l.len() {
            None
        } else {
            let prefix = l.subrange(0, colon);
            let c = l.subrange(colon + 1, l.len() as int);
            if prefix == "TN"@ {
                Some(RawSpec::TN(comma_field(c, 0)->0))
            } else if prefix == "SF"@ {
                Some(RawSpec::SF(comma_field(c, 0)->0))
            } else if prefix == "FN"@ {
                match (field_num(c, 0, usize::MAX as int), comma_field(c, 1)) {
                    (Some(line), Some(name)) => Some(RawSpec::FN(line, name)),
                    _ => None,
                }
            } else if prefix == "FNDA"@ {
                match (field_num(c, 0, u32::MAX as int), comma_field(c, 1)) {
                    (Some(count), Some(name)) => Some(RawSpec::FNDA(count, name)),
                    _ => None,
                }
            } else if prefix == "FNF"@ {
                match field_num(c, 0, u32::MAX as int) {
                    Some(v) => Some(RawSpec::FNF(v)),
                    None => None,
                }
            } else if prefix == "FNH"@ {
                match field_num(c, 0, u32::MAX as int) {
                    Some(v) => Some(RawSpec::FNH(v)),
                    None => None,
                }
            } else if prefix == "DA"@ {
                match (field_num(c, 0, usize::MAX as int), field_num(c, 1, u32::MAX as int)) {
                    (Some(line), Some(count)) => Some(RawSpec::DA(line, count)),
                    _ => None,
                }
            } else if prefix == "LF"@ {
                match field_num(c, 0, u32::MAX as int) {
                    Some(v) => Some(RawSpec::LF(v)),
                    None => None,
                }
            } else if prefix == "LH"@ {
                match field_num(c, 0, u32::MAX as int) {
                    Some(v) => Some(RawSpec::LH(v)),
                    None => None,
                }
            } else if prefix == "BRDA"@ {
                match (
                    field_num(c, 0, usize::MAX as int),
                    field_num(c, 1, usize::MAX as int),
                    field_num(c, 2, usize::MAX as int),
                    comma_field(c, 3),
                ) {
                    (Some(line), Some(block), Some(branch), Some(tk)) => Some(
                        RawSpec::BRDA(line, block, branch, tk != "-"@),
                    ),
                    _ => None,
                }
            } else if prefix == "BRF"@ {
                match field_num(c, 0, u32::MAX as int) {
                    Some(v) => Some(RawSpec::BRF(v)),
                    None => None,
                }
            } else if prefix == "BRH"@ {
                match field_num(c, 0, u32::MAX as int) {
                    Some(v) => Some(RawSpec::BRH(v)),
                    None => None,
                }
            } else {
                None
            }
        }
    }
}

/// The parsed value corresponds to its ghost mirror.
pub open spec fn raw_matches(r: Option<RawData>, s: Option<RawSpec>) -> bool {
    match (r, s) {
        (None, None) => true,
        (Some(a), Some(b)) => match (a, b) {
            (RawData::TN(x), RawSpec::TN(y)) => x@ == y,
            (RawData::SF(x), RawSpec::SF(y)) => x@ == y,
            (RawData::FN(a1, x), RawSpec::FN(b1, y)) => a1 == b1 && x@ == y,
            (RawData::FNDA(a1, x), RawSpec::FNDA(b1, y)) => a1 == b1 && x@ == y,
            (RawData::FNF(a1), RawSpec::FNF(b1)) => a1 == b1,
            (RawData::FNH(a1), RawSpec::FNH(b1)) => a1 == b1,
            (RawData::DA(a1, a2), RawSpec::DA(b1, b2)) => a1 == b1 && a2 == b2,
            (RawData::LF(a1), RawSpec::LF(b1)) => a1 == b1,
            (RawData::LH(a1), RawSpec::LH(b1)) => a1 == b1,
            (RawData::BRDA(a1, a2, a3, a4), RawSpec::BRDA(b1, b2, b3, b4)) => a1 == b1 && a2 == b2
                && a3 == b3 && a4 == b4,
            (RawData::BRF(a1), RawSpec::BRF(b1)) => a1 == b1,
            (RawData::BRH(a1), RawSpec::BRH(b1)) => a1 == b1,
            (RawData::EndOfRecord, RawSpec::EndOfRecord) => true,
            _ => false,
        },
        _ => false,
    }
}

/// The trimmed line opens with one of the record keys and a colon.
pub open spec fn known_record_prefix(raw: Seq<char>) -> bool {
    let l = raw.take(trimmed_len(raw, raw.len() as int));
    let colon = find_from(l, ':', 0);
    colon < l.len() && {
        let prefix = l.subrange(0, colon);
        prefix == "TN"@ || prefix == "SF"@ || prefix == "FN"@ || prefix == "FNDA"@ || prefix
            == "FNF"@ || prefix == "FNH"@ || prefix == "DA"@ || prefix == "LF"@ || prefix == "LH"@
            || prefix == "BRDA"@ || prefix == "BRF"@ || prefix == "BRH"@
    }
}

/// The line is a record of a known kind whose fields do not parse — an
/// unparsable or missing numeric field.  The reader fails on the first
/// such line; lines of unknown kinds carry no data and are skipped.
pub open spec fn lcov_line_malformed(raw: Seq<char>) -> bool {
    known_record_prefix(raw) && spec_parse_line(raw) is None
}

/// The `k`-th comma-separated field, as [`comma_field`] slices it.
fn comma_field_at<'a>(s: &'a str, k: usize) -> (r: Option<&'a str>)
    ensures
        match r {
            Some(f) => comma_field(s@, k as int) == Some(f@),
            None => comma_field(s@, k as int) is None,
        },
    decreases k,
{
    let n = s.unicode_len();
    let d = find_char_from(s, ',', 0);
    proof {
        lemma_find_from(s@, ',', 0);
    }
    if k == 0 {
        Some(s.substring_char(0, d))
    } else if d == n {
        None
    } else {
        let rest = s.substring_char(d + 1, n);
        comma_field_at(rest, k - 1)
    }
}

/// Parses a digit field below a bound, as [`field_num`] reads it.
fn field_num_usize(s: &str, k: usize) -> (r: Option<usize>)
    ensures
        match r {
            Some(v) => field_num(s@, k as int, usize::MAX as int) == Some(v as int),
            None => field_num(s@, k as int, usize::MAX as int) is None,
        },
{
    match comma_field_at(s, k) {
        Some(f) => parse_usize(f),
        None => None,
    }
}

/// Parses a digit field that must fit a `u32`.
fn field_num_u32(s: &str, k: usize) -> (r: Option<u32>)
    ensures
        match r {
            Some(v) => field_num(s@, k as int, u32::MAX as int) == Some(v as int),
            None => field_num(s@, k as int, u32::MAX as int) is None,
        },
{
    match comma_field_at(s, k) {
        Some(f) => parse_u32(f),
        None => None,
    }
}

/// Executable twin of [`known_record_prefix`].
fn known_prefix_of(line: &str) -> (r: bool)
    ensures
        r == known_record_prefix(line@),
{
    let e = trimmed_len_of(line);
    let l = line.substring_char(0, e);
    let n = l.unicode_len();
    let colon = find_char_from(l, ':', 0);
    proof {
        lemma_find_from(l@, ':', 0);
    }
    if colon == n {
        return false;
    }
    let prefix = l.substring_char(0, colon);
    str_eq(prefix, "TN") || str_eq(prefix, "SF") || str_eq(prefix, "FN") || str_eq(prefix, "FNDA")
        || str_eq(prefix, "FNF") || str_eq(prefix, "FNH") || str_eq(prefix, "DA") || str_eq(
        prefix,
        "LF",
    ) || str_eq(prefix, "LH") || str_eq(prefix, "BRDA") || str_eq(prefix, "BRF") || str_eq(
        prefix,
        "BRH",
    )
}

/// The failure shape of a read: the line at `k` is the first malformed
/// record, and the error carries its text.
pub open spec fn lcov_read_failed_at(k: int, lines: Seq<Seq<char>>, e: Error) -> bool {
    &&& 0 <= k < lines.len()
    &&& lcov_line_malformed(lines[k])
    &&& forall|j: int| 0 <= j < k ==> !lcov_line_malformed(#[trigger] lines[j])
    &&& e matches Error::FormatError(d) && d@ == lines[k]
}

/// Reads and writes the LCOV trace format, resolving file names against a
/// root directory.
pub struct LcovParser {
    /// the directory that `SF:` paths are relative to
    pub root: String,
}

/// `root` and `rel` joined with a single separator; an absolute `rel` or
/// an empty `root` stands alone.
pub open spec fn join_path(root: Seq<char>, rel: Seq<char>) -> Seq<char> {
    if root.len() == 0 || (rel.len() > 0 && rel[0] == '/') {
        rel
    } else {
        root + seq!['/'] + rel
    }
}

/// `path` with the `root/` prefix removed if it carries one.
pub open spec fn strip_root(root: Seq<char>, path: Seq<char>) -> Seq<char> {
    if root.len() == 0 {
        path
    } else if has_prefix_at(path, root + seq!['/'], 0) {
        path.subrange(root.len() as int + 1, path.len() as int)
    } else {
        path
    }
}

/// Ghost shape of one file accumulated by the reader.
pub struct LcovFileSpec {
    pub path: Seq<char>,
    pub lines: Seq<LineCoverage>,
    pub branches: Seq<BranchCoverage>,
}

/// Ghost state of the reader: the test name, the current file name, the
/// records accumulated for it, and the finished files.
pub struct LcovReadState {
    pub name: Seq<char>,
    pub filename: Seq<char>,
    pub cur_lines: Seq<LineCoverage>,
    pub cur_branches: Seq<BranchCoverage>,
    pub files: Seq<LcovFileSpec>,
}

/// The reader's initial state.
pub open spec fn lcov_initial_state() -> LcovReadState {
    LcovReadState {
        name: Seq::empty(),
        filename: Seq::empty(),
        cur_lines: Seq::empty(),
        cur_branches: Seq::empty(),
        files: Seq::empty(),
    }
}

/// How one input line changes the reader's state.
pub open spec fn lcov_step(st: LcovReadState, l: Seq<char>, root: Seq<char>) -> LcovReadState {
    match spec_parse_line(l) {
        None => st,
        Some(raw) => match raw {
            RawSpec::TN(n) => LcovReadState { name: n, ..st },
            RawSpec::SF(f) => LcovReadState { filename: f, ..st },
            RawSpec::DA(line, count) => if line > 0 {
                LcovReadState {
                    cur_lines: st.cur_lines.push(
                        LineCoverage {
                            line_number: (line - 1) as usize,
                            count: Some(count as u32),
                        },
                    ),
                    ..st
                }
            } else {
                st
            },
            RawSpec::BRDA(line, block, _branch, taken) => if line > 0 {
                LcovReadState {
                    cur_branches: st.cur_branches.push(
                        BranchCoverage {
                            line_number: (line - 1) as usize,
                            block_number: Some(block as usize),
                            taken: Some(taken),
                        },
                    ),
                    ..st
                }
            } else {
                st
            },
            RawSpec::EndOfRecord => LcovReadState {
                cur_lines: Seq::empty(),
                cur_branches: Seq::empty(),
                files: st.files.push(
                    LcovFileSpec {
                        path: join_path(root, st.filename),
                        lines: st.cur_lines,
                        branches: st.cur_branches,
                    },
                ),
                ..st
            },
            _ => st,
        },
    }
}

/// The reader's state after the first `i` input lines.
pub open spec fn lcov_read_state(lines: Seq<Seq<char>>, i: int, root: Seq<char>) -> LcovReadState
    decreases i,
{
    if i <= 0 {
        lcov_initial_state()
    } else {
        lcov_step(lcov_read_state(lines, i - 1, root), lines[i - 1], root)
    }
}

impl LcovParser {
    /// A parser that resolves `SF:` paths against `root`.
    pub fn new(root: &str) -> (r: LcovParser)
        ensures
            r.root@ == root@,
    {
        LcovParser { root: root.to_owned() }
    }

    /// Parses one line of a trace, as [`spec_parse_line`] reads it.
    pub fn parse_line(&self, line: &str) -> (r: Option<RawData>)
        ensures
            raw_matches(r, spec_parse_line(line@)),
    {
        let e = trimmed_len_of(line);
        proof {
            lemma_trimmed_len(line@, line@.len() as int);
        }
        let l = line.substring_char(0, e);
        if str_eq(l, "end_of_record") {
            return Some(RawData::EndOfRecord);
        }
        let n = l.unicode_len();
        let colon = find_char_from(l, ':', 0);
        proof {
            lemma_find_from(l@, ':', 0);
        }
        if colon == n {
            return None;
        }
        let prefix = l.substring_char(0, colon);
        let c = l.substring_char(colon + 1, n);
        if str_eq(prefix, "TN") {
            match comma_field_at(c, 0) {
                Some(f) => Some(RawData::TN(f.to_owned())),
                None => None,
            }
        } else if str_eq(prefix, "SF") {
            match comma_field_at(c, 0) {
                Some(f) => Some(RawData::SF(f.to_owned())),
                None => None,
            }
        } else if str_eq(prefix, "FN") {
            match (field_num_usize(c, 0), comma_field_at(c, 1)) {
                (Some(line), Some(name)) => Some(RawData::FN(line, name.to_owned())),
                _ => None,
            }
        } else if str_eq(prefix, "FNDA") {
            match (field_num_u32(c, 0), comma_field_at(c, 1)) {
                (Some(count), Some(name)) => Some(RawData::FNDA(count, name.to_owned())),
                _ => None,
            }
        } else if str_eq(prefix, "FNF") {
            match field_num_u32(c, 0) {
                Some(v) => Some(RawData::FNF(v)),
                None => None,
            }
        } else if str_eq(prefix, "FNH") {
            match field_num_u32(c, 0) {
                Some(v) => Some(RawData::FNH(v)),
                None => None,
            }
        } else if str_eq(prefix, "DA") {
            match (field_num_usize(c, 0), field_num_u32(c, 1)) {
                (Some(line), Some(count)) => Some(RawData::DA(line, count)),
                _ => None,
            }
        } else if str_eq(prefix, "LF") {
            match field_num_u32(c, 0) {
                Some(v) => Some(RawData::LF(v)),
                None => None,
            }
        } else if str_eq(prefix, "LH") {
            match field_num_u32(c, 0) {
                Some(v) => Some(RawData::LH(v)),
                None => None,
            }
        } else if str_eq(prefix, "BRDA") {
            match (field_num_usize(c, 0), field_num_usize(c, 1), field_num_usize(c, 2),
                comma_field_at(c, 3)) {
                (Some(line), Some(block), Some(branch), Some(tk)) => {
                    proof {
                        reveal_strlit("-");
                    }
                    Some(RawData::BRDA(line, block, branch, !str_eq(tk, "-")))
                },
                _ => None,
            }
        } else if str_eq(prefix, "BRF") {
            match field_num_u32(c, 0) {
                Some(v) => Some(RawData::BRF(v)),
                None => None,
            }
        } else if str_eq(prefix, "BRH") {
            match field_num_u32(c, 0) {
                Some(v) => Some(RawData::BRH(v)),
                None => None,
            }
        } else {
            None
        }
    }

    /// Builds the package from the lines of a trace, resolving each file
    /// against the root.  The read fails with a `FormatError` on the first
    /// malformed record line; lines of unknown kinds are skipped.  The
    /// caller is responsible for checking that the resolved files exist.
    #[verifier::loop_isolation(false)]
    pub fn read_lines(&self, lines: &Vec<String>) -> (r: Result<PackageCoverage, Error>)
        ensures
            r is Ok <==> (forall|i: int|
                0 <= i < lines@.len() ==> !lcov_line_malformed(#[trigger] views_of(lines@)[i])),
            r matches Ok(p) ==> ({
                let st = lcov_read_state(views_of(lines@), lines@.len() as int, self.root@);
                &&& p.name@ == st.name
                &&& p.file_coverages@.len() == st.files.len()
                &&& forall|i: int|
                    0 <= i < st.files.len() ==> {
                        &&& (#[trigger] p.file_coverages@[i]).path@ == st.files[i].path
                        &&& p.file_coverages@[i].line_coverages@ == st.files[i].lines
                        &&& p.file_coverages@[i].branch_coverages@ == st.files[i].branches
                    }
            }),
            r matches Err(e) ==> exists|k: int|
                #[trigger] lcov_read_failed_at(k, views_of(lines@), e),
    {
        let mut name = String::new();
        let mut filename = String::new();
        let mut cur_lines: Vec<LineCoverage> = Vec::new();
        let mut cur_branches: Vec<BranchCoverage> = Vec::new();
        let mut files: Vec<FileCoverage> = Vec::new();
        let mut i: usize = 0;
        let n = lines.len();
        while i < n
            invariant
                i <= n,
                forall|j: int| 0 <= j < i ==> !lcov_line_malformed(#[trigger] views_of(lines@)[j]),
                ({
                    let st = lcov_read_state(views_of(lines@), i as int, self.root@);
                    &&& name@ == st.name
                    &&& filename@ == st.filename
                    &&& cur_lines@ == st.cur_lines
                    &&& cur_branches@ == st.cur_branches
                    &&& files@.len() == st.files.len()
                    &&& forall|j: int|
                        0 <= j < st.files.len() ==> {
                            &&& (#[trigger] files@[j]).path@ == st.files[j].path
                            &&& files@[j].line_coverages@ == st.files[j].lines
                            &&& files@[j].branch_coverages@ == st.files[j].branches
                        }
                }),
            decreases n - i,
        {
            proof {
                assert(views_of(lines@)[i as int] == lines@[i as int]@);
            }
            let raw = self.parse_line(lines[i].as_str());
            match raw {
                Some(RawData::TN(t)) => {
                    name = t;
                },
                Some(RawData::SF(f)) => {
                    filename = f;
                },
                Some(RawData::DA(line, count)) => {
                    if line > 0 {
                        cur_lines.push(LineCoverage { line_number: line - 1, count: Some(count) });
                    }
                },
                Some(RawData::BRDA(line, block, _branch, taken)) => {
                    if line > 0 {
                        cur_branches.push(
                            BranchCoverage {
                                line_number: line - 1,
                                block_number: Some(block),
                                taken: Some(taken),
                            },
                        );
                    }
                },
                Some(RawData::EndOfRecord) => {
                    let path = self.join_root(filename.as_str());
                    let fc = FileCoverage::new(path.as_str(), cur_lines, cur_branches);
                    files.push(fc);
                    cur_lines = Vec::new();
                    cur_branches = Vec::new();
                },
                Some(_) => {},
                None => {
                    if known_prefix_of(lines[i].as_str()) {
                        let e = Error::FormatError(lines[i].clone());
                        proof {
                            assert(lcov_read_failed_at(i as int, views_of(lines@), e));
                        }
                        return Err(e);
                    }
                },
            }
            i = i + 1;
        }
        Ok(PackageCoverage { name, file_coverages: files })
    }

    /// Resolves a relative file name against the parser's root.
    pub fn join_root(&self, rel: &str) -> (r: String)
        ensures
            r@ == join_path(self.root@, rel@),
    {
        let n = rel.unicode_len();
        if self.root.as_str().unicode_len() == 0 || (n > 0 && rel.get_char(0) == '/') {
            rel.to_owned()
        } else {
            let mut s = self.root.clone();
            proof {
                reveal_strlit("/");
                assert("/"@ =~= seq!['/']);
            }
            s.append("/");
            s.append(rel);
            proof {
                assert(s@ =~= self.root@ + seq!['/'] + rel@);
            }
            s
        }
    }

    /// Removes the root prefix from a resolved path.
    pub fn relative_of(&self, path: &str) -> (r: String)
        ensures
            r@ == strip_root(self.root@, path@),
    {
        let rn = self.root.as_str().unicode_len();
        let n = path.unicode_len();
        if rn == 0 {
            return path.to_owned();
        }
        let mut pref = self.root.clone();
        proof {
            reveal_strlit("/");
            assert("/"@ =~= seq!['/']);
        }
        pref.append("/");
        proof {
            assert(pref@ =~= self.root@ + seq!['/']);
        }
        if crate::text::str_prefix_at(path, 0, pref.as_str()) {
            let r = path.substring_char(rn + 1, n);
            r.to_owned()
        } else {
            path.to_owned()
        }
    }

    /// One `DA:` line for a record that still counts.
    pub fn write_line_coverage(&self, data: &LineCoverage) -> (r: String)
        requires
            data.count is Some,
        ensures
            r@ == da_line_chars(*data),
    {
        let mut s = String::new();
        proof {
            reveal_strlit("DA:");
            reveal_strlit(",");
        }
        s.append("DA:");
        let d = to_dec_string(data.line_number as u128 + 1);
        s.append(d.as_str());
        s.append(",");
        let count = match data.count {
            Some(c) => c,
            None => 0,
        };
        let d = to_dec_string(count as u128);
        s.append(d.as_str());
        proof {
            assert(s@ =~= da_line_chars(*data));
        }
        s
    }

    /// One `BRDA:` line for a record that still counts, with the branch's
    /// index within its line.
    pub fn write_branch_coverage(&self, data: &BranchCoverage, branch_number: usize) -> (r: String)
        requires
            data.taken is Some,
        ensures
            r@ == brda_line_chars(*data, branch_number as int),
    {
        let mut s = String::new();
        proof {
            reveal_strlit("BRDA:");
            reveal_strlit(",");
            reveal_strlit("1");
            reveal_strlit("-");
        }
        s.append("BRDA:");
        let d = to_dec_string(data.line_number as u128 + 1);
        s.append(d.as_str());
        s.append(",");
        let block = match data.block_number {
            Some(b) => b,
            None => 0,
        };
        let d = to_dec_string(block as u128);
        s.append(d.as_str());
        s.append(",");
        let d = to_dec_string(branch_number as u128);
        s.append(d.as_str());
        s.append(",");
        let taken = match data.taken {
            Some(t) => t,
            None => false,
        };
        if taken {
            s.append("1");
        } else {
            s.append("-");
        }
        proof {
            assert(s@ =~= brda_line_chars(*data, branch_number as int));
        }
        s
    }

    /// The lines of one file record: `SF`, branches, branch totals, lines,
    /// line totals, `end_of_record`.
    #[verifier::loop_isolation(false)]
    pub fn write_file_coverage(&self, data: &FileCoverage) -> (r: Vec<String>)
        ensures
            views_of(r@) == lcov_file_chars(self.root@, *data),
    {
        let mut out: Vec<String> = Vec::new();
        let mut sf = String::new();
        proof {
            reveal_strlit("SF:");
            reveal_strlit("BRF:");
            reveal_strlit("BRH:");
            reveal_strlit("LF:");
            reveal_strlit("LH:");
            reveal_strlit("end_of_record");
        }
        sf.append("SF:");
        let rel = self.relative_of(data.path.as_str());
        sf.append(rel.as_str());
        out.push(sf);
        let branches = filter_counted_branches(&data.branch_coverages);
        let mut k: usize = 0;
        let mut idx: usize = 0;
        while k < branches.len()
            invariant
                k <= branches@.len(),
                out@.len() == 1 + k,
                k > 0 ==> idx == brda_index(branches@, k - 1) + 1,
                k == 0 ==> idx == 0,
                forall|t: int|
                    0 <= t < k ==> (#[trigger] out@[1 + t])@ == brda_line_chars(
                        branches@[t],
                        brda_index(branches@, t),
                    ),
                out@[0]@ == "SF:"@ + strip_root(self.root@, data.path@),
                forall|t: int| 0 <= t < branches@.len() ==> (#[trigger] branches@[t]).taken is Some,
            decreases branches@.len() - k,
        {
            proof {
                lemma_brda_index_le(branches@, k as int);
                lemma_brda_index_le(branches@, k - 1);
            }
            let b = branches[k];
            let this_idx: usize;
            if k > 0 && branches[k - 1].line_number == b.line_number {
                this_idx = idx;
            } else {
                this_idx = 0;
            }
            let line = self.write_branch_coverage(&b, this_idx);
            out.push(line);
            idx = this_idx + 1;
            k = k + 1;
        }
        let bt = data.branch_total();
        let be = data.branch_executed();
        proof {
            vstd::std_specs::vec::axiom_spec_len(&data.branch_coverages);
            vstd::std_specs::vec::axiom_spec_len(&data.line_coverages);
            data.branch_coverages@.lemma_filter_len(branch_counted_pred());
            data.branch_coverages@.lemma_filter_len(branch_hit_pred());
            data.line_coverages@.lemma_filter_len(line_counted_pred());
            data.line_coverages@.lemma_filter_len(line_hit_pred());
        }
        let mut s = String::new();
        s.append("BRF:");
        let d = to_dec_string(bt as u128);
        s.append(d.as_str());
        proof {
            assert(bt == crate::coverage::spec_branch_total_of(data.branch_coverages@));
            assert(s@ =~= "BRF:"@ + dec_str(
                crate::coverage::spec_branch_total_of(data.branch_coverages@),
            ));
        }
        out.push(s);
        let mut s = String::new();
        s.append("BRH:");
        let d = to_dec_string(be as u128);
        s.append(d.as_str());
        proof {
            assert(be == crate::coverage::spec_branch_executed_of(data.branch_coverages@));
            assert(s@ =~= "BRH:"@ + dec_str(
                crate::coverage::spec_branch_executed_of(data.branch_coverages@),
            ));
        }
        out.push(s);
        let ghost brf_done = out@;
        proof {
            assert(brf_done.len() == 3 + branches@.len());
            assert(brf_done[0]@ == "SF:"@ + strip_root(self.root@, data.path@));
            assert forall|t: int| 0 <= t < branches@.len() implies (#[trigger] brf_done[1 + t])@
                == brda_line_chars(branches@[t], brda_index(branches@, t)) by {}
            assert(brf_done[1 + branches@.len() as int]@ == "BRF:"@ + dec_str(
                crate::coverage::spec_branch_total_of(data.branch_coverages@),
            ));
            assert(brf_done[2 + branches@.len() as int]@ == "BRH:"@ + dec_str(
                crate::coverage::spec_branch_executed_of(data.branch_coverages@),
            ));
        }
        let lines = filter_counted_lines(&data.line_coverages);
        let mut k: usize = 0;
        while k < lines.len()
            invariant
                k <= lines@.len(),
                out@.len() == brf_done.len() + k,
                forall|t: int| 0 <= t < brf_done.len() ==> out@[t] == brf_done[t],
                forall|t: int|
                    0 <= t < k ==> (#[trigger] out@[brf_done.len() + t])@ == da_line_chars(
                        lines@[t],
                    ),
                forall|t: int| 0 <= t < lines@.len() ==> (#[trigger] lines@[t]).count is Some,
            decreases lines@.len() - k,
        {
            let line = self.write_line_coverage(&lines[k]);
            out.push(line);
            k = k + 1;
        }
        let ghost with_da = out@;
        proof {
            assert(with_da.len() == brf_done.len() + lines@.len());
            assert forall|t: int| 0 <= t < lines@.len() implies (#[trigger] with_da[brf_done.len()
                + t])@ == da_line_chars(lines@[t]) by {}
            assert forall|t: int| 0 <= t < brf_done.len() implies with_da[t]
                == #[trigger] brf_done[t] by {}
        }
        let lt = data.line_total();
        let le = data.line_executed();
        let mut s = String::new();
        s.append("LF:");
        let d = to_dec_string(lt as u128);
        s.append(d.as_str());
        proof {
            assert(lt == crate::coverage::spec_line_total_of(data.line_coverages@));
            assert(s@ =~= "LF:"@ + dec_str(
                crate::coverage::spec_line_total_of(data.line_coverages@),
            ));
        }
        out.push(s);
        let mut s = String::new();
        s.append("LH:");
        let d = to_dec_string(le as u128);
        s.append(d.as_str());
        proof {
            assert(le == crate::coverage::spec_line_executed_of(data.line_coverages@));
            assert(s@ =~= "LH:"@ + dec_str(
                crate::coverage::spec_line_executed_of(data.line_coverages@),
            ));
        }
        out.push(s);
        let mut s = String::new();
        s.append("end_of_record");
        proof {
            assert(s@ =~= "end_of_record"@);
        }
        out.push(s);
        proof {
            let target = lcov_file_chars(self.root@, *data);
            let bs = data.branch_coverages@.filter(branch_counted_pred());
            let ls = data.line_coverages@.filter(line_counted_pred());
            let bl = bs.len() as int;
            let ll = ls.len() as int;
            assert(branches@ == bs);
            assert(lines@ == ls);
            assert(out@.len() == 6 + bl + ll);
            assert(target.len() == 6 + bl + ll);
            assert forall|i: int| 0 <= i < out@.len() implies views_of(out@)[i] == target[i] by {
                assert(views_of(out@)[i] == out@[i]@);
                if i == 0 {
                    assert(with_da[0] == brf_done[0]);
                    assert(out@[0] == with_da[0]);
                    assert(target[0] == "SF:"@ + strip_root(self.root@, data.path@));
                } else if i <= bl {
                    let t = i - 1;
                    assert(brf_done[1 + t]@ == brda_line_chars(branches@[t], brda_index(
                        branches@,
                        t,
                    )));
                    assert(with_da[i] == brf_done[i]);
                    assert(out@[i] == with_da[i]);
                    assert(target[i] == brda_lines_chars(bs)[i - 1]);
                } else if i == 1 + bl {
                    assert(with_da[i] == brf_done[i]);
                    assert(out@[i] == brf_done[i]);
                    assert(target[i] == "BRF:"@ + dec_str(
                        crate::coverage::spec_branch_total_of(data.branch_coverages@),
                    ));
                } else if i == 2 + bl {
                    assert(with_da[i] == brf_done[i]);
                    assert(out@[i] == brf_done[i]);
                    assert(target[i] == "BRH:"@ + dec_str(
                        crate::coverage::spec_branch_executed_of(data.branch_coverages@),
                    ));
                } else if i < 3 + bl + ll {
                    let t = i - 3 - bl;
                    assert(with_da[brf_done.len() + t]@ == da_line_chars(lines@[t]));
                    assert(out@[i] == with_da[i]);
                    assert(target[i] == da_lines_chars(ls)[i - 3 - bl]);
                } else if i == 3 + bl + ll {
                    assert(target[i] == "LF:"@ + dec_str(
                        crate::coverage::spec_line_total_of(data.line_coverages@),
                    ));
                } else if i == 4 + bl + ll {
                    assert(target[i] == "LH:"@ + dec_str(
                        crate::coverage::spec_line_executed_of(data.line_coverages@),
                    ));
                } else {
                    assert(target[i] == "end_of_record"@);
                }
            }
            assert(views_of(out@) =~= target);
        }
        out
    }

    /// The whole trace: the `TN` line, then every file record.
    #[verifier::loop_isolation(false)]
    pub fn write_package_coverage(&self, data: &PackageCoverage) -> (r: Vec<String>)
        ensures
            views_of(r@) == lcov_package_chars(self.root@, *data),
    {
        let mut out: Vec<String> = Vec::new();
        let mut tn = String::new();
        proof {
            reveal_strlit("TN:");
        }
        tn.append("TN:");
        tn.append(data.name.as_str());
        out.push(tn);
        proof {
            assert(views_of(out@) =~= seq!["TN:"@ + data.name@]);
            assert(lcov_files_chars(self.root@, data.file_coverages@.take(0)).len() == 0);
            assert(views_of(out@) =~= seq!["TN:"@ + data.name@] + lcov_files_chars(
                self.root@,
                data.file_coverages@.take(0),
            ));
        }
        let n = data.file_coverages.len();
        let mut i: usize = 0;
        while i < n
            invariant
                i <= n,
                views_of(out@) == seq!["TN:"@ + data.name@] + lcov_files_chars(
                    self.root@,
                    data.file_coverages@.take(i as int),
                ),
            decreases n - i,
        {
            let mut file_lines = self.write_file_coverage(&data.file_coverages[i]);
            proof {
                lemma_views_concat(out@, file_lines@);
                assert(data.file_coverages@.take(i + 1).drop_last() =~= data.file_coverages@.take(
                    i as int,
                ));
                assert(data.file_coverages@.take(i + 1).last() == data.file_coverages@[i as int]);
            }
            out.append(&mut file_lines);
            i = i + 1;
        }
        proof {
            assert(data.file_coverages@.take(n as int) =~= data.file_coverages@);
            assert(views_of(out@) =~= lcov_package_chars(self.root@, *data));
        }
        out
    }
}

/// Views distribute over concatenation.
proof fn lemma_views_concat(a: Seq<String>, b: Seq<String>)
    ensures
        views_of(a + b) == views_of(a) + views_of(b),
{
    assert(views_of(a + b) =~= views_of(a) + views_of(b));
}

/// The branch records that still count.
fn filter_counted_branches(v: &Vec<BranchCoverage>) -> (r: Vec<BranchCoverage>)
    ensures
        r@ == v@.filter(branch_counted_pred()),
{
    let ghost pred = branch_counted_pred();
    let mut out: Vec<BranchCoverage> = Vec::new();
    let mut i: usize = 0;
    #[verifier::loop_isolation(false)]
    while i < v.len()
        invariant
            i <= v.len(),
            out@ == v@.take(i as int).filter(pred),
        decreases v.len() - i,
    {
        proof {
            assert(v@.take(i + 1) =~= v@.take(i as int).push(v@[i as int]));
            crate::sequences::lemma_filter_push(v@.take(i as int), v@[i as int], pred);
        }
        let x = v[i];
        if x.taken.is_some() {
            out.push(x);
        }
        i = i + 1;
    }
    proof {
        assert(v@.take(v@.len() as int) =~= v@);
    }
    out
}

/// The line records that still count.
fn filter_counted_lines(v: &Vec<LineCoverage>) -> (r: Vec<LineCoverage>)
    ensures
        r@ == v@.filter(line_counted_pred()),
{
    let ghost pred = line_counted_pred();
    let mut out: Vec<LineCoverage> = Vec::new();
    let mut i: usize = 0;
    #[verifier::loop_isolation(false)]
    while i < v.len()
        invariant
            i <= v.len(),
            out@ == v@.take(i as int).filter(pred),
        decreases v.len() - i,
    {
        proof {
            assert(v@.take(i + 1) =~= v@.take(i as int).push(v@[i as int]));
            crate::sequences::lemma_filter_push(v@.take(i as int), v@[i as int], pred);
        }
        let x = v[i];
        if x.count.is_some() {
            out.push(x);
        }
        i = i + 1;
    }
    proof {
        assert(v@.take(v@.len() as int) =~= v@);
    }
    out
}

/// Index of a branch within its line: zero on a new line, one more per
/// further record on the same line.
pub open spec fn brda_index(s: Seq<BranchCoverage>, k: int) -> int
    decreases k,
{
    if k <= 0 {
        0
    } else if s[k - 1].line_number == s[k].line_number {
        brda_index(s, k - 1) + 1
    } else {
        0
    }
}

pub proof fn lemma_brda_index_le(s: Seq<BranchCoverage>, k: int)
    ensures
        0 <= brda_index(s, k) <= if k >= 0 {
            k
        } else {
            0
        },
    decreases k,
{
    if k > 0 && s[k - 1].line_number == s[k].line_number {
        lemma_brda_index_le(s, k - 1);
    }
}

/// The `DA:` line of a record: 1-indexed line, then the count.
pub open spec fn da_line_chars(r: LineCoverage) -> Seq<char> {
    "DA:"@ + dec_str(r.line_number as nat + 1) + ","@ + dec_str(
        if r.count is Some {
            r.count->0 as nat
        } else {
            0
        },
    )
}

/// The `BRDA:` line of a record: 1-indexed line, block (zero when
/// absent), index within the line, and `1` or `-` for taken.
pub open spec fn brda_line_chars(r: BranchCoverage, idx: int) -> Seq<char> {
    "BRDA:"@ + dec_str(r.line_number as nat + 1) + ","@ + dec_str(
        if r.block_number is Some {
            r.block_number->0 as nat
        } else {
            0
        },
    ) + ","@ + dec_str(idx as nat) + ","@ + (if r.taken == Some(true) {
        "1"@
    } else {
        "-"@
    })
}

/// All `BRDA:` lines of the counting branch records, in order.
pub open spec fn brda_lines_chars(branches: Seq<BranchCoverage>) -> Seq<Seq<char>> {
    Seq::new(branches.len(), |k: int| brda_line_chars(branches[k], brda_index(branches, k)))
}

/// All `DA:` lines of the counting line records, in order.
pub open spec fn da_lines_chars(lines: Seq<LineCoverage>) -> Seq<Seq<char>> {
    Seq::new(lines.len(), |k: int| da_line_chars(lines[k]))
}

/// The lines written for one file.
pub open spec fn lcov_file_chars(root: Seq<char>, f: FileCoverage) -> Seq<Seq<char>> {
    let branches = f.branch_coverages@.filter(branch_counted_pred());
    let lines = f.line_coverages@.filter(line_counted_pred());
    seq!["SF:"@ + strip_root(root, f.path@)] + brda_lines_chars(branches) + seq![
        "BRF:"@ + dec_str(crate::coverage::spec_branch_total_of(f.branch_coverages@)),
        "BRH:"@ + dec_str(crate::coverage::spec_branch_executed_of(f.branch_coverages@)),
    ] + da_lines_chars(lines) + seq![
        "LF:"@ + dec_str(crate::coverage::spec_line_total_of(f.line_coverages@)),
        "LH:"@ + dec_str(crate::coverage::spec_line_executed_of(f.line_coverages@)),
        "end_of_record"@,
    ]
}

/// The file records of a package, concatenated.
pub open spec fn lcov_files_chars(root: Seq<char>, files: Seq<FileCoverage>) -> Seq<Seq<char>>
    decreases files.len(),
{
    if files.len() == 0 {
        Seq::empty()
    } else {
        lcov_files_chars(root, files.drop_last()) + lcov_file_chars(root, files.last())
    }
}

/// Every line of the written trace.
pub open spec fn lcov_package_chars(root: Seq<char>, p: PackageCoverage) -> Seq<Seq<char>> {
    seq!["TN:"@ + p.name@] + lcov_files_chars(root, p.file_coverages@)
}

// ------------------------------------------------------------- round trip

/// Free of commas: a text that survives field splitting whole.
pub open spec fn no_comma(s: Seq<char>) -> bool {
    forall|i: int| 0 <= i < s.len() ==> #[trigger] s[i] != ','
}

/// Text that passes through a record field unchanged: no comma, no
/// whitespace.
pub open spec fn plain_text(s: Seq<char>) -> bool {
    forall|i: int| 0 <= i < s.len() ==> #[trigger] s[i] != ',' && !crate::text::is_space(s[i])
}

/// Digits pass through fields unchanged.
proof fn lemma_digits_plain(s: Seq<char>)
    requires
        all_digits(s),
    ensures
        forall|i: int|
            0 <= i < s.len() ==> #[trigger] s[i] != ',' && s[i] != ':' && !crate::text::is_space(
                s[i],
            ),
{
    assert forall|i: int| 0 <= i < s.len() implies #[trigger] s[i] != ',' && s[i] != ':'
        && !crate::text::is_space(s[i]) by {
        assert(crate::numeric::is_digit(s[i]));
        assert(',' as u32 == 44);
        assert(':' as u32 == 58);
        assert(' ' as u32 == 32);
        assert('\t' as u32 == 9);
        assert('\r' as u32 == 13);
    }
}

/// A line whose last character is no whitespace is not trimmed.
proof fn lemma_untrimmed(l: Seq<char>)
    requires
        l.len() > 0,
        !crate::text::is_space(l.last()),
    ensures
        l.take(trimmed_len(l, l.len() as int)) == l,
{
    assert(trimmed_len(l, l.len() as int) == l.len());
    assert(l.take(l.len() as int) =~= l);
}

/// Splitting at the first comma of `a ++ "," ++ rest`.
proof fn lemma_comma_head(a: Seq<char>, rest: Seq<char>, k: int)
    requires
        no_comma(a),
        k >= 0,
    ensures
        k == 0 ==> comma_field(a + seq![','] + rest, 0) == Some(a),
        k >= 1 ==> comma_field(a + seq![','] + rest, k) == comma_field(rest, k - 1),
{
    let w = a + seq![','] + rest;
    assert(w[a.len() as int] == ',');
    assert forall|t: int| 0 <= t < a.len() implies #[trigger] w[t] != ',' by {
        assert(w[t] == a[t]);
    }
    crate::text::lemma_find_from_is(w, ',', 0, a.len() as int);
    if k == 0 {
        assert(w.subrange(0, a.len() as int) =~= a);
    } else {
        assert(w.subrange(a.len() as int + 1, w.len() as int) =~= rest);
    }
}

/// A comma-free text is its own single field.
proof fn lemma_comma_whole(a: Seq<char>)
    requires
        no_comma(a),
    ensures
        comma_field(a, 0) == Some(a),
{
    crate::text::lemma_find_from_is(a, ',', 0, a.len() as int);
    assert(a.subrange(0, a.len() as int) =~= a);
}

/// Lengths and characters of the record prefixes, anchored so that the
/// parser's comparisons are decided.
proof fn lemma_prefix_facts()
    ensures
        "TN"@.len() == 2 && "TN"@[0] == 'T',
        "SF"@.len() == 2 && "SF"@[0] == 'S',
        "FN"@.len() == 2 && "FN"@[0] == 'F',
        "FNDA"@.len() == 4 && "FNDA"@[0] == 'F',
        "FNF"@.len() == 3 && "FNF"@[0] == 'F' && "FNF"@[2] == 'F',
        "FNH"@.len() == 3 && "FNH"@[0] == 'F' && "FNH"@[2] == 'H',
        "DA"@.len() == 2 && "DA"@[0] == 'D' && "DA"@[1] == 'A',
        "LF"@.len() == 2 && "LF"@[0] == 'L' && "LF"@[1] == 'F',
        "LH"@.len() == 2 && "LH"@[0] == 'L' && "LH"@[1] == 'H',
        "BRDA"@.len() == 4 && "BRDA"@[0] == 'B' && "BRDA"@[1] == 'R' && "BRDA"@[2] == 'D'
            && "BRDA"@[3] == 'A',
        "BRF"@.len() == 3 && "BRF"@[0] == 'B' && "BRF"@[2] == 'F',
        "BRH"@.len() == 3 && "BRH"@[0] == 'B' && "BRH"@[2] == 'H',
        "TN"@[1] == 'N' && "SF"@[1] == 'F' && "FN"@[1] == 'N',
        "BRF"@[1] == 'R' && "BRH"@[1] == 'R',
        "end_of_record"@.len() == 13 && "end_of_record"@[0] == 'e',
        "TN:"@ =~= "TN"@ + seq![':'],
        "SF:"@ =~= "SF"@ + seq![':'],
        "DA:"@ =~= "DA"@ + seq![':'],
        "BRDA:"@ =~= "BRDA"@ + seq![':'],
        "BRF:"@ =~= "BRF"@ + seq![':'],
        "BRH:"@ =~= "BRH"@ + seq![':'],
        "LF:"@ =~= "LF"@ + seq![':'],
        "LH:"@ =~= "LH"@ + seq![':'],
        ","@ =~= seq![','],
        "1"@ =~= seq!['1'],
        "-"@ =~= seq!['-'],
{
    reveal_strlit("TN");
    reveal_strlit("SF");
    reveal_strlit("FN");
    reveal_strlit("FNDA");
    reveal_strlit("FNF");
    reveal_strlit("FNH");
    reveal_strlit("DA");
    reveal_strlit("LF");
    reveal_strlit("LH");
    reveal_strlit("BRDA");
    reveal_strlit("BRF");
    reveal_strlit("BRH");
    reveal_strlit("end_of_record");
    reveal_strlit("TN:");
    reveal_strlit("SF:");
    reveal_strlit("DA:");
    reveal_strlit("BRDA:");
    reveal_strlit("BRF:");
    reveal_strlit("BRH:");
    reveal_strlit("LF:");
    reveal_strlit("LH:");
    reveal_strlit(",");
    reveal_strlit("1");
    reveal_strlit("-");
}

/// A line `P:rest` parses under prefix `P` when `P` holds no colon.
proof fn lemma_line_shape(p: Seq<char>, rest: Seq<char>)
    requires
        p.len() > 0,
        forall|i: int| 0 <= i < p.len() ==> #[trigger] p[i] != ':',
        rest.len() == 0 || !crate::text::is_space(rest.last()),
        rest.len() == 0 ==> p[p.len() - 1] != ':' && !crate::text::is_space(p.last()),
    ensures
        ({
            let l = p + seq![':'] + rest;
            &&& l.take(trimmed_len(l, l.len() as int)) == l
            &&& find_from(l, ':', 0) == p.len()
            &&& l.subrange(0, p.len() as int) == p
            &&& l.subrange(p.len() as int + 1, l.len() as int) == rest
        }),
{
    let l = p + seq![':'] + rest;
    if rest.len() == 0 {
        assert(l.last() == ':');
        assert(!crate::text::is_space(':'));
    } else {
        assert(l.last() == rest.last());
    }
    lemma_untrimmed(l);
    assert(l[p.len() as int] == ':');
    assert forall|t: int| 0 <= t < p.len() implies #[trigger] l[t] != ':' by {
        assert(l[t] == p[t]);
    }
    crate::text::lemma_find_from_is(l, ':', 0, p.len() as int);
    assert(l.subrange(0, p.len() as int) =~= p);
    assert(l.subrange(p.len() as int + 1, l.len() as int) =~= rest);
}

/// A `DA:` line reads back as its record.
pub proof fn lemma_parse_da_line(r: LineCoverage)
    requires
        r.count is Some,
        r.line_number < usize::MAX,
    ensures
        spec_parse_line(da_line_chars(r)) == Some(
            RawSpec::DA(r.line_number + 1, r.count->0 as int),
        ),
{
    lemma_prefix_facts();
    let a = dec_str(r.line_number as nat + 1);
    let b = dec_str(r.count->0 as nat);
    crate::numeric::lemma_dec_str_value(r.line_number as nat + 1);
    crate::numeric::lemma_dec_str_value(r.count->0 as nat);
    lemma_digits_plain(a);
    lemma_digits_plain(b);
    let rest = a + seq![','] + b;
    let l = da_line_chars(r);
    assert(l =~= "DA"@ + seq![':'] + rest);
    assert(rest.last() == b.last());
    lemma_line_shape("DA"@, rest);
    assert(l != "end_of_record"@) by {
        assert(l[0] == 'D');
        assert("end_of_record"@[0] == 'e');
    }
    lemma_comma_head(a, b, 0);
    lemma_comma_head(a, b, 1);
    lemma_comma_whole(b);
    assert(field_num(rest, 0, usize::MAX as int) == Some(r.line_number + 1));
    assert(field_num(rest, 1, u32::MAX as int) == Some(r.count->0 as int));
}

/// A `BRDA:` line reads back as its record, block zero when absent.
#[verifier::rlimit(100)]
pub proof fn lemma_parse_brda_line(r: BranchCoverage, idx: int)
    requires
        r.taken is Some,
        r.line_number < usize::MAX,
        0 <= idx <= usize::MAX,
    ensures
        spec_parse_line(brda_line_chars(r, idx)) == Some(
            RawSpec::BRDA(
                r.line_number + 1,
                if r.block_number is Some {
                    r.block_number->0 as int
                } else {
                    0
                },
                idx,
                r.taken->0,
            ),
        ),
{
    lemma_prefix_facts();
    let block: nat = if r.block_number is Some {
        r.block_number->0 as nat
    } else {
        0
    };
    let a = dec_str(r.line_number as nat + 1);
    let b = dec_str(block);
    let c = dec_str(idx as nat);
    let t: Seq<char> = if r.taken == Some(true) {
        "1"@
    } else {
        "-"@
    };
    crate::numeric::lemma_dec_str_value(r.line_number as nat + 1);
    crate::numeric::lemma_dec_str_value(block);
    crate::numeric::lemma_dec_str_value(idx as nat);
    lemma_digits_plain(a);
    lemma_digits_plain(b);
    lemma_digits_plain(c);
    assert(t.len() == 1 && t[0] != ',' && !crate::text::is_space(t[0])) by {
        assert('1' as u32 == 49);
        assert('-' as u32 == 45);
        assert(',' as u32 == 44);
        assert(' ' as u32 == 32);
        assert('\t' as u32 == 9);
        assert('\r' as u32 == 13);
    }
    let rest = a + seq![','] + (b + seq![','] + (c + seq![','] + t));
    let l = brda_line_chars(r, idx);
    assert(l =~= "BRDA"@ + seq![':'] + rest);
    assert(rest.last() == t[0]);
    lemma_line_shape("BRDA"@, rest);
    assert(l != "end_of_record"@) by {
        assert(l[0] == 'B');
        assert("end_of_record"@[0] == 'e');
    }
    let r1 = b + seq![','] + (c + seq![','] + t);
    let r2 = c + seq![','] + t;
    lemma_comma_head(a, r1, 0);
    lemma_comma_head(a, r1, 1);
    lemma_comma_head(a, r1, 2);
    lemma_comma_head(a, r1, 3);
    lemma_comma_head(b, r2, 0);
    lemma_comma_head(b, r2, 1);
    lemma_comma_head(b, r2, 2);
    lemma_comma_head(c, t, 0);
    lemma_comma_head(c, t, 1);
    assert(no_comma(t));
    lemma_comma_whole(t);
    assert(field_num(rest, 0, usize::MAX as int) == Some(r.line_number + 1));
    assert(field_num(rest, 1, usize::MAX as int) == Some(block as int));
    assert(field_num(rest, 2, usize::MAX as int) == Some(idx));
    assert(comma_field(rest, 3) == Some(t));
    if r.taken == Some(true) {
        assert(t != "-"@) by {
            assert(t[0] == '1');
            assert("-"@[0] == '-');
            assert('1' as u32 == 49 && '-' as u32 == 45);
        }
    }
}

/// A `TN:` line reads back as the test name.
pub proof fn lemma_parse_tn_line(name: Seq<char>)
    requires
        plain_text(name),
    ensures
        spec_parse_line("TN:"@ + name) == Some(RawSpec::TN(name)),
{
    lemma_prefix_facts();
    let l = "TN:"@ + name;
    assert(l =~= "TN"@ + seq![':'] + name);
    if name.len() > 0 {
        assert(!crate::text::is_space(name.last()));
    }
    assert(!crate::text::is_space('N')) by {
        assert('N' as u32 == 78);
        assert(' ' as u32 == 32);
        assert('\t' as u32 == 9);
        assert('\r' as u32 == 13);
    }
    lemma_line_shape("TN"@, name);
    assert(l != "end_of_record"@) by {
        assert(l[0] == 'T');
        assert("end_of_record"@[0] == 'e');
    }
    lemma_comma_whole(name);
}

/// An `SF:` line reads back as the file name.
pub proof fn lemma_parse_sf_line(rel: Seq<char>)
    requires
        plain_text(rel),
    ensures
        spec_parse_line("SF:"@ + rel) == Some(RawSpec::SF(rel)),
{
    lemma_prefix_facts();
    let l = "SF:"@ + rel;
    assert(l =~= "SF"@ + seq![':'] + rel);
    if rel.len() > 0 {
        assert(!crate::text::is_space(rel.last()));
    }
    assert(!crate::text::is_space('F')) by {
        assert('F' as u32 == 70);
        assert(' ' as u32 == 32);
        assert('\t' as u32 == 9);
        assert('\r' as u32 == 13);
    }
    lemma_line_shape("SF"@, rel);
    assert(l != "end_of_record"@) by {
        assert(l[0] == 'S');
        assert("end_of_record"@[0] == 'e');
    }
    lemma_comma_whole(rel);
}

/// The four total lines (`BRF`, `BRH`, `LF`, `LH`) leave the reader's
/// state alone, whatever their values.
pub proof fn lemma_totals_neutral(prefix: Seq<char>, v: nat, st: LcovReadState, root: Seq<char>)
    requires
        prefix == "BRF"@ || prefix == "BRH"@ || prefix == "LF"@ || prefix == "LH"@,
    ensures
        lcov_step(st, prefix + seq![':'] + dec_str(v), root) == st,
{
    lemma_prefix_facts();
    let a = dec_str(v);
    crate::numeric::lemma_dec_str_value(v);
    lemma_digits_plain(a);
    let l = prefix + seq![':'] + a;
    assert(l.last() == a.last());
    lemma_line_shape(prefix, a);
    assert(l != "end_of_record"@) by {
        reveal_strlit("BRF");
        reveal_strlit("BRH");
        reveal_strlit("LF");
        reveal_strlit("LH");
        assert("end_of_record"@.len() == 13);
        assert(l.len() == prefix.len() + 1 + a.len());
        if l.len() == 13 {
            assert(l[prefix.len() as int] == ':');
            assert(':' as u32 == 58);
            reveal_strlit("end_of_record");
            assert("end_of_record"@[2] == 'd' && "end_of_record"@[3] == '_');
            assert('d' as u32 == 100 && '_' as u32 == 95);
        }
    }
    lemma_comma_whole(a);
    match spec_parse_line(l) {
        None => {},
        Some(raw) => {
            assert(raw is BRF || raw is BRH || raw is LF || raw is LH);
        },
    }
}

/// The closing line reads back as the end of a record.
pub proof fn lemma_parse_end_line()
    ensures
        spec_parse_line("end_of_record"@) == Some(RawSpec::EndOfRecord),
{
    reveal_strlit("end_of_record");
    let l = "end_of_record"@;
    assert(l.len() == 13);
    assert(!crate::text::is_space(l.last())) by {
        assert(l[12] == 'd');
        assert('d' as u32 == 100);
        assert(' ' as u32 == 32);
        assert('\t' as u32 == 9);
        assert('\r' as u32 == 13);
    }
    lemma_untrimmed(l);
}

/// The reader's state after `j` lines, starting from an arbitrary state.
pub open spec fn lcov_fold(
    st: LcovReadState,
    lines: Seq<Seq<char>>,
    j: int,
    root: Seq<char>,
) -> LcovReadState
    decreases j,
{
    if j <= 0 {
        st
    } else {
        lcov_step(lcov_fold(st, lines, j - 1, root), lines[j - 1], root)
    }
}

proof fn lemma_read_state_is_fold(lines: Seq<Seq<char>>, i: int, root: Seq<char>)
    ensures
        lcov_read_state(lines, i, root) == lcov_fold(lcov_initial_state(), lines, i, root),
    decreases i,
{
    if i > 0 {
        lemma_read_state_is_fold(lines, i - 1, root);
    }
}

proof fn lemma_fold_prefix(
    st: LcovReadState,
    a: Seq<Seq<char>>,
    b: Seq<Seq<char>>,
    i: int,
    root: Seq<char>,
)
    requires
        0 <= i <= a.len(),
    ensures
        lcov_fold(st, a + b, i, root) == lcov_fold(st, a, i, root),
    decreases i,
{
    if i > 0 {
        lemma_fold_prefix(st, a, b, i - 1, root);
        assert((a + b)[i - 1] == a[i - 1]);
    }
}

proof fn lemma_fold_append(
    st: LcovReadState,
    a: Seq<Seq<char>>,
    b: Seq<Seq<char>>,
    j: int,
    root: Seq<char>,
)
    requires
        0 <= j <= b.len(),
    ensures
        lcov_fold(st, a + b, a.len() + j, root) == lcov_fold(
            lcov_fold(st, a, a.len() as int, root),
            b,
            j,
            root,
        ),
    decreases j,
{
    if j == 0 {
        lemma_fold_prefix(st, a, b, a.len() as int, root);
    } else {
        lemma_fold_append(st, a, b, j - 1, root);
        assert((a + b)[a.len() + j - 1] == b[j - 1]);
    }
}

/// A file whose written record reads back exactly: its path survives the
/// root round trip, its text fields are plain, and every record still
/// counts and carries explicit values.
pub open spec fn lcov_file_writable(root: Seq<char>, f: FileCoverage) -> bool {
    &&& plain_text(strip_root(root, f.path@))
    &&& join_path(root, strip_root(root, f.path@)) == f.path@
    &&& forall|k: int|
        0 <= k < f.line_coverages@.len() ==> (#[trigger] f.line_coverages@[k]).count is Some && f.line_coverages@[k].line_number
            < usize::MAX
    &&& forall|k: int|
        0 <= k < f.branch_coverages@.len() ==> (#[trigger] f.branch_coverages@[k]).taken is Some
            && f.branch_coverages@[k].block_number is Some && f.branch_coverages@[k].line_number
            < usize::MAX
    &&& f.branch_coverages@.len() <= usize::MAX
}

proof fn lemma_fold_brda_lines(
    st: LcovReadState,
    bs: Seq<BranchCoverage>,
    k: int,
    root: Seq<char>,
)
    requires
        0 <= k <= bs.len(),
        bs.len() <= usize::MAX,
        forall|t: int|
            0 <= t < bs.len() ==> (#[trigger] bs[t]).taken is Some && bs[t].block_number is Some
                && bs[t].line_number < usize::MAX,
    ensures
        lcov_fold(st, brda_lines_chars(bs), k, root) == (LcovReadState {
            cur_branches: st.cur_branches + bs.take(k),
            ..st
        }),
    decreases k,
{
    if k == 0 {
        assert(st.cur_branches + bs.take(0) =~= st.cur_branches);
        assert(lcov_fold(st, brda_lines_chars(bs), 0, root) =~= LcovReadState {
            cur_branches: st.cur_branches + bs.take(0),
            ..st
        });
    } else {
        lemma_fold_brda_lines(st, bs, k - 1, root);
        let b = bs[k - 1];
        let idx = brda_index(bs, k - 1);
        lemma_brda_index_le(bs, k - 1);
        lemma_parse_brda_line(b, idx);
        assert(brda_lines_chars(bs)[k - 1] == brda_line_chars(b, idx));
        let prev = LcovReadState { cur_branches: st.cur_branches + bs.take(k - 1), ..st };
        let rec = BranchCoverage {
            line_number: b.line_number,
            block_number: Some(b.block_number->0),
            taken: Some(b.taken->0),
        };
        assert(rec == b);
        assert(prev.cur_branches.push(b) =~= st.cur_branches + bs.take(k));
    }
}

proof fn lemma_fold_da_lines(st: LcovReadState, ls: Seq<LineCoverage>, k: int, root: Seq<char>)
    requires
        0 <= k <= ls.len(),
        forall|t: int|
            0 <= t < ls.len() ==> (#[trigger] ls[t]).count is Some && ls[t].line_number
                < usize::MAX,
    ensures
        lcov_fold(st, da_lines_chars(ls), k, root) == (LcovReadState {
            cur_lines: st.cur_lines + ls.take(k),
            ..st
        }),
    decreases k,
{
    if k == 0 {
        assert(st.cur_lines + ls.take(0) =~= st.cur_lines);
        assert(lcov_fold(st, da_lines_chars(ls), 0, root) =~= LcovReadState {
            cur_lines: st.cur_lines + ls.take(0),
            ..st
        });
    } else {
        lemma_fold_da_lines(st, ls, k - 1, root);
        let r = ls[k - 1];
        lemma_parse_da_line(r);
        assert(da_lines_chars(ls)[k - 1] == da_line_chars(r));
        let prev = LcovReadState { cur_lines: st.cur_lines + ls.take(k - 1), ..st };
        let rec = LineCoverage { line_number: r.line_number, count: Some(r.count->0) };
        assert(rec == r);
        assert(prev.cur_lines.push(r) =~= st.cur_lines + ls.take(k));
    }
}

/// One `SF:` line swaps in the new file name.
proof fn lemma_step_sf(st: LcovReadState, rel: Seq<char>, root: Seq<char>)
    requires
        plain_text(rel),
    ensures
        lcov_step(st, "SF:"@ + rel, root) == (LcovReadState { filename: rel, ..st }),
{
    lemma_parse_sf_line(rel);
}

/// The closing line emits the accumulated file and clears the buffers.
proof fn lemma_step_end(st: LcovReadState, root: Seq<char>)
    ensures
        lcov_step(st, "end_of_record"@, root) == (LcovReadState {
            cur_lines: Seq::empty(),
            cur_branches: Seq::empty(),
            files: st.files.push(
                LcovFileSpec {
                    path: join_path(root, st.filename),
                    lines: st.cur_lines,
                    branches: st.cur_branches,
                },
            ),
            ..st
        }),
{
    lemma_parse_end_line();
}

/// The head of a file record: the `SF:` line, the branch lines, and the
/// two branch totals.
pub open spec fn lcov_file_head_chars(root: Seq<char>, f: FileCoverage) -> Seq<Seq<char>> {
    seq!["SF:"@ + strip_root(root, f.path@)] + brda_lines_chars(
        f.branch_coverages@.filter(branch_counted_pred()),
    ) + seq![
        "BRF:"@ + dec_str(crate::coverage::spec_branch_total_of(f.branch_coverages@)),
        "BRH:"@ + dec_str(crate::coverage::spec_branch_executed_of(f.branch_coverages@)),
    ]
}

/// The tail of a file record: the line records, the two line totals, and
/// the closing line.
pub open spec fn lcov_file_tail_chars(f: FileCoverage) -> Seq<Seq<char>> {
    da_lines_chars(f.line_coverages@.filter(line_counted_pred())) + seq![
        "LF:"@ + dec_str(crate::coverage::spec_line_total_of(f.line_coverages@)),
        "LH:"@ + dec_str(crate::coverage::spec_line_executed_of(f.line_coverages@)),
        "end_of_record"@,
    ]
}

proof fn lemma_file_chars_split(root: Seq<char>, f: FileCoverage)
    ensures
        lcov_file_chars(root, f) == lcov_file_head_chars(root, f) + lcov_file_tail_chars(f),
{
    assert(lcov_file_chars(root, f) =~= lcov_file_head_chars(root, f) + lcov_file_tail_chars(f));
}

/// Reading a record's head sets the file name and accumulates the
/// branches.
#[verifier::rlimit(100)]
proof fn lemma_read_file_head(st: LcovReadState, root: Seq<char>, f: FileCoverage)
    requires
        st.cur_branches.len() == 0,
        lcov_file_writable(root, f),
    ensures
        ({
            let head = lcov_file_head_chars(root, f);
            lcov_fold(st, head, head.len() as int, root) == (LcovReadState {
                filename: strip_root(root, f.path@),
                cur_branches: f.branch_coverages@,
                ..st
            })
        }),
{
    lemma_prefix_facts();
    let rel = strip_root(root, f.path@);
    let bs = f.branch_coverages@.filter(branch_counted_pred());
    crate::sequences::lemma_filter_all_id(f.branch_coverages@, branch_counted_pred());
    assert(bs == f.branch_coverages@);
    let seg1 = seq!["SF:"@ + rel];
    let seg2 = brda_lines_chars(bs);
    let seg3 = seq![
        "BRF:"@ + dec_str(crate::coverage::spec_branch_total_of(f.branch_coverages@)),
        "BRH:"@ + dec_str(crate::coverage::spec_branch_executed_of(f.branch_coverages@)),
    ];
    let head = lcov_file_head_chars(root, f);
    assert(head == seg1 + seg2 + seg3);
    lemma_step_sf(st, rel, root);
    assert(seg1[0] == "SF:"@ + rel);
    let st1 = lcov_fold(st, seg1, 1, root);
    assert(lcov_fold(st, seg1, 0, root) == st);
    assert(st1 == LcovReadState { filename: rel, ..st });
    lemma_fold_append(st, seg1, seg2, seg2.len() as int, root);
    lemma_fold_brda_lines(st1, bs, bs.len() as int, root);
    let st2 = LcovReadState { cur_branches: bs, ..st1 };
    assert(lcov_fold(st, seg1 + seg2, (seg1 + seg2).len() as int, root) == st2) by {
        assert(st1.cur_branches + bs.take(bs.len() as int) =~= bs);
    }
    lemma_fold_append(st, seg1 + seg2, seg3, 2, root);
    assert(("BRF:"@ + dec_str(crate::coverage::spec_branch_total_of(f.branch_coverages@))) =~= (
    "BRF"@ + seq![':'] + dec_str(crate::coverage::spec_branch_total_of(f.branch_coverages@))));
    assert(("BRH:"@ + dec_str(crate::coverage::spec_branch_executed_of(f.branch_coverages@))) =~= (
    "BRH"@ + seq![':'] + dec_str(crate::coverage::spec_branch_executed_of(f.branch_coverages@))));
    lemma_totals_neutral(
        "BRF"@,
        crate::coverage::spec_branch_total_of(f.branch_coverages@),
        st2,
        root,
    );
    lemma_totals_neutral(
        "BRH"@,
        crate::coverage::spec_branch_executed_of(f.branch_coverages@),
        lcov_step(st2, seg3[0], root),
        root,
    );
    assert(head =~= (seg1 + seg2) + seg3);
    assert(lcov_fold(st, head, head.len() as int, root) == lcov_fold(st2, seg3, 2, root)) by {
        assert(lcov_fold(st, (seg1 + seg2) + seg3, (seg1 + seg2).len() as int + 2, root)
            == lcov_fold(st2, seg3, 2, root));
    }
    assert(lcov_fold(st2, seg3, 0, root) == st2);
    assert(lcov_fold(st2, seg3, 1, root) == lcov_step(st2, seg3[0], root));
    assert(lcov_fold(st2, seg3, 2, root) == lcov_step(
        lcov_step(st2, seg3[0], root),
        seg3[1],
        root,
    ));
}

/// Reading a record's tail accumulates the lines and emits the file.
#[verifier::rlimit(100)]
proof fn lemma_read_file_tail(st: LcovReadState, root: Seq<char>, f: FileCoverage)
    requires
        st.cur_lines.len() == 0,
        lcov_file_writable(root, f),
    ensures
        ({
            let tail = lcov_file_tail_chars(f);
            lcov_fold(st, tail, tail.len() as int, root) == (LcovReadState {
                cur_lines: Seq::empty(),
                cur_branches: Seq::empty(),
                files: st.files.push(
                    LcovFileSpec {
                        path: join_path(root, st.filename),
                        lines: f.line_coverages@,
                        branches: st.cur_branches,
                    },
                ),
                ..st
            })
        }),
{
    lemma_prefix_facts();
    let ls = f.line_coverages@.filter(line_counted_pred());
    crate::sequences::lemma_filter_all_id(f.line_coverages@, line_counted_pred());
    assert(ls == f.line_coverages@);
    let seg4 = da_lines_chars(ls);
    let seg5 = seq![
        "LF:"@ + dec_str(crate::coverage::spec_line_total_of(f.line_coverages@)),
        "LH:"@ + dec_str(crate::coverage::spec_line_executed_of(f.line_coverages@)),
        "end_of_record"@,
    ];
    let tail = lcov_file_tail_chars(f);
    assert(tail == seg4 + seg5);
    lemma_fold_da_lines(st, ls, ls.len() as int, root);
    let st3 = LcovReadState { cur_lines: ls, ..st };
    assert(lcov_fold(st, seg4, seg4.len() as int, root) == st3) by {
        assert(st.cur_lines + ls.take(ls.len() as int) =~= ls);
    }
    lemma_fold_append(st, seg4, seg5, 3, root);
    assert(("LF:"@ + dec_str(crate::coverage::spec_line_total_of(f.line_coverages@))) =~= ("LF"@
        + seq![':'] + dec_str(crate::coverage::spec_line_total_of(f.line_coverages@))));
    assert(("LH:"@ + dec_str(crate::coverage::spec_line_executed_of(f.line_coverages@))) =~= ("LH"@
        + seq![':'] + dec_str(crate::coverage::spec_line_executed_of(f.line_coverages@))));
    lemma_totals_neutral("LF"@, crate::coverage::spec_line_total_of(f.line_coverages@), st3, root);
    lemma_totals_neutral(
        "LH"@,
        crate::coverage::spec_line_executed_of(f.line_coverages@),
        lcov_step(st3, seg5[0], root),
        root,
    );
    let st35 = lcov_step(lcov_step(st3, seg5[0], root), seg5[1], root);
    lemma_step_end(st35, root);
    assert(lcov_fold(st3, seg5, 0, root) == st3);
    assert(lcov_fold(st3, seg5, 1, root) == lcov_step(st3, seg5[0], root));
    assert(lcov_fold(st3, seg5, 2, root) == st35);
    assert(lcov_fold(st3, seg5, 3, root) == lcov_step(st35, seg5[2], root));
    assert(lcov_fold(st, tail, tail.len() as int, root) == lcov_step(st35, seg5[2], root));
}

/// Reading one written file record appends that file and leaves the rest
/// of the state alone.
#[verifier::rlimit(100)]
proof fn lemma_read_one_file(st: LcovReadState, root: Seq<char>, f: FileCoverage)
    requires
        st.cur_lines.len() == 0,
        st.cur_branches.len() == 0,
        lcov_file_writable(root, f),
    ensures
        ({
            let block = lcov_file_chars(root, f);
            let out = lcov_fold(st, block, block.len() as int, root);
            &&& out.name == st.name
            &&& out.cur_lines.len() == 0
            &&& out.cur_branches.len() == 0
            &&& out.files == st.files.push(
                LcovFileSpec {
                    path: f.path@,
                    lines: f.line_coverages@,
                    branches: f.branch_coverages@,
                },
            )
        }),
{
    lemma_file_chars_split(root, f);
    let head = lcov_file_head_chars(root, f);
    let tail = lcov_file_tail_chars(f);
    lemma_read_file_head(st, root, f);
    let st2 = LcovReadState {
        filename: strip_root(root, f.path@),
        cur_branches: f.branch_coverages@,
        ..st
    };
    lemma_fold_append(st, head, tail, tail.len() as int, root);
    lemma_read_file_tail(st2, root, f);
    assert(join_path(root, st2.filename) == f.path@);
}

/// Reading the written file blocks appends exactly those files.
proof fn lemma_read_files(st: LcovReadState, root: Seq<char>, files: Seq<FileCoverage>)
    requires
        st.cur_lines.len() == 0,
        st.cur_branches.len() == 0,
        forall|i: int| 0 <= i < files.len() ==> lcov_file_writable(root, #[trigger] files[i]),
    ensures
        ({
            let block = lcov_files_chars(root, files);
            let out = lcov_fold(st, block, block.len() as int, root);
            &&& out.name == st.name
            &&& out.cur_lines.len() == 0
            &&& out.cur_branches.len() == 0
            &&& out.files.len() == st.files.len() + files.len()
            &&& forall|i: int| 0 <= i < st.files.len() ==> #[trigger] out.files[i] == st.files[i]
            &&& forall|i: int|
                0 <= i < files.len() ==> #[trigger] out.files[st.files.len() + i]
                    == (LcovFileSpec {
                    path: files[i].path@,
                    lines: files[i].line_coverages@,
                    branches: files[i].branch_coverages@,
                })
        }),
    decreases files.len(),
{
    if files.len() == 0 {
    } else {
        let head = files.drop_last();
        let last = files.last();
        lemma_read_files(st, root, head);
        let a = lcov_files_chars(root, head);
        let b = lcov_file_chars(root, last);
        let mid = lcov_fold(st, a, a.len() as int, root);
        lemma_fold_append(st, a, b, b.len() as int, root);
        lemma_read_one_file(mid, root, last);
        assert(lcov_files_chars(root, files) == a + b);
    }
}

/// ROUND TRIP OF THE TRACE ADAPTER.  For a package whose name and relative
/// paths are plain text, whose paths survive the root round trip, and
/// whose records all carry explicit values, reading the written trace
/// rebuilds every field of the package.
pub proof fn lemma_lcov_round_trip(root: Seq<char>, p: PackageCoverage)
    requires
        plain_text(p.name@),
        forall|i: int|
            0 <= i < p.file_coverages@.len() ==> lcov_file_writable(
                root,
                #[trigger] p.file_coverages@[i],
            ),
    ensures
        ({
            let all = lcov_package_chars(root, p);
            let st = lcov_read_state(all, all.len() as int, root);
            &&& st.name == p.name@
            &&& st.files.len() == p.file_coverages@.len()
            &&& forall|i: int|
                0 <= i < p.file_coverages@.len() ==> #[trigger] st.files[i] == (LcovFileSpec {
                    path: p.file_coverages@[i].path@,
                    lines: p.file_coverages@[i].line_coverages@,
                    branches: p.file_coverages@[i].branch_coverages@,
                })
        }),
{
    lemma_prefix_facts();
    let all = lcov_package_chars(root, p);
    let a = seq!["TN:"@ + p.name@];
    let b = lcov_files_chars(root, p.file_coverages@);
    assert(all == a + b);
    lemma_read_state_is_fold(all, all.len() as int, root);
    lemma_parse_tn_line(p.name@);
    let st0 = lcov_initial_state();
    let st1 = lcov_fold(st0, a, 1, root);
    assert(lcov_fold(st0, a, 0, root) == st0);
    assert(st1 == LcovReadState { name: p.name@, ..st0 });
    lemma_fold_append(st0, a, b, b.len() as int, root);
    lemma_read_files(st1, root, p.file_coverages@);
    let st = lcov_read_state(all, all.len() as int, root);
    assert(st == lcov_fold(st1, b, b.len() as int, root));
    assert forall|i: int| 0 <= i < p.file_coverages@.len() implies #[trigger] st.files[i]
        == (LcovFileSpec {
        path: p.file_coverages@[i].path@,
        lines: p.file_coverages@[i].line_coverages@,
        branches: p.file_coverages@[i].branch_coverages@,
    }) by {
        assert(st.files[st1.files.len() + i] == (LcovFileSpec {
            path: p.file_coverages@[i].path@,
            lines: p.file_coverages@[i].line_coverages@,
            branches: p.file_coverages@[i].branch_coverages@,
        }));
    }
}

} // verus!
