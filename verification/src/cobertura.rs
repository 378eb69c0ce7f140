//! The Cobertura XML adapter.  The XML tokenizing itself is the caller's
//! collaborator: reading hands this module a stream of plain class and
//! line events, and writing produces the XML text line by line.  Line
//! numbers are 1-indexed on disk and 0-indexed in memory.

use vstd::prelude::*;

use crate::common::views_of;
use crate::coverage::line_counted_pred;
use crate::coverage::line_hit_pred;
use crate::coverage::spec_line_executed_of;
use crate::coverage::spec_line_total_of;
use crate::coverage::FileCoverage;
use crate::coverage::LineCoverage;
use crate::coverage::PackageCoverage;
use crate::coverage::TotalCoverage;
use crate::error::Error;
use crate::lcov::strip_root;
use crate::numeric::all_digits;
use crate::numeric::dec_str;
use crate::numeric::dec_value;
use crate::numeric::parse_u32;
use crate::numeric::parse_usize;
use crate::numeric::to_dec_string;

verus! {

/// One plain event of a Cobertura report, as the surrounding reader hands
/// them over: a class (file) opens under an already resolved path, line
/// tags carry their attribute texts, and the class closes.
#[derive(Debug, Clone, PartialEq)]
pub enum CoberturaEvent {
    /// a `<class>` tag with its resolved file path
    ClassStart(String),
    /// a `<line>` tag's `number` and `hits` attribute texts; a missing
    /// attribute arrives as an empty string and drops the record
    LineTag(String, String),
    /// the `</class>` tag
    ClassEnd,
}

/// The byte text of a `<source>` node names a usable directory: it is not
/// empty and holds no control character.
pub open spec fn spec_path_is_valid(bytes: Seq<u8>) -> bool {
    bytes.len() > 0 && forall|i: int| 0 <= i < bytes.len() ==> #[trigger] bytes[i] >= 0x20
}

/// Executable twin of [`spec_path_is_valid`].
#[verifier::loop_isolation(false)]
pub fn path_is_valid(bytes: &Vec<u8>) -> (r: bool)
    ensures
        r == spec_path_is_valid(bytes@),
{
    if bytes.len() == 0 {
        return false;
    }
    let mut i: usize = 0;
    while i < bytes.len()
        invariant
            i <= bytes@.len(),
            forall|t: int| 0 <= t < i ==> #[trigger] bytes@[t] >= 0x20,
        decreases bytes@.len() - i,
    {
        if bytes[i] < 0x20 {
            return false;
        }
        i = i + 1;
    }
    true
}

/// Reads and writes Cobertura XML reports relative to a root directory.
pub struct CoberturaParser {
    /// the directory paths are made relative to on write
    pub root: String,
}

/// The values a `<line number=... hits=.../>` tag carries: both
/// attributes must be digit strings in range, else the tag is malformed.
pub open spec fn spec_line_fields(number: Seq<char>, hits: Seq<char>) -> Option<(int, int)> {
    if number.len() > 0 && all_digits(number) && dec_value(number) <= usize::MAX && hits.len() > 0
        && all_digits(hits) && dec_value(hits) <= u32::MAX {
        Some((dec_value(number) as int, dec_value(hits) as int))
    } else {
        None
    }
}

/// The event is a line tag whose attribute texts do not parse.
pub open spec fn cobertura_event_malformed(e: CoberturaEvent) -> bool {
    match e {
        CoberturaEvent::LineTag(number, hits) => spec_line_fields(number@, hits@) is None,
        _ => false,
    }
}

/// The failure shape of an event read: the event at `k` is the first
/// malformed line tag, and the error carries its attribute texts.
pub open spec fn cobertura_read_failed_at(k: int, events: Seq<CoberturaEvent>, e: Error) -> bool {
    &&& 0 <= k < events.len()
    &&& cobertura_event_malformed(events[k])
    &&& forall|j: int| 0 <= j < k ==> !cobertura_event_malformed(#[trigger] events[j])
    &&& events[k] matches CoberturaEvent::LineTag(number, hits) && (e matches Error::FormatError(d)
        && d@ == number@ + ","@ + hits@)
}

/// Ghost state of the event reader: the open class and the finished files.
pub struct CoberturaReadState {
    pub open_path: Option<Seq<char>>,
    pub cur_lines: Seq<LineCoverage>,
    pub files: Seq<(Seq<char>, Seq<LineCoverage>)>,
}

/// How one event changes the reader's state.
pub open spec fn cobertura_step(st: CoberturaReadState, e: CoberturaEvent) -> CoberturaReadState {
    match e {
        CoberturaEvent::ClassStart(p) => CoberturaReadState {
            open_path: Some(p@),
            cur_lines: Seq::empty(),
            ..st
        },
        CoberturaEvent::LineTag(number, hits) => if st.open_path is Some {
            match spec_line_fields(number@, hits@) {
                Some((n, h)) => if n > 0 {
                    CoberturaReadState {
                        cur_lines: st.cur_lines.push(
                            LineCoverage { line_number: (n - 1) as usize, count: Some(h as u32) },
                        ),
                        ..st
                    }
                } else {
                    st
                },
                None => st,
            }
        } else {
            st
        },
        CoberturaEvent::ClassEnd => match st.open_path {
            Some(p) => CoberturaReadState {
                open_path: None,
                cur_lines: Seq::empty(),
                files: st.files.push((p, st.cur_lines)),
            },
            None => st,
        },
    }
}

/// The reader's state after the first `i` events.
pub open spec fn cobertura_read_state(events: Seq<CoberturaEvent>, i: int) -> CoberturaReadState
    decreases i,
{
    if i <= 0 {
        CoberturaReadState { open_path: None, cur_lines: Seq::empty(), files: Seq::empty() }
    } else {
        cobertura_step(cobertura_read_state(events, i - 1), events[i - 1])
    }
}

impl CoberturaParser {
    /// A parser whose written paths are relative to `root`.
    pub fn new(root: &str) -> (r: CoberturaParser)
        ensures
            r.root@ == root@,
    {
        CoberturaParser { root: root.to_owned() }
    }

    /// Builds a package from a report's class and line events.  The read
    /// fails with a `FormatError` on the first line tag whose attributes
    /// do not parse; a line number of zero drops the record.  Branch
    /// records do not occur in this format; the package name is empty.
    #[verifier::loop_isolation(false)]
    pub fn read_events(&self, events: &Vec<CoberturaEvent>) -> (r: Result<PackageCoverage, Error>)
        ensures
            r is Ok <==> (forall|i: int|
                0 <= i < events@.len() ==> !cobertura_event_malformed(#[trigger] events@[i])),
            r matches Ok(p) ==> ({
                let st = cobertura_read_state(events@, events@.len() as int);
                &&& p.name@ == Seq::<char>::empty()
                &&& p.file_coverages@.len() == st.files.len()
                &&& forall|i: int|
                    0 <= i < st.files.len() ==> {
                        &&& (#[trigger] p.file_coverages@[i]).path@ == st.files[i].0
                        &&& p.file_coverages@[i].line_coverages@ == st.files[i].1
                        &&& p.file_coverages@[i].branch_coverages@.len() == 0
                    }
            }),
            r matches Err(e) ==> exists|k: int|
                #[trigger] cobertura_read_failed_at(k, events@, e),
    {
        let mut open_path: Option<String> = None;
        let mut cur_lines: Vec<LineCoverage> = Vec::new();
        let mut files: Vec<FileCoverage> = Vec::new();
        let mut i: usize = 0;
        let n = events.len();
        while i < n
            invariant
                i <= n,
                forall|j: int| 0 <= j < i ==> !cobertura_event_malformed(#[trigger] events@[j]),
                ({
                    let st = cobertura_read_state(events@, i as int);
                    &&& match open_path {
                        Some(p) => st.open_path == Some(p@),
                        None => st.open_path is None,
                    }
                    &&& cur_lines@ == st.cur_lines
                    &&& files@.len() == st.files.len()
                    &&& forall|j: int|
                        0 <= j < st.files.len() ==> {
                            &&& (#[trigger] files@[j]).path@ == st.files[j].0
                            &&& files@[j].line_coverages@ == st.files[j].1
                            &&& files@[j].branch_coverages@.len() == 0
                        }
                }),
            decreases n - i,
        {
            match &events[i] {
                CoberturaEvent::ClassStart(p) => {
                    open_path = Some(p.clone());
                    cur_lines = Vec::new();
                },
                CoberturaEvent::LineTag(number, hits) => {
                    match (parse_usize(number.as_str()), parse_u32(hits.as_str())) {
                        (Some(ln), Some(h)) => {
                            if open_path.is_some() && ln > 0 {
                                cur_lines.push(
                                    LineCoverage { line_number: ln - 1, count: Some(h) },
                                );
                            }
                        },
                        _ => {
                            let mut d = number.clone();
                            proof {
                                reveal_strlit(",");
                                assert(","@ =~= seq![',']);
                            }
                            d.append(",");
                            d.append(hits.as_str());
                            let e = Error::FormatError(d);
                            proof {
                                assert(e matches Error::FormatError(dd) && dd@ =~= number@ + ","@
                                    + hits@);
                                assert(cobertura_read_failed_at(i as int, events@, e));
                            }
                            return Err(e);
                        },
                    }
                },
                CoberturaEvent::ClassEnd => {
                    match open_path {
                        Some(p) => {
                            let fc = FileCoverage::new(p.as_str(), cur_lines, Vec::new());
                            files.push(fc);
                            cur_lines = Vec::new();
                            open_path = None;
                        },
                        None => {},
                    }
                },
            }
            i = i + 1;
        }
        let r = PackageCoverage::new(files);
        Ok(r)
    }
}

/// A ratio with three decimals, `NaN` when the total is zero.
pub open spec fn rate_chars(e: nat, t: nat) -> Seq<char> {
    if t == 0 {
        "NaN"@
    } else {
        let m = e * 1000 / t;
        let whole = m / 1000;
        let frac = m % 1000;
        dec_str(whole) + "."@ + (if frac < 10 {
            "00"@
        } else if frac < 100 {
            "0"@
        } else {
            Seq::empty()
        }) + dec_str(frac)
    }
}

/// Formats a ratio with three decimals.
fn rate_string(e: usize, t: usize) -> (r: String)
    ensures
        r@ == rate_chars(e as nat, t as nat),
{
    proof {
        reveal_strlit("NaN");
        reveal_strlit(".");
        reveal_strlit("0");
        reveal_strlit("00");
    }
    if t == 0 {
        return "NaN".to_owned();
    }
    let m: u128 = (e as u128) * 1000 / (t as u128);
    let whole = m / 1000;
    let frac = m % 1000;
    let mut s = to_dec_string(whole);
    s.append(".");
    if frac < 10 {
        s.append("00");
    } else if frac < 100 {
        s.append("0");
    }
    let f = to_dec_string(frac);
    s.append(f.as_str());
    proof {
        assert(s@ =~= rate_chars(e as nat, t as nat));
    }
    s
}

/// The basename of a path: everything after the last separator.
pub open spec fn basename_from(p: Seq<char>, i: int) -> Seq<char>
    decreases p.len() - i,
    via basename_from_decreases
{
    if !(0 <= i <= p.len()) {
        p
    } else {
        let j = crate::text::find_from(p, '/', i);
        if j == p.len() {
            p.subrange(i, p.len() as int)
        } else {
            basename_from(p, j + 1)
        }
    }
}

#[via_fn]
proof fn basename_from_decreases(p: Seq<char>, i: int) {
    if 0 <= i <= p.len() {
        crate::text::lemma_find_from(p, '/', i);
    }
}

/// The basename of a path.
pub open spec fn basename(p: Seq<char>) -> Seq<char> {
    basename_from(p, 0)
}

/// Finds the basename of a path.
#[verifier::loop_isolation(false)]
fn basename_of(p: &str) -> (r: &str)
    ensures
        r@ == basename(p@),
{
    let n = p.unicode_len();
    let mut i: usize = 0;
    while i < n
        invariant
            i <= n,
            basename(p@) == basename_from(p@, i as int),
        decreases n - i,
    {
        proof {
            crate::text::lemma_find_from(p@, '/', i as int);
        }
        let j = crate::text::find_char_from(p, '/', i);
        if j == n {
            return p.substring_char(i, n);
        }
        i = j + 1;
    }
    proof {
        assert(basename_from(p@, n as int) =~= p@.subrange(n as int, n as int));
    }
    p.substring_char(n, n)
}

/// The `<line .../>` tag of a record.
pub open spec fn line_tag_chars(r: LineCoverage) -> Seq<char> {
    "<line number=\""@ + dec_str(r.line_number as nat + 1) + "\" hits=\""@ + dec_str(
        if r.count is Some {
            r.count->0 as nat
        } else {
            0
        },
    ) + "\"/>"@
}

/// The lines written for one file: its `<class>` tag, the line tags of the
/// records that still count, and the closing tags.
pub open spec fn cobertura_file_chars(root: Seq<char>, f: FileCoverage) -> Seq<Seq<char>> {
    let lines = f.line_coverages@.filter(line_counted_pred());
    seq![
        "<class name=\""@ + basename(f.path@) + "\" filename=\""@ + strip_root(root, f.path@)
            + "\" line-rate=\""@ + rate_chars(
            spec_line_executed_of(f.line_coverages@),
            spec_line_total_of(f.line_coverages@),
        ) + "\">"@,
        "<lines>"@,
    ] + Seq::new(lines.len(), |k: int| line_tag_chars(lines[k])) + seq!["</lines>"@, "</class>"@]
}

/// The file blocks of a package, concatenated.
pub open spec fn cobertura_files_chars(root: Seq<char>, files: Seq<FileCoverage>) -> Seq<Seq<char>>
    decreases files.len(),
{
    if files.len() == 0 {
        Seq::empty()
    } else {
        cobertura_files_chars(root, files.drop_last()) + cobertura_file_chars(root, files.last())
    }
}

/// A total clamped to the machine word, as the totals getters report it.
pub open spec fn sat_word(n: nat) -> nat {
    if n > usize::MAX {
        usize::MAX as nat
    } else {
        n
    }
}

/// Every line of the written report.
pub open spec fn cobertura_package_chars(
    root: Seq<char>,
    p: PackageCoverage,
    timestamp: u64,
) -> Seq<Seq<char>> {
    let rate = rate_chars(
        sat_word(
            crate::coverage::sum_over_files(
                p.file_coverages@,
                crate::coverage::file_line_executed_fn(),
            ),
        ),
        sat_word(
            crate::coverage::sum_over_files(
                p.file_coverages@,
                crate::coverage::file_line_total_fn(),
            ),
        ),
    );
    seq![
        "<?xml version=\"1.0\">"@,
        "<!DOCTYPE coverage SYSTEM 'http://cobertura.sourceforge.net/xml/coverage-03.dtd'>"@,
        "<coverage line-rate=\""@ + rate + "\" version=\"1.9\" timestamp=\""@ + dec_str(
            timestamp as nat,
        ) + "\">"@,
        "<sources><source>"@ + root + "</source></sources>"@,
        "<packages>"@,
        "<package name=\""@ + p.name@ + "\" line-rate=\""@ + rate
            + "\" branch-rate=\"1.0\" complexity=\"1.0\">"@,
        "<classes>"@,
    ] + cobertura_files_chars(root, p.file_coverages@) + seq![
        "</classes>"@,
        "</package>"@,
        "</packages>"@,
        "</coverage>"@,
    ]
}

impl CoberturaParser {
    /// The `<line .../>` tag of one record that still counts.
    pub fn write_line_coverage(&self, data: &LineCoverage) -> (r: String)
        requires
            data.count is Some,
        ensures
            r@ == line_tag_chars(*data),
    {
        let mut s = String::new();
        proof {
            reveal_strlit("<line number=\"");
            reveal_strlit("\" hits=\"");
            reveal_strlit("\"/>");
        }
        s.append("<line number=\"");
        let d = to_dec_string(data.line_number as u128 + 1);
        s.append(d.as_str());
        s.append("\" hits=\"");
        let count = match data.count {
            Some(c) => c,
            None => 0,
        };
        let d = to_dec_string(count as u128);
        s.append(d.as_str());
        s.append("\"/>");
        proof {
            assert(s@ =~= line_tag_chars(*data));
        }
        s
    }

    /// The block of lines written for one file.
    #[verifier::loop_isolation(false)]
    pub fn write_file_coverage(&self, data: &FileCoverage) -> (r: Vec<String>)
        ensures
            views_of(r@) == cobertura_file_chars(self.root@, *data),
    {
        proof {
            reveal_strlit("<class name=\"");
            reveal_strlit("\" filename=\"");
            reveal_strlit("\" line-rate=\"");
            reveal_strlit("\">");
            reveal_strlit("<lines>");
            reveal_strlit("</lines>");
            reveal_strlit("</class>");
            vstd::std_specs::vec::axiom_spec_len(&data.line_coverages);
            data.line_coverages@.lemma_filter_len(line_counted_pred());
            data.line_coverages@.lemma_filter_len(line_hit_pred());
        }
        let mut out: Vec<String> = Vec::new();
        let mut s = String::new();
        s.append("<class name=\"");
        let b = basename_of(data.path.as_str());
        s.append(b);
        s.append("\" filename=\"");
        let lp = crate::lcov::LcovParser::new(self.root.as_str());
        let rel = lp.relative_of(data.path.as_str());
        s.append(rel.as_str());
        s.append("\" line-rate=\"");
        let le = data.line_executed();
        let lt = data.line_total();
        let rate = rate_string(le, lt);
        s.append(rate.as_str());
        s.append("\">");
        out.push(s);
        let mut s = String::new();
        s.append("<lines>");
        out.push(s);
        let ghost head = out@;
        proof {
            assert(head[0]@ =~= "<class name=\""@ + basename(data.path@) + "\" filename=\""@
                + strip_root(self.root@, data.path@) + "\" line-rate=\""@ + rate_chars(
                spec_line_executed_of(data.line_coverages@),
                spec_line_total_of(data.line_coverages@),
            ) + "\">"@);
            assert(head[1]@ =~= "<lines>"@);
        }
        let lines = keep_counted_lines(&data.line_coverages);
        let mut k: usize = 0;
        while k < lines.len()
            invariant
                k <= lines@.len(),
                out@.len() == 2 + k,
                forall|t: int| 0 <= t < 2 ==> out@[t] == head[t],
                forall|t: int|
                    0 <= t < k ==> (#[trigger] out@[2 + t])@ == line_tag_chars(lines@[t]),
                forall|t: int| 0 <= t < lines@.len() ==> (#[trigger] lines@[t]).count is Some,
            decreases lines@.len() - k,
        {
            let tag = self.write_line_coverage(&lines[k]);
            out.push(tag);
            k = k + 1;
        }
        let mut s = String::new();
        s.append("</lines>");
        out.push(s);
        let mut s = String::new();
        s.append("</class>");
        out.push(s);
        proof {
            let target = cobertura_file_chars(self.root@, *data);
            let ls = data.line_coverages@.filter(line_counted_pred());
            assert(lines@ == ls);
            assert(out@.len() == 4 + ls.len());
            assert(target.len() == 4 + ls.len());
            assert forall|i: int| 0 <= i < out@.len() implies views_of(out@)[i] == target[i] by {
                assert(views_of(out@)[i] == out@[i]@);
                if i < 2 {
                    assert(out@[i] == head[i]);
                } else if i < 2 + ls.len() {
                    let t = i - 2;
                    assert(out@[2 + t]@ == line_tag_chars(lines@[t]));
                } else if i == 2 + ls.len() {
                    assert(target[i] == "</lines>"@);
                } else {
                    assert(target[i] == "</class>"@);
                }
            }
            assert(views_of(out@) =~= target);
        }
        out
    }

    /// The whole report, with the caller-provided Unix timestamp.
    #[verifier::loop_isolation(false)]
    pub fn write_package_coverage(&self, data: &PackageCoverage, timestamp: u64) -> (r: Vec<
        String,
    >)
        ensures
            views_of(r@) == cobertura_package_chars(self.root@, *data, timestamp),
    {
        proof {
            reveal_strlit("<?xml version=\"1.0\">");
            reveal_strlit(
                "<!DOCTYPE coverage SYSTEM 'http://cobertura.sourceforge.net/xml/coverage-03.dtd'>",
            );
            reveal_strlit("<coverage line-rate=\"");
            reveal_strlit("\" version=\"1.9\" timestamp=\"");
            reveal_strlit("\">");
            reveal_strlit("<sources><source>");
            reveal_strlit("</source></sources>");
            reveal_strlit("<packages>");
            reveal_strlit("<package name=\"");
            reveal_strlit("\" line-rate=\"");
            reveal_strlit("\" branch-rate=\"1.0\" complexity=\"1.0\">");
            reveal_strlit("<classes>");
            reveal_strlit("</classes>");
            reveal_strlit("</package>");
            reveal_strlit("</packages>");
            reveal_strlit("</coverage>");
        }
        let le = data.line_executed();
        let lt = data.line_total();
        let rate = rate_string(le, lt);
        proof {
            assert(le == sat_word(
                crate::coverage::sum_over_files(
                    data.file_coverages@,
                    crate::coverage::file_line_executed_fn(),
                ),
            ));
            assert(lt == sat_word(
                crate::coverage::sum_over_files(
                    data.file_coverages@,
                    crate::coverage::file_line_total_fn(),
                ),
            ));
        }
        let mut out: Vec<String> = Vec::new();
        let mut s = String::new();
        s.append("<?xml version=\"1.0\">");
        out.push(s);
        let mut s = String::new();
        s.append("<!DOCTYPE coverage SYSTEM 'http://cobertura.sourceforge.net/xml/coverage-03.dtd'>");
        out.push(s);
        let mut s = String::new();
        s.append("<coverage line-rate=\"");
        s.append(rate.as_str());
        s.append("\" version=\"1.9\" timestamp=\"");
        let d = to_dec_string(timestamp as u128);
        s.append(d.as_str());
        s.append("\">");
        out.push(s);
        let mut s = String::new();
        s.append("<sources><source>");
        s.append(self.root.as_str());
        s.append("</source></sources>");
        out.push(s);
        let mut s = String::new();
        s.append("<packages>");
        out.push(s);
        let mut s = String::new();
        s.append("<package name=\"");
        s.append(data.name.as_str());
        s.append("\" line-rate=\"");
        s.append(rate.as_str());
        s.append("\" branch-rate=\"1.0\" complexity=\"1.0\">");
        out.push(s);
        let mut s = String::new();
        s.append("<classes>");
        out.push(s);
        let ghost head = views_of(out@);
        proof {
            assert(head =~= seq![
                "<?xml version=\"1.0\">"@,
                "<!DOCTYPE coverage SYSTEM 'http://cobertura.sourceforge.net/xml/coverage-03.dtd'>"@,
                "<coverage line-rate=\""@ + rate@ + "\" version=\"1.9\" timestamp=\""@
                    + dec_str(timestamp as nat) + "\">"@,
                "<sources><source>"@ + self.root@ + "</source></sources>"@,
                "<packages>"@,
                "<package name=\""@ + data.name@ + "\" line-rate=\""@ + rate@
                    + "\" branch-rate=\"1.0\" complexity=\"1.0\">"@,
                "<classes>"@,
            ]);
            assert(views_of(out@) =~= head + cobertura_files_chars(
                self.root@,
                data.file_coverages@.take(0),
            ));
        }
        let n = data.file_coverages.len();
        let mut i: usize = 0;
        while i < n
            invariant
                i <= n,
                views_of(out@) == head + cobertura_files_chars(
                    self.root@,
                    data.file_coverages@.take(i as int),
                ),
            decreases n - i,
        {
            let mut file_lines = self.write_file_coverage(&data.file_coverages[i]);
            proof {
                lemma_views_concat_cob(out@, file_lines@);
                assert(data.file_coverages@.take(i + 1).drop_last() =~= data.file_coverages@.take(
                    i as int,
                ));
                assert(data.file_coverages@.take(i + 1).last() == data.file_coverages@[i as int]);
            }
            out.append(&mut file_lines);
            i = i + 1;
        }
        let mut s = String::new();
        s.append("</classes>");
        out.push(s);
        let mut s = String::new();
        s.append("</package>");
        out.push(s);
        let mut s = String::new();
        s.append("</packages>");
        out.push(s);
        let mut s = String::new();
        s.append("</coverage>");
        out.push(s);
        proof {
            assert(data.file_coverages@.take(n as int) =~= data.file_coverages@);
            assert(views_of(out@) =~= cobertura_package_chars(self.root@, *data, timestamp));
        }
        out
    }
}

/// Views distribute over concatenation.
proof fn lemma_views_concat_cob(a: Seq<String>, b: Seq<String>)
    ensures
        views_of(a + b) == views_of(a) + views_of(b),
{
    assert(views_of(a + b) =~= views_of(a) + views_of(b));
}

/// The line records that still count.
#[verifier::loop_isolation(false)]
fn keep_counted_lines(v: &Vec<LineCoverage>) -> (r: Vec<LineCoverage>)
    ensures
        r@ == v@.filter(line_counted_pred()),
{
    let ghost pred = line_counted_pred();
    let mut out: Vec<LineCoverage> = Vec::new();
    let mut i: usize = 0;
    while i < v.len()
        invariant
            i <= v.len(),
            out@ == v@.take(i as int).filter(pred),
        decreases v.len() - i,
    {
        proof {
            assert(v@.take(i + 1) =~= v@.take(i as int).push(v@[i as int]));
            crate::sequences::lemma_filter_push(v@.take(i as int), v@[i as int], pred);
        }
        let x = v[i];
        if x.count.is_some() {
            out.push(x);
        }
        i = i + 1;
    }
    proof {
        assert(v@.take(v@.len() as int) =~= v@);
    }
    out
}

// ------------------------------------------------------------- round trip

/// The file's line records all still count and carry line numbers the
/// on-disk form can hold.
pub open spec fn cobertura_file_writable(f: FileCoverage) -> bool {
    forall|k: int|
        0 <= k < f.line_coverages@.len() ==> (#[trigger] f.line_coverages@[k]).count is Some
            && f.line_coverages@[k].line_number < usize::MAX
}

/// The event block a faithful tokenizer yields for one written file: the
/// `<class>` tag under its path, one line tag per record carrying exactly
/// the attribute texts of [`line_tag_chars`], and the closing tag.
pub open spec fn file_events_match(events: Seq<CoberturaEvent>, f: FileCoverage) -> bool {
    let ls = f.line_coverages@;
    &&& events.len() == ls.len() + 2
    &&& events[0] matches CoberturaEvent::ClassStart(p) && p@ == f.path@
    &&& forall|k: int|
        0 <= k < ls.len() ==> ((#[trigger] events[1 + k]) matches CoberturaEvent::LineTag(
            number,
            hits,
        ) && number@ == dec_str(ls[k].line_number as nat + 1) && hits@ == dec_str(
            if ls[k].count is Some {
                ls[k].count->0 as nat
            } else {
                0
            },
        ))
    &&& events[events.len() - 1] is ClassEnd
}

/// The event stream of a whole written report: the files' blocks in order
/// and nothing else.
pub open spec fn package_events_match(events: Seq<CoberturaEvent>, files: Seq<FileCoverage>) -> bool
    decreases files.len(),
{
    if files.len() == 0 {
        events.len() == 0
    } else {
        let head_len = files[0].line_coverages@.len() + 2;
        &&& events.len() >= head_len
        &&& file_events_match(events.take(head_len as int), files[0])
        &&& package_events_match(
            events.skip(head_len as int),
            files.subrange(1, files.len() as int),
        )
    }
}

/// The reader's state after `j` events, starting from an arbitrary state.
pub open spec fn cobertura_fold(
    st: CoberturaReadState,
    events: Seq<CoberturaEvent>,
    j: int,
) -> CoberturaReadState
    decreases j,
{
    if j <= 0 {
        st
    } else {
        cobertura_step(cobertura_fold(st, events, j - 1), events[j - 1])
    }
}

proof fn lemma_cob_state_is_fold(events: Seq<CoberturaEvent>, i: int)
    ensures
        cobertura_read_state(events, i) == cobertura_fold(
            CoberturaReadState { open_path: None, cur_lines: Seq::empty(), files: Seq::empty() },
            events,
            i,
        ),
    decreases i,
{
    if i > 0 {
        lemma_cob_state_is_fold(events, i - 1);
    }
}

proof fn lemma_cob_fold_prefix(
    st: CoberturaReadState,
    a: Seq<CoberturaEvent>,
    b: Seq<CoberturaEvent>,
    i: int,
)
    requires
        0 <= i <= a.len(),
    ensures
        cobertura_fold(st, a + b, i) == cobertura_fold(st, a, i),
    decreases i,
{
    if i > 0 {
        lemma_cob_fold_prefix(st, a, b, i - 1);
        assert((a + b)[i - 1] == a[i - 1]);
    }
}

proof fn lemma_cob_fold_append(
    st: CoberturaReadState,
    a: Seq<CoberturaEvent>,
    b: Seq<CoberturaEvent>,
    j: int,
)
    requires
        0 <= j <= b.len(),
    ensures
        cobertura_fold(st, a + b, a.len() + j) == cobertura_fold(
            cobertura_fold(st, a, a.len() as int),
            b,
            j,
        ),
    decreases j,
{
    if j == 0 {
        lemma_cob_fold_prefix(st, a, b, a.len() as int);
    } else {
        lemma_cob_fold_append(st, a, b, j - 1);
        assert((a + b)[a.len() + j - 1] == b[j - 1]);
    }
}

proof fn lemma_cob_read_tags(
    st: CoberturaReadState,
    events: Seq<CoberturaEvent>,
    f: FileCoverage,
    k: int,
)
    requires
        file_events_match(events, f),
        cobertura_file_writable(f),
        0 <= k <= f.line_coverages@.len(),
    ensures
        cobertura_fold(st, events, 1 + k) == (CoberturaReadState {
            open_path: Some(f.path@),
            cur_lines: f.line_coverages@.take(k),
            files: st.files,
        }),
    decreases k,
{
    let ls = f.line_coverages@;
    if k == 0 {
        assert(cobertura_fold(st, events, 0) == st);
        assert(ls.take(0) =~= Seq::<LineCoverage>::empty());
    } else {
        lemma_cob_read_tags(st, events, f, k - 1);
        let r = ls[k - 1];
        let n = r.line_number as nat + 1;
        let c = if r.count is Some {
            r.count->0 as nat
        } else {
            0
        };
        crate::numeric::lemma_dec_str_value(n);
        crate::numeric::lemma_dec_str_value(c);
        assert(events[1 + (k - 1)] matches CoberturaEvent::LineTag(number, hits) && number@
            == dec_str(n) && hits@ == dec_str(c));
        assert(spec_line_fields(dec_str(n), dec_str(c)) == Some((n as int, c as int)));
        let prev = CoberturaReadState {
            open_path: Some(f.path@),
            cur_lines: ls.take(k - 1),
            files: st.files,
        };
        assert(LineCoverage { line_number: (n - 1) as usize, count: Some(c as u32) } == r);
        assert(prev.cur_lines.push(r) =~= ls.take(k));
    }
}

proof fn lemma_cob_read_one_file(
    st: CoberturaReadState,
    events: Seq<CoberturaEvent>,
    f: FileCoverage,
)
    requires
        file_events_match(events, f),
        cobertura_file_writable(f),
    ensures
        cobertura_fold(st, events, events.len() as int) == (CoberturaReadState {
            open_path: None,
            cur_lines: Seq::empty(),
            files: st.files.push((f.path@, f.line_coverages@)),
        }),
{
    let ls = f.line_coverages@;
    lemma_cob_read_tags(st, events, f, ls.len() as int);
    assert(ls.take(ls.len() as int) =~= ls);
    assert(events.len() == 1 + ls.len() + 1);
    assert(events[events.len() - 1] is ClassEnd);
}

proof fn lemma_cob_read_files(
    st: CoberturaReadState,
    events: Seq<CoberturaEvent>,
    files: Seq<FileCoverage>,
)
    requires
        package_events_match(events, files),
        forall|i: int| 0 <= i < files.len() ==> cobertura_file_writable(#[trigger] files[i]),
    ensures
        ({
            let out = cobertura_fold(st, events, events.len() as int);
            &&& out.open_path == st.open_path || files.len() > 0
            &&& files.len() > 0 ==> out.open_path is None
            &&& files.len() > 0 ==> out.cur_lines.len() == 0
            &&& files.len() == 0 ==> out == st
            &&& out.files.len() == st.files.len() + files.len()
            &&& forall|i: int| 0 <= i < st.files.len() ==> #[trigger] out.files[i] == st.files[i]
            &&& forall|i: int|
                0 <= i < files.len() ==> #[trigger] out.files[st.files.len() + i] == (
                files[i].path@,
                files[i].line_coverages@,
                )
        }),
    decreases files.len(),
{
    if files.len() == 0 {
    } else {
        let head_len = (files[0].line_coverages@.len() + 2) as int;
        let a = events.take(head_len);
        let b = events.skip(head_len);
        assert(events =~= a + b);
        lemma_cob_read_one_file(st, a, files[0]);
        let mid = cobertura_fold(st, a, a.len() as int);
        lemma_cob_fold_append(st, a, b, b.len() as int);
        let rest = files.subrange(1, files.len() as int);
        lemma_cob_read_files(mid, b, rest);
        assert(cobertura_fold(st, events, events.len() as int) == cobertura_fold(
            mid,
            b,
            b.len() as int,
        ));
        let out = cobertura_fold(mid, b, b.len() as int);
        assert forall|i: int| 0 <= i < files.len() implies #[trigger] out.files[st.files.len() + i]
            == (files[i].path@, files[i].line_coverages@) by {
            if i == 0 {
                assert(out.files[st.files.len() as int] == mid.files[st.files.len() as int]);
            } else {
                assert(out.files[mid.files.len() + (i - 1)] == (
                    rest[i - 1].path@,
                    rest[i - 1].line_coverages@,
                ));
            }
        }
    }
}

/// ROUND TRIP OF THE REPORT ADAPTER, at the event level.  For any event
/// stream carrying exactly the class and line tags the writer emits — the
/// attribute texts of [`line_tag_chars`], which is what a faithful
/// tokenizer of the written report hands back — reading rebuilds every
/// file's path and line records.  The format carries no branch records,
/// so only these two fields round-trip; the XML tokenizing between the
/// written text and such a stream is the surrounding reader's
/// collaborator and is not modeled here.
pub proof fn lemma_cobertura_round_trip(events: Seq<CoberturaEvent>, p: PackageCoverage)
    requires
        package_events_match(events, p.file_coverages@),
        forall|i: int|
            0 <= i < p.file_coverages@.len() ==> cobertura_file_writable(
                #[trigger] p.file_coverages@[i],
            ),
    ensures
        ({
            let st = cobertura_read_state(events, events.len() as int);
            &&& st.files.len() == p.file_coverages@.len()
            &&& forall|i: int|
                0 <= i < p.file_coverages@.len() ==> #[trigger] st.files[i] == (
                p.file_coverages@[i].path@,
                p.file_coverages@[i].line_coverages@,
                )
        }),
{
    lemma_cob_state_is_fold(events, events.len() as int);
    let st0 = CoberturaReadState {
        open_path: None,
        cur_lines: Seq::empty(),
        files: Seq::empty(),
    };
    lemma_cob_read_files(st0, events, p.file_coverages@);
    let st = cobertura_read_state(events, events.len() as int);
    assert forall|i: int| 0 <= i < p.file_coverages@.len() implies #[trigger] st.files[i] == (
        p.file_coverages@[i].path@,
        p.file_coverages@[i].line_coverages@,
    ) by {
        assert(st.files[st0.files.len() + i] == (
            p.file_coverages@[i].path@,
            p.file_coverages@[i].line_coverages@,
        ));
    }
}

} // verus!} // verus!
