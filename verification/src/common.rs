//! Source-text containers: a loaded source file split into lines, an
//! iterator over those lines, and the store that hands the fix engine the
//! source text belonging to each coverage record's path.

use vstd::prelude::*;

use crate::text::find_char_from;
use crate::text::find_from;
use crate::text::lemma_find_from;
use crate::text::str_eq;

verus! {

/// Views of a sequence of owned strings.
pub open spec fn views_of(lines: Seq<String>) -> Seq<Seq<char>> {
    lines.map_values(|l: String| l@)
}

/// Lines of `s` split at `'\n'`, starting at offset `i`.  A trailing empty
/// segment after a final newline is not produced.
pub open spec fn spec_lines_from(s: Seq<char>, i: int) -> Seq<Seq<char>>
    decreases s.len() - i,
    via spec_lines_from_decreases
{
    if !(0 <= i <= s.len()) || i == s.len() {
        Seq::empty()
    } else {
        let j = find_from(s, '\n', i);
        if j == s.len() {
            seq![s.subrange(i, j)]
        } else {
            seq![s.subrange(i, j)] + spec_lines_from(s, j + 1)
        }
    }
}

#[via_fn]
proof fn spec_lines_from_decreases(s: Seq<char>, i: int) {
    if 0 <= i < s.len() {
        lemma_find_from(s, '\n', i);
    }
}

/// The lines of a whole text, split at `'\n'`.
pub open spec fn spec_split_lines(s: Seq<char>) -> Seq<Seq<char>> {
    spec_lines_from(s, 0)
}

proof fn lemma_views_push(s: Seq<String>, x: String)
    ensures
        views_of(s.push(x)) == views_of(s).push(x@),
{
    assert(views_of(s.push(x)) =~= views_of(s).push(x@));
}

/// A source file split into its lines.
pub struct SourceCode {
    /// the lines of the file, without their newline terminators
    pub lines: Vec<String>,
}

impl View for SourceCode {
    type V = Seq<Seq<char>>;

    open spec fn view(&self) -> Seq<Seq<char>> {
        views_of(self.lines@)
    }
}

impl SourceCode {
    /// Splits `content` at newlines; a trailing newline does not open an
    /// extra empty line.
    #[verifier::loop_isolation(false)]
    pub fn new(content: &str) -> (r: SourceCode)
        ensures
            r@ == spec_split_lines(content@),
    {
        let n = content.unicode_len();
        let mut lines: Vec<String> = Vec::new();
        let mut start: usize = 0;
        while start < n
            invariant
                spec_split_lines(content@) == views_of(lines@) + spec_lines_from(
                    content@,
                    start as int,
                ),
            decreases n - start,
        {
            let j = find_char_from(content, '\n', start);
            proof {
                lemma_find_from(content@, '\n', start as int);
            }
            let seg = content.substring_char(start, j).to_owned();
            let next_start = if j < n {
                j + 1
            } else {
                n
            };
            proof {
                lemma_views_push(lines@, seg);
                if j == n {
                    assert(spec_lines_from(content@, start as int) =~= seq![
                        content@.subrange(start as int, j as int),
                    ] + spec_lines_from(content@, next_start as int));
                }
                assert(views_of(lines@.push(seg)) + spec_lines_from(content@, next_start as int)
                    =~= views_of(lines@) + spec_lines_from(content@, start as int));
            }
            lines.push(seg);
            start = next_start;
        }
        proof {
            assert(views_of(lines@) + spec_lines_from(content@, start as int) =~= views_of(
                lines@,
            ));
        }
        SourceCode { lines }
    }

    /// The line at `index`, if the file has that many lines.
    pub fn get_line(&self, index: usize) -> (r: Option<&str>)
        ensures
            match r {
                Some(l) => index < self@.len() && l@ == self@[index as int],
                None => index >= self@.len(),
            },
    {
        if index < self.lines.len() {
            Some(self.lines[index].as_str())
        } else {
            None
        }
    }

    /// An iterator-like cursor over the lines.
    pub fn lines(&self) -> (r: Lines)
        ensures
            r.source == self,
            r.pos == 0,
    {
        Lines { source: self, pos: 0 }
    }

    /// Number of lines in the file.
    pub fn total_lines(&self) -> (r: usize)
        ensures
            r == self@.len(),
    {
        self.lines.len()
    }
}

/// A cursor over the lines of a [`SourceCode`].
#[derive(Clone, Copy)]
pub struct Lines<'a> {
    /// the file being walked
    pub source: &'a SourceCode,
    /// index of the next line to hand out
    pub pos: usize,
}

impl<'a> Lines<'a> {
    /// Hands out the next line, advancing the cursor.
    pub fn next(&mut self) -> (r: Option<&'a str>)
        ensures
            final(self).source == old(self).source,
            match r {
                Some(l) => old(self).pos < old(self).source@.len() && l@ == old(
                    self,
                ).source@[old(self).pos as int] && final(self).pos == old(self).pos + 1,
                None => old(self).pos >= old(self).source@.len() && final(self).pos == old(
                    self,
                ).pos,
            },
    {
        if self.pos < self.source.lines.len() {
            let l = self.source.lines[self.pos].as_str();
            self.pos = self.pos + 1;
            Some(l)
        } else {
            None
        }
    }
}

/// A path paired with its loaded source text.
pub struct SourceEntry {
    /// the path coverage records refer to
    pub path: String,
    /// the file's lines
    pub code: SourceCode,
}

/// First entry whose path equals `path`, front to back.
pub open spec fn store_find(entries: Seq<SourceEntry>, path: Seq<char>) -> Option<SourceCode>
    decreases entries.len(),
{
    if entries.len() == 0 {
        None
    } else if entries[0].path@ == path {
        Some(entries[0].code)
    } else {
        store_find(entries.subrange(1, entries.len() as int), path)
    }
}

/// The source texts available to the fix engine, keyed by path.
pub struct SourceStore {
    /// loaded files, searched front to back
    pub entries: Vec<SourceEntry>,
}

impl SourceStore {
    pub fn new() -> (r: SourceStore)
        ensures
            r.entries@.len() == 0,
    {
        SourceStore { entries: Vec::new() }
    }

    /// Registers the text of one source file under `path`.
    pub fn add(&mut self, path: &str, content: &str) -> (r: ())
        ensures
            final(self).entries@.len() == old(self).entries@.len() + 1,
            final(self).entries@.drop_last() == old(self).entries@,
            final(self).entries@.last().path@ == path@,
            final(self).entries@.last().code@ == spec_split_lines(content@),
    {
        let entry = SourceEntry { path: path.to_owned(), code: SourceCode::new(content) };
        self.entries.push(entry);
        proof {
            assert(final(self).entries@.drop_last() =~= old(self).entries@);
        }
    }

    /// Looks a path up, returning the first entry registered under it.
    #[verifier::loop_isolation(false)]
    pub fn find(&self, path: &str) -> (r: Option<&SourceCode>)
        ensures
            match r {
                Some(c) => store_find(self.entries@, path@) == Some(*c),
                None => store_find(self.entries@, path@) is None,
            },
    {
        let n = self.entries.len();
        proof {
            assert(self.entries@.subrange(0, n as int) =~= self.entries@);
        }
        let mut i: usize = 0;
        while i < n
            invariant
                i <= n,
                store_find(self.entries@, path@) == store_find(
                    self.entries@.subrange(i as int, n as int),
                    path@,
                ),
            decreases n - i,
        {
            proof {
                assert(self.entries@.subrange(i as int, n as int)[0] == self.entries@[i as int]);
                assert(self.entries@.subrange(i as int, n as int).subrange(
                    1,
                    (n - i) as int,
                ) =~= self.entries@.subrange(i + 1, n as int));
            }
            if str_eq(self.entries[i].path.as_str(), path) {
                return Some(&self.entries[i].code);
            }
            i = i + 1;
        }
        None
    }
}

/// A format adapter that can say whether it handles a given file.
pub trait SupportedFile {
    fn is_supported(&self, path: &str) -> bool;
}

} // verus!
