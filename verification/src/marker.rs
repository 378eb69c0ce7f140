//! Suppression markers: `cov:<key>` comments that let a user ignore line
//! coverage, branch coverage or both, either on one line or over a
//! begin/end range.

use vstd::prelude::*;

use crate::text::has_prefix_at;
use crate::text::str_prefix_at;

verus! {

/// The marker kinds a `cov:` comment can carry.
#[derive(Clone, Copy, Debug, PartialEq, Eq, Structural)]
pub enum CommentMarker {
    IgnoreLine,
    IgnoreBranch,
    IgnoreBoth,
    BeginIgnoreLine,
    BeginIgnoreBranch,
    BeginIgnoreBoth,
    EndIgnoreLine,
    EndIgnoreBranch,
    EndIgnoreBoth,
}

/// Space or tab: what may separate `cov:` from its key.
pub open spec fn is_blank(c: char) -> bool {
    c == ' ' || c == '\t'
}

/// A character a marker key may consist of.
pub open spec fn is_key_char(c: char) -> bool {
    (0x41 <= c as u32 && c as u32 <= 0x5a) || (0x61 <= c as u32 && c as u32 <= 0x7a) || c == '_'
        || c == '-'
}

/// Executable twin of [`is_key_char`].
pub fn key_char(c: char) -> (r: bool)
    ensures
        r == is_key_char(c),
{
    let v = c as u32;
    (0x41 <= v && v <= 0x5a) || (0x61 <= v && v <= 0x7a) || c == '_' || c == '-'
}

/// Index of the first non-blank character at or after `i`, or `s.len()`.
pub open spec fn skip_blanks(s: Seq<char>, i: int) -> int
    decreases s.len() - i,
{
    if 0 <= i < s.len() && is_blank(s[i]) {
        skip_blanks(s, i + 1)
    } else {
        i
    }
}

pub proof fn lemma_skip_blanks(s: Seq<char>, i: int)
    requires
        0 <= i <= s.len(),
    ensures
        i <= skip_blanks(s, i) <= s.len(),
    decreases s.len() - i,
{
    if i < s.len() && is_blank(s[i]) {
        lemma_skip_blanks(s, i + 1);
    }
}

/// Skips blanks in `s` starting at `from`.
#[verifier::loop_isolation(false)]
fn skip_blanks_from(s: &str, from: usize) -> (r: usize)
    requires
        from <= s@.len(),
    ensures
        r == skip_blanks(s@, from as int),
        from <= r <= s@.len(),
{
    proof {
        lemma_skip_blanks(s@, from as int);
    }
    let n = s.unicode_len();
    let mut j = from;
    while j < n
        invariant
            from <= j <= n,
            skip_blanks(s@, from as int) == skip_blanks(s@, j as int),
        decreases n - j,
    {
        let c = s.get_char(j);
        if !(c == ' ' || c == '\t') {
            return j;
        }
        j = j + 1;
    }
    n
}

/// End of the marker key that begins at `e`: the first character, then a
/// maximal run of key characters.
pub open spec fn key_end_from(s: Seq<char>, e: int) -> int
    decreases s.len() - e,
{
    if 0 <= e < s.len() && is_key_char(s[e]) {
        key_end_from(s, e + 1)
    } else {
        e
    }
}

pub proof fn lemma_key_end_from(s: Seq<char>, e: int)
    requires
        0 <= e <= s.len(),
    ensures
        e <= key_end_from(s, e) <= s.len(),
    decreases s.len() - e,
{
    if e < s.len() && is_key_char(s[e]) {
        lemma_key_end_from(s, e + 1);
    }
}

/// A `cov:` marker introduction stands at `i`: at the line start or after
/// a blank.
pub open spec fn cov_at(l: Seq<char>, i: int) -> bool {
    has_prefix_at(l, "cov:"@, i) && (i == 0 || is_blank(l[i - 1]))
}

/// Position of the first `cov:` introduction at or after `i` with room for
/// the shortest valid marker, or `-1`.
pub open spec fn find_cov_from(l: Seq<char>, i: int) -> int
    decreases l.len() - i,
{
    if !(0 <= i) || i + 10 > l.len() {
        -1
    } else if cov_at(l, i) {
        i
    } else {
        find_cov_from(l, i + 1)
    }
}

/// Index of the first `-` or `_` at or after `i`, or `s.len()`.
pub open spec fn find_delim(s: Seq<char>, i: int) -> int
    decreases s.len() - i,
{
    if !(0 <= i < s.len()) {
        s.len() as int
    } else if s[i] == '-' || s[i] == '_' {
        i
    } else {
        find_delim(s, i + 1)
    }
}

pub proof fn lemma_find_delim(s: Seq<char>, i: int)
    requires
        0 <= i <= s.len(),
    ensures
        i <= find_delim(s, i) <= s.len(),
    decreases s.len() - i,
{
    if i < s.len() && !(s[i] == '-' || s[i] == '_') {
        lemma_find_delim(s, i + 1);
    }
}

/// Finds the next `-` or `_` in `s` at or after `from`.
#[verifier::loop_isolation(false)]
fn find_delim_from(s: &str, from: usize) -> (r: usize)
    requires
        from <= s@.len(),
    ensures
        r == find_delim(s@, from as int),
        from <= r <= s@.len(),
{
    proof {
        lemma_find_delim(s@, from as int);
    }
    let n = s.unicode_len();
    let mut j = from;
    while j < n
        invariant
            from <= j <= n,
            find_delim(s@, from as int) == find_delim(s@, j as int),
        decreases n - j,
    {
        let c = s.get_char(j);
        if c == '-' || c == '_' {
            return j;
        }
        j = j + 1;
    }
    n
}

/// The first three segments of `key` split at `-` or `_`; missing
/// segments are empty, a fourth and later segments are dropped.
pub open spec fn split3(key: Seq<char>) -> (Seq<char>, Seq<char>, Seq<char>) {
    let d1 = find_delim(key, 0);
    let s1 = key.subrange(0, d1);
    if d1 == key.len() {
        (s1, Seq::empty(), Seq::empty())
    } else {
        let d2 = find_delim(key, d1 + 1);
        let s2 = key.subrange(d1 + 1, d2);
        if d2 == key.len() {
            (s1, s2, Seq::empty())
        } else {
            let d3 = find_delim(key, d2 + 1);
            (s1, s2, key.subrange(d2 + 1, d3))
        }
    }
}

/// Meaning of a marker key, if it has one.
pub open spec fn spec_parse_marker(key: Seq<char>) -> Option<CommentMarker> {
    let (a, b, c) = split3(key);
    if a == "ignore"@ && b == "line"@ && c.len() == 0 {
        Some(CommentMarker::IgnoreLine)
    } else if a == "ignore"@ && b == "branch"@ && c.len() == 0 {
        Some(CommentMarker::IgnoreBranch)
    } else if a == "ignore"@ && b.len() == 0 && c.len() == 0 {
        Some(CommentMarker::IgnoreBoth)
    } else if a == "begin"@ && b == "ignore"@ && c == "line"@ {
        Some(CommentMarker::BeginIgnoreLine)
    } else if a == "begin"@ && b == "ignore"@ && c == "branch"@ {
        Some(CommentMarker::BeginIgnoreBranch)
    } else if a == "begin"@ && b == "ignore"@ && c.len() == 0 {
        Some(CommentMarker::BeginIgnoreBoth)
    } else if a == "end"@ && b == "ignore"@ && c == "line"@ {
        Some(CommentMarker::EndIgnoreLine)
    } else if a == "end"@ && b == "ignore"@ && c == "branch"@ {
        Some(CommentMarker::EndIgnoreBranch)
    } else if a == "end"@ && b == "ignore"@ && c.len() == 0 {
        Some(CommentMarker::EndIgnoreBoth)
    } else {
        None
    }
}

/// The marker carried by a line, if any: the first `cov:` introduction
/// decides; an unknown key yields nothing.
pub open spec fn spec_extract_marker(l: Seq<char>) -> Option<CommentMarker> {
    let p = find_cov_from(l, 0);
    if p < 0 {
        None
    } else {
        let pos = skip_blanks(l, p + 4);
        if pos >= l.len() {
            None
        } else {
            spec_parse_marker(l.subrange(pos, key_end_from(l, pos + 1)))
        }
    }
}

/// Parses a marker key, as [`spec_parse_marker`] describes.
pub fn parse_marker(key: &str) -> (r: Option<CommentMarker>)
    ensures
        r == spec_parse_marker(key@),
{
    proof {
        reveal_strlit("");
        reveal_strlit("ignore");
        reveal_strlit("line");
        reveal_strlit("branch");
        reveal_strlit("begin");
        reveal_strlit("end");
        assert(""@ =~= Seq::<char>::empty());
    }
    let n = key.unicode_len();
    let d1 = find_delim_from(key, 0);
    let a = key.substring_char(0, d1);
    let b: &str;
    let c: &str;
    if d1 == n {
        b = "";
        c = "";
    } else {
        let d2 = find_delim_from(key, d1 + 1);
        b = key.substring_char(d1 + 1, d2);
        if d2 == n {
            c = "";
        } else {
            let d3 = find_delim_from(key, d2 + 1);
            c = key.substring_char(d2 + 1, d3);
        }
    }
    let c_empty = c.unicode_len() == 0;
    if crate::text::str_eq(a, "ignore") {
        if crate::text::str_eq(b, "line") && c_empty {
            Some(CommentMarker::IgnoreLine)
        } else if crate::text::str_eq(b, "branch") && c_empty {
            Some(CommentMarker::IgnoreBranch)
        } else if b.unicode_len() == 0 && c_empty {
            Some(CommentMarker::IgnoreBoth)
        } else {
            None
        }
    } else if crate::text::str_eq(a, "begin") && crate::text::str_eq(b, "ignore") {
        if crate::text::str_eq(c, "line") {
            Some(CommentMarker::BeginIgnoreLine)
        } else if crate::text::str_eq(c, "branch") {
            Some(CommentMarker::BeginIgnoreBranch)
        } else if c_empty {
            Some(CommentMarker::BeginIgnoreBoth)
        } else {
            None
        }
    } else if crate::text::str_eq(a, "end") && crate::text::str_eq(b, "ignore") {
        if crate::text::str_eq(c, "line") {
            Some(CommentMarker::EndIgnoreLine)
        } else if crate::text::str_eq(c, "branch") {
            Some(CommentMarker::EndIgnoreBranch)
        } else if c_empty {
            Some(CommentMarker::EndIgnoreBoth)
        } else {
            None
        }
    } else {
        None
    }
}

/// End of the key run that begins at `from`.
#[verifier::loop_isolation(false)]
fn key_end_at(s: &str, from: usize) -> (r: usize)
    requires
        from <= s@.len(),
    ensures
        r == key_end_from(s@, from as int),
        from <= r <= s@.len(),
{
    proof {
        lemma_key_end_from(s@, from as int);
    }
    let n = s.unicode_len();
    let mut e = from;
    while e < n
        invariant
            from <= e <= n,
            key_end_from(s@, from as int) == key_end_from(s@, e as int),
        decreases n - e,
    {
        if !key_char(s.get_char(e)) {
            return e;
        }
        e = e + 1;
    }
    n
}

/// The key of a line's `cov:` marker when that key means nothing: what a
/// caller may want to warn about.  The first `cov:` introduction decides,
/// exactly as in [`spec_extract_marker`].
pub open spec fn spec_unknown_key(l: Seq<char>) -> Option<Seq<char>> {
    let p = find_cov_from(l, 0);
    if p < 0 {
        None
    } else {
        let pos = skip_blanks(l, p + 4);
        if pos >= l.len() {
            None
        } else {
            let key = l.subrange(pos, key_end_from(l, pos + 1));
            if spec_parse_marker(key) is None {
                Some(key)
            } else {
                None
            }
        }
    }
}

/// Scans a source line for a `cov:` marker whose key means nothing,
/// returning that key so the caller can warn about it.
#[verifier::loop_isolation(false)]
pub fn unknown_marker_key(l: &str) -> (r: Option<String>)
    ensures
        match r {
            Some(k) => spec_unknown_key(l@) == Some(k@),
            None => spec_unknown_key(l@) is None,
        },
{
    let n = l.unicode_len();
    if n < 10 {
        return None;
    }
    let mut i: usize = 0;
    while i <= n - 10
        invariant
            i <= n,
            find_cov_from(l@, 0) == find_cov_from(l@, i as int),
        decreases n - i,
    {
        let at_cov = str_prefix_at(l, i, "cov:") && (i == 0 || {
            let c = l.get_char(i - 1);
            c == ' ' || c == '\t'
        });
        if at_cov {
            proof {
                reveal_strlit("cov:");
                lemma_skip_blanks(l@, i + 4);
            }
            let pos = skip_blanks_from(l, i + 4);
            if pos >= n {
                return None;
            }
            let e = key_end_at(l, pos + 1);
            let key = l.substring_char(pos, e);
            return match parse_marker(key) {
                Some(_) => None,
                None => Some(key.to_owned()),
            };
        }
        i = i + 1;
    }
    None
}

/// Scans a source line for a suppression marker, as
/// [`spec_extract_marker`] describes.
#[verifier::loop_isolation(false)]
pub fn extract_marker(l: &str) -> (r: Option<CommentMarker>)
    ensures
        r == spec_extract_marker(l@),
{
    let n = l.unicode_len();
    if n < 10 {
        return None;
    }
    let mut i: usize = 0;
    while i <= n - 10
        invariant
            i <= n,
            find_cov_from(l@, 0) == find_cov_from(l@, i as int),
        decreases n - i,
    {
        let at_cov = str_prefix_at(l, i, "cov:") && (i == 0 || {
            let c = l.get_char(i - 1);
            c == ' ' || c == '\t'
        });
        if at_cov {
            proof {
                reveal_strlit("cov:");
                lemma_skip_blanks(l@, i + 4);
            }
            let pos = skip_blanks_from(l, i + 4);
            if pos >= n {
                return None;
            }
            let e = key_end_at(l, pos + 1);
            let key = l.substring_char(pos, e);
            return parse_marker(key);
        }
        i = i + 1;
    }
    None
}

} // verus!
