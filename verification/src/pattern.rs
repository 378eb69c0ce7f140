//! Line classification for the correction rules: the closing-delimiter
//! shape, attribute and declaration shapes, the for-loop header shape, and
//! line-comment stripping that honors double-quoted string literals.

use vstd::prelude::*;

use crate::text::has_prefix_at;
use crate::text::is_space_char;
use crate::text::lemma_skip_spaces;
use crate::text::skip_spaces;
use crate::text::skip_spaces_from;
use crate::text::str_prefix_at;
use crate::text::trimmed_len;

verus! {

/// Nothing but whitespace and an optional `//` comment from `i` to the end.
pub open spec fn tail_ok(l: Seq<char>, i: int) -> bool {
    let j = skip_spaces(l, i);
    j == l.len() || has_prefix_at(l, "//"@, j)
}

/// Executable twin of [`tail_ok`].
pub fn tail_ok_at(l: &str, i: usize) -> (r: bool)
    requires
        i <= l@.len(),
    ensures
        r == tail_ok(l@, i as int),
{
    let j = skip_spaces_from(l, i);
    if j == l.unicode_len() {
        true
    } else {
        str_prefix_at(l, j, "//")
    }
}

/// Position after a (possibly empty) run of further `}` and `)` tokens,
/// each preceded by optional whitespace; `i` itself if no such run starts
/// at `i`.
pub open spec fn after_closers(l: Seq<char>, i: int) -> int
    decreases l.len() - i,
    via after_closers_decreases
{
    if 0 <= i <= l.len() {
        let j = skip_spaces(l, i);
        if j < l.len() && (l[j] == ')' || l[j] == '}') {
            after_closers(l, j + 1)
        } else {
            i
        }
    } else {
        i
    }
}

#[via_fn]
proof fn after_closers_decreases(l: Seq<char>, i: int) {
    if 0 <= i <= l.len() {
        lemma_skip_spaces(l, i);
    }
}

pub proof fn lemma_after_closers(l: Seq<char>, i: int)
    requires
        0 <= i <= l.len(),
    ensures
        i <= after_closers(l, i) <= l.len(),
    decreases l.len() - i,
{
    lemma_skip_spaces(l, i);
    let j = skip_spaces(l, i);
    if j < l.len() && (l[j] == ')' || l[j] == '}') {
        lemma_after_closers(l, j + 1);
    }
}

/// Executable twin of [`after_closers`].
pub fn after_closers_at(l: &str, i: usize) -> (r: usize)
    requires
        i <= l@.len(),
    ensures
        r == after_closers(l@, i as int),
        i <= r <= l@.len(),
    decreases l@.len() - i,
{
    proof {
        lemma_skip_spaces(l@, i as int);
        lemma_after_closers(l@, i as int);
    }
    let j = skip_spaces_from(l, i);
    let n = l.unicode_len();
    if j < n {
        let c = l.get_char(j);
        if c == ')' || c == '}' {
            return after_closers_at(l, j + 1);
        }
    }
    i
}

/// One or more `}`, each optionally followed by `)` tokens, then an
/// optional `;`, then [`tail_ok`].
pub open spec fn close_part(l: Seq<char>, i: int) -> bool {
    0 <= i < l.len() && l[i] == '}' && {
        let p = after_closers(l, i + 1);
        let q = skip_spaces(l, p);
        if q < l.len() && l[q] == ';' {
            tail_ok(l, q + 1)
        } else {
            tail_ok(l, p)
        }
    }
}

/// Executable twin of [`close_part`].
pub fn close_part_at(l: &str, i: usize) -> (r: bool)
    requires
        i <= l@.len(),
    ensures
        r == close_part(l@, i as int),
{
    let n = l.unicode_len();
    if i < n && l.get_char(i) == '}' {
        let p = after_closers_at(l, i + 1);
        proof {
            lemma_skip_spaces(l@, p as int);
        }
        let q = skip_spaces_from(l, p);
        if q < n && l.get_char(q) == ';' {
            tail_ok_at(l, q + 1)
        } else {
            tail_ok_at(l, p)
        }
    } else {
        false
    }
}

/// An `else` header: optional `}`, `else`, optional `{`, then [`tail_ok`].
pub open spec fn else_part(l: Seq<char>, i: int) -> bool {
    let j = if 0 <= i < l.len() && l[i] == '}' {
        skip_spaces(l, i + 1)
    } else {
        i
    };
    has_prefix_at(l, "else"@, j) && {
        let k = j + "else"@.len();
        let m = skip_spaces(l, k);
        if m < l.len() && l[m] == '{' {
            tail_ok(l, m + 1)
        } else {
            tail_ok(l, k)
        }
    }
}

/// Executable twin of [`else_part`].
pub fn else_part_at(l: &str, i: usize) -> (r: bool)
    requires
        i <= l@.len(),
    ensures
        r == else_part(l@, i as int),
{
    let n = l.unicode_len();
    let j = if i < n && l.get_char(i) == '}' {
        skip_spaces_from(l, i + 1)
    } else {
        i
    };
    if str_prefix_at(l, j, "else") {
        proof {
            reveal_strlit("else");
            lemma_skip_spaces(l@, j + 4);
        }
        let k = j + 4;
        let m = skip_spaces_from(l, k);
        if m < n && l.get_char(m) == '{' {
            tail_ok_at(l, m + 1)
        } else {
            tail_ok_at(l, k)
        }
    } else {
        false
    }
}

/// The close-block shape: only closing structural tokens, an `else`
/// header, whitespace or a line comment.
pub open spec fn is_closing_line(l: Seq<char>) -> bool {
    let i = skip_spaces(l, 0);
    close_part(l, i) || else_part(l, i) || tail_ok(l, 0)
}

/// Executable twin of [`is_closing_line`].
pub fn closing_line(l: &str) -> (r: bool)
    ensures
        r == is_closing_line(l@),
{
    proof {
        lemma_skip_spaces(l@, 0);
    }
    let i = skip_spaces_from(l, 0);
    close_part_at(l, i) || else_part_at(l, i) || tail_ok_at(l, 0)
}

/// Index where a `//` comment starts, or the line length.  A `//` inside a
/// double-quoted string literal does not open a comment; `\"` inside a
/// string does not close it.
pub open spec fn comment_start_from(l: Seq<char>, i: int, in_str: bool, esc: bool) -> int
    decreases l.len() - i,
{
    if !(0 <= i < l.len()) {
        l.len() as int
    } else if in_str {
        if esc {
            comment_start_from(l, i + 1, true, false)
        } else if l[i] == '\\' {
            comment_start_from(l, i + 1, true, true)
        } else if l[i] == '"' {
            comment_start_from(l, i + 1, false, false)
        } else {
            comment_start_from(l, i + 1, true, false)
        }
    } else {
        if l[i] == '"' {
            comment_start_from(l, i + 1, true, false)
        } else if l[i] == '/' && i + 1 < l.len() && l[i + 1] == '/' {
            i
        } else {
            comment_start_from(l, i + 1, false, false)
        }
    }
}

pub proof fn lemma_comment_start_from(l: Seq<char>, i: int, in_str: bool, esc: bool)
    requires
        0 <= i <= l.len(),
    ensures
        i <= comment_start_from(l, i, in_str, esc) <= l.len(),
    decreases l.len() - i,
{
    if i < l.len() {
        lemma_comment_start_from(l, i + 1, true, false);
        lemma_comment_start_from(l, i + 1, true, true);
        lemma_comment_start_from(l, i + 1, false, false);
    }
}

/// Index where the line's comment starts, or its length.
pub open spec fn comment_start(l: Seq<char>) -> int {
    comment_start_from(l, 0, false, false)
}

/// Executable twin of [`comment_start`].
#[verifier::loop_isolation(false)]
pub fn comment_start_of(l: &str) -> (r: usize)
    ensures
        r == comment_start(l@),
        r <= l@.len(),
{
    proof {
        lemma_comment_start_from(l@, 0, false, false);
    }
    let n = l.unicode_len();
    let mut i: usize = 0;
    let mut in_str = false;
    let mut esc = false;
    while i < n
        invariant
            i <= n,
            comment_start(l@) == comment_start_from(l@, i as int, in_str, esc),
        decreases n - i,
    {
        proof {
            lemma_comment_start_from(l@, i + 1, true, false);
            lemma_comment_start_from(l@, i + 1, true, true);
            lemma_comment_start_from(l@, i + 1, false, false);
        }
        let c = l.get_char(i);
        let next_in_str: bool;
        let next_esc: bool;
        if in_str {
            if esc {
                next_in_str = true;
                next_esc = false;
            } else if c == '\\' {
                next_in_str = true;
                next_esc = true;
            } else if c == '"' {
                next_in_str = false;
                next_esc = false;
            } else {
                next_in_str = true;
                next_esc = false;
            }
        } else {
            if c == '"' {
                next_in_str = true;
                next_esc = false;
            } else if c == '/' && i + 1 < n && l.get_char(i + 1) == '/' {
                return i;
            } else {
                next_in_str = false;
                next_esc = false;
            }
        }
        proof {
            assert(comment_start_from(l@, i as int, in_str, esc) == comment_start_from(
                l@,
                i + 1,
                next_in_str,
                next_esc,
            ));
        }
        in_str = next_in_str;
        esc = next_esc;
        i = i + 1;
    }
    n
}

/// Number of occurrences of `c` in `l[i..e]`.
pub open spec fn count_in(l: Seq<char>, c: char, i: int, e: int) -> int
    decreases e - i,
{
    if !(0 <= i < e <= l.len()) {
        0
    } else {
        (if l[i] == c {
            1int
        } else {
            0int
        }) + count_in(l, c, i + 1, e)
    }
}

pub proof fn lemma_count_in(l: Seq<char>, c: char, i: int, e: int)
    ensures
        0 <= count_in(l, c, i, e) <= if e - i >= 0 {
            e - i
        } else {
            0
        },
    decreases e - i,
{
    if 0 <= i < e <= l.len() {
        lemma_count_in(l, c, i + 1, e);
    }
}

/// Counts occurrences of `c` in `l[0..e]`.
#[verifier::loop_isolation(false)]
pub fn count_char_upto(l: &str, c: char, e: usize) -> (r: usize)
    requires
        e <= l@.len(),
    ensures
        r == count_in(l@, c, 0, e as int),
{
    proof {
        lemma_count_in(l@, c, 0, e as int);
    }
    let mut cnt: usize = 0;
    let mut k: usize = 0;
    while k < e
        invariant
            k <= e,
            cnt <= k,
            count_in(l@, c, 0, e as int) == cnt + count_in(l@, c, k as int, e as int),
        decreases e - k,
    {
        proof {
            lemma_count_in(l@, c, k + 1, e as int);
        }
        if l.get_char(k) == c {
            cnt = cnt + 1;
        }
        k = k + 1;
    }
    cnt
}

/// `c` occurs in `l[0..e]`.
pub open spec fn contains_upto(l: Seq<char>, c: char, e: int) -> bool {
    exists|k: int| 0 <= k < e && k < l.len() && l[k] == c
}

/// Executable twin of [`contains_upto`].
#[verifier::loop_isolation(false)]
pub fn contains_char_upto(l: &str, c: char, e: usize) -> (r: bool)
    requires
        e <= l@.len(),
    ensures
        r == contains_upto(l@, c, e as int),
{
    let mut k: usize = 0;
    while k < e
        invariant
            k <= e,
            forall|t: int| 0 <= t < k ==> #[trigger] l@[t] != c,
        decreases e - k,
    {
        if l.get_char(k) == c {
            return true;
        }
        k = k + 1;
    }
    false
}

/// Only whitespace on the whole line.
pub open spec fn is_blank_line(l: Seq<char>) -> bool {
    skip_spaces(l, 0) == l.len()
}

/// The line starts (after whitespace) with a `//` comment.
pub open spec fn is_comment_line(l: Seq<char>) -> bool {
    has_prefix_at(l, "//"@, skip_spaces(l, 0))
}

/// The line starts (after whitespace) with an attribute.
pub open spec fn is_attr_line(l: Seq<char>) -> bool {
    has_prefix_at(l, "#["@, skip_spaces(l, 0))
}

/// The line starts with a `cfg` attribute whose first group identifier is
/// `test`, as in `#[cfg(test)]` or `#[cfg(test, ...)]`.
pub open spec fn is_cfg_test_attr(l: Seq<char>) -> bool {
    let j = skip_spaces(l, 0);
    let k = j + "#[cfg(test"@.len();
    has_prefix_at(l, "#[cfg(test"@, j) && k < l.len() && (l[k] == ')' || l[k] == ',')
}

/// The line starts with a `#[test]` attribute.
pub open spec fn is_test_attr(l: Seq<char>) -> bool {
    has_prefix_at(l, "#[test]"@, skip_spaces(l, 0))
}

/// The line declares a module: optional `pub`, then `mod `.
pub open spec fn is_mod_decl(l: Seq<char>) -> bool {
    let j = skip_spaces(l, 0);
    let k = if has_prefix_at(l, "pub "@, j) {
        j + "pub "@.len()
    } else {
        j
    };
    has_prefix_at(l, "mod "@, k)
}

/// The line declares a function: optional `pub`, then `fn `.
pub open spec fn is_fn_decl(l: Seq<char>) -> bool {
    let j = skip_spaces(l, 0);
    let k = if has_prefix_at(l, "pub "@, j) {
        j + "pub "@.len()
    } else {
        j
    };
    has_prefix_at(l, "fn "@, k)
}

/// The line starts with a `derive` attribute.
pub open spec fn is_derive_attr(l: Seq<char>) -> bool {
    has_prefix_at(l, "#[derive("@, skip_spaces(l, 0))
}

/// The line declares a type: optional `pub`, then `struct `, `enum ` or
/// `union `.
pub open spec fn is_type_decl(l: Seq<char>) -> bool {
    let j = skip_spaces(l, 0);
    let k = if has_prefix_at(l, "pub "@, j) {
        j + "pub "@.len()
    } else {
        j
    };
    has_prefix_at(l, "struct "@, k) || has_prefix_at(l, "enum "@, k) || has_prefix_at(
        l,
        "union "@,
        k,
    )
}

/// The line's very first character closes a block.
pub open spec fn starts_with_close(l: Seq<char>) -> bool {
    l.len() > 0 && l[0] == '}'
}

/// A for-loop header: `for ` after the indent, and the line ends with `{`
/// once its comment and trailing whitespace are stripped.
pub open spec fn is_for_line(l: Seq<char>) -> bool {
    let j = skip_spaces(l, 0);
    let e = trimmed_len(l, comment_start(l));
    has_prefix_at(l, "for "@, j) && e > 0 && l[e - 1] == '{'
}

/// Executable twin of [`is_blank_line`].
pub fn blank_line(l: &str) -> (r: bool)
    ensures
        r == is_blank_line(l@),
{
    proof {
        lemma_skip_spaces(l@, 0);
    }
    skip_spaces_from(l, 0) == l.unicode_len()
}

/// Executable twin of [`is_comment_line`].
pub fn comment_line(l: &str) -> (r: bool)
    ensures
        r == is_comment_line(l@),
{
    proof {
        lemma_skip_spaces(l@, 0);
    }
    let j = skip_spaces_from(l, 0);
    str_prefix_at(l, j, "//")
}

/// Executable twin of [`is_attr_line`].
pub fn attr_line(l: &str) -> (r: bool)
    ensures
        r == is_attr_line(l@),
{
    proof {
        lemma_skip_spaces(l@, 0);
    }
    let j = skip_spaces_from(l, 0);
    str_prefix_at(l, j, "#[")
}

/// Executable twin of [`is_cfg_test_attr`].
pub fn cfg_test_attr(l: &str) -> (r: bool)
    ensures
        r == is_cfg_test_attr(l@),
{
    proof {
        lemma_skip_spaces(l@, 0);
        reveal_strlit("#[cfg(test");
    }
    let n = l.unicode_len();
    let j = skip_spaces_from(l, 0);
    if str_prefix_at(l, j, "#[cfg(test") {
        let k = j + 10;
        if k < n {
            let c = l.get_char(k);
            c == ')' || c == ','
        } else {
            false
        }
    } else {
        false
    }
}

/// Executable twin of [`is_test_attr`].
pub fn test_attr(l: &str) -> (r: bool)
    ensures
        r == is_test_attr(l@),
{
    proof {
        lemma_skip_spaces(l@, 0);
    }
    let j = skip_spaces_from(l, 0);
    str_prefix_at(l, j, "#[test]")
}

/// Executable twin of [`is_mod_decl`].
pub fn mod_decl(l: &str) -> (r: bool)
    ensures
        r == is_mod_decl(l@),
{
    proof {
        lemma_skip_spaces(l@, 0);
        reveal_strlit("pub ");
    }
    let n = l.unicode_len();
    let j = skip_spaces_from(l, 0);
    proof {
        assert(l@.len() == n);
    }
    let k = if str_prefix_at(l, j, "pub ") {
        j + 4
    } else {
        j
    };
    str_prefix_at(l, k, "mod ")
}

/// Executable twin of [`is_fn_decl`].
pub fn fn_decl(l: &str) -> (r: bool)
    ensures
        r == is_fn_decl(l@),
{
    proof {
        lemma_skip_spaces(l@, 0);
        reveal_strlit("pub ");
    }
    let n = l.unicode_len();
    let j = skip_spaces_from(l, 0);
    proof {
        assert(l@.len() == n);
    }
    let k = if str_prefix_at(l, j, "pub ") {
        j + 4
    } else {
        j
    };
    str_prefix_at(l, k, "fn ")
}

/// Executable twin of [`is_derive_attr`].
pub fn derive_attr(l: &str) -> (r: bool)
    ensures
        r == is_derive_attr(l@),
{
    proof {
        lemma_skip_spaces(l@, 0);
    }
    let j = skip_spaces_from(l, 0);
    str_prefix_at(l, j, "#[derive(")
}

/// Executable twin of [`is_type_decl`].
pub fn type_decl(l: &str) -> (r: bool)
    ensures
        r == is_type_decl(l@),
{
    proof {
        lemma_skip_spaces(l@, 0);
        reveal_strlit("pub ");
    }
    let n = l.unicode_len();
    let j = skip_spaces_from(l, 0);
    proof {
        assert(l@.len() == n);
    }
    let k = if str_prefix_at(l, j, "pub ") {
        j + 4
    } else {
        j
    };
    str_prefix_at(l, k, "struct ") || str_prefix_at(l, k, "enum ") || str_prefix_at(l, k, "union ")
}

/// Executable twin of [`starts_with_close`].
pub fn line_starts_with_close(l: &str) -> (r: bool)
    ensures
        r == starts_with_close(l@),
{
    l.unicode_len() > 0 && l.get_char(0) == '}'
}

/// Executable twin of [`is_for_line`].
pub fn for_line(l: &str) -> (r: bool)
    ensures
        r == is_for_line(l@),
{
    proof {
        lemma_skip_spaces(l@, 0);
    }
    let j = skip_spaces_from(l, 0);
    if !str_prefix_at(l, j, "for ") {
        return false;
    }
    let cut = comment_start_of(l);
    proof {
        crate::text::lemma_trimmed_len(l@, cut as int);
    }
    let e = trimmed_len_of_upto(l, cut);
    e > 0 && l.get_char(e - 1) == '{'
}

/// Length of `l[0..e]` once trailing whitespace is removed.
#[verifier::loop_isolation(false)]
pub fn trimmed_len_of_upto(l: &str, e: usize) -> (r: usize)
    requires
        e <= l@.len(),
    ensures
        r == trimmed_len(l@, e as int),
        r <= e,
{
    proof {
        crate::text::lemma_trimmed_len(l@, e as int);
    }
    let mut k = e;
    while k > 0
        invariant
            k <= e,
            trimmed_len(l@, e as int) == trimmed_len(l@, k as int),
        decreases k,
    {
        if !is_space_char(l.get_char(k - 1)) {
            return k;
        }
        k = k - 1;
    }
    0
}

} // verus!
