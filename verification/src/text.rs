//! Character-level helpers over string views: searching, whitespace
//! skipping, prefix tests and equality.  Every rule and adapter builds its
//! line analysis out of these.

use vstd::prelude::*;

verus! {

/// Horizontal whitespace inside a source line.
pub open spec fn is_space(c: char) -> bool {
    c == ' ' || c == '\t' || c == '\r'
}

/// Executable twin of [`is_space`].
pub fn is_space_char(c: char) -> (r: bool)
    ensures
        r == is_space(c),
{
    c == ' ' || c == '\t' || c == '\r'
}

/// Index of the first occurrence of `c` at or after `i`, or `s.len()`.
pub open spec fn find_from(s: Seq<char>, c: char, i: int) -> int
    decreases s.len() - i,
{
    if !(0 <= i < s.len()) {
        s.len() as int
    } else if s[i] == c {
        i
    } else {
        find_from(s, c, i + 1)
    }
}

pub proof fn lemma_find_from(s: Seq<char>, c: char, i: int)
    requires
        0 <= i <= s.len(),
    ensures
        i <= find_from(s, c, i) <= s.len(),
        find_from(s, c, i) < s.len() ==> s[find_from(s, c, i)] == c,
        forall|k: int| i <= k < find_from(s, c, i) ==> #[trigger] s[k] != c,
    decreases s.len() - i,
{
    if i < s.len() && s[i] != c {
        lemma_find_from(s, c, i + 1);
    }
}

pub proof fn lemma_find_from_is(s: Seq<char>, c: char, i: int, j: int)
    requires
        0 <= i <= j <= s.len(),
        j == s.len() || s[j] == c,
        forall|k: int| i <= k < j ==> #[trigger] s[k] != c,
    ensures
        find_from(s, c, i) == j,
    decreases j - i,
{
    if i < j {
        lemma_find_from_is(s, c, i + 1, j);
    }
}

/// Finds the next occurrence of `c` in `s` at or after `from`.
pub fn find_char_from(s: &str, c: char, from: usize) -> (r: usize)
    requires
        from <= s@.len(),
    ensures
        r == find_from(s@, c, from as int),
{
    let n = s.unicode_len();
    let mut j = from;
    while j < n
        invariant
            n == s@.len(),
            from <= j <= n,
            forall|k: int| from <= k < j ==> #[trigger] s@[k] != c,
        decreases n - j,
    {
        if s.get_char(j) == c {
            proof {
                lemma_find_from_is(s@, c, from as int, j as int);
            }
            return j;
        }
        j = j + 1;
    }
    proof {
        lemma_find_from_is(s@, c, from as int, n as int);
    }
    n
}

/// Index of the first non-whitespace character at or after `i`, or `s.len()`.
pub open spec fn skip_spaces(s: Seq<char>, i: int) -> int
    decreases s.len() - i,
{
    if 0 <= i < s.len() && is_space(s[i]) {
        skip_spaces(s, i + 1)
    } else {
        i
    }
}

pub proof fn lemma_skip_spaces(s: Seq<char>, i: int)
    requires
        0 <= i <= s.len(),
    ensures
        i <= skip_spaces(s, i) <= s.len(),
        skip_spaces(s, i) < s.len() ==> !is_space(s[skip_spaces(s, i)]),
        forall|k: int| i <= k < skip_spaces(s, i) ==> is_space(#[trigger] s[k]),
    decreases s.len() - i,
{
    if i < s.len() && is_space(s[i]) {
        lemma_skip_spaces(s, i + 1);
    }
}

/// Skips whitespace in `s` starting at `from`.
#[verifier::loop_isolation(false)]
pub fn skip_spaces_from(s: &str, from: usize) -> (r: usize)
    requires
        from <= s@.len(),
    ensures
        r == skip_spaces(s@, from as int),
        from <= r <= s@.len(),
{
    proof {
        lemma_skip_spaces(s@, from as int);
    }
    let n = s.unicode_len();
    let mut j = from;
    while j < n
        invariant
            from <= j <= n,
            skip_spaces(s@, from as int) == skip_spaces(s@, j as int),
        decreases n - j,
    {
        if !is_space_char(s.get_char(j)) {
            return j;
        }
        j = j + 1;
    }
    n
}

/// `p` occurs in `s` starting exactly at index `i`.
pub open spec fn has_prefix_at(s: Seq<char>, p: Seq<char>, i: int) -> bool {
    0 <= i && i + p.len() <= s.len() && s.subrange(i, i + p.len()) == p
}

/// Tests whether `p` occurs in `s` starting at index `i`.
#[verifier::loop_isolation(false)]
pub fn str_prefix_at(s: &str, i: usize, p: &str) -> (r: bool)
    ensures
        r == has_prefix_at(s@, p@, i as int),
{
    let n = s.unicode_len();
    let m = p.unicode_len();
    if m > n || i > n - m {
        return false;
    }
    let mut k: usize = 0;
    while k < m
        invariant
            k <= m,
            forall|t: int| 0 <= t < k ==> s@[i + t] == #[trigger] p@[t],
        decreases m - k,
    {
        if s.get_char(i + k) != p.get_char(k) {
            proof {
                assert(s@.subrange(i as int, i + m) =~= p@ ==> s@.subrange(i as int, i + m)[k as int]
                    == p@[k as int]);
            }
            return false;
        }
        k = k + 1;
    }
    proof {
        assert(s@.subrange(i as int, i + m) =~= p@);
    }
    true
}

/// Character-wise string equality, exposed as view equality.
#[verifier::loop_isolation(false)]
pub fn str_eq(a: &str, b: &str) -> (r: bool)
    ensures
        r == (a@ == b@),
{
    let n = a.unicode_len();
    if n != b.unicode_len() {
        return false;
    }
    let mut k: usize = 0;
    while k < n
        invariant
            k <= n,
            forall|t: int| 0 <= t < k ==> a@[t] == #[trigger] b@[t],
        decreases n - k,
    {
        if a.get_char(k) != b.get_char(k) {
            return false;
        }
        k = k + 1;
    }
    proof {
        assert(a@ =~= b@);
    }
    true
}

/// Length of `s.take(e)` with trailing whitespace removed.
pub open spec fn trimmed_len(s: Seq<char>, e: int) -> int
    decreases e,
{
    if e <= 0 {
        0
    } else if e - 1 < s.len() && is_space(s[e - 1]) {
        trimmed_len(s, e - 1)
    } else {
        e
    }
}

pub proof fn lemma_trimmed_len(s: Seq<char>, e: int)
    requires
        0 <= e <= s.len(),
    ensures
        0 <= trimmed_len(s, e) <= e,
        trimmed_len(s, e) > 0 ==> !is_space(s[trimmed_len(s, e) - 1]),
        forall|k: int| trimmed_len(s, e) <= k < e ==> is_space(#[trigger] s[k]),
    decreases e,
{
    if e > 0 && is_space(s[e - 1]) {
        lemma_trimmed_len(s, e - 1);
    }
}

/// Length of `s` once trailing whitespace is removed.
#[verifier::loop_isolation(false)]
pub fn trimmed_len_of(s: &str) -> (r: usize)
    ensures
        r == trimmed_len(s@, s@.len() as int),
        r <= s@.len(),
{
    proof {
        lemma_trimmed_len(s@, s@.len() as int);
    }
    let n = s.unicode_len();
    let mut e = n;
    while e > 0
        invariant
            e <= n,
            trimmed_len(s@, n as int) == trimmed_len(s@, e as int),
        decreases e,
    {
        if !is_space_char(s.get_char(e - 1)) {
            return e;
        }
        e = e - 1;
    }
    0
}

} // verus!
