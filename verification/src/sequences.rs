//! Sequence lemmas shared by the fix engine: a deterministic stable
//! insertion-sort specification, and counting lemmas about `Seq::filter`
//! used to relate the engine's output records to its input records.

use vstd::prelude::*;

verus! {

/// The sequence is ascending under `key`; equal keys are allowed.
pub open spec fn sorted_by<A>(s: Seq<A>, key: spec_fn(A) -> int) -> bool {
    forall|i: int, j: int|
        0 <= i < j < s.len() ==> #[trigger] key(s[i]) <= #[trigger] key(s[j])
}

/// `x` placed after every element of `s` whose key is at most `key(x)`.
/// On a sorted sequence this is one step of a stable insertion sort.
pub open spec fn insert_sorted<A>(s: Seq<A>, x: A, key: spec_fn(A) -> int) -> Seq<A>
    decreases s.len(),
{
    if s.len() == 0 {
        seq![x]
    } else if key(s.last()) <= key(x) {
        s.push(x)
    } else {
        insert_sorted(s.drop_last(), x, key).push(s.last())
    }
}

/// Stable sort by `key`: elements with equal keys keep their input order,
/// because `insert_sorted` inserts after every equal key.
pub open spec fn stable_sort<A>(s: Seq<A>, key: spec_fn(A) -> int) -> Seq<A>
    decreases s.len(),
{
    if s.len() == 0 {
        Seq::<A>::empty()
    } else {
        insert_sorted(stable_sort(s.drop_last(), key), s.last(), key)
    }
}

pub proof fn lemma_insert_sorted_len<A>(s: Seq<A>, x: A, key: spec_fn(A) -> int)
    ensures
        insert_sorted(s, x, key).len() == s.len() + 1,
    decreases s.len(),
{
    if s.len() > 0 && !(key(s.last()) <= key(x)) {
        lemma_insert_sorted_len(s.drop_last(), x, key);
    }
}

pub proof fn lemma_stable_sort_len<A>(s: Seq<A>, key: spec_fn(A) -> int)
    ensures
        stable_sort(s, key).len() == s.len(),
    decreases s.len(),
{
    if s.len() > 0 {
        lemma_stable_sort_len(s.drop_last(), key);
        lemma_insert_sorted_len(stable_sort(s.drop_last(), key), s.last(), key);
    }
}

pub proof fn lemma_insert_sorted_sorted<A>(s: Seq<A>, x: A, key: spec_fn(A) -> int)
    requires
        sorted_by(s, key),
    ensures
        sorted_by(insert_sorted(s, x, key), key),
        insert_sorted(s, x, key).len() > 0,
        key(insert_sorted(s, x, key).last()) == if s.len() > 0 && key(s.last()) > key(x) {
            key(s.last())
        } else {
            key(x)
        },
    decreases s.len(),
{
    lemma_insert_sorted_len(s, x, key);
    if s.len() == 0 {
        assert(insert_sorted(s, x, key) =~= seq![x]);
    } else if key(s.last()) <= key(x) {
        let t = s.push(x);
        assert forall|i: int, j: int| 0 <= i < j < t.len() implies #[trigger] key(t[i])
            <= #[trigger] key(t[j]) by {
            if j < s.len() {
                assert(key(s[i]) <= key(s[j]));
            } else {
                if i < s.len() - 1 {
                    assert(key(s[i]) <= key(s.last()));
                }
            }
        }
    } else {
        assert(sorted_by(s.drop_last(), key));
        lemma_insert_sorted_sorted(s.drop_last(), x, key);
        let u = insert_sorted(s.drop_last(), x, key);
        let t = u.push(s.last());
        assert(insert_sorted(s, x, key) == t);
        assert forall|i: int, j: int| 0 <= i < j < t.len() implies #[trigger] key(t[i])
            <= #[trigger] key(t[j]) by {
            if j < u.len() {
                assert(key(u[i]) <= key(u[j]));
            } else {
                // every element of u has key at most key(s.last())
                if i < u.len() {
                    if i < u.len() - 1 {
                        assert(key(u[i]) <= key(u.last()));
                    }
                    if s.len() >= 2 {
                        assert(key(s[s.len() - 2]) <= key(s.last()));
                    }
                }
            }
        }
    }
}

pub proof fn lemma_stable_sort_sorted<A>(s: Seq<A>, key: spec_fn(A) -> int)
    ensures
        sorted_by(stable_sort(s, key), key),
    decreases s.len(),
{
    if s.len() > 0 {
        lemma_stable_sort_sorted(s.drop_last(), key);
        lemma_insert_sorted_sorted(stable_sort(s.drop_last(), key), s.last(), key);
    }
}

/// Where the keys split at `p`, inserting is slicing around `x`.
pub proof fn lemma_insert_sorted_split<A>(s: Seq<A>, x: A, key: spec_fn(A) -> int, p: int)
    requires
        sorted_by(s, key),
        0 <= p <= s.len(),
        forall|i: int| 0 <= i < p ==> key(#[trigger] s[i]) <= key(x),
        forall|i: int| p <= i < s.len() ==> key(#[trigger] s[i]) > key(x),
    ensures
        insert_sorted(s, x, key) == s.subrange(0, p) + seq![x] + s.subrange(p, s.len() as int),
    decreases s.len(),
{
    if s.len() == 0 {
        assert(insert_sorted(s, x, key) =~= s.subrange(0, 0) + seq![x] + s.subrange(0, 0));
    } else if key(s.last()) <= key(x) {
        assert(p == s.len());
        assert(insert_sorted(s, x, key) =~= s.subrange(0, p) + seq![x] + s.subrange(
            p,
            s.len() as int,
        ));
    } else {
        assert(p < s.len());
        assert(sorted_by(s.drop_last(), key));
        lemma_insert_sorted_split(s.drop_last(), x, key, p);
        assert(insert_sorted(s, x, key) =~= s.subrange(0, p) + seq![x] + s.subrange(
            p,
            s.len() as int,
        ));
    }
}

/// Sorting an already sorted sequence changes nothing.
pub proof fn lemma_stable_sort_of_sorted<A>(s: Seq<A>, key: spec_fn(A) -> int)
    requires
        sorted_by(s, key),
    ensures
        stable_sort(s, key) == s,
    decreases s.len(),
{
    if s.len() > 0 {
        assert(sorted_by(s.drop_last(), key));
        lemma_stable_sort_of_sorted(s.drop_last(), key);
        assert forall|i: int| 0 <= i < s.drop_last().len() implies key(
            #[trigger] s.drop_last()[i],
        ) <= key(s.last()) by {
            assert(key(s[i]) <= key(s[s.len() - 1]));
        }
        lemma_insert_sorted_split(s.drop_last(), s.last(), key, s.drop_last().len() as int);
        assert(stable_sort(s, key) =~= s);
    }
}

/// A property of every element carries over to any filtered subsequence.
pub proof fn lemma_filter_preserves_forall<A>(
    s: Seq<A>,
    pred: spec_fn(A) -> bool,
    prop: spec_fn(A) -> bool,
)
    requires
        forall|i: int| 0 <= i < s.len() ==> prop(#[trigger] s[i]),
    ensures
        forall|j: int| 0 <= j < s.filter(pred).len() ==> prop(#[trigger] s.filter(pred)[j]),
    decreases s.len(),
{
    reveal(Seq::filter);
    if s.len() > 0 {
        lemma_filter_preserves_forall(s.drop_last(), pred, prop);
        let sub = s.drop_last().filter(pred);
        assert forall|j: int| 0 <= j < s.filter(pred).len() implies prop(
            #[trigger] s.filter(pred)[j],
        ) by {
            if pred(s.last()) {
                assert(s.filter(pred) == sub.push(s.last()));
                if j < sub.len() {
                    assert(prop(sub[j]));
                } else {
                    assert(prop(s[s.len() - 1]));
                }
            } else {
                assert(s.filter(pred) == sub);
                assert(prop(sub[j]));
            }
        }
    } else {
        assert(s.filter(pred).len() == 0);
    }
}

/// Filtering by a predicate every element satisfies changes nothing.
pub proof fn lemma_filter_all_id<A>(s: Seq<A>, pred: spec_fn(A) -> bool)
    requires
        forall|i: int| 0 <= i < s.len() ==> pred(#[trigger] s[i]),
    ensures
        s.filter(pred) == s,
    decreases s.len(),
{
    reveal(Seq::filter);
    if s.len() > 0 {
        lemma_filter_all_id(s.drop_last(), pred);
        assert(s.filter(pred) =~= s);
    } else {
        assert(s.filter(pred) =~= s);
    }
}

/// One matching element keeps the filter non-empty.
pub proof fn lemma_filter_one<A>(s: Seq<A>, pred: spec_fn(A) -> bool, i: int)
    requires
        0 <= i < s.len(),
        pred(s[i]),
    ensures
        s.filter(pred).len() >= 1,
    decreases s.len(),
{
    reveal(Seq::filter);
    if i < s.len() - 1 {
        lemma_filter_one(s.drop_last(), pred, i);
    }
}

/// Two matching elements keep at least two in the filter.
pub proof fn lemma_filter_two<A>(s: Seq<A>, pred: spec_fn(A) -> bool, i: int, j: int)
    requires
        0 <= i < j < s.len(),
        pred(s[i]),
        pred(s[j]),
    ensures
        s.filter(pred).len() >= 2,
    decreases s.len(),
{
    reveal(Seq::filter);
    if j == s.len() - 1 {
        lemma_filter_one(s.drop_last(), pred, i);
    } else {
        lemma_filter_two(s.drop_last(), pred, i, j);
    }
}

/// A non-empty filter exhibits a matching element.
pub proof fn lemma_filter_nonempty<A>(s: Seq<A>, pred: spec_fn(A) -> bool) -> (w: int)
    requires
        s.filter(pred).len() >= 1,
    ensures
        0 <= w < s.len() && pred(s[w]),
    decreases s.len(),
{
    reveal(Seq::filter);
    if pred(s.last()) {
        s.len() - 1
    } else {
        lemma_filter_nonempty(s.drop_last(), pred)
    }
}

/// Unfolding step for `filter` on a pushed element.
pub proof fn lemma_filter_push<A>(s: Seq<A>, x: A, pred: spec_fn(A) -> bool)
    ensures
        s.push(x).filter(pred) == if pred(x) {
            s.filter(pred).push(x)
        } else {
            s.filter(pred)
        },
{
    reveal(Seq::filter);
    assert(s.push(x).drop_last() =~= s);
    assert(s.push(x).last() == x);
}

/// Inserting one element changes any filter count by that element alone.
pub proof fn lemma_insert_sorted_filter_len<A>(
    s: Seq<A>,
    x: A,
    key: spec_fn(A) -> int,
    pred: spec_fn(A) -> bool,
)
    ensures
        insert_sorted(s, x, key).filter(pred).len() == s.filter(pred).len() + if pred(x) {
            1int
        } else {
            0int
        },
    decreases s.len(),
{
    reveal(Seq::filter);
    if s.len() == 0 {
        assert(insert_sorted(s, x, key) =~= Seq::<A>::empty().push(x));
        lemma_filter_push(Seq::<A>::empty(), x, pred);
        assert(Seq::<A>::empty().filter(pred).len() == 0);
    } else if key(s.last()) <= key(x) {
        lemma_filter_push(s, x, pred);
    } else {
        lemma_insert_sorted_filter_len(s.drop_last(), x, key, pred);
        lemma_filter_push(insert_sorted(s.drop_last(), x, key), s.last(), pred);
        // relate s.filter to s.drop_last().filter
        assert(s.drop_last().push(s.last()) =~= s);
        lemma_filter_push(s.drop_last(), s.last(), pred);
    }
}

/// Sorting does not change how many elements satisfy a predicate.
pub proof fn lemma_stable_sort_filter_len<A>(
    s: Seq<A>,
    key: spec_fn(A) -> int,
    pred: spec_fn(A) -> bool,
)
    ensures
        stable_sort(s, key).filter(pred).len() == s.filter(pred).len(),
    decreases s.len(),
{
    reveal(Seq::filter);
    if s.len() > 0 {
        lemma_stable_sort_filter_len(s.drop_last(), key, pred);
        lemma_insert_sorted_filter_len(stable_sort(s.drop_last(), key), s.last(), key, pred);
        assert(s.drop_last().push(s.last()) =~= s);
        lemma_filter_push(s.drop_last(), s.last(), pred);
    }
}

/// If two equally long sequences satisfy `pred` pointwise equally, their
/// filter counts agree.
pub proof fn lemma_filter_len_pointwise_iff<A>(
    s1: Seq<A>,
    s2: Seq<A>,
    pred: spec_fn(A) -> bool,
)
    requires
        s1.len() == s2.len(),
        forall|i: int| 0 <= i < s1.len() ==> (pred(#[trigger] s1[i]) <==> pred(#[trigger] s2[i])),
    ensures
        s1.filter(pred).len() == s2.filter(pred).len(),
    decreases s1.len(),
{
    reveal(Seq::filter);
    if s1.len() > 0 {
        lemma_filter_len_pointwise_iff(s1.drop_last(), s2.drop_last(), pred);
    }
}

/// If satisfying `pred` in `s1` implies satisfying it at the same position
/// in `s2`, the filter count of `s1` is at most that of `s2`.
pub proof fn lemma_filter_len_pointwise_implies<A>(
    s1: Seq<A>,
    s2: Seq<A>,
    pred: spec_fn(A) -> bool,
)
    requires
        s1.len() == s2.len(),
        forall|i: int| 0 <= i < s1.len() ==> (pred(#[trigger] s1[i]) ==> pred(#[trigger] s2[i])),
    ensures
        s1.filter(pred).len() <= s2.filter(pred).len(),
    decreases s1.len(),
{
    reveal(Seq::filter);
    if s1.len() > 0 {
        lemma_filter_len_pointwise_implies(s1.drop_last(), s2.drop_last(), pred);
    }
}

/// Filtering first can only lower any other filter count.
pub proof fn lemma_filter_filter_le<A>(s: Seq<A>, keep: spec_fn(A) -> bool, pred: spec_fn(A) -> bool)
    ensures
        s.filter(keep).filter(pred).len() <= s.filter(pred).len(),
    decreases s.len(),
{
    reveal(Seq::filter);
    if s.len() > 0 {
        lemma_filter_filter_le(s.drop_last(), keep, pred);
        assert(s.drop_last().push(s.last()) =~= s);
        lemma_filter_push(s.drop_last(), s.last(), pred);
        lemma_filter_push(s.drop_last(), s.last(), keep);
        if keep(s.last()) {
            lemma_filter_push(s.drop_last().filter(keep), s.last(), pred);
        }
    }
}

/// A filtered subsequence of a sorted sequence is sorted, and its last
/// element's key is bounded by the key of the source's last element.
pub proof fn lemma_filter_sorted<A>(s: Seq<A>, key: spec_fn(A) -> int, pred: spec_fn(A) -> bool)
    requires
        sorted_by(s, key),
    ensures
        sorted_by(s.filter(pred), key),
        s.filter(pred).len() > 0 ==> s.len() > 0 && key(s.filter(pred).last()) <= key(s.last()),
    decreases s.len(),
{
    reveal(Seq::filter);
    if s.len() > 0 {
        assert(sorted_by(s.drop_last(), key));
        lemma_filter_sorted(s.drop_last(), key, pred);
        let f = s.drop_last().filter(pred);
        if s.len() >= 2 {
            assert(key(s[s.len() - 2]) <= key(s.last()));
        }
        if pred(s.last()) {
            let t = f.push(s.last());
            assert(s.filter(pred) == t);
            assert forall|i: int, j: int| 0 <= i < j < t.len() implies #[trigger] key(t[i])
                <= #[trigger] key(t[j]) by {
                if j < f.len() {
                    assert(key(f[i]) <= key(f[j]));
                } else if i < f.len() {
                    if i < f.len() - 1 {
                        assert(key(f[i]) <= key(f.last()));
                    }
                }
            }
        }
    }
}

} // verus!
