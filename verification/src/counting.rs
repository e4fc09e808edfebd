//! Counting and filtering over sequences, with the lemmas the store
//! contracts rely on. `count_where` and `keep_where` are the spec-level
//! companions of the table scans the library performs.
use vstd::prelude::*;

verus! {

/// Number of elements of `s` satisfying `p`.
pub open spec fn count_where<A>(s: Seq<A>, p: spec_fn(A) -> bool) -> int
    decreases s.len(),
{
    if s.len() == 0 {
        0
    } else {
        count_where(s.drop_last(), p) + if p(s.last()) {
            1int
        } else {
            0int
        }
    }
}

/// The subsequence of elements of `s` satisfying `p`, in order.
pub open spec fn keep_where<A>(s: Seq<A>, p: spec_fn(A) -> bool) -> Seq<A>
    decreases s.len(),
{
    if s.len() == 0 {
        Seq::empty()
    } else if p(s.last()) {
        keep_where(s.drop_last(), p).push(s.last())
    } else {
        keep_where(s.drop_last(), p)
    }
}

pub proof fn lemma_count_where_bounds<A>(s: Seq<A>, p: spec_fn(A) -> bool)
    ensures
        0 <= count_where(s, p) <= s.len(),
    decreases s.len(),
{
    if s.len() > 0 {
        lemma_count_where_bounds(s.drop_last(), p);
    }
}

pub proof fn lemma_count_where_push<A>(s: Seq<A>, p: spec_fn(A) -> bool, x: A)
    ensures
        count_where(s.push(x), p) == count_where(s, p) + if p(x) {
            1int
        } else {
            0int
        },
{
    assert(s.push(x).drop_last() =~= s);
    assert(s.push(x).last() == x);
}

pub proof fn lemma_count_where_take_step<A>(s: Seq<A>, p: spec_fn(A) -> bool, i: int)
    requires
        0 <= i < s.len(),
    ensures
        count_where(s.take(i + 1), p) == count_where(s.take(i), p) + if p(s[i]) {
            1int
        } else {
            0int
        },
{
    assert(s.take(i + 1) =~= s.take(i).push(s[i]));
    lemma_count_where_push(s.take(i), p, s[i]);
}

pub proof fn lemma_count_where_take_all<A>(s: Seq<A>, p: spec_fn(A) -> bool)
    ensures
        count_where(s.take(s.len() as int), p) == count_where(s, p),
{
    assert(s.take(s.len() as int) =~= s);
}

pub proof fn lemma_count_where_update<A>(s: Seq<A>, p: spec_fn(A) -> bool, i: int, x: A)
    requires
        0 <= i < s.len(),
    ensures
        count_where(s.update(i, x), p) == count_where(s, p) - (if p(s[i]) {
            1int
        } else {
            0int
        }) + (if p(x) {
            1int
        } else {
            0int
        }),
    decreases s.len(),
{
    if i == s.len() - 1 {
        assert(s.update(i, x).drop_last() =~= s.drop_last());
        assert(s.update(i, x).last() == x);
    } else {
        assert(s.update(i, x).drop_last() =~= s.drop_last().update(i, x));
        assert(s.update(i, x).last() == s.last());
        lemma_count_where_update(s.drop_last(), p, i, x);
    }
}

/// A zero count means no element matches, and a positive count means some
/// element does.
pub proof fn lemma_count_where_zero<A>(s: Seq<A>, p: spec_fn(A) -> bool)
    ensures
        (count_where(s, p) == 0) <==> (forall|i: int| 0 <= i < s.len() ==> !p(s[i])),
    decreases s.len(),
{
    lemma_count_where_bounds(s, p);
    if s.len() > 0 {
        lemma_count_where_zero(s.drop_last(), p);
        lemma_count_where_bounds(s.drop_last(), p);
        if count_where(s, p) == 0 {
            assert(forall|i: int|
                0 <= i < s.len() - 1 ==> s.drop_last()[i] == s[i]);
        } else {
            if p(s.last()) {
            } else {
                let j = choose|i: int| 0 <= i < s.len() - 1 && p(s.drop_last()[i]);
                assert(p(s[j]));
            }
        }
    }
}

/// A match at one position makes the count positive.
pub proof fn lemma_count_where_pos<A>(s: Seq<A>, p: spec_fn(A) -> bool, i: int)
    requires
        0 <= i < s.len(),
        p(s[i]),
    ensures
        count_where(s, p) >= 1,
    decreases s.len(),
{
    lemma_count_where_bounds(s.drop_last(), p);
    if i < s.len() - 1 {
        lemma_count_where_pos(s.drop_last(), p, i);
    }
}

/// Matches at two distinct positions make the count at least two.
pub proof fn lemma_count_where_two<A>(s: Seq<A>, p: spec_fn(A) -> bool, i: int, j: int)
    requires
        0 <= i < j < s.len(),
        p(s[i]),
        p(s[j]),
    ensures
        count_where(s, p) >= 2,
    decreases s.len(),
{
    if j == s.len() - 1 {
        lemma_count_where_pos(s.drop_last(), p, i);
    } else {
        lemma_count_where_two(s.drop_last(), p, i, j);
        lemma_count_where_bounds(s.drop_last(), p);
    }
}

/// If no two positions both match, the count is at most one.
pub proof fn lemma_count_where_unique<A>(s: Seq<A>, p: spec_fn(A) -> bool)
    requires
        forall|i: int, j: int| 0 <= i < j < s.len() ==> !(p(#[trigger] s[i]) && p(#[trigger] s[j])),
    ensures
        count_where(s, p) <= 1,
    decreases s.len(),
{
    if s.len() > 0 {
        assert(forall|i: int| 0 <= i < s.len() - 1 ==> s.drop_last()[i] == s[i]);
        lemma_count_where_unique(s.drop_last(), p);
        if p(s.last()) {
            assert forall|i: int| 0 <= i < s.len() - 1 implies !(p(#[trigger] s.drop_last()[i])) by {
                assert(!(p(s[i]) && p(s[s.len() - 1])));
            }
            lemma_count_where_zero(s.drop_last(), p);
        }
    }
}

/// A full count means every element matches.
pub proof fn lemma_count_where_full<A>(s: Seq<A>, p: spec_fn(A) -> bool)
    ensures
        (count_where(s, p) == s.len()) <==> (forall|i: int| 0 <= i < s.len() ==> p(#[trigger] s[i])),
    decreases s.len(),
{
    lemma_count_where_bounds(s, p);
    if s.len() > 0 {
        lemma_count_where_full(s.drop_last(), p);
        lemma_count_where_bounds(s.drop_last(), p);
        assert(forall|i: int| 0 <= i < s.len() - 1 ==> s.drop_last()[i] == s[i]);
        if count_where(s, p) == s.len() {
            assert(s[s.len() - 1] == s.last());
        } else {
            if !p(s.last()) {
                assert(!p(s[s.len() - 1]));
            } else {
                let j = choose|i: int| 0 <= i < s.len() - 1 && !p(s.drop_last()[i]);
                assert(!p(s[j]));
            }
        }
    }
}

/// Filtering first can only lower a count.
pub proof fn lemma_count_where_keep_le<A>(s: Seq<A>, q: spec_fn(A) -> bool, p: spec_fn(A) -> bool)
    ensures
        count_where(keep_where(s, q), p) <= count_where(s, p),
    decreases s.len(),
{
    if s.len() > 0 {
        lemma_count_where_keep_le(s.drop_last(), q, p);
        if q(s.last()) {
            lemma_count_where_push(keep_where(s.drop_last(), q), p, s.last());
        }
    }
}

pub proof fn lemma_keep_where_push<A>(s: Seq<A>, p: spec_fn(A) -> bool, x: A)
    ensures
        keep_where(s.push(x), p) == if p(x) {
            keep_where(s, p).push(x)
        } else {
            keep_where(s, p)
        },
{
    assert(s.push(x).drop_last() =~= s);
    assert(s.push(x).last() == x);
}

pub proof fn lemma_keep_where_take_step<A>(s: Seq<A>, p: spec_fn(A) -> bool, i: int)
    requires
        0 <= i < s.len(),
    ensures
        keep_where(s.take(i + 1), p) == if p(s[i]) {
            keep_where(s.take(i), p).push(s[i])
        } else {
            keep_where(s.take(i), p)
        },
{
    assert(s.take(i + 1) =~= s.take(i).push(s[i]));
    lemma_keep_where_push(s.take(i), p, s[i]);
}

pub proof fn lemma_keep_where_take_all<A>(s: Seq<A>, p: spec_fn(A) -> bool)
    ensures
        keep_where(s.take(s.len() as int), p) == keep_where(s, p),
{
    assert(s.take(s.len() as int) =~= s);
}

/// Mapping distributes over push.
pub proof fn lemma_map_values_push<A, B>(s: Seq<A>, f: spec_fn(A) -> B, x: A)
    ensures
        s.push(x).map_values(f) == s.map_values(f).push(f(x)),
{
    assert(s.push(x).map_values(f) =~= s.map_values(f).push(f(x)));
}

/// Every kept element matches, and every matching element is kept.
pub proof fn lemma_keep_where_all<A>(s: Seq<A>, p: spec_fn(A) -> bool)
    ensures
        keep_where(s, p).len() == count_where(s, p),
        forall|j: int|
            0 <= j < keep_where(s, p).len() ==> p(#[trigger] keep_where(s, p)[j]),
        forall|i: int|
            0 <= i < s.len() && p(#[trigger] s[i]) ==> keep_where(s, p).contains(s[i]),
        forall|j: int|
            0 <= j < keep_where(s, p).len() ==> s.contains(#[trigger] keep_where(s, p)[j]),
    decreases s.len(),
{
    if s.len() > 0 {
        lemma_keep_where_all(s.drop_last(), p);
        assert(forall|i: int|
            0 <= i < s.len() - 1 ==> s.drop_last()[i] == s[i]);
        assert(forall|i: int|
            0 <= i < s.len() && p(#[trigger] s[i]) ==> keep_where(s, p).contains(s[i])) by {
            assert forall|i: int|
                0 <= i < s.len() && p(#[trigger] s[i]) implies keep_where(s, p).contains(s[i]) by {
                if i < s.len() - 1 {
                    let k = choose|k: int|
                        0 <= k < keep_where(s.drop_last(), p).len() && keep_where(
                            s.drop_last(),
                            p,
                        )[k] == s[i];
                    assert(keep_where(s, p)[k] == s[i]);
                } else {
                    assert(keep_where(s, p).last() == s[i]);
                }
            }
        }
        assert forall|j: int|
            0 <= j < keep_where(s, p).len() implies s.contains(#[trigger] keep_where(s, p)[j]) by {
            if p(s.last()) && j == keep_where(s, p).len() - 1 {
                assert(keep_where(s, p)[j] == s[s.len() - 1]);
            } else {
                assert(keep_where(s, p)[j] == keep_where(s.drop_last(), p)[j]);
                let k = choose|k: int|
                    0 <= k < s.drop_last().len() && s.drop_last()[k] == keep_where(
                        s.drop_last(),
                        p,
                    )[j];
                assert(s[k] == keep_where(s, p)[j]);
            }
        }
    }
}

} // verus!
