//! Positions in a sequence at which a predicate holds.

use vstd::prelude::*;

verus! {

/// The positions of `s` at which `f` holds, in increasing order.
pub open spec fn indices_where<T>(s: Seq<T>, f: spec_fn(T) -> bool) -> Seq<int>
    decreases s.len(),
{
    if s.len() == 0 {
        Seq::empty()
    } else {
        let front = indices_where(s.drop_last(), f);
        if f(s.last()) {
            front.push(s.len() - 1)
        } else {
            front
        }
    }
}

/// The elements of `s` at the given positions.
pub open spec fn pick<T>(s: Seq<T>, positions: Seq<int>) -> Seq<T> {
    positions.map_values(|i: int| s[i])
}

/// The elements of `s` for which `f` holds, in their order.
pub open spec fn select<T>(s: Seq<T>, f: spec_fn(T) -> bool) -> Seq<T> {
    pick(s, indices_where(s, f))
}

/// The positions that `indices_where` gives are in range and increasing,
/// and `f` holds at each of them.
pub proof fn lemma_indices_where_sound<T>(s: Seq<T>, f: spec_fn(T) -> bool)
    ensures
        indices_where(s, f).len() <= s.len(),
        forall|k: int|
            0 <= k < indices_where(s, f).len() ==> 0 <= (#[trigger] indices_where(s, f)[k])
                < s.len() && f(s[indices_where(s, f)[k]]),
        forall|k: int, l: int|
            0 <= k < l < indices_where(s, f).len() ==> (#[trigger] indices_where(s, f)[k]) < (
            #[trigger] indices_where(s, f)[l]),
    decreases s.len(),
{
    if s.len() > 0 {
        let front = s.drop_last();
        lemma_indices_where_sound(front, f);
        let r = indices_where(s, f);
        let rf = indices_where(front, f);
        assert forall|k: int| 0 <= k < r.len() implies 0 <= (#[trigger] r[k]) < s.len() && f(
            s[r[k]],
        ) by {
            if k < rf.len() {
                assert(r[k] == rf[k]);
                assert(front[rf[k]] == s[rf[k]]);
            }
        }
        assert forall|k: int, l: int| 0 <= k < l < r.len() implies (#[trigger] r[k]) < (
        #[trigger] r[l]) by {
            if l < rf.len() {
                assert(r[k] == rf[k] && r[l] == rf[l]);
            } else {
                assert(r[k] == rf[k]);
            }
        }
    }
}

/// Every position at which `f` holds is among those that `indices_where`
/// gives.
pub proof fn lemma_indices_where_complete<T>(s: Seq<T>, f: spec_fn(T) -> bool, i: int)
    requires
        0 <= i < s.len(),
        f(s[i]),
    ensures
        indices_where(s, f).contains(i),
    decreases s.len(),
{
    let front = s.drop_last();
    let r = indices_where(s, f);
    if i == s.len() - 1 {
        assert(r[r.len() - 1] == i);
    } else {
        assert(front[i] == s[i]);
        lemma_indices_where_complete(front, f, i);
        let k = choose|k: int|
            0 <= k < indices_where(front, f).len() && indices_where(front, f)[k] == i;
        assert(r[k] == i);
    }
}

/// Where `f` holds nowhere, `indices_where` gives nothing.
pub proof fn lemma_indices_where_none<T>(s: Seq<T>, f: spec_fn(T) -> bool)
    requires
        forall|i: int| 0 <= i < s.len() ==> !f(#[trigger] s[i]),
    ensures
        indices_where(s, f) == Seq::<int>::empty(),
    decreases s.len(),
{
    if s.len() > 0 {
        let front = s.drop_last();
        assert forall|i: int| 0 <= i < front.len() implies !f(#[trigger] front[i]) by {
            assert(front[i] == s[i]);
        }
        lemma_indices_where_none(front, f);
    }
}

/// One more element adds its position where `f` holds of it.
pub proof fn lemma_indices_where_push<T>(s: Seq<T>, f: spec_fn(T) -> bool, x: T)
    ensures
        indices_where(s.push(x), f) == if f(x) {
            indices_where(s, f).push(s.len() as int)
        } else {
            indices_where(s, f)
        },
{
    assert(s.push(x).drop_last() =~= s);
}

/// A change of the elements that `f` does not see leaves the positions at
/// which `f` holds as they are.
pub proof fn lemma_indices_where_map<T>(s: Seq<T>, g: spec_fn(T) -> T, f: spec_fn(T) -> bool)
    requires
        forall|x: T| f(g(x)) == #[trigger] f(x),
    ensures
        indices_where(s.map_values(g), f) == indices_where(s, f),
    decreases s.len(),
{
    if s.len() > 0 {
        assert(s.map_values(g).drop_last() =~= s.drop_last().map_values(g));
        lemma_indices_where_map(s.drop_last(), g, f);
    }
}

/// The positions at which `f` holds depend only on where `f` holds.
pub proof fn lemma_indices_where_same<T>(s: Seq<T>, t: Seq<T>, f: spec_fn(T) -> bool)
    requires
        s.len() == t.len(),
        forall|i: int| 0 <= i < s.len() ==> f(#[trigger] s[i]) == f(t[i]),
    ensures
        indices_where(s, f) == indices_where(t, f),
    decreases s.len(),
{
    if s.len() > 0 {
        assert forall|i: int| 0 <= i < s.drop_last().len() implies f(#[trigger] s.drop_last()[i])
            == f(t.drop_last()[i]) by {
            assert(s.drop_last()[i] == s[i]);
            assert(t.drop_last()[i] == t[i]);
        }
        lemma_indices_where_same(s.drop_last(), t.drop_last(), f);
        assert(f(s[s.len() - 1]) == f(t[s.len() - 1]));
    }
}

/// Where `f` holds at `i` and nowhere before, `i` is the first of the
/// positions at which `f` holds.
pub proof fn lemma_first_index<T>(s: Seq<T>, f: spec_fn(T) -> bool, i: int)
    requires
        0 <= i < s.len(),
        f(s[i]),
        indices_where(s.subrange(0, i), f) == Seq::<int>::empty(),
    ensures
        indices_where(s, f).len() > 0,
        indices_where(s, f)[0] == i,
    decreases s.len() - i,
{
    assert(s.subrange(0, i + 1) =~= s.subrange(0, i).push(s[i]));
    lemma_indices_where_push(s.subrange(0, i), f, s[i]);
    lemma_indices_prefix(s, f, i + 1);
    let mid = indices_where(s.subrange(0, i + 1), f);
    assert(mid[0] == i);
    assert(indices_where(s, f).subrange(0, mid.len() as int)[0] == indices_where(s, f)[0]);
}

/// The positions at which `f` holds in a prefix are the first of those at
/// which it holds in the whole.
pub proof fn lemma_indices_prefix<T>(s: Seq<T>, f: spec_fn(T) -> bool, n: int)
    requires
        0 <= n <= s.len(),
    ensures
        indices_where(s.subrange(0, n), f).len() <= indices_where(s, f).len(),
        indices_where(s, f).subrange(0, indices_where(s.subrange(0, n), f).len() as int)
            == indices_where(s.subrange(0, n), f),
    decreases s.len() - n,
{
    if n == s.len() {
        assert(s.subrange(0, n) =~= s);
        assert(indices_where(s, f).subrange(0, indices_where(s, f).len() as int) =~= indices_where(
            s,
            f,
        ));
    } else {
        lemma_indices_prefix(s, f, n + 1);
        assert(s.subrange(0, n + 1) =~= s.subrange(0, n).push(s[n]));
        lemma_indices_where_push(s.subrange(0, n), f, s[n]);
        let small = indices_where(s.subrange(0, n), f);
        let mid = indices_where(s.subrange(0, n + 1), f);
        let all = indices_where(s, f);
        assert(all.subrange(0, small.len() as int) =~= mid.subrange(0, small.len() as int));
        assert(mid.subrange(0, small.len() as int) =~= small);
    }
}

} // verus!
