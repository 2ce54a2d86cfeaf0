//! Strictly increasing lists of ids: what sorting and deduplicating gives.
use vstd::prelude::*;

verus! {

pub open spec fn strictly_increasing(v: Seq<usize>) -> bool {
    forall|i: int, j: int| 0 <= i < j < v.len() ==> v[i] < v[j]
}

/// `v` with `x` put in its place, where `v` is strictly increasing; `v`
/// itself where it already holds `x`.
pub open spec fn insert_sorted(v: Seq<usize>, x: usize) -> Seq<usize>
    decreases v.len(),
{
    if v.len() == 0 {
        seq![x]
    } else if v.last() < x {
        v.push(x)
    } else if v.last() == x {
        v
    } else {
        insert_sorted(v.drop_last(), x).push(v.last())
    }
}

/// The ids of `s` in increasing order, each once (`sort_unstable` then `dedup`).
pub open spec fn sort_unique(s: Seq<usize>) -> Seq<usize>
    decreases s.len(),
{
    if s.len() == 0 {
        Seq::<usize>::empty()
    } else {
        insert_sorted(sort_unique(s.drop_last()), s.last())
    }
}

proof fn lemma_insert_at(v: Seq<usize>, x: usize, i: int)
    requires
        strictly_increasing(v),
        0 <= i <= v.len(),
        forall|k: int| 0 <= k < i ==> v[k] < x,
        forall|k: int| i <= k < v.len() ==> v[k] > x,
    ensures
        insert_sorted(v, x) == v.take(i).push(x) + v.skip(i),
    decreases v.len(),
{
    if v.len() == 0 {
        assert(v.take(i).push(x) + v.skip(i) =~= seq![x]);
    } else if v.last() < x {
        assert(i == v.len());
        assert(v.take(i).push(x) + v.skip(i) =~= v.push(x));
    } else {
        let w = v.drop_last();
        lemma_insert_at(w, x, i);
        assert(insert_sorted(v, x) =~= v.take(i).push(x) + v.skip(i));
    }
}

proof fn lemma_insert_present(v: Seq<usize>, x: usize, i: int)
    requires
        strictly_increasing(v),
        0 <= i < v.len(),
        v[i] == x,
    ensures
        insert_sorted(v, x) == v,
    decreases v.len(),
{
    if v.last() != x {
        assert(v.last() > x);
        let w = v.drop_last();
        lemma_insert_present(w, x, i);
        assert(insert_sorted(v, x) =~= v);
    }
}

pub proof fn lemma_insert_sorted(v: Seq<usize>, x: usize)
    requires
        strictly_increasing(v),
    ensures
        strictly_increasing(insert_sorted(v, x)),
        forall|y: usize| #[trigger] insert_sorted(v, x).contains(y) <==> (v.contains(y) || y == x),
{
    if v.contains(x) {
        let i = choose|i: int| 0 <= i < v.len() && v[i] == x;
        lemma_insert_present(v, x, i);
    } else {
        let i = choose_insert_index(v, x);
        lemma_insert_at(v, x, i);
        let r = v.take(i).push(x) + v.skip(i);
        assert forall|a: int, b: int| 0 <= a < b < r.len() implies r[a] < r[b] by {
            if b < i {
                assert(r[a] == v[a] && r[b] == v[b]);
            } else if b == i {
                assert(r[a] == v[a]);
            } else if a < i {
                assert(r[a] == v[a] && r[b] == v[b - 1]);
            } else if a == i {
                assert(r[b] == v[b - 1]);
            } else {
                assert(r[a] == v[a - 1] && r[b] == v[b - 1]);
            }
        }
        assert forall|y: usize| #[trigger] r.contains(y) <==> (v.contains(y) || y == x) by {
            if r.contains(y) {
                let k = choose|k: int| 0 <= k < r.len() && r[k] == y;
                if k < i {
                    assert(v[k] == y);
                } else if k > i {
                    assert(v[k - 1] == y);
                }
            }
            if v.contains(y) {
                let k = choose|k: int| 0 <= k < v.len() && v[k] == y;
                if k < i {
                    assert(r[k] == y);
                } else {
                    assert(r[k + 1] == y);
                }
            }
            if y == x {
                assert(r[i] == y);
            }
        }
    }
}

/// Where `x` goes in a strictly increasing `v` that lacks it.
proof fn choose_insert_index(v: Seq<usize>, x: usize) -> (i: int)
    requires
        strictly_increasing(v),
        !v.contains(x),
    ensures
        0 <= i <= v.len(),
        forall|k: int| 0 <= k < i ==> v[k] < x,
        forall|k: int| i <= k < v.len() ==> v[k] > x,
    decreases v.len(),
{
    if v.len() == 0 {
        0
    } else if v.last() < x {
        v.len() as int
    } else {
        let w = v.drop_last();
        assert(!w.contains(x)) by {
            if w.contains(x) {
                let k = choose|k: int| 0 <= k < w.len() && w[k] == x;
                assert(v[k] == x);
            }
        }
        assert(v.last() != x) by {
            assert(v[v.len() - 1] == v.last());
        }
        assert(strictly_increasing(w)) by {
            assert forall|a: int, b: int| 0 <= a < b < w.len() implies w[a] < w[b] by {
                assert(w[a] == v[a] && w[b] == v[b]);
            }
        }
        let i = choose_insert_index(w, x);
        assert forall|k: int| 0 <= k < i implies v[k] < x by {
            assert(v[k] == w[k]);
        }
        assert forall|k: int| i <= k < v.len() implies v[k] > x by {
            if k < v.len() - 1 {
                assert(v[k] == w[k]);
            }
        }
        i
    }
}

pub proof fn lemma_sort_unique(s: Seq<usize>)
    ensures
        strictly_increasing(sort_unique(s)),
        forall|y: usize| #[trigger] sort_unique(s).contains(y) <==> s.contains(y),
    decreases s.len(),
{
    if s.len() > 0 {
        lemma_sort_unique(s.drop_last());
        lemma_insert_sorted(sort_unique(s.drop_last()), s.last());
        assert forall|y: usize| #[trigger] sort_unique(s).contains(y) <==> s.contains(y) by {
            if s.drop_last().contains(y) {
                let k = choose|k: int| 0 <= k < s.drop_last().len() && s.drop_last()[k] == y;
                assert(s[k] == y);
            }
            if s.contains(y) && y != s.last() {
                let k = choose|k: int| 0 <= k < s.len() && s[k] == y;
                assert(k != s.len() - 1);
                assert(s.drop_last()[k] == y);
            }
        }
    }
}

/// Puts `x` in its place in the strictly increasing `v`, unless `v` holds it.
pub fn insert_sorted_unique(v: &mut Vec<usize>, x: usize)
    requires
        strictly_increasing(old(v)@),
    ensures
        final(v)@ == insert_sorted(old(v)@, x),
        strictly_increasing(final(v)@),
{
    proof {
        lemma_insert_sorted(v@, x);
    }
    let n = v.len();
    let mut i = n;
    while i > 0 && v[i - 1] > x
        invariant
            i <= n == v@.len(),
            strictly_increasing(v@),
            forall|k: int| i <= k < n ==> v@[k] > x,
        decreases i,
    {
        i = i - 1;
    }
    if i > 0 && v[i - 1] == x {
        proof {
            lemma_insert_present(v@, x, i - 1);
        }
        return ;
    }
    proof {
        lemma_insert_at(v@, x, i as int);
    }
    v.insert(i, x);
    assert(v@ =~= old(v)@.take(i as int).push(x) + old(v)@.skip(i as int));
}

} // verus!
