//! Stable sorting by a strict weak order, as `sort_by` does.
use vstd::prelude::*;

verus! {

/// A strict weak order on values: `key_lt` is irreflexive and transitive,
/// and "neither is less" is transitive too.
pub trait SortKey: Sized {
    spec fn key_lt(self, other: Self) -> bool;

    proof fn lemma_irreflexive(a: Self)
        ensures
            !a.key_lt(a),
    ;

    proof fn lemma_transitive(a: Self, b: Self, c: Self)
        requires
            a.key_lt(b),
            b.key_lt(c),
        ensures
            a.key_lt(c),
    ;

    proof fn lemma_ties_transitive(a: Self, b: Self, c: Self)
        requires
            !a.key_lt(b),
            !b.key_lt(a),
            !b.key_lt(c),
            !c.key_lt(b),
        ensures
            !a.key_lt(c),
            !c.key_lt(a),
    ;

    fn less(&self, other: &Self) -> (r: bool)
        ensures
            r == self.key_lt(*other),
    ;
}

/// `a` (originally at `ia`) comes before `b` (originally at `ib`) in a
/// stable sort: it is less, or tied and earlier.
pub open spec fn stable_before<T: SortKey>(a: T, ia: int, b: T, ib: int) -> bool {
    a.key_lt(b) || (!b.key_lt(a) && ia < ib)
}

/// `p` lists each of `0..n` exactly once.
pub open spec fn is_permutation(p: Seq<int>, n: nat) -> bool {
    &&& p.len() == n
    &&& forall|i: int| 0 <= i < n ==> 0 <= #[trigger] p[i] < n
    &&& forall|i: int, j: int| 0 <= i < j < n ==> #[trigger] p[i] != #[trigger] p[j]
    &&& forall|k: int| 0 <= k < n ==> p.contains(k)
}

/// `out` is `v` stably sorted: `v` permuted by `p`, with every earlier
/// element stably before every later one.
pub open spec fn stably_sorted<T: SortKey>(v: Seq<T>, out: Seq<T>, p: Seq<int>) -> bool {
    &&& is_permutation(p, v.len())
    &&& out.len() == v.len()
    &&& forall|i: int| 0 <= i < out.len() ==> #[trigger] out[i] == v[p[i]]
    &&& forall|i: int, j: int|
        0 <= i < j < out.len() ==> stable_before(v[#[trigger] p[i]], p[i], v[#[trigger] p[j]], p[j])
}

/// `v` sorted stably by `key_lt`: elements that tie keep their order.
pub fn stable_sort<T: SortKey>(v: Vec<T>) -> (out: Vec<T>)
    ensures
        exists|p: Seq<int>| stably_sorted(v@, out@, p),
{
    let ghost orig = v@;
    let ghost n = v@.len();
    let mut rest = v;
    let mut out: Vec<T> = Vec::new();
    // original positions of what is left, ascending
    let ghost mut left: Seq<int> = Seq::new(n, |i: int| i);
    // original positions of what was taken, in output order
    let ghost mut taken: Seq<int> = Seq::empty();
    assert forall|k: int| 0 <= k < n implies left.contains(k) by {
        assert(left[k] == k);
    }
    while rest.len() > 0
        invariant
            orig.len() == n,
            left.len() == rest@.len(),
            out@.len() + rest@.len() == n,
            taken.len() == out@.len(),
            forall|i: int| 0 <= i < left.len() ==> 0 <= #[trigger] left[i] < n,
            forall|i: int, j: int| 0 <= i < j < left.len() ==> #[trigger] left[i] < #[trigger] left[j],
            forall|i: int| 0 <= i < rest@.len() ==> #[trigger] rest@[i] == orig[left[i]],
            forall|i: int| 0 <= i < taken.len() ==> 0 <= #[trigger] taken[i] < n,
            forall|i: int, j: int| 0 <= i < j < taken.len() ==> #[trigger] taken[i] != #[trigger] taken[j],
            forall|i: int, j: int|
                0 <= i < taken.len() && 0 <= j < left.len() ==> #[trigger] taken[i]
                    != #[trigger] left[j],
            forall|i: int| 0 <= i < out@.len() ==> #[trigger] out@[i] == orig[taken[i]],
            forall|k: int| 0 <= k < n ==> taken.contains(k) || left.contains(k),
            forall|i: int, j: int|
                0 <= i < j < taken.len() ==> stable_before(
                    orig[#[trigger] taken[i]],
                    taken[i],
                    orig[#[trigger] taken[j]],
                    taken[j],
                ),
            forall|i: int, j: int|
                0 <= i < taken.len() && 0 <= j < left.len() ==> stable_before(
                    orig[#[trigger] taken[i]],
                    taken[i],
                    orig[#[trigger] left[j]],
                    left[j],
                ),
        decreases rest.len(),
    {
        let mut best: usize = 0;
        let mut j: usize = 1;
        proof {
            T::lemma_irreflexive(rest@[0]);
        }
        while j < rest.len()
            invariant
                left.len() == rest@.len(),
                forall|i: int| 0 <= i < rest@.len() ==> #[trigger] rest@[i] == orig[left[i]],
                forall|i: int, k: int| 0 <= i < k < left.len() ==> #[trigger] left[i] < #[trigger] left[k],
                0 <= best < j <= rest@.len(),
                forall|k: int| 0 <= k < j ==> !(#[trigger] rest@[k]).key_lt(rest@[best as int]),
                forall|k: int| 0 <= k < best ==> (#[trigger] rest@[best as int]).key_lt(rest@[k]),
            decreases rest.len() - j,
        {
            if rest[j].less(&rest[best]) {
                proof {
                    let nb = rest@[j as int];
                    assert forall|k: int| 0 <= k < j + 1 implies !(#[trigger] rest@[k]).key_lt(nb) by {
                        if k < j {
                            if rest@[k].key_lt(nb) {
                                T::lemma_transitive(rest@[k], nb, rest@[best as int]);
                            }
                        } else {
                            T::lemma_irreflexive(nb);
                        }
                    }
                    assert forall|k: int| 0 <= k < j implies nb.key_lt(#[trigger] rest@[k]) by {
                        if k < best {
                            T::lemma_transitive(nb, rest@[best as int], rest@[k]);
                        } else if k > best {
                            // rest[k] ties or exceeds best; nb is below best
                            if !nb.key_lt(rest@[k]) {
                                if rest@[k].key_lt(nb) {
                                    T::lemma_transitive(rest@[k], nb, rest@[best as int]);
                                } else {
                                    // rest[k] ties nb; best is above nb, and rest[k] is not below best
                                    if !rest@[best as int].key_lt(rest@[k]) {
                                        T::lemma_ties_transitive(nb, rest@[k], rest@[best as int]);
                                    } else {
                                        T::lemma_transitive(nb, rest@[best as int], rest@[k]);
                                    }
                                }
                            }
                        }
                    }
                }
                best = j;
            } else {
                proof {
                    assert(!rest@[j as int].key_lt(rest@[best as int]));
                }
            }
            j = j + 1;
        }
        proof {
            // the chosen element is stably before every other remaining one
            let b = best as int;
            assert forall|k: int| 0 <= k < left.len() && k != b implies stable_before(
                orig[left[b]],
                left[b],
                orig[#[trigger] left[k]],
                left[k],
            ) by {
                assert(rest@[k] == orig[left[k]]);
                assert(rest@[b] == orig[left[b]]);
                if k < b {
                    assert(rest@[b].key_lt(rest@[k]));
                } else {
                    assert(!rest@[k].key_lt(rest@[b]));
                    assert(left[b] < left[k]);
                }
            }
        }
        let x = rest.remove(best);
        proof {
            let b = best as int;
            let lb = left[b];
            let old_taken = taken;
            let old_left = left;
            taken = taken.push(lb);
            left = left.remove(b);
            assert forall|k: int| 0 <= k < n implies taken.contains(k) || left.contains(k) by {
                if old_taken.contains(k) {
                    let i = choose|i: int| 0 <= i < old_taken.len() && old_taken[i] == k;
                    assert(taken[i] == k);
                } else {
                    let i = choose|i: int| 0 <= i < old_left.len() && old_left[i] == k;
                    if i < b {
                        assert(left[i] == k);
                    } else if i > b {
                        assert(left[i - 1] == k);
                    } else {
                        assert(taken[taken.len() - 1] == k);
                    }
                }
            }
        }
        out.push(x);
    }
    proof {
        assert(stably_sorted(orig, out@, taken));
    }
    out
}

} // verus!
