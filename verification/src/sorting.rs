//! A stable sort by a "comes before" relation, and what it means for a
//! sequence to be the stable sort of another.
//!
//! The home shelves and the library tabs both rank tiles by several keys and
//! rely on ties keeping the order the tiles arrived in, so the property is
//! stated once here and each ordering supplies its relation.

use vstd::prelude::*;

use vstd::relations::{sorted_by, total_ordering};
use vstd::seq_lib::lemma_sorted_unique;
use vstd::set_lib::{lemma_int_range, lemma_subset_equality, set_int_range};

verus! {

/// `before` is a strict weak order: nothing comes before itself, "before"
/// chains, and "not before" chains, so the ties form classes.
pub open spec fn strict_weak<T>(before: spec_fn(T, T) -> bool) -> bool {
    &&& forall|a: T| !#[trigger] before(a, a)
    &&& forall|a: T, b: T, c: T|
        #[trigger] before(a, b) && #[trigger] before(b, c) ==> before(a, c)
    &&& forall|a: T, b: T, c: T|
        !#[trigger] before(a, b) && !#[trigger] before(b, c) ==> !before(a, c)
}

/// `p` lists each of the positions `0..n` once.
pub open spec fn is_permutation(p: Seq<int>, n: int) -> bool {
    &&& p.len() == n
    &&& forall|k: int| 0 <= k < n ==> 0 <= #[trigger] p[k] < n
    &&& forall|k: int, l: int| 0 <= k < l < n ==> #[trigger] p[k] != #[trigger] p[l]
}

/// `out` is `input` reordered by `p`, with nothing placed after something it
/// comes before, and tied items in the order they arrived.
pub open spec fn sorted_by_with<T>(
    out: Seq<T>,
    input: Seq<T>,
    p: Seq<int>,
    before: spec_fn(T, T) -> bool,
) -> bool {
    &&& out.len() == input.len()
    &&& is_permutation(p, input.len() as int)
    &&& forall|k: int| 0 <= k < out.len() ==> #[trigger] out[k] == input[p[k]]
    &&& forall|k: int, l: int|
        0 <= k < l < out.len() ==> !before(#[trigger] out[l], #[trigger] out[k]) && (!before(
            out[k],
            out[l],
        ) ==> p[k] < p[l])
}

/// `out` is the stable sort of `input` by `before`.
pub open spec fn is_stable_sort<T>(out: Seq<T>, input: Seq<T>, before: spec_fn(T, T) -> bool) -> bool {
    exists|p: Seq<int>| sorted_by_with(out, input, p, before)
}

/// Where the item first at input position `i` goes relative to the one at
/// `j` in a stable sort: before it when it comes before it, or when neither
/// comes before the other and it arrived first.
pub open spec fn placed_before<T>(input: Seq<T>, before: spec_fn(T, T) -> bool, i: int, j: int) -> bool {
    before(input[i], input[j]) || (!before(input[j], input[i]) && i < j)
}

/// [`placed_before`], or the same position.
pub open spec fn placed_no_later<T>(input: Seq<T>, before: spec_fn(T, T) -> bool) -> spec_fn(
    int,
    int,
) -> bool {
    |i: int, j: int| i == j || placed_before(input, before, i, j)
}

proof fn lemma_placement_is_total<T>(input: Seq<T>, before: spec_fn(T, T) -> bool)
    requires
        strict_weak(before),
    ensures
        total_ordering(placed_no_later(input, before)),
{
    let r = placed_no_later(input, before);
    assert forall|i: int, j: int| #[trigger] r(i, j) && #[trigger] r(j, i) implies i == j by {
        if i != j {
            let (a, b) = (input[i], input[j]);
            if before(a, b) && before(b, a) {
                assert(before(a, a));
            }
        }
    }
    assert forall|i: int, j: int, k: int| #[trigger] r(i, j) && #[trigger] r(j, k) implies r(
        i,
        k,
    ) by {
        let (a, b, c) = (input[i], input[j], input[k]);
        if i != j && j != k && i != k {
            if before(a, b) && before(b, c) {
            } else if before(a, b) {
                if !before(a, c) {
                    assert(!before(a, c) && !before(c, b) ==> !before(a, b));
                }
            } else if before(b, c) {
                if !before(a, c) {
                    assert(!before(b, a) && !before(a, c) ==> !before(b, c));
                }
            } else {
                assert(!before(c, b) && !before(b, a) ==> !before(c, a));
            }
        }
    }
    assert forall|i: int, j: int| #[trigger] r(i, j) || #[trigger] r(j, i) by {
        if i != j {
            let (a, b) = (input[i], input[j]);
            if !before(a, b) && !before(b, a) {
            }
        }
    }
}

proof fn lemma_permutation_covers(p: Seq<int>, n: int)
    requires
        is_permutation(p, n),
        n >= 0,
    ensures
        p.to_set() == set_int_range(0, n),
        p.no_duplicates(),
{
    assert(p.no_duplicates()) by {
        assert forall|i: int, j: int| 0 <= i < p.len() && 0 <= j < p.len() && i != j implies p[i]
            != p[j] by {
            if i < j {
                assert(p[i] != p[j]);
            } else {
                assert(p[j] != p[i]);
            }
        }
    }
    p.unique_seq_to_set();
    lemma_int_range(0, n);
    assert(p.to_set().subset_of(set_int_range(0, n))) by {
        assert forall|v: int| #[trigger] p.to_set().contains(v) implies set_int_range(0, n).contains(
            v,
        ) by {
            let k = choose|k: int| 0 <= k < p.len() && p[k] == v;
            assert(0 <= p[k] < n);
        }
    }
    lemma_subset_equality(p.to_set(), set_int_range(0, n));
}

proof fn lemma_placed_in_order<T>(out: Seq<T>, input: Seq<T>, p: Seq<int>, before: spec_fn(T, T) -> bool)
    requires
        sorted_by_with(out, input, p, before),
    ensures
        sorted_by(p, placed_no_later(input, before)),
{
    let r = placed_no_later(input, before);
    assert forall|k: int, l: int| 0 <= k < l < p.len() implies #[trigger] r(p[k], p[l]) by {
        assert(out[k] == input[p[k]]);
        assert(out[l] == input[p[l]]);
        assert(!before(out[l], out[k]));
    }
}

/// A stable sort is determined: two stable sorts of the same items by the
/// same strict weak order are the same sequence.
pub proof fn stable_sort_is_unique<T>(
    x: Seq<T>,
    y: Seq<T>,
    input: Seq<T>,
    before: spec_fn(T, T) -> bool,
)
    requires
        strict_weak(before),
        is_stable_sort(x, input, before),
        is_stable_sort(y, input, before),
    ensures
        x == y,
{
    broadcast use vstd::seq_lib::group_to_multiset_ensures;
    broadcast use vstd::multiset::group_multiset_axioms;

    let p = choose|p: Seq<int>| sorted_by_with(x, input, p, before);
    let q = choose|q: Seq<int>| sorted_by_with(y, input, q, before);
    let n = input.len() as int;
    lemma_permutation_covers(p, n);
    lemma_permutation_covers(q, n);
    p.lemma_multiset_has_no_duplicates();
    q.lemma_multiset_has_no_duplicates();
    assert(p.to_multiset() =~= q.to_multiset()) by {
        assert forall|v: int| #[trigger] p.to_multiset().count(v) == q.to_multiset().count(v) by {
            assert(p.to_set().contains(v) == p.contains(v));
            assert(q.to_set().contains(v) == q.contains(v));
        }
    }
    lemma_placement_is_total(input, before);
    lemma_placed_in_order(x, input, p, before);
    lemma_placed_in_order(y, input, q, before);
    lemma_sorted_unique(p, q, placed_no_later(input, before));
    assert forall|k: int| 0 <= k < x.len() implies #[trigger] x[k] == y[k] by {
        assert(x[k] == input[p[k]]);
        assert(y[k] == input[q[k]]);
    }
    assert(x =~= y);
}

/// Insertion sort: each item goes after everything it does not come before,
/// which is what keeps ties in arrival order.
pub(crate) fn sort_stably<T, F: Fn(&T, &T) -> bool>(
    items: Vec<T>,
    precedes: F,
    Ghost(before): Ghost<spec_fn(T, T) -> bool>,
) -> (out: Vec<T>)
    requires
        strict_weak(before),
        forall|a: &T, b: &T| #[trigger] precedes.requires((a, b)),
        forall|a: &T, b: &T, r: bool| precedes.ensures((a, b), r) ==> r == before(*a, *b),
    ensures
        is_stable_sort(out@, items@, before),
{
    let ghost input = items@;
    let ghost n = items@.len() as int;
    assert(n <= usize::MAX) by {
        assert(items@.len() == items.len());
    }
    let mut rest = items;
    let mut out: Vec<T> = Vec::new();
    let ghost mut p: Seq<int> = Seq::empty();
    let mut i: usize = 0;
    while rest.len() > 0
        invariant
            strict_weak(before),
            forall|a: &T, b: &T| #[trigger] precedes.requires((a, b)),
            forall|a: &T, b: &T, r: bool| precedes.ensures((a, b), r) ==> r == before(*a, *b),
            n == input.len(),
            n <= usize::MAX,
            i + rest@.len() == n,
            rest@ == input.subrange(i as int, n),
            out@.len() == i,
            p.len() == i,
            forall|k: int| 0 <= k < i ==> 0 <= #[trigger] p[k] < i,
            forall|k: int, l: int| 0 <= k < l < i ==> #[trigger] p[k] != #[trigger] p[l],
            forall|k: int| 0 <= k < i ==> #[trigger] out@[k] == input[p[k]],
            forall|k: int, l: int|
                0 <= k < l < i ==> !before(#[trigger] out@[l], #[trigger] out@[k]) && (!before(
                    out@[k],
                    out@[l],
                ) ==> p[k] < p[l]),
        decreases rest@.len(),
    {
        let x = rest.remove(0);
        assert(x == input[i as int]);
        let mut j: usize = out.len();
        while j > 0 && precedes(&x, &out[j - 1])
            invariant
                forall|a: &T, b: &T| #[trigger] precedes.requires((a, b)),
                forall|a: &T, b: &T, r: bool| precedes.ensures((a, b), r) ==> r == before(*a, *b),
                j <= out@.len(),
                forall|l: int| j <= l < out@.len() ==> before(x, #[trigger] out@[l]),
            decreases j,
        {
            j -= 1;
        }
        let ghost old_out = out@;
        let ghost old_p = p;
        proof {
            // Everything left of the gap is not after `x`.
            assert forall|k: int| 0 <= k < j implies !before(x, #[trigger] old_out[k]) by {
                assert(!before(x, old_out[j - 1]));
                if k < j - 1 {
                    assert(!before(old_out[j - 1], old_out[k]));
                }
            }
        }
        out.insert(j, x);
        proof {
            p = old_p.insert(j as int, i as int);
            assert(out@ == old_out.insert(j as int, x));
            assert forall|k: int| 0 <= k <= i implies 0 <= #[trigger] p[k] < i + 1 by {
                if k < j {
                    assert(p[k] == old_p[k]);
                } else if k > j {
                    assert(p[k] == old_p[k - 1]);
                }
            }
            assert forall|k: int, l: int| 0 <= k < l < i + 1 implies #[trigger] p[k]
                != #[trigger] p[l] by {
                if k < j && l < j {
                } else if k < j && l == j {
                    assert(old_p[k] < i);
                } else if k < j {
                    assert(p[l] == old_p[l - 1]);
                } else if k == j {
                    assert(p[l] == old_p[l - 1]);
                    assert(old_p[l - 1] < i);
                } else {
                    assert(p[k] == old_p[k - 1]);
                    assert(p[l] == old_p[l - 1]);
                }
            }
            assert forall|k: int| 0 <= k < i + 1 implies #[trigger] out@[k] == input[p[k]] by {
                if k < j {
                    assert(out@[k] == old_out[k]);
                } else if k > j {
                    assert(out@[k] == old_out[k - 1]);
                }
            }
            assert forall|k: int, l: int| 0 <= k < l < i + 1 implies !before(
                #[trigger] out@[l],
                #[trigger] out@[k],
            ) && (!before(out@[k], out@[l]) ==> p[k] < p[l]) by {
                if l < j {
                    assert(out@[k] == old_out[k] && out@[l] == old_out[l]);
                } else if l == j {
                    assert(out@[k] == old_out[k]);
                    assert(!before(x, old_out[k]));
                    assert(old_p[k] < i);
                } else if k < j {
                    assert(out@[k] == old_out[k] && out@[l] == old_out[l - 1]);
                    assert(p[l] == old_p[l - 1]);
                } else if k == j {
                    assert(out@[l] == old_out[l - 1]);
                    assert(before(x, old_out[l - 1]));
                    assert(!before(old_out[l - 1], x)) by {
                        if before(old_out[l - 1], x) {
                            assert(before(x, x));
                        }
                    }
                } else {
                    assert(out@[k] == old_out[k - 1] && out@[l] == old_out[l - 1]);
                    assert(p[k] == old_p[k - 1] && p[l] == old_p[l - 1]);
                }
            }
        }
        i += 1;
    }
    proof {
        assert(sorted_by_with(out@, input, p, before));
    }
    out
}

} // verus!
