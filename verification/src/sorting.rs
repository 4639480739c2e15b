//! Stable sorting, specified exactly: the sequential-stable-sort procedure
//! that the statistics table uses is pinned to a canonical insertion sort, so
//! every pass's effect on the row order is a function of the comparator and
//! the input alone.

use vstd::prelude::*;
use vstd::relations::sorted_by;
use vstd::seq_lib::group_to_multiset_ensures;

verus! {

/// A total preorder: the shape of comparator a stable sort needs.
pub open spec fn total_preorder<T>(le: spec_fn(T, T) -> bool) -> bool {
    &&& forall|a: T, b: T| #[trigger] le(a, b) || #[trigger] le(b, a)
    &&& forall|a: T, b: T, c: T| #[trigger] le(a, b) && #[trigger] le(b, c) ==> le(a, c)
}

/// Insertion of `x` into `s` from the right: `x` moves left past exactly the
/// elements not `le` it, so elements tied under `le` keep their relative
/// order — the insertion is stable.
pub open spec fn stable_insert<T>(le: spec_fn(T, T) -> bool, s: Seq<T>, x: T) -> Seq<T>
    decreases s.len(),
{
    if s.len() > 0 && !le(s.last(), x) {
        stable_insert(le, s.drop_last(), x).push(s.last())
    } else {
        s.push(x)
    }
}

/// Insertion sort of `s` under `le`: the canonical stable sort.
pub open spec fn stable_sort_by<T>(le: spec_fn(T, T) -> bool, s: Seq<T>) -> Seq<T>
    decreases s.len(),
{
    if s.len() == 0 {
        Seq::empty()
    } else {
        stable_insert(le, stable_sort_by(le, s.drop_last()), s.last())
    }
}

/// Inserting adds exactly the inserted element.
pub proof fn lemma_stable_insert_multiset<T>(le: spec_fn(T, T) -> bool, s: Seq<T>, x: T)
    ensures
        stable_insert(le, s, x).to_multiset() == s.to_multiset().insert(x),
        stable_insert(le, s, x).len() == s.len() + 1,
    decreases s.len(),
{
    broadcast use group_to_multiset_ensures;

    if s.len() > 0 && !le(s.last(), x) {
        lemma_stable_insert_multiset(le, s.drop_last(), x);
        assert(s =~= s.drop_last().push(s.last()));
        assert(s.to_multiset() == s.drop_last().push(s.last()).to_multiset());
        assert(stable_insert(le, s, x).to_multiset() =~= s.to_multiset().insert(x));
    } else {
        assert(stable_insert(le, s, x).to_multiset() =~= s.to_multiset().insert(x));
    }
}

/// Inserting into a sorted sequence keeps it sorted.
pub proof fn lemma_stable_insert_sorted<T>(le: spec_fn(T, T) -> bool, s: Seq<T>, x: T)
    requires
        total_preorder(le),
        sorted_by(s, le),
    ensures
        sorted_by(stable_insert(le, s, x), le),
    decreases s.len(),
{
    broadcast use group_to_multiset_ensures;

    let r = stable_insert(le, s, x);
    if s.len() > 0 && !le(s.last(), x) {
        let dl = s.drop_last();
        assert(sorted_by(dl, le)) by {
            assert(forall|i: int, j: int|
                0 <= i < j < dl.len() ==> le(#[trigger] dl[i], #[trigger] dl[j]));
        }
        lemma_stable_insert_sorted(le, dl, x);
        lemma_stable_insert_multiset(le, dl, x);
        let q = stable_insert(le, dl, x);
        // every element of q is `le` the appended last element
        assert forall|i: int| 0 <= i < q.len() implies le(q[i], s.last()) by {
            assert(q.to_multiset().count(q[i]) > 0);
            assert(dl.to_multiset().insert(x).count(q[i]) > 0);
            if dl.to_multiset().count(q[i]) > 0 {
                let k = choose|k: int| 0 <= k < dl.len() && dl[k] == q[i];
                assert(le(s[k], s.last()));
            } else {
                assert(q[i] == x);
                assert(le(x, s.last()));
            }
        }
        assert(forall|i: int, j: int| 0 <= i < j < r.len() ==> le(#[trigger] r[i], #[trigger] r[j]));
    } else {
        if s.len() > 0 {
            assert forall|i: int| 0 <= i < s.len() implies le(s[i], x) by {
                if i < s.len() - 1 {
                    assert(le(s[i], s.last()));
                }
            }
        }
        assert(forall|i: int, j: int| 0 <= i < j < r.len() ==> le(#[trigger] r[i], #[trigger] r[j]));
    }
}

/// The stable sort returns the same elements, sorted.
pub proof fn lemma_stable_sort_by_ensures<T>(le: spec_fn(T, T) -> bool, s: Seq<T>)
    requires
        total_preorder(le),
    ensures
        stable_sort_by(le, s).to_multiset() == s.to_multiset(),
        stable_sort_by(le, s).len() == s.len(),
        sorted_by(stable_sort_by(le, s), le),
    decreases s.len(),
{
    broadcast use group_to_multiset_ensures;

    if s.len() > 0 {
        let dl = s.drop_last();
        lemma_stable_sort_by_ensures(le, dl);
        lemma_stable_insert_multiset(le, stable_sort_by(le, dl), s.last());
        lemma_stable_insert_sorted(le, stable_sort_by(le, dl), s.last());
        assert(s =~= dl.push(s.last()));
        assert(s.to_multiset() == dl.push(s.last()).to_multiset());
        assert(stable_sort_by(le, s).to_multiset() == s.to_multiset());
    } else {
        assert(stable_sort_by(le, s) =~= s);
    }
}

/// The lexicographic refinement of `le2` by `le1`: order by `le2`, and break
/// exactly its ties by `le1`.
pub open spec fn lex2<T>(le2: spec_fn(T, T) -> bool, le1: spec_fn(T, T) -> bool) -> spec_fn(
    T,
    T,
) -> bool {
    |a: T, b: T|
        if le2(a, b) && le2(b, a) {
            le1(a, b)
        } else {
            le2(a, b)
        }
}

/// The lexicographic refinement of total preorders is a total preorder.
pub proof fn lemma_lex2_total_preorder<T>(le2: spec_fn(T, T) -> bool, le1: spec_fn(T, T) -> bool)
    requires
        total_preorder(le2),
        total_preorder(le1),
    ensures
        total_preorder(lex2(le2, le1)),
{
    let lex = lex2(le2, le1);
    assert forall|a: T, b: T| #[trigger] lex(a, b) || #[trigger] lex(b, a) by {
        assert(le2(a, b) || le2(b, a));
        assert(le1(a, b) || le1(b, a));
    }
    assert forall|a: T, b: T, c: T| #[trigger] lex(a, b) && #[trigger] lex(b, c) implies lex(
        a,
        c,
    ) by {
        assert(le2(a, b) && le2(b, c));
        assert(le2(a, c));
        if le2(c, a) {
            // a, b and c are all tied under le2, so le1 decides throughout
            assert(le2(b, a) && le2(c, b));
            assert(le1(a, b) && le1(b, c));
        }
    }
}

/// Inserting under comparators that agree on the inserted element lands it in
/// the same place.
proof fn lemma_stable_insert_agree<T>(
    le_a: spec_fn(T, T) -> bool,
    le_b: spec_fn(T, T) -> bool,
    s: Seq<T>,
    x: T,
)
    requires
        forall|k: int| 0 <= k < s.len() ==> le_a(#[trigger] s[k], x) == le_b(s[k], x),
    ensures
        stable_insert(le_a, s, x) == stable_insert(le_b, s, x),
    decreases s.len(),
{
    if s.len() > 0 && !le_a(s.last(), x) {
        let dl = s.drop_last();
        assert(forall|k: int| 0 <= k < dl.len() ==> dl[k] == s[k]);
        lemma_stable_insert_agree(le_a, le_b, dl, x);
    }
}

/// Two stable insertions commute: inserting `z` under `le2` and `x` under the
/// refinement of `le2` by `le1` reach the same sequence in either order, over
/// a `le2`-sorted sequence whose elements all come before `z` under `le1`,
/// when `x` does not come after `z` under `le1`.
proof fn lemma_stable_insert_commute<T>(
    le2: spec_fn(T, T) -> bool,
    le1: spec_fn(T, T) -> bool,
    w: Seq<T>,
    x: T,
    z: T,
)
    requires
        total_preorder(le2),
        total_preorder(le1),
        sorted_by(w, le2),
        forall|k: int| 0 <= k < w.len() ==> le1(#[trigger] w[k], z),
        !le1(z, x),
    ensures
        stable_insert(le2, stable_insert(lex2(le2, le1), w, x), z) == stable_insert(
            lex2(le2, le1),
            stable_insert(le2, w, z),
            x,
        ),
    decreases w.len(),
{
    let lex = lex2(le2, le1);
    if w.len() == 0 {
        // the two-element base: x comes first exactly because it does not
        // come after z under le1 within a le2 tie
        assert(stable_insert(lex, w, x) =~= seq![x]);
        assert(stable_insert(le2, w, z) =~= seq![z]);
        assert(seq![x].drop_last() =~= Seq::<T>::empty());
        assert(seq![z].drop_last() =~= Seq::<T>::empty());
        if le2(x, z) {
            assert(stable_insert(le2, seq![x], z) =~= seq![x, z]);
            if le2(z, x) {
                assert(!lex(z, x));
            } else {
                assert(!lex(z, x));
            }
            assert(stable_insert(lex, Seq::<T>::empty(), x) =~= seq![x]);
            assert(stable_insert(lex, seq![z], x) =~= seq![x, z]);
        } else {
            assert(le2(z, x));
            assert(lex(z, x));
            assert(stable_insert(le2, Seq::<T>::empty(), z) =~= seq![z]);
            assert(stable_insert(le2, seq![x], z) =~= seq![z, x]);
            assert(stable_insert(lex, seq![z], x) =~= seq![z, x]);
        }
    } else {
        let y = w.last();
        let w2 = w.drop_last();
        assert(forall|k: int| 0 <= k < w2.len() ==> w2[k] == w[k]);
        assert(sorted_by(w2, le2)) by {
            assert(forall|i: int, j: int|
                0 <= i < j < w2.len() ==> le2(#[trigger] w2[i], #[trigger] w2[j]));
        }
        assert(le1(y, z));
        if !lex(y, x) && !le2(y, z) {
            // both insertions pass y: recurse on the prefix
            lemma_stable_insert_commute(le2, le1, w2, x, z);
            assert(stable_insert(lex, w, x) == stable_insert(lex, w2, x).push(y));
            assert(stable_insert(le2, w, z) == stable_insert(le2, w2, z).push(y));
            assert(stable_insert(lex, w2, x).push(y).drop_last() =~= stable_insert(lex, w2, x));
            assert(stable_insert(le2, w2, z).push(y).drop_last() =~= stable_insert(le2, w2, z));
            assert(stable_insert(le2, stable_insert(lex, w2, x).push(y), z) == stable_insert(
                le2,
                stable_insert(lex, w2, x),
                z,
            ).push(y));
            assert(stable_insert(lex, stable_insert(le2, w2, z).push(y), x) == stable_insert(
                lex,
                stable_insert(le2, w2, z),
                x,
            ).push(y));
        } else if lex(y, x) && le2(y, z) {
            // both insertions stop at y: only the order of x and z remains
            assert(stable_insert(lex, w, x) == w.push(x));
            assert(stable_insert(le2, w, z) == w.push(z));
            if le2(x, z) {
                assert(stable_insert(le2, w.push(x), z) == w.push(x).push(z));
                assert(!lex(z, x)) by {
                    if le2(z, x) {
                        assert(!le1(z, x));
                    }
                }
                assert(w.push(z).drop_last() =~= w);
                assert(stable_insert(lex, w.push(z), x) == stable_insert(lex, w, x).push(z));
                assert(stable_insert(lex, w.push(z), x) == w.push(x).push(z));
            } else {
                assert(le2(z, x));
                assert(lex(z, x));
                assert(!le2(x, z));
                assert(w.push(x).drop_last() =~= w);
                assert(stable_insert(le2, w.push(x), z) == stable_insert(le2, w, z).push(x));
                assert(stable_insert(le2, w.push(x), z) == w.push(z).push(x));
                assert(stable_insert(lex, w.push(z), x) == w.push(z).push(x));
            }
        } else if lex(y, x) && !le2(y, z) {
            // x stops at y while z passes it; x and z cannot be le2-tied here
            assert(le2(y, x));
            assert(!le2(x, z)) by {
                if le2(x, z) {
                    assert(le2(y, z));
                }
            }
            assert(stable_insert(lex, w, x) == w.push(x));
            assert(w.push(x).drop_last() =~= w);
            assert(stable_insert(le2, w.push(x), z) == stable_insert(le2, w, z).push(x));
            assert(stable_insert(le2, w, z) == stable_insert(le2, w2, z).push(y));
            assert(stable_insert(lex, stable_insert(le2, w2, z).push(y), x) == stable_insert(
                le2,
                w2,
                z,
            ).push(y).push(x));
        } else {
            // z stops at y while x passes it; x cannot stop at z either
            assert(!lex(y, x) && le2(y, z));
            assert(stable_insert(lex, w, x) == stable_insert(lex, w2, x).push(y));
            assert(stable_insert(le2, stable_insert(lex, w2, x).push(y), z) == stable_insert(
                lex,
                w2,
                x,
            ).push(y).push(z));
            assert(stable_insert(le2, w, z) == w.push(z));
            assert(!lex(z, x)) by {
                if lex(z, x) {
                    if le2(z, x) && le2(x, z) {
                        assert(!le1(z, x));
                    } else {
                        // a strict le2 step from z to x forces x to stop at y
                        assert(le2(z, x));
                        assert(le2(y, x));
                        if le2(x, y) {
                            assert(le2(x, z));
                            assert(le2(z, x) && le2(x, z));
                        } else {
                            assert(lex(y, x));
                        }
                    }
                }
            }
            assert(w.push(z).drop_last() =~= w);
            assert(stable_insert(lex, w.push(z), x) == stable_insert(lex, w, x).push(z));
            assert(stable_insert(lex, w.push(z), x) == stable_insert(lex, w2, x).push(y).push(z));
        }
    }
}

/// Inserting into a `le1`-sorted sequence and then stably sorting by `le2`
/// is inserting under the refinement into the sorted sequence.
proof fn lemma_sort_insert_compose<T>(
    le2: spec_fn(T, T) -> bool,
    le1: spec_fn(T, T) -> bool,
    t: Seq<T>,
    x: T,
)
    requires
        total_preorder(le2),
        total_preorder(le1),
        sorted_by(t, le1),
    ensures
        stable_sort_by(le2, stable_insert(le1, t, x)) == stable_insert(
            lex2(le2, le1),
            stable_sort_by(le2, t),
            x,
        ),
    decreases t.len(),
{
    let lex = lex2(le2, le1);
    lemma_stable_sort_by_ensures(le2, t);
    if t.len() > 0 && !le1(t.last(), x) {
        let z = t.last();
        let t2 = t.drop_last();
        assert(forall|k: int| 0 <= k < t2.len() ==> t2[k] == t[k]);
        assert(sorted_by(t2, le1)) by {
            assert(forall|i: int, j: int|
                0 <= i < j < t2.len() ==> le1(#[trigger] t2[i], #[trigger] t2[j]));
        }
        lemma_sort_insert_compose(le2, le1, t2, x);
        assert(stable_insert(le1, t, x) == stable_insert(le1, t2, x).push(z));
        assert(stable_sort_by(le2, stable_insert(le1, t2, x).push(z)) == stable_insert(
            le2,
            stable_sort_by(le2, stable_insert(le1, t2, x)),
            z,
        )) by {
            assert(stable_insert(le1, t2, x).push(z).drop_last() =~= stable_insert(le1, t2, x));
        }
        lemma_stable_sort_by_ensures(le2, t2);
        assert(forall|k: int| 0 <= k < t2.len() ==> le1(#[trigger] t2[k], z));
        lemma_multiset_pointwise(stable_sort_by(le2, t2), t2, |y: T| le1(y, z));
        lemma_stable_insert_commute(le2, le1, stable_sort_by(le2, t2), x, z);
        assert(stable_sort_by(le2, t) == stable_insert(le2, stable_sort_by(le2, t2), z)) by {
            assert(t.drop_last() =~= t2);
        }
    } else {
        // x goes after everything: the refinement agrees with le2 on x
        // against every element, which all come before x under le1
        assert(stable_insert(le1, t, x) == t.push(x));
        assert(stable_sort_by(le2, t.push(x)) == stable_insert(le2, stable_sort_by(le2, t), x))
            by {
            assert(t.push(x).drop_last() =~= t);
        }
        if t.len() > 0 {
            assert forall|k: int| 0 <= k < t.len() implies le1(#[trigger] t[k], x) by {
                if k < t.len() - 1 {
                    assert(le1(t[k], t.last()));
                }
            }
        }
        lemma_multiset_pointwise(stable_sort_by(le2, t), t, |y: T| le1(y, x));
        let sorted = stable_sort_by(le2, t);
        assert forall|k: int| 0 <= k < sorted.len() implies le2(#[trigger] sorted[k], x) == lex(
            sorted[k],
            x,
        ) by {
            assert(le1(sorted[k], x));
        }
        lemma_stable_insert_agree(le2, lex, sorted, x);
    }
}

/// Sequential stable sorts compose into one lexicographic stable sort: a
/// stable pass by `le1` followed by a stable pass by `le2` is a single stable
/// sort under `le2` refined by `le1` — the later pass dominates and the
/// earlier pass breaks exactly its ties.
pub proof fn lemma_stable_sort_by_compose<T>(
    le2: spec_fn(T, T) -> bool,
    le1: spec_fn(T, T) -> bool,
    s: Seq<T>,
)
    requires
        total_preorder(le2),
        total_preorder(le1),
    ensures
        stable_sort_by(le2, stable_sort_by(le1, s)) == stable_sort_by(lex2(le2, le1), s),
    decreases s.len(),
{
    if s.len() == 0 {
        assert(stable_sort_by(le1, s) =~= s);
    } else {
        let dl = s.drop_last();
        let x = s.last();
        lemma_stable_sort_by_compose(le2, le1, dl);
        lemma_stable_sort_by_ensures(le1, dl);
        lemma_sort_insert_compose(le2, le1, stable_sort_by(le1, dl), x);
    }
}

/// Sorting under an order that holds between any two elements reorders
/// nothing.
pub proof fn lemma_stable_sort_by_trivial<T>(le: spec_fn(T, T) -> bool, s: Seq<T>)
    requires
        forall|a: T, b: T| #[trigger] le(a, b),
    ensures
        stable_sort_by(le, s) == s,
    decreases s.len(),
{
    if s.len() > 0 {
        lemma_stable_sort_by_trivial(le, s.drop_last());
        if s.len() > 1 {
            assert(le(s.drop_last().last(), s.last()));
        }
        assert(s.drop_last().push(s.last()) =~= s);
    } else {
        assert(stable_sort_by(le, s) =~= s);
    }
}

/// A permutation maps to a permutation.
pub proof fn lemma_map_multiset<A, B>(s1: Seq<A>, s2: Seq<A>, f: spec_fn(A) -> B)
    requires
        s1.to_multiset() == s2.to_multiset(),
    ensures
        s1.map_values(f).to_multiset() == s2.map_values(f).to_multiset(),
    decreases s1.len(),
{
    broadcast use group_to_multiset_ensures;

    if s1.len() == 0 {
        assert(s2.to_multiset().len() == 0);
        assert(s1.map_values(f) =~= s2.map_values(f));
    } else {
        let dl = s1.drop_last();
        let x = s1.last();
        assert(s1 =~= dl.push(x));
        assert(s1.to_multiset() == dl.push(x).to_multiset());
        assert(s2.to_multiset().count(x) > 0);
        assert(s2.contains(x));
        let j = choose|j: int| 0 <= j < s2.len() && s2[j] == x;
        let s2r = s2.remove(j);
        assert(s2r.to_multiset() == s2.to_multiset().remove(x));
        assert(dl.to_multiset() =~= s1.to_multiset().remove(x));
        lemma_map_multiset(dl, s2r, f);
        assert(s2r.map_values(f) =~= s2.map_values(f).remove(j));
        assert(s2.map_values(f).remove(j).to_multiset() == s2.map_values(f).to_multiset().remove(
            s2.map_values(f)[j],
        ));
        assert(s2.map_values(f)[j] == f(x));
        assert(s1.map_values(f) =~= dl.map_values(f).push(f(x)));
        assert(s1.map_values(f).to_multiset() == dl.map_values(f).to_multiset().insert(f(x)));
        assert(s1.map_values(f).to_multiset() =~= s2.map_values(f).to_multiset());
    }
}

/// A pointwise property of one sequence holds of every permutation of it.
pub proof fn lemma_multiset_pointwise<T>(s1: Seq<T>, s2: Seq<T>, p: spec_fn(T) -> bool)
    requires
        s1.to_multiset() == s2.to_multiset(),
        forall|i: int| 0 <= i < s2.len() ==> p(#[trigger] s2[i]),
    ensures
        forall|i: int| 0 <= i < s1.len() ==> p(#[trigger] s1[i]),
{
    broadcast use group_to_multiset_ensures;

    assert forall|i: int| 0 <= i < s1.len() implies p(#[trigger] s1[i]) by {
        assert(s1.to_multiset().count(s1[i]) > 0);
        assert(s2.contains(s1[i]));
        let j = choose|j: int| 0 <= j < s2.len() && s2[j] == s1[i];
        assert(p(s2[j]));
    }
}

/// Where the insertion lands: if everything from `j` on must come after `x`
/// and position `j` admits it, inserting `x` into `s` splits `s` at `j`.
pub proof fn lemma_stable_insert_position<T>(le: spec_fn(T, T) -> bool, s: Seq<T>, x: T, j: int)
    requires
        0 <= j <= s.len(),
        forall|k: int| j <= k < s.len() ==> !le(#[trigger] s[k], x),
        j > 0 ==> le(s[j - 1], x),
    ensures
        stable_insert(le, s, x) == s.subrange(0, j) + seq![x] + s.subrange(j, s.len() as int),
    decreases s.len(),
{
    if s.len() > 0 && !le(s.last(), x) {
        let dl = s.drop_last();
        lemma_stable_insert_position(le, dl, x, j);
        assert(stable_insert(le, s, x) =~= s.subrange(0, j) + seq![x] + s.subrange(
            j,
            s.len() as int,
        ));
    } else {
        assert(j == s.len());
        assert(stable_insert(le, s, x) =~= s.subrange(0, j) + seq![x] + s.subrange(
            j,
            s.len() as int,
        ));
    }
}

} // verus!
