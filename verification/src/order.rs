//! Orders for the statistics table: lexicographic string comparison, the four
//! sort fields, and a generic stable in-place sort pinned to the canonical
//! stable sort of [`crate::sorting`].

use vstd::prelude::*;
use vstd::relations::sorted_by;
use crate::sorting::{
    stable_sort_by, stable_insert, total_preorder, lemma_stable_insert_position,
    lemma_stable_sort_by_ensures,
};

verus! {

/// Lexicographic order on character sequences, by code point; a prefix comes
/// before every extension of it.
pub open spec fn seq_char_le(a: Seq<char>, b: Seq<char>) -> bool
    decreases a.len(),
{
    if a.len() == 0 {
        true
    } else if b.len() == 0 {
        false
    } else if (a[0] as u32) == (b[0] as u32) {
        seq_char_le(a.drop_first(), b.drop_first())
    } else {
        (a[0] as u32) < (b[0] as u32)
    }
}

/// The lexicographic order is total.
pub proof fn lemma_seq_char_le_total(a: Seq<char>, b: Seq<char>)
    ensures
        seq_char_le(a, b) || seq_char_le(b, a),
    decreases a.len(),
{
    if a.len() > 0 && b.len() > 0 && (a[0] as u32) == (b[0] as u32) {
        lemma_seq_char_le_total(a.drop_first(), b.drop_first());
    }
}

/// The lexicographic order is transitive.
pub proof fn lemma_seq_char_le_trans(a: Seq<char>, b: Seq<char>, c: Seq<char>)
    requires
        seq_char_le(a, b),
        seq_char_le(b, c),
    ensures
        seq_char_le(a, c),
    decreases a.len(),
{
    if a.len() > 0 && b.len() > 0 && c.len() > 0 && (a[0] as u32) == (b[0] as u32) && (b[0] as u32)
        == (c[0] as u32) {
        lemma_seq_char_le_trans(a.drop_first(), b.drop_first(), c.drop_first());
    }
}

/// Skipping a common prefix does not change the comparison.
proof fn lemma_seq_char_le_skip(a: Seq<char>, b: Seq<char>, i: int)
    requires
        0 <= i <= a.len(),
        i <= b.len(),
        forall|j: int| 0 <= j < i ==> (a[j] as u32) == (b[j] as u32),
    ensures
        seq_char_le(a, b) == seq_char_le(a.skip(i), b.skip(i)),
    decreases i,
{
    if i > 0 {
        assert(a.len() > 0 && b.len() > 0 && (a[0] as u32) == (b[0] as u32));
        lemma_seq_char_le_skip(a.drop_first(), b.drop_first(), i - 1);
        assert(a.drop_first().skip(i - 1) =~= a.skip(i));
        assert(b.drop_first().skip(i - 1) =~= b.skip(i));
    } else {
        assert(a.skip(0) =~= a);
        assert(b.skip(0) =~= b);
    }
}

/// Compares two strings in the lexicographic order of their characters.
pub fn str_le(a: &str, b: &str) -> (r: bool)
    ensures
        r == seq_char_le(a@, b@),
{
    let alen = a.unicode_len();
    let blen = b.unicode_len();
    let mut i: usize = 0;
    while i < alen && i < blen
        invariant
            alen == a@.len(),
            blen == b@.len(),
            i <= alen,
            i <= blen,
            forall|j: int| 0 <= j < i ==> (a@[j] as u32) == (b@[j] as u32),
        decreases alen - i,
    {
        let ca = a.get_char(i) as u32;
        let cb = b.get_char(i) as u32;
        if ca != cb {
            proof {
                lemma_seq_char_le_skip(a@, b@, i as int);
                assert(a@.skip(i as int)[0] == a@[i as int]);
                assert(b@.skip(i as int)[0] == b@[i as int]);
            }
            return ca < cb;
        }
        i = i + 1;
    }
    proof {
        lemma_seq_char_le_skip(a@, b@, i as int);
        if i == alen {
            assert(a@.skip(i as int).len() == 0);
        } else {
            assert(b@.skip(i as int).len() == 0);
            assert(a@.skip(i as int).len() > 0);
        }
    }
    alen <= blen
}

/// The four fields the statistics table can sort by.
#[derive(Clone, Copy, Debug, Default, PartialEq, Eq, Structural)]
pub enum Sort {
    Artist,
    Album,
    Title,
    #[default]
    Plays,
}

impl Sort {
    /// The field's display name.
    pub open spec fn spec_name(self) -> Seq<char> {
        match self {
            Sort::Artist => "Artist"@,
            Sort::Album => "Album"@,
            Sort::Title => "Title"@,
            Sort::Plays => "Plays"@,
        }
    }

    /// The field's display name.
    pub fn name(&self) -> (r: &'static str)
        ensures
            r@ == self.spec_name(),
    {
        match self {
            Sort::Artist => "Artist",
            Sort::Album => "Album",
            Sort::Title => "Title",
            Sort::Plays => "Plays",
        }
    }
}

/// One entry of the sort priority list: a field and whether the order on it
/// is descending.
#[derive(Clone, Copy, Debug, Default, PartialEq, Eq, Structural)]
pub struct SortDirection(pub Sort, pub bool);

/// A row type the table can sort, under keys of type `K`.
pub trait RowOrd<K>: Sized {
    /// The order that key `k` puts on rows.
    spec fn le_spec(k: K, a: Self, b: Self) -> bool;

    /// Compares two rows under key `k`.
    fn le(k: &K, a: &Self, b: &Self) -> (r: bool)
        ensures
            r == Self::le_spec(*k, *a, *b),
    ;

    /// Every key's order is a total preorder.
    proof fn le_total(k: K)
        ensures
            total_preorder(|a: Self, b: Self| Self::le_spec(k, a, b)),
    ;
}

/// The order of key `k`, as a comparator value.
pub open spec fn le_fn<K, T: RowOrd<K>>(k: K) -> spec_fn(T, T) -> bool {
    |a: T, b: T| T::le_spec(k, a, b)
}

/// Sorts the rows in place, stably, under key `k`: the result is exactly the
/// canonical stable sort of the input.
pub fn sort_rows<K, T: RowOrd<K>>(v: &mut Vec<T>, k: &K)
    ensures
        final(v)@ == stable_sort_by(le_fn::<K, T>(*k), old(v)@),
        sorted_by(final(v)@, le_fn::<K, T>(*k)),
{
    let ghost le = le_fn::<K, T>(*k);
    let ghost orig = v@;
    proof {
        T::le_total(*k);
        lemma_stable_sort_by_ensures(le, orig);
    }
    let mut i: usize = 0;
    while i < v.len()
        invariant
            i <= v@.len(),
            v@.len() == orig.len(),
            v@.skip(i as int) =~= orig.skip(i as int),
            v@.take(i as int) == stable_sort_by(le, orig.take(i as int)),
            total_preorder(le),
            le == le_fn::<K, T>(*k),
        decreases v@.len() - i,
    {
        let ghost sorted_pre = v@.take(i as int);
        proof {
            lemma_stable_sort_by_ensures(le, orig.take(i as int));
        }
        let ghost before_remove = v@;
        let x = v.remove(i);
        proof {
            assert(orig.skip(i as int)[0] == orig[i as int]);
            assert(x == orig[i as int]);
            assert(v@.take(i as int) =~= sorted_pre);
            before_remove.remove_ensures(i as int);
            assert forall|m: int| 0 <= m < v@.len() - i implies v@.skip(i as int)[m] == orig.skip(
                i + 1,
            )[m] by {
                assert(v@[i + m] == before_remove[i + m + 1]);
                assert(before_remove.skip(i as int)[m + 1] == before_remove[i + m + 1]);
                assert(orig.skip(i as int)[m + 1] == orig[i + m + 1]);
            }
            assert(v@.skip(i as int) =~= orig.skip(i + 1));
        }
        let mut j: usize = i;
        while j > 0 && !T::le(k, &v[j - 1], &x)
            invariant
                j <= i,
                i < orig.len(),
                v@.len() == orig.len() - 1,
                v@.take(i as int) =~= sorted_pre,
                v@.skip(i as int) =~= orig.skip(i + 1),
                forall|m: int| j <= m < i ==> !le(#[trigger] sorted_pre[m], x),
                total_preorder(le),
                le == le_fn::<K, T>(*k),
            decreases j,
        {
            j = j - 1;
        }
        proof {
            lemma_stable_insert_position(le, sorted_pre, x, j as int);
        }
        v.insert(j, x);
        proof {
            assert(v@.take(i + 1) =~= sorted_pre.subrange(0, j as int) + seq![x]
                + sorted_pre.subrange(j as int, sorted_pre.len() as int));
            assert(v@.take(i + 1) == stable_insert(le, sorted_pre, x));
            assert(orig.take(i + 1).drop_last() =~= orig.take(i as int));
            assert(orig.take(i + 1).last() == orig[i as int]);
            assert(v@.take(i + 1) == stable_sort_by(le, orig.take(i + 1)));
            assert(v@.skip(i + 1) =~= orig.skip(i + 1));
        }
        i = i + 1;
    }
    proof {
        assert(orig.take(orig.len() as int) =~= orig);
        assert(v@.take(orig.len() as int) =~= v@);
    }
}

} // verus!
