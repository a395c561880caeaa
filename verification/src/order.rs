//! A merge sort for values that carry a total order of their own.

use vstd::prelude::*;

verus! {

/// A total preorder on small values.
pub trait Ordered: Copy + Sized {
    /// Whether `self` may stand before `other`.
    spec fn at_most(self, other: Self) -> bool;

    /// Of any two values, one may stand before the other.
    proof fn lemma_total(a: Self, b: Self)
        ensures
            a.at_most(b) || b.at_most(a),
    ;

    /// What may stand before `b` may stand before everything that `b` may stand before.
    proof fn lemma_transitive(a: Self, b: Self, c: Self)
        requires
            a.at_most(b),
            b.at_most(c),
        ensures
            a.at_most(c),
    ;

    /// Whether `self` may stand before `other`.
    fn is_at_most(self, other: Self) -> (r: bool)
        ensures
            r == self.at_most(other),
    ;
}

/// Whether no element of `s` stands before one that had to come earlier.
pub open spec fn in_order<T: Ordered>(s: Seq<T>) -> bool {
    forall|i: int, j: int| 0 <= i < j < s.len() ==> #[trigger] s[i].at_most(#[trigger] s[j])
}

/// Merges two sorted lists into one.
fn merge<T: Ordered>(a: &Vec<T>, b: &Vec<T>) -> (out: Vec<T>)
    requires
        in_order(a@),
        in_order(b@),
    ensures
        in_order(out@),
        out@.to_multiset() == a@.to_multiset().add(b@.to_multiset()),
{
    let mut out: Vec<T> = Vec::new();
    let mut i: usize = 0;
    let mut j: usize = 0;
    proof {
        assert(a@.take(0) =~= Seq::<T>::empty());
        assert(b@.take(0) =~= Seq::<T>::empty());
        lemma_empty_multiset::<T>();
    }
    while i < a.len() || j < b.len()
        invariant
            i <= a.len(),
            j <= b.len(),
            in_order(a@),
            in_order(b@),
            in_order(out@),
            out@.to_multiset() == a@.take(i as int).to_multiset().add(
                b@.take(j as int).to_multiset(),
            ),
            forall|k: int, x: int|
                0 <= k < out.len() && i <= x < a.len() ==> #[trigger] out@[k].at_most(
                    #[trigger] a@[x],
                ),
            forall|k: int, y: int|
                0 <= k < out.len() && j <= y < b.len() ==> #[trigger] out@[k].at_most(
                    #[trigger] b@[y],
                ),
        decreases a.len() - i + b.len() - j,
    {
        let from_a = if i == a.len() {
            false
        } else if j == b.len() {
            true
        } else {
            a[i].is_at_most(b[j])
        };
        let ghost before = out@;
        if from_a {
            proof {
                assert forall|x: int| i < x < a.len() implies a@[i as int].at_most(
                    #[trigger] a@[x],
                ) by {}
                assert forall|y: int| j <= y < b.len() implies a@[i as int].at_most(
                    #[trigger] b@[y],
                ) by {
                    if y > j {
                        assert(b@[j as int].at_most(b@[y]));
                        T::lemma_transitive(a@[i as int], b@[j as int], b@[y]);
                    }
                }
                lemma_take_push(a@, i as int);
                lemma_push_multiset(before, a@[i as int]);
            }
            out.push(a[i]);
            i += 1;
        } else {
            proof {
                assert forall|y: int| j < y < b.len() implies b@[j as int].at_most(
                    #[trigger] b@[y],
                ) by {}
                assert forall|x: int| i <= x < a.len() implies b@[j as int].at_most(
                    #[trigger] a@[x],
                ) by {
                    T::lemma_total(a@[i as int], b@[j as int]);
                    if x > i {
                        assert(a@[i as int].at_most(a@[x]));
                        T::lemma_transitive(b@[j as int], a@[i as int], a@[x]);
                    }
                }
                lemma_take_push(b@, j as int);
                lemma_push_multiset(before, b@[j as int]);
            }
            out.push(b[j]);
            j += 1;
        }
        assert(out@.to_multiset() =~= a@.take(i as int).to_multiset().add(
            b@.take(j as int).to_multiset(),
        ));
    }
    proof {
        assert(a@.take(i as int) =~= a@);
        assert(b@.take(j as int) =~= b@);
    }
    out
}

/// Sorts the elements of `items` from `lo` up to `hi`.
fn sorted_range<T: Ordered>(items: &[T], lo: usize, hi: usize) -> (out: Vec<T>)
    requires
        lo <= hi <= items.len(),
    ensures
        in_order(out@),
        out@.to_multiset() == items@.subrange(lo as int, hi as int).to_multiset(),
    decreases hi - lo,
{
    if hi - lo < 2 {
        let mut out: Vec<T> = Vec::new();
        if lo < hi {
            out.push(items[lo]);
        }
        assert(out@ =~= items@.subrange(lo as int, hi as int));
        out
    } else {
        let mid = lo + (hi - lo) / 2;
        let left = sorted_range(items, lo, mid);
        let right = sorted_range(items, mid, hi);
        proof {
            let l = items@.subrange(lo as int, mid as int);
            let r = items@.subrange(mid as int, hi as int);
            assert(l + r =~= items@.subrange(lo as int, hi as int));
            vstd::seq_lib::lemma_multiset_commutative(l, r);
        }
        merge(&left, &right)
    }
}

/// Sorts a list.
pub fn sorted<T: Ordered>(items: &[T]) -> (out: Vec<T>)
    ensures
        in_order(out@),
        out@.to_multiset() == items@.to_multiset(),
{
    assert(items@.subrange(0, items.len() as int) =~= items@);
    sorted_range(items, 0, items.len())
}

proof fn lemma_empty_multiset<T>()
    ensures
        Seq::<T>::empty().to_multiset() == vstd::multiset::Multiset::<T>::empty(),
{
    broadcast use vstd::multiset::group_multiset_axioms;
    broadcast use vstd::seq_lib::group_to_multiset_ensures;

    assert(Seq::<T>::empty().to_multiset().len() == 0);
    assert(Seq::<T>::empty().to_multiset() =~= vstd::multiset::Multiset::<T>::empty()) by {
        assert forall|x: T| Seq::<T>::empty().to_multiset().count(x) == 0 by {
            if Seq::<T>::empty().to_multiset().count(x) > 0 {
                assert(Seq::<T>::empty().contains(x));
            }
        }
    }
}

proof fn lemma_push_multiset<T>(s: Seq<T>, x: T)
    ensures
        s.push(x).to_multiset() == s.to_multiset().insert(x),
{
    broadcast use vstd::seq_lib::group_to_multiset_ensures;

}

proof fn lemma_take_push<T>(s: Seq<T>, i: int)
    requires
        0 <= i < s.len(),
    ensures
        s.take(i + 1) == s.take(i).push(s[i]),
        s.take(i + 1).to_multiset() == s.take(i).to_multiset().insert(s[i]),
{
    assert(s.take(i + 1) =~= s.take(i).push(s[i]));
    lemma_push_multiset(s.take(i), s[i]);
}

/// In a sorted list every element may stand before every later one, and adding an element keeps
/// the list sorted exactly when all others may stand before it.
pub proof fn law_in_order<T: Ordered>(s: Seq<T>, x: T)
    ensures
        in_order(s) ==> forall|i: int, j: int|
            0 <= i < j < s.len() ==> #[trigger] s[i].at_most(#[trigger] s[j]),
        in_order(s.push(x)) <==> in_order(s) && forall|i: int|
            0 <= i < s.len() ==> (#[trigger] s[i]).at_most(x),
{
    let t = s.push(x);
    if in_order(t) {
        assert forall|i: int, j: int| 0 <= i < j < s.len() implies #[trigger] s[i].at_most(
            #[trigger] s[j],
        ) by {
            assert(t[i].at_most(t[j]));
        }
        assert forall|i: int| 0 <= i < s.len() implies (#[trigger] s[i]).at_most(x) by {
            assert(t[i].at_most(t[s.len() as int]));
        }
    }
}

} // verus!
