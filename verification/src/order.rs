//! Stable ordering of rows by timestamp.

use vstd::prelude::*;
use vstd::relations::{sorted_by, total_ordering};
use vstd::seq_lib::{
    group_to_multiset_ensures, lemma_multiset_commutative, lemma_sorted_unique,
};

verus! {

/// Row `a` comes no later than row `b`: by timestamp, and among equal
/// timestamps by position.
pub open spec fn row_order(keys: Seq<i64>) -> spec_fn(int, int) -> bool {
    |a: int, b: int| keys[a] < keys[b] || (keys[a] == keys[b] && a <= b)
}

/// The row numbers `lo..hi`.
pub open spec fn rows(lo: int, hi: int) -> Seq<int> {
    Seq::new((hi - lo) as nat, |i: int| lo + i)
}

/// The rows in stable timestamp order.
pub open spec fn stable_order(keys: Seq<i64>) -> Seq<int> {
    rows(0, keys.len() as int).sort_by(row_order(keys))
}

/// The elements of `s` taken in the given order.
pub open spec fn reordered<A>(s: Seq<A>, order: Seq<int>) -> Seq<A> {
    order.map_values(|i: int| s[i])
}

/// Row numbers as mathematical integers.
pub open spec fn row_numbers(order: Seq<usize>) -> Seq<int> {
    order.map_values(|i: usize| i as int)
}

pub proof fn lemma_row_order_total(keys: Seq<i64>)
    ensures
        total_ordering(row_order(keys)),
{
}

/// The stable order holds every row exactly once, never puts a later timestamp
/// before an earlier one, and keeps rows with equal timestamps in the order in
/// which they stood.
pub proof fn law_stable_order(keys: Seq<i64>)
    ensures
        stable_order(keys).len() == keys.len(),
        stable_order(keys).to_multiset() == rows(0, keys.len() as int).to_multiset(),
        stable_order(keys).no_duplicates(),
        forall|i: int|
            #![trigger stable_order(keys)[i]]
            0 <= i < keys.len() ==> 0 <= stable_order(keys)[i] < keys.len(),
        forall|i: int, j: int|
            #![trigger stable_order(keys)[i], stable_order(keys)[j]]
            0 <= i < j < keys.len() ==> {
                let a = stable_order(keys)[i];
                let b = stable_order(keys)[j];
                keys[a] < keys[b] || (keys[a] == keys[b] && a < b)
            },
{
    broadcast use group_to_multiset_ensures;

    let n = keys.len() as int;
    let order = stable_order(keys);
    lemma_row_order_total(keys);
    rows(0, n).lemma_sort_by_ensures(row_order(keys));
    assert(order.len() == order.to_multiset().len());
    assert(rows(0, n).len() == rows(0, n).to_multiset().len());
    rows(0, n).lemma_multiset_has_no_duplicates();
    order.lemma_multiset_has_no_duplicates_conv();
    assert forall|i: int| 0 <= i < n implies 0 <= #[trigger] order[i] < n by {
        assert(order.contains(order[i]));
        assert(rows(0, n).contains(order[i]));
    }
    assert forall|i: int, j: int| 0 <= i < j < n implies {
        let a = #[trigger] order[i];
        let b = #[trigger] order[j];
        keys[a] < keys[b] || (keys[a] == keys[b] && a < b)
    } by {
        assert(row_order(keys)(order[i], order[j]));
    }
}

/// An order that holds every row once and is sorted by timestamp, then by
/// position, is the stable order.
pub proof fn lemma_stable_order_unique(keys: Seq<i64>, order: Seq<int>)
    requires
        order.to_multiset() == rows(0, keys.len() as int).to_multiset(),
        sorted_by(order, row_order(keys)),
    ensures
        order == stable_order(keys),
{
    lemma_row_order_total(keys);
    rows(0, keys.len() as int).lemma_sort_by_ensures(row_order(keys));
    lemma_sorted_unique(order, stable_order(keys), row_order(keys));
}

/// Rows that are already in timestamp order stay where they are.
pub proof fn law_sorted_rows_stay(keys: Seq<i64>)
    requires
        forall|i: int, j: int| 0 <= i < j < keys.len() ==> keys[i] <= keys[j],
    ensures
        stable_order(keys) == rows(0, keys.len() as int),
{
    lemma_stable_order_unique(keys, rows(0, keys.len() as int));
}

/// Timestamps taken in stable order are sorted, so ordering them again changes
/// nothing.
pub proof fn law_ordering_is_idempotent(keys: Seq<i64>)
    ensures
        stable_order(reordered(keys, stable_order(keys))) == rows(0, keys.len() as int),
        reordered(
            reordered(keys, stable_order(keys)),
            stable_order(reordered(keys, stable_order(keys))),
        ) == reordered(keys, stable_order(keys)),
{
    law_stable_order(keys);
    let sorted = reordered(keys, stable_order(keys));
    law_sorted_rows_stay(sorted);
    assert(reordered(sorted, rows(0, keys.len() as int)) =~= sorted);
}

/// Taking the elements in an order that holds every position once keeps all of
/// them, each as often as before.
pub proof fn lemma_reordered_multiset<A>(s: Seq<A>, order: Seq<int>)
    requires
        order.to_multiset() == rows(0, s.len() as int).to_multiset(),
    ensures
        reordered(s, order).to_multiset() == s.to_multiset(),
{
    lemma_multiset_map(s, order, rows(0, s.len() as int));
    assert(reordered(s, rows(0, s.len() as int)) =~= s);
}

proof fn lemma_multiset_map<A>(s: Seq<A>, a: Seq<int>, b: Seq<int>)
    requires
        a.to_multiset() == b.to_multiset(),
    ensures
        reordered(s, a).to_multiset() == reordered(s, b).to_multiset(),
    decreases a.len(),
{
    broadcast use group_to_multiset_ensures;

    assert(a.len() == a.to_multiset().len());
    assert(b.len() == b.to_multiset().len());
    if a.len() > 0 {
        let x = a.last();
        assert(a.contains(x));
        assert(b.to_multiset().count(x) > 0);
        let k = choose|k: int| 0 <= k < b.len() && b[k] == x;
        let a0 = a.drop_last();
        let b0 = b.remove(k);
        assert(a0.push(x) =~= a);
        assert(a0.to_multiset() =~= a.to_multiset().remove(x));
        lemma_multiset_map(s, a0, b0);
        assert(reordered(s, a) =~= reordered(s, a0).push(s[x]));
        assert(reordered(s, b0) =~= reordered(s, b).remove(k));
        assert(reordered(s, b).to_multiset() =~= reordered(s, b0).to_multiset().insert(s[x]));
    } else {
        assert(reordered(s, a) =~= reordered(s, b));
    }
}

/// Merges two ordered lists of rows, the first of which holds the earlier
/// positions.
fn merge(keys: &Vec<i64>, left: &Vec<usize>, right: &Vec<usize>, mid: usize) -> (out: Vec<usize>)
    requires
        forall|i: int| 0 <= i < left@.len() ==> #[trigger] left@[i] < mid,
        forall|i: int| 0 <= i < right@.len() ==> mid <= #[trigger] right@[i] < keys@.len(),
        mid <= keys@.len(),
        sorted_by(row_numbers(left@), row_order(keys@)),
        sorted_by(row_numbers(right@), row_order(keys@)),
        left@.len() + right@.len() <= usize::MAX,
    ensures
        sorted_by(row_numbers(out@), row_order(keys@)),
        row_numbers(out@).to_multiset() == row_numbers(left@).to_multiset().add(
            row_numbers(right@).to_multiset(),
        ),
        forall|i: int| 0 <= i < out@.len() ==> #[trigger] out@[i] < keys@.len(),
        forall|i: int|
            0 <= i < out@.len() ==> left@.contains(#[trigger] out@[i]) || right@.contains(out@[i]),
{
    let mut out: Vec<usize> = Vec::new();
    let mut i: usize = 0;
    let mut j: usize = 0;
    let ghost l = row_numbers(left@);
    let ghost r = row_numbers(right@);
    proof {
        broadcast use group_to_multiset_ensures;

        assert(row_numbers(out@) =~= Seq::empty());
        assert(l.subrange(0, 0) =~= Seq::empty());
        assert(r.subrange(0, 0) =~= Seq::empty());
        assert(row_numbers(out@).to_multiset() =~= l.subrange(0, 0).to_multiset().add(
            r.subrange(0, 0).to_multiset(),
        ));
    }
    while i < left.len() || j < right.len()
        invariant
            i <= left@.len(),
            j <= right@.len(),
            l == row_numbers(left@),
            r == row_numbers(right@),
            mid <= keys@.len(),
            forall|k: int| 0 <= k < left@.len() ==> #[trigger] left@[k] < mid,
            forall|k: int| 0 <= k < right@.len() ==> mid <= #[trigger] right@[k] < keys@.len(),
            sorted_by(l, row_order(keys@)),
            sorted_by(r, row_order(keys@)),
            sorted_by(row_numbers(out@), row_order(keys@)),
            forall|k: int| 0 <= k < out@.len() ==> #[trigger] out@[k] < keys@.len(),
            forall|k: int, m: int|
                #![trigger out@[k], left@[m]]
                0 <= k < out@.len() && i <= m < left@.len() ==> row_order(keys@)(
                    out@[k] as int,
                    left@[m] as int,
                ),
            forall|k: int, m: int|
                #![trigger out@[k], right@[m]]
                0 <= k < out@.len() && j <= m < right@.len() ==> row_order(keys@)(
                    out@[k] as int,
                    right@[m] as int,
                ),
            row_numbers(out@).to_multiset() == l.subrange(0, i as int).to_multiset().add(
                r.subrange(0, j as int).to_multiset(),
            ),
            forall|k: int|
                0 <= k < out@.len() ==> left@.contains(#[trigger] out@[k]) || right@.contains(
                    out@[k],
                ),
        decreases left@.len() - i + right@.len() - j,
    {
        broadcast use group_to_multiset_ensures;

        let ghost before = out@;
        let ghost ord = row_order(keys@);
        let take_left = if i >= left.len() {
            false
        } else if j >= right.len() {
            true
        } else {
            keys[left[i]] <= keys[right[j]]
        };
        if take_left {
            let next: usize = left[i];
            out.push(next);
            proof {
                assert(l.subrange(0, i + 1) =~= l.subrange(0, i as int).push(next as int));
                assert(row_numbers(out@) =~= row_numbers(before).push(next as int));
                assert(l.subrange(0, i as int).to_multiset().insert(next as int).add(
                    r.subrange(0, j as int).to_multiset(),
                ) =~= l.subrange(0, i as int).to_multiset().add(
                    r.subrange(0, j as int).to_multiset(),
                ).insert(next as int));
                assert forall|m: int| i < m < left@.len() implies ord(
                    next as int,
                    #[trigger] left@[m] as int,
                ) by {
                    assert(ord(l[i as int], l[m]));
                }
                assert forall|m: int| j <= m < right@.len() implies ord(
                    next as int,
                    #[trigger] right@[m] as int,
                ) by {
                    if m > j {
                        assert(ord(r[j as int], r[m]));
                    }
                }
            }
            i += 1;
        } else {
            let next: usize = right[j];
            out.push(next);
            proof {
                assert(r.subrange(0, j + 1) =~= r.subrange(0, j as int).push(next as int));
                assert(row_numbers(out@) =~= row_numbers(before).push(next as int));
                assert(l.subrange(0, i as int).to_multiset().add(
                    r.subrange(0, j as int).to_multiset().insert(next as int),
                ) =~= l.subrange(0, i as int).to_multiset().add(
                    r.subrange(0, j as int).to_multiset(),
                ).insert(next as int));
                assert forall|m: int| j < m < right@.len() implies ord(
                    next as int,
                    #[trigger] right@[m] as int,
                ) by {
                    assert(ord(r[j as int], r[m]));
                }
                assert forall|m: int| i <= m < left@.len() implies ord(
                    next as int,
                    #[trigger] left@[m] as int,
                ) by {
                    if m > i {
                        assert(ord(l[i as int], l[m]));
                    }
                }
            }
            j += 1;
        }
    }
    assert(l.subrange(0, i as int) =~= l);
    assert(r.subrange(0, j as int) =~= r);
    out
}

/// The rows `lo..hi` in stable timestamp order.
fn ordered_rows(keys: &Vec<i64>, lo: usize, hi: usize) -> (out: Vec<usize>)
    requires
        lo <= hi <= keys@.len(),
    ensures
        sorted_by(row_numbers(out@), row_order(keys@)),
        row_numbers(out@).to_multiset() == rows(lo as int, hi as int).to_multiset(),
        forall|i: int| 0 <= i < out@.len() ==> lo <= #[trigger] out@[i] < hi,
        out@.len() == hi - lo,
    decreases hi - lo,
{
    broadcast use group_to_multiset_ensures;

    if hi - lo <= 1 {
        let mut out: Vec<usize> = Vec::new();
        if hi - lo == 1 {
            out.push(lo);
        }
        assert(row_numbers(out@) =~= rows(lo as int, hi as int));
        return out;
    }
    let mid: usize = lo + (hi - lo) / 2;
    let left = ordered_rows(keys, lo, mid);
    let right = ordered_rows(keys, mid, hi);
    let out = merge(keys, &left, &right, mid);
    proof {
        lemma_multiset_commutative(rows(lo as int, mid as int), rows(mid as int, hi as int));
        assert(rows(lo as int, mid as int) + rows(mid as int, hi as int) =~= rows(
            lo as int,
            hi as int,
        ));
        assert(row_numbers(out@).len() == row_numbers(out@).to_multiset().len());
        assert(rows(lo as int, hi as int).len() == rows(lo as int, hi as int).to_multiset().len());
        assert forall|i: int| 0 <= i < out@.len() implies lo <= #[trigger] out@[i] < hi by {
            if left@.contains(out@[i]) {
                let k = choose|k: int| 0 <= k < left@.len() && left@[k] == out@[i];
                assert(lo <= left@[k] < mid);
            } else {
                let k = choose|k: int| 0 <= k < right@.len() && right@[k] == out@[i];
                assert(mid <= right@[k] < hi);
            }
        }
    }
    out
}

/// The rows in stable timestamp order.
pub fn timestamp_order(keys: &Vec<i64>) -> (order: Vec<usize>)
    ensures
        row_numbers(order@) == stable_order(keys@),
        order@.len() == keys@.len(),
        forall|i: int| 0 <= i < order@.len() ==> #[trigger] order@[i] < keys@.len(),
{
    let order = ordered_rows(keys, 0, keys.len());
    proof {
        lemma_stable_order_unique(keys@, row_numbers(order@));
    }
    order
}

/// The timestamps taken in the given order.
pub fn reorder_timestamps(keys: &Vec<i64>, order: &Vec<usize>) -> (out: Vec<i64>)
    requires
        forall|i: int| 0 <= i < order@.len() ==> #[trigger] order@[i] < keys@.len(),
    ensures
        out@ == reordered(keys@, row_numbers(order@)),
{
    let mut out: Vec<i64> = Vec::new();
    let mut i: usize = 0;
    while i < order.len()
        invariant
            i <= order@.len(),
            forall|k: int| 0 <= k < order@.len() ==> #[trigger] order@[k] < keys@.len(),
            out@ == reordered(keys@, row_numbers(order@)).subrange(0, i as int),
        decreases order@.len() - i,
    {
        out.push(keys[order[i]]);
        i += 1;
        assert(out@ =~= reordered(keys@, row_numbers(order@)).subrange(0, i as int));
    }
    assert(out@ =~= reordered(keys@, row_numbers(order@)));
    out
}

/// Taking elements in an order puts at each place the element that the order
/// names there.
pub proof fn law_reordered<A>(s: Seq<A>, order: Seq<int>, i: int)
    requires
        0 <= i < order.len(),
    ensures
        reordered(s, order).len() == order.len(),
        reordered(s, order)[i] == s[order[i]],
{
}

} // verus!
