//! The stable ascending order of a sequence of keys: the positions of the
//! keys, sorted by key, with equal keys in the order in which they stand.

use vstd::prelude::*;

verus! {

/// Position `i` comes before position `j`: its key is smaller, or the keys
/// are equal and `i` stands first.
pub open spec fn comes_before(keys: Seq<int>, i: int, j: int) -> bool {
    keys[i] < keys[j] || (keys[i] == keys[j] && i < j)
}

/// `order` lists positions of `keys`, each before all that follow it.
pub open spec fn is_ordered_run(keys: Seq<int>, order: Seq<int>, lo: int, hi: int) -> bool {
    &&& forall|a: int| 0 <= a < order.len() ==> lo <= #[trigger] order[a] < hi
    &&& forall|a: int, b: int|
        0 <= a < b < order.len() ==> comes_before(keys, #[trigger] order[a], #[trigger] order[b])
}

/// `order` is the stable ascending order of `keys`: it has one entry for each
/// key, every entry is a position of `keys`, and each entry comes before all
/// that follow it.
pub open spec fn is_stable_order(keys: Seq<int>, order: Seq<int>) -> bool {
    &&& order.len() == keys.len()
    &&& is_ordered_run(keys, order, 0, keys.len() as int)
}

/// The stable ascending order of `keys`.
pub open spec fn stable_order(keys: Seq<int>) -> Seq<int> {
    choose|order: Seq<int>| is_stable_order(keys, order)
}

/// The values of a list of keys.
pub open spec fn key_values(keys: Seq<i128>) -> Seq<int> {
    Seq::new(keys.len(), |i: int| keys[i] as int)
}

/// The positions that a list of indices names.
pub open spec fn positions(order: Seq<usize>) -> Seq<int> {
    Seq::new(order.len(), |i: int| order[i] as int)
}

/// The items of `s` in the given order.
pub open spec fn gather<T>(s: Seq<T>, order: Seq<int>) -> Seq<T> {
    Seq::new(order.len(), |i: int| s[order[i]])
}

/// An ordered run holds no position twice.
pub proof fn lemma_run_has_no_duplicates(keys: Seq<int>, order: Seq<int>, lo: int, hi: int)
    requires
        is_ordered_run(keys, order, lo, hi),
    ensures
        order.no_duplicates(),
{
    assert forall|a: int, b: int| 0 <= a < order.len() && 0 <= b < order.len() && a != b implies order[a]
        != order[b] by {
        if a < b {
            assert(comes_before(keys, order[a], order[b]));
        } else {
            assert(comes_before(keys, order[b], order[a]));
        }
    }
}

/// A stable order names every position of the keys.
pub proof fn lemma_stable_order_is_onto(keys: Seq<int>, order: Seq<int>, p: int)
    requires
        is_stable_order(keys, order),
        0 <= p < keys.len(),
    ensures
        exists|a: int| 0 <= a < order.len() && order[a] == p,
{
    lemma_run_has_no_duplicates(keys, order, 0, keys.len() as int);
    let n = keys.len() as int;
    let named = order.to_set();
    let all = vstd::set_lib::set_int_range(0, n);
    order.unique_seq_to_set();
    vstd::set_lib::lemma_int_range(0, n);
    assert(named.subset_of(all)) by {
        assert forall|x: int| named.contains(x) implies all.contains(x) by {
            let a = choose|a: int| 0 <= a < order.len() && order[a] == x;
            assert(0 <= order[a] < n);
        }
    }
    vstd::set_lib::lemma_subset_equality(named, all);
    assert(all.contains(p));
    assert(named.contains(p));
}

/// There is only one stable order of a sequence of keys.
pub proof fn lemma_stable_order_is_unique(keys: Seq<int>, x: Seq<int>, y: Seq<int>)
    requires
        is_stable_order(keys, x),
        is_stable_order(keys, y),
    ensures
        x == y,
{
    if exists|i: int| 0 <= i < x.len() && x[i] != y[i] {
        let i = choose_first_difference(x, y);
        lemma_first_difference(keys, x, y, i);
        lemma_first_difference(keys, y, x, i);
    }
    assert(x =~= y);
}

/// The first position at which two sequences of one length differ.
proof fn choose_first_difference(x: Seq<int>, y: Seq<int>) -> (i: int)
    requires
        x.len() == y.len(),
        exists|i: int| 0 <= i < x.len() && x[i] != y[i],
    ensures
        0 <= i < x.len(),
        x[i] != y[i],
        forall|j: int| 0 <= j < i ==> x[j] == y[j],
{
    let k = choose|i: int| 0 <= i < x.len() && x[i] != y[i];
    first_difference_upto(x, y, k)
}

proof fn first_difference_upto(x: Seq<int>, y: Seq<int>, k: int) -> (i: int)
    requires
        x.len() == y.len(),
        0 <= k < x.len(),
        x[k] != y[k],
    ensures
        0 <= i <= k,
        x[i] != y[i],
        forall|j: int| 0 <= j < i ==> x[j] == y[j],
    decreases k,
{
    if exists|j: int| 0 <= j < k && x[j] != y[j] {
        let j = choose|j: int| 0 <= j < k && x[j] != y[j];
        first_difference_upto(x, y, j)
    } else {
        k
    }
}

/// Where two stable orders first differ at `i`, the entry of `x` does not
/// come before that of `y`: it stands in `y` as well, and only later.
proof fn lemma_first_difference(keys: Seq<int>, x: Seq<int>, y: Seq<int>, i: int)
    requires
        is_stable_order(keys, x),
        is_stable_order(keys, y),
        0 <= i < x.len(),
        forall|j: int| 0 <= j < i ==> x[j] == y[j],
        x[i] != y[i],
    ensures
        !comes_before(keys, x[i], y[i]),
{
    lemma_stable_order_is_onto(keys, y, x[i]);
    let b = choose|b: int| 0 <= b < y.len() && y[b] == x[i];
    if b < i {
        assert(x[b] == y[b]);
        assert(comes_before(keys, x[b], x[i]));
    } else if b > i {
        assert(comes_before(keys, y[i], y[b]));
    }
}

/// The first place in `order`, at or after `from`, whose key is greater than
/// `key`; the length of `order` where there is none.
spec fn first_greater(keys: Seq<int>, order: Seq<int>, key: int, from: int) -> int
    decreases order.len() - from,
{
    if from < 0 || from >= order.len() {
        order.len() as int
    } else if keys[order[from]] > key {
        from
    } else {
        first_greater(keys, order, key, from + 1)
    }
}

/// `first_greater` parts the places from `from` on: the keys before it are
/// at most `key`, its own key is greater.
proof fn lemma_first_greater(keys: Seq<int>, order: Seq<int>, key: int, from: int)
    requires
        0 <= from <= order.len(),
    ensures
        from <= first_greater(keys, order, key, from) <= order.len(),
        forall|a: int|
            from <= a < first_greater(keys, order, key, from) ==> keys[#[trigger] order[a]] <= key,
        first_greater(keys, order, key, from) < order.len() ==> keys[order[first_greater(
            keys,
            order,
            key,
            from,
        )]] > key,
    decreases order.len() - from,
{
    if from < order.len() && keys[order[from]] <= key {
        lemma_first_greater(keys, order, key, from + 1);
    }
}

/// The stable order of a sequence with one more key at its end: the new
/// position stands behind all keys that are not greater than its own.
spec fn with_last(keys: Seq<int>, order: Seq<int>) -> Seq<int> {
    let last = keys.len() - 1;
    let at = first_greater(keys, order, keys[last], 0);
    order.subrange(0, at).push(last) + order.subrange(at, order.len() as int)
}

/// Every sequence of keys has a stable order.
pub proof fn lemma_stable_order_exists(keys: Seq<int>)
    ensures
        is_stable_order(keys, stable_order(keys)),
    decreases keys.len(),
{
    if keys.len() == 0 {
        assert(is_stable_order(keys, Seq::<int>::empty()));
    } else {
        let last = keys.len() - 1;
        let front = keys.drop_last();
        lemma_stable_order_exists(front);
        let inner = stable_order(front);
        let at = first_greater(keys, inner, keys[last], 0);
        lemma_first_greater(keys, inner, keys[last], 0);
        let order = with_last(keys, inner);
        assert(order.len() == keys.len());
        assert forall|a: int| 0 <= a < order.len() implies 0 <= #[trigger] order[a] < keys.len() by {
            if a < at {
                assert(order[a] == inner[a]);
            } else if a > at {
                assert(order[a] == inner[a - 1]);
            }
        }
        assert forall|a: int, b: int| 0 <= a < b < order.len() implies comes_before(
            keys,
            #[trigger] order[a],
            #[trigger] order[b],
        ) by {
            let x = if a < at {
                a
            } else {
                a - 1
            };
            let y = if b < at {
                b
            } else {
                b - 1
            };
            if a != at {
                assert(order[a] == inner[x]);
                assert(0 <= inner[x] < front.len());
                assert(front[inner[x]] == keys[inner[x]]);
            }
            if b != at {
                assert(order[b] == inner[y]);
                assert(0 <= inner[y] < front.len());
                assert(front[inner[y]] == keys[inner[y]]);
            }
            if a != at && b != at {
                assert(comes_before(front, inner[x], inner[y]));
            } else if a == at {
                // Every place from `at` on in `inner` has a greater key.
                if at < inner.len() && y > at {
                    assert(comes_before(front, inner[at], inner[y]));
                }
            }
        }
        assert(is_stable_order(keys, order));
    }
}

/// Stability: of two positions with the same key, the one that stands first
/// is named first by the stable order.
pub proof fn lemma_equal_keys_keep_their_order(keys: Seq<int>, i: int, j: int)
    requires
        0 <= i < j < keys.len(),
        keys[i] == keys[j],
    ensures
        exists|a: int, b: int|
            0 <= a < b < keys.len() && stable_order(keys)[a] == i && stable_order(keys)[b] == j,
{
    lemma_stable_order_exists(keys);
    let order = stable_order(keys);
    lemma_stable_order_is_onto(keys, order, i);
    lemma_stable_order_is_onto(keys, order, j);
    let a = choose|a: int| 0 <= a < order.len() && order[a] == i;
    let b = choose|b: int| 0 <= b < order.len() && order[b] == j;
    if b < a {
        assert(comes_before(keys, order[b], order[a]));
    }
    assert(0 <= a < b < keys.len() && order[a] == i && order[b] == j);
}

/// The keys stand in ascending order when read in their stable order.
pub proof fn lemma_stable_order_ascends(keys: Seq<int>, a: int, b: int)
    requires
        0 <= a <= b < keys.len(),
    ensures
        gather(keys, stable_order(keys))[a] <= gather(keys, stable_order(keys))[b],
{
    lemma_stable_order_exists(keys);
    let order = stable_order(keys);
    if a < b {
        assert(comes_before(keys, order[a], order[b]));
    }
}

/// The stable order names every position exactly once.
pub proof fn lemma_stable_order_is_permutation(keys: Seq<int>)
    ensures
        is_permutation(stable_order(keys), keys.len() as int),
        stable_order(keys).len() == keys.len(),
        stable_order(keys).no_duplicates(),
        forall|p: int| 0 <= p < keys.len() ==> #[trigger] stable_order(keys).contains(p),
        forall|a: int| 0 <= a < keys.len() ==> 0 <= #[trigger] stable_order(keys)[a] < keys.len(),
{
    lemma_stable_order_exists(keys);
    let order = stable_order(keys);
    lemma_run_has_no_duplicates(keys, order, 0, keys.len() as int);
    assert forall|p: int| 0 <= p < keys.len() implies #[trigger] order.contains(p) by {
        lemma_stable_order_is_onto(keys, order, p);
    }
}

/// The stable order of keys that already ascend leaves every position where
/// it is.
pub proof fn lemma_stable_order_of_ascending(keys: Seq<int>)
    requires
        forall|a: int, b: int| 0 <= a <= b < keys.len() ==> keys[a] <= keys[b],
    ensures
        stable_order(keys) == Seq::new(keys.len(), |a: int| a),
{
    lemma_stable_order_exists(keys);
    let same = Seq::new(keys.len(), |a: int| a);
    assert(is_stable_order(keys, same));
    lemma_stable_order_is_unique(keys, same, stable_order(keys));
}

/// `order` names every position of a sequence of `n` items exactly once.
pub open spec fn is_permutation(order: Seq<int>, n: int) -> bool {
    &&& order.len() == n
    &&& order.no_duplicates()
    &&& forall|a: int| 0 <= a < order.len() ==> 0 <= #[trigger] order[a] < n
}

/// Reading the items of a sequence in an order that names every position
/// once gives the same items, each as often as before.
pub proof fn lemma_gather_keeps_items<A>(s: Seq<A>, order: Seq<int>)
    requires
        is_permutation(order, s.len() as int),
    ensures
        gather(s, order).to_multiset() == s.to_multiset(),
    decreases s.len(),
{
    broadcast use vstd::multiset::group_multiset_axioms;

    if s.len() == 0 {
        assert(gather(s, order) =~= s);
    } else {
        let n = s.len() as int;
        let p = order[n - 1];
        let front = order.drop_last();
        let rest = s.remove(p);
        // The positions before the last, counted in the sequence without
        // the item at `p`.
        let moved = Seq::new(
            front.len(),
            |a: int|
                if front[a] > p {
                    front[a] - 1
                } else {
                    front[a]
                },
        );
        assert forall|a: int| 0 <= a < front.len() implies front[a] != p && 0 <= front[a] < n by {
            assert(front[a] == order[a]);
            assert(order[a] != order[n - 1]);
        }
        assert(is_permutation(moved, n - 1)) by {
            assert forall|a: int, b: int|
                0 <= a < moved.len() && 0 <= b < moved.len() && a != b implies moved[a]
                != moved[b] by {
                assert(front[a] == order[a] && front[b] == order[b]);
                assert(order[a] != order[b]);
            }
        }
        assert(gather(rest, moved) =~= gather(s, front)) by {
            assert forall|a: int| 0 <= a < front.len() implies rest[moved[a]] == s[front[a]] by {
                assert(front[a] != p && 0 <= front[a] < n);
            }
        }
        lemma_gather_keeps_items(rest, moved);
        assert(gather(s, order) =~= gather(s, front).push(s[p]));
        vstd::seq_lib::to_multiset_build(gather(s, front), s[p]);
        vstd::seq_lib::to_multiset_remove(s, p);
        s.to_multiset_ensures();
        assert(s.contains(s[p]));
        assert(s.to_multiset().remove(s[p]).insert(s[p]) =~= s.to_multiset());
    }
}

/// Merges two ordered runs of neighbouring ranges of positions into one.
fn merge_runs(keys: &Vec<i128>, left: &Vec<usize>, right: &Vec<usize>, lo: usize, mid: usize, hi: usize) -> (out:
    Vec<usize>)
    requires
        lo <= mid <= hi <= keys@.len(),
        left@.len() + right@.len() <= hi - lo,
        is_ordered_run(key_values(keys@), positions(left@), lo as int, mid as int),
        is_ordered_run(key_values(keys@), positions(right@), mid as int, hi as int),
    ensures
        out@.len() == left@.len() + right@.len(),
        is_ordered_run(key_values(keys@), positions(out@), lo as int, hi as int),
{
    let ghost k = key_values(keys@);
    let ghost l = positions(left@);
    let ghost r = positions(right@);
    let mut out: Vec<usize> = Vec::new();
    let mut i: usize = 0;
    let mut j: usize = 0;
    while i < left.len() || j < right.len()
        invariant
            i <= left@.len(),
            j <= right@.len(),
            lo <= mid <= hi <= keys@.len(),
            k == key_values(keys@),
            l == positions(left@),
            r == positions(right@),
            is_ordered_run(k, l, lo as int, mid as int),
            is_ordered_run(k, r, mid as int, hi as int),
            out@.len() == i + j,
            is_ordered_run(k, positions(out@), lo as int, hi as int),
            forall|a: int, p: int|
                0 <= a < out@.len() && i <= p < l.len() ==> comes_before(
                    k,
                    #[trigger] positions(out@)[a],
                    #[trigger] l[p],
                ),
            forall|a: int, q: int|
                0 <= a < out@.len() && j <= q < r.len() ==> comes_before(
                    k,
                    #[trigger] positions(out@)[a],
                    #[trigger] r[q],
                ),
        decreases left@.len() - i + right@.len() - j,
    {
        let ghost before = positions(out@);
        let take_left = if i >= left.len() {
            false
        } else if j >= right.len() {
            true
        } else {
            assert(lo <= l[i as int] < mid);
            assert(mid <= r[j as int] < hi);
            keys[left[i]] <= keys[right[j]]
        };
        if take_left {
            let x = left[i];
            assert(lo <= l[i as int] < mid);
            out.push(x);
            i += 1;
            proof {
                let now = positions(out@);
                assert(forall|a: int| 0 <= a < before.len() ==> now[a] == before[a]);
                assert(now[before.len() as int] == x);
                assert forall|a: int, p: int| 0 <= a < now.len() && i <= p < l.len() implies comes_before(
                    k,
                    #[trigger] now[a],
                    #[trigger] l[p],
                ) by {
                    if a == before.len() {
                        assert(comes_before(k, l[i - 1], l[p]));
                    } else {
                        assert(comes_before(k, before[a], l[p]));
                    }
                }
                assert forall|a: int, q: int| 0 <= a < now.len() && j <= q < r.len() implies comes_before(
                    k,
                    #[trigger] now[a],
                    #[trigger] r[q],
                ) by {
                    if a == before.len() {
                        assert(mid <= r[q] < hi);
                        assert(mid <= r[j as int] < hi);
                        if q > j {
                            assert(comes_before(k, r[j as int], r[q]));
                        }
                    } else {
                        assert(comes_before(k, before[a], r[q]));
                    }
                }
                assert forall|a: int, b: int| 0 <= a < b < now.len() implies comes_before(
                    k,
                    #[trigger] now[a],
                    #[trigger] now[b],
                ) by {
                    if b == before.len() {
                        assert(comes_before(k, before[a], l[i - 1]));
                    } else {
                        assert(comes_before(k, before[a], before[b]));
                    }
                }
            }
        } else {
            let x = right[j];
            assert(mid <= r[j as int] < hi);
            out.push(x);
            j += 1;
            proof {
                let now = positions(out@);
                assert(forall|a: int| 0 <= a < before.len() ==> now[a] == before[a]);
                assert(now[before.len() as int] == x);
                assert forall|a: int, p: int| 0 <= a < now.len() && i <= p < l.len() implies comes_before(
                    k,
                    #[trigger] now[a],
                    #[trigger] l[p],
                ) by {
                    if a == before.len() {
                        assert(lo <= l[p] < mid);
                        assert(lo <= l[i as int] < mid);
                        if p > i {
                            assert(comes_before(k, l[i as int], l[p]));
                        }
                    } else {
                        assert(comes_before(k, before[a], l[p]));
                    }
                }
                assert forall|a: int, q: int| 0 <= a < now.len() && j <= q < r.len() implies comes_before(
                    k,
                    #[trigger] now[a],
                    #[trigger] r[q],
                ) by {
                    if a == before.len() {
                        assert(comes_before(k, r[j - 1], r[q]));
                    } else {
                        assert(comes_before(k, before[a], r[q]));
                    }
                }
                assert forall|a: int, b: int| 0 <= a < b < now.len() implies comes_before(
                    k,
                    #[trigger] now[a],
                    #[trigger] now[b],
                ) by {
                    if b == before.len() {
                        assert(comes_before(k, before[a], r[j - 1]));
                    } else {
                        assert(comes_before(k, before[a], before[b]));
                    }
                }
            }
        }
    }
    out
}

/// The positions from `lo` up to `hi`, in stable ascending order of their
/// keys.
fn order_range(keys: &Vec<i128>, lo: usize, hi: usize) -> (out: Vec<usize>)
    requires
        lo <= hi <= keys@.len(),
    ensures
        out@.len() == hi - lo,
        is_ordered_run(key_values(keys@), positions(out@), lo as int, hi as int),
    decreases hi - lo,
{
    if hi - lo < 2 {
        let mut out: Vec<usize> = Vec::new();
        if hi - lo == 1 {
            out.push(lo);
        }
        out
    } else {
        let mid = lo + (hi - lo) / 2;
        let left = order_range(keys, lo, mid);
        let right = order_range(keys, mid, hi);
        merge_runs(keys, &left, &right, lo, mid, hi)
    }
}

/// The stable ascending order of the keys: the positions of the keys, sorted
/// by key, equal keys in the order in which they stand.
pub fn stable_sort_order(keys: &Vec<i128>) -> (order: Vec<usize>)
    ensures
        is_stable_order(key_values(keys@), positions(order@)),
        positions(order@) == stable_order(key_values(keys@)),
{
    let order = order_range(keys, 0, keys.len());
    proof {
        let k = key_values(keys@);
        let o = positions(order@);
        assert(is_stable_order(k, o));
        lemma_stable_order_is_unique(k, o, stable_order(k));
    }
    order
}

} // verus!
