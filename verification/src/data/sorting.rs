//! Stable sorting by an integer key.
use vstd::prelude::*;

verus! {

/// Whether position `a` comes before position `b`: by its key, and by itself where the keys are
/// equal.
pub open spec fn precedes(keys: Seq<i64>, a: int, b: int) -> bool {
    keys[a] < keys[b] || (keys[a] == keys[b] && a < b)
}

/// Whether a row holds the positions from `from` to `to`, in the stable order of their keys.
pub open spec fn is_order_of(order: Seq<usize>, keys: Seq<i64>, from: int, to: int) -> bool {
    &&& order.len() == to - from
    &&& forall|i: int| 0 <= i < order.len() ==> from <= #[trigger] order[i] < to
    &&& forall|i: int, j: int|
        0 <= i < j < order.len() ==> precedes(keys, (#[trigger] order[i]) as int, (#[trigger] order[j]) as int)
}

/// The positions of a row of keys, in the stable order of the keys.
pub open spec fn stable_order(keys: Seq<i64>) -> Seq<usize> {
    choose|order: Seq<usize>| is_order_of(order, keys, 0, keys.len() as int)
}

/// In a row that holds `n` different positions below `n`, every position occurs.
proof fn lemma_all_occur(order: Seq<usize>, n: int, position: int)
    requires
        order.len() == n,
        forall|i: int| 0 <= i < n ==> 0 <= #[trigger] order[i] < n,
        forall|i: int, j: int| 0 <= i < j < n ==> #[trigger] order[i] != #[trigger] order[j],
        0 <= position < n,
    ensures
        exists|i: int| 0 <= i < n && #[trigger] order[i] == position,
{
    let occurring: Seq<int> = order.map_values(|p: usize| p as int);
    assert(occurring.no_duplicates()) by {
        assert forall|i: int, j: int|
            0 <= i < occurring.len() && 0 <= j < occurring.len() && i
                != j implies occurring[i] != occurring[j] by {
            if i < j {
                assert(order[i] != order[j]);
            } else {
                assert(order[j] != order[i]);
            }
        }
    }
    occurring.unique_seq_to_set();
    vstd::set_lib::lemma_int_range(0, n);
    let range = vstd::set_lib::set_int_range(0, n);
    assert(occurring.to_set().subset_of(range)) by {
        assert forall|p: int| occurring.to_set().contains(p) implies range.contains(p) by {
            let i = choose|i: int| 0 <= i < occurring.len() && occurring[i] == p;
            assert(occurring[i] == order[i]);
        }
    }
    vstd::set_lib::lemma_subset_equality(occurring.to_set(), range);
    assert(range.contains(position));
    assert(occurring.to_set().contains(position));
    let i = choose|i: int| 0 <= i < occurring.len() && occurring[i] == position;
    assert(order[i] == position);
}

/// Every position occurs in the order.
pub proof fn lemma_order_is_complete(order: Seq<usize>, keys: Seq<i64>, position: int)
    requires
        is_order_of(order, keys, 0, keys.len() as int),
        0 <= position < keys.len(),
    ensures
        exists|i: int| 0 <= i < order.len() && #[trigger] order[i] == position,
{
    assert forall|i: int, j: int| 0 <= i < j < order.len() implies #[trigger] order[i]
        != #[trigger] order[j] by {
        assert(precedes(keys, order[i] as int, order[j] as int));
    }
    lemma_all_occur(order, keys.len() as int, position);
}

/// Two orders of the same keys agree up to any place.
proof fn lemma_orders_agree(a: Seq<usize>, b: Seq<usize>, keys: Seq<i64>, k: int)
    requires
        is_order_of(a, keys, 0, keys.len() as int),
        is_order_of(b, keys, 0, keys.len() as int),
        0 <= k <= keys.len(),
    ensures
        forall|i: int| 0 <= i < k ==> #[trigger] a[i] == b[i],
    decreases k,
{
    if k > 0 {
        lemma_orders_agree(a, b, keys, k - 1);
        let m = k - 1;
        lemma_order_is_complete(b, keys, a[m] as int);
        lemma_order_is_complete(a, keys, b[m] as int);
        let i = choose|i: int| 0 <= i < b.len() && #[trigger] b[i] == a[m];
        let j = choose|j: int| 0 <= j < a.len() && #[trigger] a[j] == b[m];
        if i < m {
            assert(a[i] == b[i]);
            assert(precedes(keys, a[i] as int, a[m] as int));
        }
        if j < m {
            assert(a[j] == b[j]);
            assert(precedes(keys, b[j] as int, b[m] as int));
        }
        if i > m && j > m {
            assert(precedes(keys, b[m] as int, b[i] as int));
            assert(precedes(keys, a[m] as int, a[j] as int));
        }
    }
}

/// There is one stable order of a row of keys.
pub proof fn lemma_order_is_unique(order: Seq<usize>, keys: Seq<i64>)
    requires
        is_order_of(order, keys, 0, keys.len() as int),
    ensures
        stable_order(keys) == order,
        is_order_of(stable_order(keys), keys, 0, keys.len() as int),
{
    lemma_orders_agree(stable_order(keys), order, keys, keys.len() as int);
    assert(stable_order(keys) =~= order);
}

/// The stable order of the first `n` keys, built by putting each position behind those that precede
/// it.
proof fn build_order(keys: Seq<i64>, n: int) -> (order: Seq<usize>)
    requires
        0 <= n <= keys.len(),
        n <= usize::MAX,
    ensures
        is_order_of(order, keys, 0, n),
    decreases n,
{
    if n == 0 {
        Seq::empty()
    } else {
        let before = build_order(keys, n - 1);
        let k = place(before, keys, keys[n - 1]);
        lemma_place(before, keys, n - 1);
        let order = before.insert(k, (n - 1) as usize);
        assert forall|i: int| 0 <= i < order.len() implies 0 <= #[trigger] order[i] < n by {
            if i < k {
                assert(order[i] == before[i]);
            } else if i > k {
                assert(order[i] == before[i - 1]);
            }
        }
        assert forall|i: int, j: int| 0 <= i < j < order.len() implies precedes(
            keys,
            (#[trigger] order[i]) as int,
            (#[trigger] order[j]) as int,
        ) by {
            let a = if i < k {
                i
            } else {
                i - 1
            };
            let b = if j < k {
                j
            } else {
                j - 1
            };
            if i != k && j != k {
                assert(order[i] == before[a] && order[j] == before[b]);
                assert(precedes(keys, before[a] as int, before[b] as int));
            } else if i == k {
                assert(order[j] == before[b]);
            } else {
                assert(order[i] == before[a]);
            }
        }
        order
    }
}

/// How many positions of an order have a key that is at most `key`.
spec fn place(order: Seq<usize>, keys: Seq<i64>, key: i64) -> int
    decreases order.len(),
{
    if order.len() == 0 {
        0
    } else if keys[order.last() as int] <= key {
        order.len() as int
    } else {
        place(order.drop_last(), keys, key)
    }
}

/// The positions in front of that place have keys that are at most `key`, the others have not.
proof fn lemma_place(order: Seq<usize>, keys: Seq<i64>, n: int)
    requires
        0 <= n < keys.len(),
        forall|i: int| 0 <= i < order.len() ==> 0 <= #[trigger] order[i] < n,
        forall|i: int, j: int|
            0 <= i < j < order.len() ==> precedes(
                keys,
                (#[trigger] order[i]) as int,
                (#[trigger] order[j]) as int,
            ),
    ensures
        0 <= place(order, keys, keys[n]) <= order.len(),
        forall|i: int|
            0 <= i < place(order, keys, keys[n]) ==> keys[(#[trigger] order[i]) as int] <= keys[n],
        forall|i: int|
            place(order, keys, keys[n]) <= i < order.len() ==> keys[(#[trigger] order[i]) as int]
                > keys[n],
    decreases order.len(),
{
    if order.len() > 0 {
        let last = order.len() - 1;
        if keys[order.last() as int] <= keys[n] {
            assert forall|i: int| 0 <= i < order.len() implies keys[(#[trigger] order[i]) as int]
                <= keys[n] by {
                if i < last {
                    assert(precedes(keys, order[i] as int, order[last] as int));
                }
            }
        } else {
            let front = order.drop_last();
            assert forall|i: int| 0 <= i < front.len() implies #[trigger] front[i] == order[i] by {}
            lemma_place(front, keys, n);
            assert forall|i: int| 0 <= i < last implies #[trigger] order[i] == front[i] by {}
        }
    }
}

/// Every row of keys has a stable order.
pub proof fn lemma_order_exists(keys: Seq<i64>)
    requires
        keys.len() <= usize::MAX,
    ensures
        is_order_of(stable_order(keys), keys, 0, keys.len() as int),
{
    let order = build_order(keys, keys.len() as int);
    assert(is_order_of(order, keys, 0, keys.len() as int));
}

/// Merges the orders of two neighbouring ranges.
fn merge_orders(
    keys: &Vec<i64>,
    left: &Vec<usize>,
    right: &Vec<usize>,
    from: usize,
    middle: usize,
    to: usize,
) -> (r: Vec<usize>)
    requires
        from <= middle <= to <= keys@.len(),
        is_order_of(left@, keys@, from as int, middle as int),
        is_order_of(right@, keys@, middle as int, to as int),
    ensures
        is_order_of(r@, keys@, from as int, to as int),
{
    let mut merged: Vec<usize> = Vec::new();
    let mut i: usize = 0;
    let mut j: usize = 0;
    while i < left.len() || j < right.len()
        invariant
            from <= middle <= to <= keys@.len(),
            is_order_of(left@, keys@, from as int, middle as int),
            is_order_of(right@, keys@, middle as int, to as int),
            i <= left@.len(),
            j <= right@.len(),
            merged@.len() == i + j,
            forall|k: int| 0 <= k < merged@.len() ==> from <= #[trigger] merged@[k] < to,
            forall|k: int, m: int|
                0 <= k < m < merged@.len() ==> precedes(
                    keys@,
                    (#[trigger] merged@[k]) as int,
                    (#[trigger] merged@[m]) as int,
                ),
            forall|k: int, m: int|
                0 <= k < merged@.len() && i <= m < left@.len() ==> precedes(
                    keys@,
                    (#[trigger] merged@[k]) as int,
                    (#[trigger] left@[m]) as int,
                ),
            forall|k: int, m: int|
                0 <= k < merged@.len() && j <= m < right@.len() ==> precedes(
                    keys@,
                    (#[trigger] merged@[k]) as int,
                    (#[trigger] right@[m]) as int,
                ),
        decreases left@.len() + right@.len() - i - j,
    {
        let ghost before = merged@;
        let take_left: bool = if i == left.len() {
            false
        } else if j == right.len() {
            true
        } else {
            keys[left[i]] <= keys[right[j]]
        };
        if take_left {
            let next: usize = left[i];
            merged.push(next);
            i = i + 1;
        } else {
            let next: usize = right[j];
            merged.push(next);
            j = j + 1;
        }
        proof {
            let next = merged@[merged@.len() - 1];
            assert forall|k: int| 0 <= k < before.len() implies #[trigger] merged@[k]
                == before[k] by {}
            assert forall|m: int| i <= m < left@.len() implies precedes(
                keys@,
                next as int,
                (#[trigger] left@[m]) as int,
            ) by {
                if take_left {
                    assert(precedes(keys@, left@[i - 1] as int, left@[m] as int));
                } else {
                    if m > i {
                        assert(precedes(keys@, left@[i as int] as int, left@[m] as int));
                    }
                }
            }
            assert forall|m: int| j <= m < right@.len() implies precedes(
                keys@,
                next as int,
                (#[trigger] right@[m]) as int,
            ) by {
                if take_left {
                    if m > j {
                        assert(precedes(keys@, right@[j as int] as int, right@[m] as int));
                    }
                } else {
                    assert(precedes(keys@, right@[j - 1] as int, right@[m] as int));
                }
            }
        }
    }
    merged
}

/// Sorts the positions of a range by their keys.
fn sort_range(keys: &Vec<i64>, from: usize, to: usize) -> (r: Vec<usize>)
    requires
        from <= to <= keys@.len(),
    ensures
        is_order_of(r@, keys@, from as int, to as int),
    decreases to - from,
{
    if to - from == 0 {
        Vec::new()
    } else if to - from == 1 {
        vec![from]
    } else {
        let middle: usize = from + (to - from) / 2;
        let left: Vec<usize> = sort_range(keys, from, middle);
        let right: Vec<usize> = sort_range(keys, middle, to);
        merge_orders(keys, &left, &right, from, middle, to)
    }
}

/// The positions of a row of keys, in the stable order of the keys.
pub fn sort_positions(keys: &Vec<i64>) -> (r: Vec<usize>)
    ensures
        r@ == stable_order(keys@),
        is_order_of(r@, keys@, 0, keys@.len() as int),
{
    let order: Vec<usize> = sort_range(keys, 0, keys.len());
    proof {
        lemma_order_is_unique(order@, keys@);
    }
    order
}

/// Sorting gives every position once, by ascending keys, and positions with equal keys in their own
/// order.
pub proof fn sorting_is_stable(keys: Seq<i64>, i: int, j: int)
    requires
        keys.len() <= usize::MAX,
        0 <= i < j < keys.len(),
    ensures
        ({
            let order = stable_order(keys);
            &&& order.len() == keys.len()
            &&& 0 <= order[i] < keys.len()
            &&& order[i] != order[j]
            &&& keys[order[i] as int] <= keys[order[j] as int]
            &&& keys[order[i] as int] == keys[order[j] as int] ==> order[i] < order[j]
        }),
{
    lemma_order_exists(keys);
    let order = stable_order(keys);
    assert(precedes(keys, order[i] as int, order[j] as int));
}

} // verus!
