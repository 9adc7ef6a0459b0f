//! Ordering the positions of a list by a key, largest key first.

use vstd::prelude::*;

verus! {

/// The position `i` comes before the position `j`: it has the larger key,
/// or the same key and is the smaller position.
pub open spec fn precedes(keys: Seq<int>, i: int, j: int) -> bool {
    keys[i] > keys[j] || (keys[i] == keys[j] && i < j)
}

/// Where a position with the key `key` is placed in `order`: at the first
/// place, from `from` on, that holds a position with a smaller key, or at
/// the end.
pub open spec fn place(keys: Seq<int>, order: Seq<int>, key: int, from: int) -> int
    decreases order.len() - from,
{
    if from < 0 || from >= order.len() {
        order.len() as int
    } else if keys[order[from]] < key {
        from
    } else {
        place(keys, order, key, from + 1)
    }
}

/// The positions of `keys`, ordered by key with the largest first;
/// positions with the same key stay in their order. The positions are
/// placed one after the other, each behind all those placed before it
/// that have no smaller key.
pub open spec fn descending_order(keys: Seq<int>) -> Seq<int>
    decreases keys.len(),
{
    if keys.len() == 0 {
        Seq::empty()
    } else {
        let last = keys.len() - 1;
        let order = descending_order(keys.drop_last());
        order.insert(place(keys, order, keys[last], 0), last)
    }
}

/// The positions held in a list of indices.
pub open spec fn as_ints(indices: Seq<usize>) -> Seq<int> {
    indices.map_values(|i: usize| i as int)
}

/// The keys held in a list of keys.
pub open spec fn key_ints(keys: Seq<i128>) -> Seq<int> {
    keys.map_values(|key: i128| key as int)
}

proof fn lemma_place(keys: Seq<int>, order: Seq<int>, key: int, from: int)
    requires
        0 <= from <= order.len(),
    ensures
        from <= place(keys, order, key, from) <= order.len(),
        forall|q: int| from <= q < place(keys, order, key, from) ==> keys[order[q]] >= key,
        place(keys, order, key, from) < order.len() ==> keys[order[place(keys, order, key, from)]]
            < key,
    decreases order.len() - from,
{
    if from < order.len() && !(keys[order[from]] < key) {
        lemma_place(keys, order, key, from + 1);
    }
}

proof fn lemma_place_same_keys(
    keys: Seq<int>,
    other: Seq<int>,
    order: Seq<int>,
    key: int,
    from: int,
)
    requires
        0 <= from <= order.len(),
        forall|q: int| 0 <= q < order.len() ==> keys[#[trigger] order[q]] == other[order[q]],
    ensures
        place(keys, order, key, from) == place(other, order, key, from),
    decreases order.len() - from,
{
    if from < order.len() && !(keys[order[from]] < key) {
        lemma_place_same_keys(keys, other, order, key, from + 1);
    }
}

/// The descending order of a list of keys holds every position of the
/// list once, and each position comes before those behind it: no key is
/// followed by a larger one, and among equal keys the positions ascend.
pub proof fn lemma_descending_order(keys: Seq<int>)
    ensures
        descending_order(keys).len() == keys.len(),
        forall|a: int|
            0 <= a < keys.len() ==> 0 <= #[trigger] descending_order(keys)[a] < keys.len(),
        forall|a: int, b: int|
            0 <= a < b < keys.len() ==> precedes(
                keys,
                #[trigger] descending_order(keys)[a],
                #[trigger] descending_order(keys)[b],
            ),
        forall|i: int| 0 <= i < keys.len() ==> descending_order(keys).contains(i),
    decreases keys.len(),
{
    if keys.len() > 0 {
        let last = keys.len() - 1;
        let fewer = keys.drop_last();
        let order = descending_order(fewer);
        lemma_descending_order(fewer);
        let at = place(keys, order, keys[last], 0);
        lemma_place(keys, order, keys[last], 0);
        let full = order.insert(at, last);
        assert(full == descending_order(keys));
        assert forall|a: int, b: int| 0 <= a < b < keys.len() implies precedes(
            keys,
            #[trigger] full[a],
            #[trigger] full[b],
        ) by {
            if b < at {
                assert(precedes(fewer, order[a], order[b]));
            } else if b == at {
                assert(keys[order[a]] >= keys[last]);
            } else if a < at {
                assert(precedes(fewer, order[a], order[b - 1]));
            } else if a == at {
                assert(at < order.len());
                if b - 1 > at {
                    assert(precedes(fewer, order[at], order[b - 1]));
                }
            } else {
                assert(precedes(fewer, order[a - 1], order[b - 1]));
            }
        }
        assert forall|i: int| 0 <= i < keys.len() implies full.contains(i) by {
            if i == last {
                assert(full[at] == i);
            } else {
                assert(order.contains(i));
                let q = choose|q: int| 0 <= q < order.len() && order[q] == i;
                if q < at {
                    assert(full[q] == i);
                } else {
                    assert(full[q + 1] == i);
                }
            }
        }
    }
}

/// Orders the positions of `keys` by key, the largest key first, and
/// positions with the same key in ascending order.
pub fn descending(keys: &Vec<i128>) -> (order: Vec<usize>)
    ensures
        as_ints(order@) == descending_order(key_ints(keys@)),
        order.len() == keys.len(),
        forall|a: int| 0 <= a < order.len() ==> order[a] < keys.len(),
{
    let n = keys.len();
    let ghost all = key_ints(keys@);
    let mut order: Vec<usize> = Vec::new();
    let mut i: usize = 0;
    assert(all.take(0) =~= Seq::<int>::empty());
    assert(as_ints(order@) =~= descending_order(all.take(0)));
    while i < n
        invariant
            n == keys.len(),
            all == key_ints(keys@),
            i <= n,
            order.len() == i,
            forall|a: int| 0 <= a < order.len() ==> order[a] < i,
            as_ints(order@) == descending_order(all.take(i as int)),
        decreases n - i,
    {
        let ghost before = as_ints(order@);
        let mut at: usize = 0;
        while at < order.len() && keys[order[at]] >= keys[i]
            invariant
                n == keys.len(),
                all == key_ints(keys@),
                i < n,
                at <= order.len(),
                order.len() == i,
                before == as_ints(order@),
                forall|a: int| 0 <= a < order.len() ==> order[a] < i,
                place(all, before, all[i as int], at as int) == place(
                    all,
                    before,
                    all[i as int],
                    0,
                ),
            decreases order.len() - at,
        {
            at += 1;
        }
        order.insert(at, i);
        proof {
            let longer = all.take(i + 1);
            assert(longer.drop_last() =~= all.take(i as int));
            lemma_place_same_keys(all, longer, before, all[i as int], 0);
            assert(as_ints(order@) =~= before.insert(at as int, i as int));
        }
        i += 1;
    }
    assert(all.take(n as int) =~= all);
    order
}

} // verus!
