//! Stable sorting by a key of a flag and a number.
use vstd::prelude::*;

verus! {

/// A key to sort by: first the flag, unset before set, then the number.
pub type Key = (bool, u64);

/// `a` comes before `b`.
pub open spec fn key_less(a: Key, b: Key) -> bool {
    (!a.0 && b.0) || (a.0 == b.0 && a.1 < b.1)
}

/// Whether `a` comes before `b`.
pub fn less(a: Key, b: Key) -> (r: bool)
    ensures
        r == key_less(a, b),
{
    (!a.0 && b.0) || (a.0 == b.0 && a.1 < b.1)
}

/// `p` lists the places of `keys`, each once, so that the keys there do not
/// decrease, and equal keys stay in the order they had.
pub open spec fn is_stable_order(keys: Seq<Key>, p: Seq<int>) -> bool {
    &&& p.len() == keys.len()
    &&& forall|i: int| 0 <= i < p.len() ==> 0 <= #[trigger] p[i] < keys.len()
    &&& forall|i: int, j: int|
        0 <= i < j < p.len() ==> precedes(keys, #[trigger] p[i], #[trigger] p[j])
}

/// Place `a` of `keys` comes before place `b` when they are sorted.
pub open spec fn precedes(keys: Seq<Key>, a: int, b: int) -> bool {
    key_less(keys[a], keys[b]) || (keys[a] == keys[b] && a < b)
}

/// `out` holds the items of `items` in the stable order of their keys.
pub open spec fn sorted_by<T>(items: Seq<T>, keys: Seq<Key>, out: Seq<T>) -> bool {
    &&& items.len() == keys.len()
    &&& exists|p: Seq<int>|
        #![trigger is_stable_order(keys, p)]
        is_stable_order(keys, p) && out == Seq::new(p.len(), |i: int| items[p[i]])
}

/// The places of a list of indices.
pub open spec fn indices(v: Seq<usize>) -> Seq<int> {
    v.map_values(|i: usize| i as int)
}

/// The places of `keys` in their stable order.
pub fn stable_order(keys: &Vec<Key>) -> (out: Vec<usize>)
    ensures
        is_stable_order(keys@, indices(out@)),
        out@.len() == keys@.len(),
        forall|i: int| 0 <= i < out@.len() ==> (#[trigger] out@[i]) < keys@.len(),
{
    let mut out: Vec<usize> = Vec::new();
    let mut n: usize = 0;
    while n < keys.len()
        invariant
            n <= keys@.len(),
            out@.len() == n,
            forall|i: int| 0 <= i < out@.len() ==> (#[trigger] out@[i]) < n,
            forall|i: int, j: int|
                0 <= i < j < out@.len() ==> precedes(
                    keys@,
                    (#[trigger] out@[i]) as int,
                    (#[trigger] out@[j]) as int,
                ),
        decreases keys@.len() - n,
    {
        let mut at: usize = n;
        while at > 0 && less(keys[n], keys[out[at - 1]])
            invariant
                at <= n < keys@.len(),
                out@.len() == n,
                forall|i: int| 0 <= i < out@.len() ==> (#[trigger] out@[i]) < n,
                forall|i: int|
                    at <= i < out@.len() ==> key_less(keys@[n as int], keys@[(#[trigger] out@[i]) as int]),
            decreases at,
        {
            at -= 1;
        }
        let ghost was = out@;
        proof {
            // Everything before `at` comes before the new place.
            assert forall|i: int| 0 <= i < at implies precedes(keys@, (#[trigger] was[i]) as int, n as int) by {
                let last = was[at - 1] as int;
                assert(!key_less(keys@[n as int], keys@[last]));
                assert(precedes(keys@, last, n as int));
                if i < at - 1 {
                    assert(precedes(keys@, was[i] as int, last));
                }
            }
        }
        out.insert(at, n);
        proof {
            assert forall|i: int, j: int| 0 <= i < j < out@.len() implies precedes(
                keys@,
                (#[trigger] out@[i]) as int,
                (#[trigger] out@[j]) as int,
            ) by {
                let a = if i < at { i } else { i - 1 };
                let b = if j < at { j } else { j - 1 };
                if i == at {
                    assert(out@[j] == was[b]);
                } else if j == at {
                    assert(out@[i] == was[a]);
                } else {
                    assert(out@[i] == was[a]);
                    assert(out@[j] == was[b]);
                }
            }
            assert forall|i: int| 0 <= i < out@.len() implies (#[trigger] out@[i]) < n + 1 by {
                if i < at {
                    assert(out@[i] == was[i]);
                } else if i > at {
                    assert(out@[i] == was[i - 1]);
                }
            }
        }
        n += 1;
    }
    proof {
        let p = indices(out@);
        assert forall|i: int, j: int| 0 <= i < j < p.len() implies precedes(
            keys@,
            #[trigger] p[i],
            #[trigger] p[j],
        ) by {
            assert(p[i] == out@[i] as int && p[j] == out@[j] as int);
        }
        assert forall|i: int| 0 <= i < p.len() implies 0 <= #[trigger] p[i] < keys@.len() by {
            assert(p[i] == out@[i] as int);
        }
    }
    out
}

/// A stable order lists no place twice.
pub proof fn stable_order_is_distinct(keys: Seq<Key>, p: Seq<int>)
    requires
        is_stable_order(keys, p),
    ensures
        p.no_duplicates(),
{
    assert forall|i: int, j: int| 0 <= i < p.len() && 0 <= j < p.len() && i != j implies p[i] != p[j] by {
        if i < j {
            assert(precedes(keys, p[i], p[j]));
        } else {
            assert(precedes(keys, p[j], p[i]));
        }
    }
}

/// There is only one stable order.
pub proof fn stable_order_is_unique(keys: Seq<Key>, p: Seq<int>, q: Seq<int>)
    requires
        is_stable_order(keys, p),
        is_stable_order(keys, q),
    ensures
        p == q,
{
    stable_order_is_distinct(keys, p);
    stable_order_is_distinct(keys, q);
    assert forall|i: int| 0 <= i < p.len() implies p[i] == q[i] by {
        same_place(keys, p, q, i);
    }
    assert(p =~= q);
}

proof fn same_place(keys: Seq<Key>, p: Seq<int>, q: Seq<int>, i: int)
    requires
        is_stable_order(keys, p),
        is_stable_order(keys, q),
        p.no_duplicates(),
        q.no_duplicates(),
        0 <= i < p.len(),
    ensures
        p[i] == q[i],
    decreases i,
{
    assert forall|k: int| 0 <= k < i implies p[k] == q[k] by {
        same_place(keys, p, q, k);
    }
    if p[i] != q[i] {
        // Each stands behind place `i` of the other, so each precedes the other.
        let a = place_of(q, p[i], keys.len() as int);
        let b = place_of(p, q[i], keys.len() as int);
        assert(q[a] == p[i] && p[b] == q[i]);
        if a < i {
            assert(p[a] == q[a]);
        }
        if b < i {
            assert(p[b] == q[b]);
        }
        assert(precedes(keys, q[i], q[a]));
        assert(precedes(keys, p[i], p[b]));
    }
}

/// The items of `items` in the stable order of their keys.
pub open spec fn sorted<T>(items: Seq<T>, keys: Seq<Key>) -> Seq<T> {
    choose|out: Seq<T>| sorted_by(items, keys, out)
}

/// There is one stable order only, so a list in that order is the sorted one.
pub proof fn sorted_is_unique<T>(items: Seq<T>, keys: Seq<Key>, out: Seq<T>)
    requires
        sorted_by(items, keys, out),
    ensures
        out == sorted(items, keys),
{
    let other = sorted(items, keys);
    assert(sorted_by(items, keys, other));
    let p = choose|p: Seq<int>|
        #![trigger is_stable_order(keys, p)]
        is_stable_order(keys, p) && out == Seq::new(p.len(), |i: int| items[p[i]]);
    let q = choose|q: Seq<int>|
        #![trigger is_stable_order(keys, q)]
        is_stable_order(keys, q) && other == Seq::new(q.len(), |i: int| items[q[i]]);
    stable_order_is_unique(keys, p, q);
}

proof fn place_of(p: Seq<int>, x: int, n: int) -> (i: int)
    requires
        p.no_duplicates(),
        p.len() == n,
        forall|i: int| 0 <= i < p.len() ==> 0 <= #[trigger] p[i] < n,
        0 <= x < n,
    ensures
        0 <= i < p.len(),
        p[i] == x,
{
    // Distinct places below `n`, as many as there are, are all of them.
    p.unique_seq_to_set();
    let all = vstd::set_lib::set_int_range(0, n);
    vstd::set_lib::lemma_int_range(0, n);
    assert(p.to_set().subset_of(all)) by {
        assert forall|y: int| p.to_set().contains(y) implies all.contains(y) by {
            let k = choose|k: int| 0 <= k < p.len() && p[k] == y;
            assert(0 <= p[k] < n);
        }
    }
    vstd::set_lib::lemma_subset_equality(p.to_set(), all);
    assert(all.contains(x));
    assert(p.to_set().contains(x));
    choose|i: int| 0 <= i < p.len() && p[i] == x
}

/// Keys are in one line: of two different ones exactly one comes before the
/// other, and what comes before stays before. An unset flag comes before a set
/// one, whatever the numbers; of equal flags the smaller number comes first.
pub proof fn keys_stand_in_line(a: Key, b: Key, c: Key)
    ensures
        !key_less(a, a),
        a != b ==> key_less(a, b) != key_less(b, a),
        key_less(a, b) && key_less(b, c) ==> key_less(a, c),
        !a.0 && b.0 ==> key_less(a, b),
        a.0 == b.0 && a.1 < b.1 ==> key_less(a, b),
{
}

/// A sorted list takes every item from one place, each place once. Flags that
/// are unset come first, then numbers do not decrease, and items with one key
/// keep their order.
pub proof fn sorting_keeps_and_orders<T>(items: Seq<T>, keys: Seq<Key>, out: Seq<T>)
    requires
        sorted_by(items, keys, out),
    ensures
        out.len() == items.len(),
        exists|p: Seq<int>|
            {
                &&& p.len() == items.len()
                &&& #[trigger] p.no_duplicates()
                &&& forall|i: int|
                    0 <= i < p.len() ==> 0 <= #[trigger] p[i] < items.len() && out[i] == items[p[i]]
                &&& forall|i: int, j: int|
                    0 <= i < j < p.len() ==> {
                        let a = keys[#[trigger] p[i]];
                        let b = keys[#[trigger] p[j]];
                        &&& a.0 ==> b.0
                        &&& a.0 == b.0 ==> a.1 <= b.1
                        &&& a == b ==> p[i] < p[j]
                    }
            },
{
    let p = choose|p: Seq<int>|
        #![trigger is_stable_order(keys, p)]
        is_stable_order(keys, p) && out == Seq::new(p.len(), |i: int| items[p[i]]);
    stable_order_is_distinct(keys, p);
    assert forall|i: int, j: int| 0 <= i < j < p.len() implies {
        let a = keys[#[trigger] p[i]];
        let b = keys[#[trigger] p[j]];
        &&& a.0 ==> b.0
        &&& a.0 == b.0 ==> a.1 <= b.1
        &&& a == b ==> p[i] < p[j]
    } by {
        assert(precedes(keys, p[i], p[j]));
    }
    assert(p.no_duplicates());
}

} // verus!
