//! The order in which stored records are listed.
//!
//! Records are listed by a text key, ascending or descending in the order of
//! [`lex_lt`]; records with equal keys keep the order in which they came.

use crate::models::texts;
use crate::text::{lex_lt, lex_lt_asymmetric, lex_lt_irreflexive, lex_lt_transitive, rank, Rank};
use vstd::prelude::*;

verus! {

/// The key `a` comes strictly before the key `b`.
pub open spec fn key_before(a: Seq<char>, b: Seq<char>, descending: bool) -> bool {
    if descending {
        lex_lt(b, a)
    } else {
        lex_lt(a, b)
    }
}

/// The record at index `i` is listed before the record at index `j`: its key
/// comes first, or the keys are equal and it came first.
pub open spec fn listed_before(keys: Seq<Seq<char>>, i: int, j: int, descending: bool) -> bool {
    key_before(keys[i], keys[j], descending) || (keys[i] == keys[j] && i < j)
}

/// `order` names every index of `keys` once, in the order of listing.
pub open spec fn is_stable_order(order: Seq<int>, keys: Seq<Seq<char>>, descending: bool) -> bool {
    &&& order.len() == keys.len()
    &&& forall|k: int| 0 <= k < order.len() ==> 0 <= #[trigger] order[k] < keys.len()
    &&& forall|i: int| 0 <= i < keys.len() ==> order.contains(i)
    &&& forall|a: int, b: int|
        0 <= a < b < order.len() ==> listed_before(
            keys,
            #[trigger] order[a],
            #[trigger] order[b],
            descending,
        )
}

/// `items` arranged in the order `order`.
pub open spec fn arranged<T>(items: Seq<T>, order: Seq<int>) -> Seq<T> {
    Seq::new(order.len(), |k: int| items[order[k]])
}

/// The indices of a list as integers.
pub open spec fn positions(order: Seq<usize>) -> Seq<int> {
    Seq::new(order.len(), |k: int| order[k] as int)
}

/// The first `count` indices, listed in order, stay so when the next index is
/// put behind everything that is listed before it and in front of the rest.
proof fn lemma_insert_in_order(
    before: Seq<usize>,
    at: int,
    i: usize,
    all: Seq<Seq<char>>,
    descending: bool,
)
    requires
        0 <= at <= before.len(),
        0 <= i < all.len(),
        forall|k: int| 0 <= k < before.len() ==> (#[trigger] before[k]) < i,
        forall|j: int| 0 <= j < i ==> positions(before).contains(j),
        forall|a: int, b: int|
            0 <= a < b < before.len() ==> listed_before(
                all,
                (#[trigger] before[a]) as int,
                (#[trigger] before[b]) as int,
                descending,
            ),
        forall|m: int|
            0 <= m < at ==> listed_before(all, (#[trigger] before[m]) as int, i as int, descending),
        at < before.len() ==> key_before(all[i as int], all[before[at] as int], descending),
    ensures
        forall|k: int|
            0 <= k < before.len() + 1 ==> (#[trigger] before.insert(at, i)[k]) < i + 1,
        forall|j: int| 0 <= j < i + 1 ==> positions(before.insert(at, i)).contains(j),
        forall|a: int, b: int|
            0 <= a < b < before.len() + 1 ==> listed_before(
                all,
                (#[trigger] before.insert(at, i)[a]) as int,
                (#[trigger] before.insert(at, i)[b]) as int,
                descending,
            ),
{
    let after = before.insert(at, i);
    before.insert_ensures(at, i);
    assert(positions(after) =~= positions(before).insert(at, i as int));
    assert forall|k: int| 0 <= k < after.len() implies (#[trigger] after[k]) < i + 1 by {
        if k < at {
            assert(after[k] == before[k]);
        } else if k > at {
            assert(after[k] == before[k - 1]);
        }
    }
    assert forall|j: int| 0 <= j < i + 1 implies positions(after).contains(j) by {
        if j == i {
            assert(positions(after)[at] == j);
        } else {
            assert(positions(before).contains(j));
            let t = choose|t: int| 0 <= t < positions(before).len() && positions(before)[t] == j;
            if t < at {
                assert(after[t] == before[t]);
                assert(positions(after)[t] == j);
            } else {
                assert(after[t + 1] == before[t]);
                assert(positions(after)[t + 1] == j);
            }
        }
    }
    assert forall|a: int, b: int| 0 <= a < b < after.len() implies listed_before(
        all,
        (#[trigger] after[a]) as int,
        (#[trigger] after[b]) as int,
        descending,
    ) by {
        if b < at {
            assert(after[a] == before[a] && after[b] == before[b]);
        } else if b == at {
            assert(after[a] == before[a]);
        } else if a < at {
            assert(after[a] == before[a] && after[b] == before[b - 1]);
        } else if a == at {
            assert(after[b] == before[b - 1]);
            let first = before[at] as int;
            let other = before[b - 1] as int;
            if b - 1 > at {
                assert(listed_before(all, first, other, descending));
                if all[first] != all[other] {
                    if descending {
                        lex_lt_transitive(all[other], all[first], all[i as int]);
                    } else {
                        lex_lt_transitive(all[i as int], all[first], all[other]);
                    }
                }
            }
        } else {
            assert(after[a] == before[a - 1] && after[b] == before[b - 1]);
        }
    }
}

/// The indices of `keys` in the order of listing.
pub fn stable_order(keys: &Vec<String>, descending: bool) -> (order: Vec<usize>)
    ensures
        is_stable_order(positions(order@), texts(keys@), descending),
        forall|k: int| 0 <= k < order@.len() ==> (#[trigger] order@[k]) < keys@.len(),
{
    let ghost all = texts(keys@);
    let mut order: Vec<usize> = Vec::new();
    let n: usize = keys.len();
    let mut i: usize = 0;
    while i < n
        invariant
            i <= n,
            n == keys@.len(),
            all == texts(keys@),
            order@.len() == i,
            forall|k: int| 0 <= k < order@.len() ==> (#[trigger] order@[k]) < i,
            forall|j: int| 0 <= j < i ==> positions(order@).contains(j),
            forall|a: int, b: int|
                0 <= a < b < order@.len() ==> listed_before(
                    all,
                    (#[trigger] order@[a]) as int,
                    (#[trigger] order@[b]) as int,
                    descending,
                ),
        decreases n - i,
    {
        let ghost before = order@;
        let len: usize = order.len();
        let mut p: usize = 0;
        let mut found = false;
        while p < len && !found
            invariant
                p <= len,
                len == order@.len(),
                before == order@,
                i < n,
                n == keys@.len(),
                all == texts(keys@),
                forall|k: int| 0 <= k < order@.len() ==> (#[trigger] order@[k]) < i,
                forall|j: int| 0 <= j < i ==> positions(order@).contains(j),
                forall|a: int, b: int|
                    0 <= a < b < order@.len() ==> listed_before(
                        all,
                        (#[trigger] order@[a]) as int,
                        (#[trigger] order@[b]) as int,
                        descending,
                    ),
                forall|m: int|
                    0 <= m < p - if found {
                        1int
                    } else {
                        0int
                    } ==> listed_before(all, (#[trigger] order@[m]) as int, i as int, descending),
                found ==> 0 < p && key_before(
                    all[i as int],
                    all[order@[p - 1] as int],
                    descending,
                ),
            decreases len - p + if found {
                0int
            } else {
                1int
            },
        {
            let e = order[p];
            assert(all[i as int] == keys@[i as int]@ && all[e as int] == keys@[e as int]@);
            let r = rank(keys[i].as_str(), keys[e].as_str());
            let stop = if descending {
                r == Rank::After
            } else {
                r == Rank::Before
            };
            if stop {
                found = true;
            }
            p += 1;
        }
        let at: usize = if found {
            p - 1
        } else {
            p
        };
        proof {
            lemma_insert_in_order(before, at as int, i, all, descending);
        }
        order.insert(at, i);
        i += 1;
    }
    order
}

/// Every two entries of `order` stand in the order of listing.
pub open spec fn in_listing_order(order: Seq<int>, keys: Seq<Seq<char>>, descending: bool) -> bool {
    forall|a: int, b: int|
        0 <= a < b < order.len() ==> listed_before(
            keys,
            #[trigger] order[a],
            #[trigger] order[b],
            descending,
        )
}

/// Of two records at most one is listed before the other, and none before
/// itself.
pub proof fn lemma_listed_before_asymmetric(
    keys: Seq<Seq<char>>,
    i: int,
    j: int,
    descending: bool,
)
    requires
        listed_before(keys, i, j, descending),
    ensures
        !listed_before(keys, j, i, descending),
        i != j,
{
    lex_lt_irreflexive(keys[i]);
    if lex_lt(keys[i], keys[j]) {
        lex_lt_asymmetric(keys[i], keys[j]);
    }
    if lex_lt(keys[j], keys[i]) {
        lex_lt_asymmetric(keys[j], keys[i]);
    }
}

proof fn lemma_orders_agree(x: Seq<int>, y: Seq<int>, keys: Seq<Seq<char>>, descending: bool)
    requires
        in_listing_order(x, keys, descending),
        in_listing_order(y, keys, descending),
        forall|i: int| x.contains(i) <==> y.contains(i),
    ensures
        x == y,
    decreases x.len(),
{
    if x.len() == 0 {
        if y.len() > 0 {
            assert(y.contains(y[0]));
        }
        assert(x =~= y);
    } else {
        assert(x.contains(x[0]));
        let j0 = choose|j: int| 0 <= j < y.len() && y[j] == x[0];
        assert(y.contains(y[0]));
        let i0 = choose|i: int| 0 <= i < x.len() && x[i] == y[0];
        assert(x[0] == y[0]) by {
            if i0 > 0 && j0 > 0 {
                assert(listed_before(keys, x[0], x[i0], descending));
                assert(listed_before(keys, y[0], y[j0], descending));
                lemma_listed_before_asymmetric(keys, x[0], y[0], descending);
            }
        }
        let xs = x.drop_first();
        let ys = y.drop_first();
        assert forall|k: int| xs.contains(k) <==> ys.contains(k) by {
            if xs.contains(k) {
                let i = choose|i: int| 0 <= i < xs.len() && xs[i] == k;
                assert(x[i + 1] == k);
                assert(x.contains(k));
                assert(listed_before(keys, x[0], x[i + 1], descending));
                lemma_listed_before_asymmetric(keys, x[0], k, descending);
                let j = choose|j: int| 0 <= j < y.len() && y[j] == k;
                assert(ys[j - 1] == k);
            }
            if ys.contains(k) {
                let j = choose|j: int| 0 <= j < ys.len() && ys[j] == k;
                assert(y[j + 1] == k);
                assert(y.contains(k));
                assert(listed_before(keys, y[0], y[j + 1], descending));
                lemma_listed_before_asymmetric(keys, y[0], k, descending);
                let i = choose|i: int| 0 <= i < x.len() && x[i] == k;
                assert(xs[i - 1] == k);
            }
        }
        assert forall|a: int, b: int| 0 <= a < b < xs.len() implies listed_before(
            keys,
            #[trigger] xs[a],
            #[trigger] xs[b],
            descending,
        ) by {
            assert(listed_before(keys, x[a + 1], x[b + 1], descending));
        }
        assert forall|a: int, b: int| 0 <= a < b < ys.len() implies listed_before(
            keys,
            #[trigger] ys[a],
            #[trigger] ys[b],
            descending,
        ) by {
            assert(listed_before(keys, y[a + 1], y[b + 1], descending));
        }
        lemma_orders_agree(xs, ys, keys, descending);
        assert(x =~= seq![x[0]] + xs);
        assert(y =~= seq![y[0]] + ys);
    }
}

/// A list of keys has one order of listing: whatever meets
/// [`is_stable_order`] for it is the same list of indices.
pub proof fn stable_order_is_unique(
    keys: Seq<Seq<char>>,
    descending: bool,
    first: Seq<int>,
    second: Seq<int>,
)
    requires
        is_stable_order(first, keys, descending),
        is_stable_order(second, keys, descending),
    ensures
        first == second,
{
    assert forall|i: int| first.contains(i) <==> second.contains(i) by {
        if first.contains(i) {
            let k = choose|k: int| 0 <= k < first.len() && first[k] == i;
            assert(0 <= first[k] < keys.len());
        }
        if second.contains(i) {
            let k = choose|k: int| 0 <= k < second.len() && second[k] == i;
            assert(0 <= second[k] < keys.len());
        }
    }
    lemma_orders_agree(first, second, keys, descending);
}

} // verus!
