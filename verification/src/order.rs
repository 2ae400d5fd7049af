//! Putting things in order: stable orders, order statistics and best choices.

use vstd::prelude::*;

use crate::scalar::Scalar;

verus! {

/// Whether entry `a` belongs before entry `b`: by key, and by place among equal
/// keys.
pub open spec fn comes_first(keys: Seq<int>, a: int, b: int) -> bool {
    keys[a] < keys[b] || (keys[a] == keys[b] && a < b)
}

/// Whether `order` lists every entry once, each before those it belongs before.
pub open spec fn sorts(keys: Seq<int>, order: Seq<int>) -> bool {
    &&& order.len() == keys.len()
    &&& forall|i: int| 0 <= i < order.len() ==> 0 <= #[trigger] order[i] < keys.len()
    &&& forall|i: int, j: int|
        0 <= i < j < order.len() ==> comes_first(keys, #[trigger] order[i], #[trigger] order[j])
    &&& forall|v: int| 0 <= v < keys.len() ==> order.contains(v)
}

/// The stable ascending order of a list of keys.
pub open spec fn order_of(keys: Seq<int>) -> Seq<int> {
    choose|order: Seq<int>| sorts(keys, order)
}

/// There is only one stable order.
pub proof fn stable_order_is_unique(keys: Seq<int>, a: Seq<int>, b: Seq<int>)
    requires
        sorts(keys, a),
        sorts(keys, b),
    ensures
        a == b,
{
    assert forall|i: int| 0 <= i < a.len() implies a[i] == b[i] by {
        lemma_orders_agree_up_to(keys, a, b, i + 1);
    }
    assert(a =~= b);
}

proof fn lemma_orders_agree_up_to(keys: Seq<int>, a: Seq<int>, b: Seq<int>, n: int)
    requires
        sorts(keys, a),
        sorts(keys, b),
        0 <= n <= keys.len(),
    ensures
        forall|i: int| 0 <= i < n ==> a[i] == b[i],
    decreases n,
{
    if n > 0 {
        lemma_orders_agree_up_to(keys, a, b, n - 1);
        let at = n - 1;
        if a[at] != b[at] {
            assert(b.contains(a[at]));
            assert(a.contains(b[at]));
            let j = choose|j: int| 0 <= j < b.len() && b[j] == a[at];
            let k = choose|k: int| 0 <= k < a.len() && a[k] == b[at];
            if j < at {
                assert(a[j] == a[at]);
                assert(comes_first(keys, a[j], a[at]));
            }
            if k < at {
                assert(b[k] == b[at]);
                assert(comes_first(keys, b[k], b[at]));
            }
            assert(comes_first(keys, b[at], b[j]));
            assert(comes_first(keys, a[at], a[k]));
        }
    }
}

/// What a stable order is, once one is known to exist.
pub proof fn lemma_order_of(keys: Seq<int>, order: Seq<int>)
    requires
        sorts(keys, order),
    ensures
        order_of(keys) == order,
{
    stable_order_is_unique(keys, order, order_of(keys));
}

/// Keys as integers.
pub open spec fn ints(keys: Seq<u128>) -> Seq<int> {
    keys.map_values(|key: u128| key as int)
}

/// Places as integers.
pub open spec fn places(order: Seq<usize>) -> Seq<int> {
    order.map_values(|place: usize| place as int)
}

/// The stable ascending order of a list of keys.
pub fn stable_order(keys: &Vec<u128>) -> (order: Vec<usize>)
    ensures
        sorts(ints(keys@), places(order@)),
        places(order@) == order_of(ints(keys@)),
{
    let mut order: Vec<usize> = Vec::new();
    let mut next: usize = 0;
    let ghost all = ints(keys@);
    proof {
        assert(sorts(all.take(0), places(order@)));
    }
    while next < keys.len()
        invariant
            next <= keys.len(),
            all == ints(keys@),
            sorts(all.take(next as int), places(order@)),
        decreases keys.len() - next,
    {
        let ghost seen = all.take(next as int);
        let ghost before = places(order@);
        let mut low: usize = 0;
        let mut high: usize = order.len();
        while low < high
            invariant
                low <= high <= order.len(),
                next < keys.len(),
                all == ints(keys@),
                seen == all.take(next as int),
                before == places(order@),
                sorts(seen, before),
                forall|p: int| 0 <= p < low ==> all[#[trigger] before[p]] <= keys@[next as int],
                forall|p: int|
                    high <= p < before.len() ==> all[#[trigger] before[p]] > keys@[next as int],
            decreases high - low,
        {
            let middle: usize = low + (high - low) / 2;
            let at: usize = order[middle];
            assert(before[middle as int] == at);
            assert(0 <= before[middle as int] < seen.len());
            if keys[at] <= keys[next] {
                assert forall|p: int| 0 <= p < middle + 1 implies all[#[trigger] before[p]]
                    <= keys@[next as int] by {
                    if p < middle {
                        assert(comes_first(seen, before[p], before[middle as int]));
                        assert(0 <= before[p] < seen.len());
                    }
                }
                low = middle + 1;
            } else {
                assert forall|p: int| middle <= p < before.len() implies all[#[trigger] before[p]]
                    > keys@[next as int] by {
                    if p > middle {
                        assert(comes_first(seen, before[middle as int], before[p]));
                        assert(0 <= before[p] < seen.len());
                    }
                }
                high = middle;
            }
        }
        order.insert(low, next);
        proof {
            let after = places(order@);
            assert(after =~= before.insert(low as int, next as int));
            lemma_insertion_sorts(all, before, next as int, low as int);
        }
        next = next + 1;
    }
    proof {
        assert(all.take(next as int) =~= all);
        lemma_order_of(all, places(order@));
    }
    order
}

/// Inserting the next entry after every entry whose key is no larger keeps the
/// order.
proof fn lemma_insertion_sorts(all: Seq<int>, before: Seq<int>, next: int, at: int)
    requires
        0 <= next < all.len(),
        sorts(all.take(next), before),
        0 <= at <= before.len(),
        forall|p: int| 0 <= p < at ==> all[#[trigger] before[p]] <= all[next],
        forall|p: int| at <= p < before.len() ==> all[#[trigger] before[p]] > all[next],
    ensures
        sorts(all.take(next + 1), before.insert(at, next)),
{
    let seen = all.take(next);
    let more = all.take(next + 1);
    let after = before.insert(at, next);
    assert forall|i: int| 0 <= i < after.len() implies 0 <= #[trigger] after[i] < more.len() by {
        if i < at {
            assert(after[i] == before[i]);
        } else if i > at {
            assert(after[i] == before[i - 1]);
        }
    }
    assert forall|i: int, j: int| 0 <= i < j < after.len() implies comes_first(
        more,
        #[trigger] after[i],
        #[trigger] after[j],
    ) by {
        let p = if i < at {
            i
        } else {
            i - 1
        };
        let q = if j < at {
            j
        } else {
            j - 1
        };
        if i != at {
            assert(after[i] == before[p]);
            assert(0 <= before[p] < seen.len());
        }
        if j != at {
            assert(after[j] == before[q]);
            assert(0 <= before[q] < seen.len());
        }
        if i != at && j != at {
            assert(comes_first(seen, before[p], before[q]));
        }
    }
    assert forall|v: int| 0 <= v < more.len() implies after.contains(v) by {
        if v == next {
            assert(after[at] == v);
        } else {
            assert(before.contains(v));
            let p = choose|p: int| 0 <= p < before.len() && before[p] == v;
            if p < at {
                assert(after[p] == v);
            } else {
                assert(after[p + 1] == v);
            }
        }
    }
}

/// Every list has a stable order.
pub proof fn every_list_has_an_order(keys: Seq<int>)
    ensures
        sorts(keys, order_of(keys)),
{
    let order = lemma_order_exists(keys, keys.len() as int);
    assert(keys.take(keys.len() as int) =~= keys);
    lemma_order_of(keys, order);
}

proof fn lemma_order_exists(keys: Seq<int>, n: int) -> (order: Seq<int>)
    requires
        0 <= n <= keys.len(),
    ensures
        sorts(keys.take(n), order),
    decreases n,
{
    if n == 0 {
        Seq::empty()
    } else {
        let before = lemma_order_exists(keys, n - 1);
        let at = lemma_place_exists(keys, before, n - 1, n - 1);
        lemma_insertion_sorts(keys, before, n - 1, at);
        before.insert(at, n - 1)
    }
}

proof fn lemma_place_exists(all: Seq<int>, before: Seq<int>, next: int, from: int) -> (at: int)
    requires
        0 <= next < all.len(),
        sorts(all.take(next), before),
        0 <= from <= before.len(),
        forall|p: int| from <= p < before.len() ==> all[#[trigger] before[p]] > all[next],
    ensures
        0 <= at <= before.len(),
        forall|p: int| 0 <= p < at ==> all[#[trigger] before[p]] <= all[next],
        forall|p: int| at <= p < before.len() ==> all[#[trigger] before[p]] > all[next],
    decreases from,
{
    if from == 0 {
        0
    } else if all[before[from - 1]] > all[next] {
        lemma_place_exists(all, before, next, from - 1)
    } else {
        let seen = all.take(next);
        assert forall|p: int| 0 <= p < from implies all[#[trigger] before[p]] <= all[next] by {
            assert(0 <= before[p] < seen.len() && 0 <= before[from - 1] < seen.len());
            if p < from - 1 {
                assert(comes_first(seen, before[p], before[from - 1]));
            }
        }
        from
    }
}

/// The places of a list of numbers in the total order of all doubles.
pub open spec fn scalar_keys(values: Seq<Scalar>) -> Seq<int> {
    values.map_values(|value: Scalar| value.place())
}

/// The number at place `k` of the list once it is sorted.
pub open spec fn ranked(values: Seq<Scalar>, k: int) -> Scalar {
    values[order_of(scalar_keys(values))[k]]
}

/// The order of a list of numbers in the total order of all doubles.
pub fn scalar_order(values: &Vec<Scalar>) -> (order: Vec<usize>)
    ensures
        sorts(scalar_keys(values@), places(order@)),
        places(order@) == order_of(scalar_keys(values@)),
{
    let mut keys: Vec<u128> = Vec::new();
    let mut i: usize = 0;
    while i < values.len()
        invariant
            i <= values.len(),
            keys.len() == i,
            forall|k: int| 0 <= k < i ==> #[trigger] keys@[k] == values@[k].place() + SHIFT,
        decreases values.len() - i,
    {
        keys.push(shifted_place(values[i]));
        i = i + 1;
    }
    let order = stable_order(&keys);
    proof {
        let (raw, shifted) = (scalar_keys(values@), ints(keys@));
        let places = places(order@);
        assert forall|a: int, b: int|
            0 <= a < raw.len() && 0 <= b < raw.len() implies #[trigger] comes_first(raw, a, b)
            == comes_first(shifted, a, b) by {
            assert(shifted[a] == raw[a] + SHIFT && shifted[b] == raw[b] + SHIFT);
        }
        assert forall|i: int, j: int| 0 <= i < j < places.len() implies comes_first(
            raw,
            #[trigger] places[i],
            #[trigger] places[j],
        ) by {
            assert(comes_first(shifted, places[i], places[j]));
        }
        lemma_order_of(raw, places);
    }
    order
}

/// What lifts every place above zero.
const SHIFT: u128 = 0x8000_0000_0000_0000;

/// A number's place in the total order, lifted above zero.
fn shifted_place(value: Scalar) -> (key: u128)
    ensures
        key == value.place() + SHIFT,
{
    if value.bits >= 0x8000_0000_0000_0000 {
        (0xffff_ffff_ffff_ffff - value.bits) as u128
    } else {
        value.bits as u128 + SHIFT
    }
}

/// The number at place `k` of a list once it is sorted.
pub fn pick_ranked(values: &Vec<Scalar>, k: usize) -> (value: Scalar)
    requires
        k < values@.len(),
    ensures
        value == ranked(values@, k as int),
{
    let order = scalar_order(values);
    assert(places(order@)[k as int] == order@[k as int]);
    values[order[k]]
}

/// Ranked numbers are numbers of the list, and they ascend: half of the list
/// stands on either side of the middle one.
pub proof fn ranked_is_sorted(values: Seq<Scalar>, i: int, j: int)
    requires
        0 <= i <= j < values.len(),
    ensures
        ranked(values, i).place() <= ranked(values, j).place(),
        values.contains(ranked(values, i)),
{
    let keys = scalar_keys(values);
    let order = order_of(keys);
    every_list_has_an_order(keys);
    if i < j {
        assert(comes_first(keys, order[i], order[j]));
    }
    assert(values[order[i]] == ranked(values, i));
}

/// The entry at a rank is one of the list, no more than its rank come before it, and
/// at least one more than its rank come no later than it.
pub proof fn a_rank_counts_what_is_below(values: Seq<Scalar>, k: int)
    requires
        0 <= k < values.len(),
    ensures
        values.contains(ranked(values, k)),
        ({
            let order = order_of(scalar_keys(values));
            &&& order.len() == values.len()
            &&& forall|i: int, j: int|
                0 <= i < j < order.len() ==> #[trigger] order[i] != #[trigger] order[j]
            &&& forall|i: int|
                0 <= i < order.len() ==> 0 <= #[trigger] order[i] < values.len() && (i <= k
                    ==> values[order[i]].place() <= ranked(values, k).place()) && (i >= k
                    ==> ranked(values, k).place() <= values[order[i]].place())
        }),
{
    let keys = scalar_keys(values);
    every_list_has_an_order(keys);
    let order = order_of(keys);
    assert forall|i: int, j: int| 0 <= i < j < order.len() implies #[trigger] order[i]
        != #[trigger] order[j] by {
        assert(comes_first(keys, order[i], order[j]));
    }
    assert forall|i: int| 0 <= i < order.len() implies 0 <= #[trigger] order[i] < values.len() && (i
        <= k ==> values[order[i]].place() <= ranked(values, k).place()) && (i >= k ==> ranked(
        values,
        k,
    ).place() <= values[order[i]].place()) by {
        if i < k {
            assert(comes_first(keys, order[i], order[k]));
        } else if k < i {
            assert(comes_first(keys, order[k], order[i]));
        }
    }
    assert(values[order[k]] == ranked(values, k));
}

} // verus!
