//! Facts about lists that several parts of the crate speak of.

use vstd::prelude::*;

verus! {

/// The place of the first entry that meets `wanted`, or the length of the list
/// where none does.
pub open spec fn first_where<T>(list: Seq<T>, wanted: spec_fn(T) -> bool) -> int
    decreases list.len(),
{
    if list.len() == 0 {
        0
    } else if wanted(list[0]) {
        0
    } else {
        1 + first_where(list.drop_first(), wanted)
    }
}

/// What [`first_where`] finds: nothing before it is wanted, and it is.
pub proof fn lemma_first_where<T>(list: Seq<T>, wanted: spec_fn(T) -> bool)
    ensures
        0 <= first_where(list, wanted) <= list.len(),
        first_where(list, wanted) < list.len() ==> wanted(list[first_where(list, wanted)]),
        forall|i: int| 0 <= i < first_where(list, wanted) ==> !wanted(#[trigger] list[i]),
    decreases list.len(),
{
    if list.len() > 0 && !wanted(list[0]) {
        let rest = list.drop_first();
        lemma_first_where(rest, wanted);
        assert forall|i: int| 0 <= i < first_where(list, wanted) implies !wanted(
            #[trigger] list[i],
        ) by {
            if i > 0 {
                assert(rest[i - 1] == list[i]);
            }
        }
    }
}

/// Where an entry is wanted and none before it is, it is the first.
pub proof fn lemma_first_where_is<T>(list: Seq<T>, wanted: spec_fn(T) -> bool, at: int)
    requires
        0 <= at <= list.len(),
        at < list.len() ==> wanted(list[at]),
        forall|i: int| 0 <= i < at ==> !wanted(#[trigger] list[i]),
    ensures
        first_where(list, wanted) == at,
{
    lemma_first_where(list, wanted);
    let found = first_where(list, wanted);
    if found < at {
        assert(!wanted(list[found]));
    } else if at < found {
        assert(!wanted(list[at]));
    }
}

/// How many entries of a list meet `wanted`.
pub open spec fn count_where<T>(list: Seq<T>, wanted: spec_fn(T) -> bool) -> nat {
    list.filter(wanted).len()
}

/// A filtered list grows by the entry at hand, or stays.
pub proof fn lemma_filter_step<T>(list: Seq<T>, wanted: spec_fn(T) -> bool, at: int)
    requires
        0 <= at < list.len(),
    ensures
        list.take(at + 1).filter(wanted) == if wanted(list[at]) {
            list.take(at).filter(wanted).push(list[at])
        } else {
            list.take(at).filter(wanted)
        },
{
    let more = list.take(at + 1);
    assert(more.drop_last() =~= list.take(at));
    assert(more.last() == list[at]);
    reveal(Seq::filter);
}

/// A mapped list grows by the image of the entry at hand.
pub proof fn lemma_map_step<T, U>(list: Seq<T>, image: spec_fn(T) -> U, at: int)
    requires
        0 <= at < list.len(),
    ensures
        list.take(at + 1).map_values(image) == list.take(at).map_values(image).push(
            image(list[at]),
        ),
{
    assert(list.take(at + 1).map_values(image) =~= list.take(at).map_values(image).push(
        image(list[at]),
    ));
}

/// Whether a number is in a list.
pub fn holds(list: &Vec<usize>, wanted: usize) -> (found: bool)
    ensures
        found == list@.contains(wanted),
{
    let mut i: usize = 0;
    while i < list.len()
        invariant
            i <= list.len(),
            forall|k: int| 0 <= k < i ==> list@[k] != wanted,
        decreases list.len() - i,
    {
        if list[i] == wanted {
            return true;
        }
        i = i + 1;
    }
    false
}

/// Whether a list of places only goes up.
pub open spec fn increasing(places: Seq<int>) -> bool {
    forall|i: int, j: int| 0 <= i < j < places.len() ==> #[trigger] places[i] < #[trigger] places[j]
}

/// A list of places that goes up and holds what it should goes on doing so once a
/// later place is added.
pub proof fn lemma_grown(before: Seq<int>, after: Seq<int>, more: bool, next: int)
    requires
        increasing(before),
        forall|i: int| #[trigger] before.contains(i) ==> i < next,
        after == if more {
            before.push(next)
        } else {
            before
        },
    ensures
        increasing(after),
        forall|i: int| #[trigger]
            after.contains(i) <==> before.contains(i) || (more && i == next),
{
    assert forall|k: int| 0 <= k < before.len() implies #[trigger] before[k] < next by {
        assert(before.contains(before[k]));
    }
    assert forall|i: int| #[trigger] after.contains(i) <==> before.contains(i) || (more && i
        == next) by {
        if before.contains(i) {
            let k = choose|k: int| 0 <= k < before.len() && before[k] == i;
            assert(after[k] == i);
        }
        if more && i == next {
            assert(after[before.len() as int] == i);
        }
    }
}

} // verus!
