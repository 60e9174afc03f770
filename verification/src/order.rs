//! Stable sorting, as a list of places: the places of a list's items in the
//! order in which the items come once they are sorted.
use crate::text::{self, not_after};
use vstd::prelude::*;

verus! {

/// Puts a new place into places that are already in order: behind the last one
/// whose key the new key does not go before.
pub open spec fn put_in<K>(
    places: Seq<usize>,
    keys: Seq<K>,
    goes_before: spec_fn(K, K) -> bool,
    place: usize,
) -> Seq<usize>
    decreases places.len(),
{
    if places.len() == 0 || !goes_before(keys[place as int], keys[places.last() as int]) {
        places.push(place)
    } else {
        put_in(places.drop_last(), keys, goes_before, place).push(places.last())
    }
}

/// The places of the first `count` items, in order.
pub open spec fn sorted_places<K>(keys: Seq<K>, goes_before: spec_fn(K, K) -> bool, count: nat) -> Seq<usize>
    decreases count,
{
    if count == 0 {
        Seq::empty()
    } else {
        put_in(
            sorted_places(keys, goes_before, (count - 1) as nat),
            keys,
            goes_before,
            (count - 1) as usize,
        )
    }
}

/// The items at the given places.
pub open spec fn arranged<T>(items: Seq<T>, places: Seq<usize>) -> Seq<T> {
    Seq::new(places.len(), |i: int| items[places[i] as int])
}

/// Places that hold each of `count` items exactly once.
pub open spec fn lists_all(places: Seq<usize>, count: nat) -> bool {
    &&& places.len() == count
    &&& forall|i: int| 0 <= i < places.len() ==> (#[trigger] places[i]) < count
    &&& forall|i: int, j: int| 0 <= i < j < places.len() ==> (#[trigger] places[i]) != (#[trigger] places[j])
}

/// No item goes before one that it follows, and items of which neither goes
/// before the other keep their order.
pub open spec fn in_stable_order<K>(places: Seq<usize>, keys: Seq<K>, goes_before: spec_fn(K, K) -> bool) -> bool {
    forall|i: int, j: int|
        0 <= i < j < places.len() ==> !goes_before(
            keys[(#[trigger] places[j]) as int],
            keys[(#[trigger] places[i]) as int],
        ) && (goes_before(keys[places[i] as int], keys[places[j] as int]) || places[i] < places[j])
}

/// A relation by which keys can be sorted: no key goes before itself, what goes
/// before a key goes before all that the key goes before, and keys of which
/// neither goes before the other are in one place.
pub open spec fn sorts<K>(goes_before: spec_fn(K, K) -> bool) -> bool {
    &&& forall|a: K, b: K| #[trigger] goes_before(a, b) ==> !goes_before(b, a)
    &&& forall|a: K, b: K, c: K|
        #![trigger goes_before(a, b), goes_before(b, c)]
        !goes_before(a, b) && !goes_before(b, c) ==> !goes_before(a, c)
}

proof fn lemma_put_in<K>(places: Seq<usize>, keys: Seq<K>, goes_before: spec_fn(K, K) -> bool, place: usize)
    requires
        sorts(goes_before),
        in_stable_order(places, keys, goes_before),
        lists_all(places, place as nat),
    ensures
        lists_all(put_in(places, keys, goes_before, place), (place + 1) as nat),
        in_stable_order(put_in(places, keys, goes_before, place), keys, goes_before),
{
    lemma_put_in_part(places, keys, goes_before, place);
}

proof fn lemma_put_in_part<K>(places: Seq<usize>, keys: Seq<K>, goes_before: spec_fn(K, K) -> bool, place: usize)
    requires
        sorts(goes_before),
        in_stable_order(places, keys, goes_before),
        forall|i: int| 0 <= i < places.len() ==> (#[trigger] places[i]) < place,
        forall|i: int, j: int| 0 <= i < j < places.len() ==> (#[trigger] places[i]) != (#[trigger] places[j]),
    ensures
        ({
            let result = put_in(places, keys, goes_before, place);
            &&& result.len() == places.len() + 1
            &&& forall|i: int| 0 <= i < result.len() ==> (#[trigger] result[i]) <= place
            &&& forall|i: int, j: int| 0 <= i < j < result.len() ==> (#[trigger] result[i]) != (#[trigger] result[j])
            &&& forall|i: int| 0 <= i < result.len() ==> (#[trigger] result[i]) == place || places.contains(result[i])
            &&& in_stable_order(result, keys, goes_before)
        }),
    decreases places.len(),
{
    let result = put_in(places, keys, goes_before, place);
    if places.len() == 0 || !goes_before(keys[place as int], keys[places.last() as int]) {
        assert forall|i: int| 0 <= i < result.len() implies (#[trigger] result[i]) == place || places.contains(
            result[i],
        ) by {
            if i < places.len() {
                assert(result[i] == places[i]);
            }
        }
        assert forall|i: int, j: int| 0 <= i < j < result.len() implies !goes_before(
            keys[(#[trigger] result[j]) as int],
            keys[(#[trigger] result[i]) as int],
        ) && (goes_before(keys[result[i] as int], keys[result[j] as int]) || result[i] < result[j]) by {
            assert(result[i] == places[i]);
            if j < places.len() {
                assert(result[j] == places[j]);
            } else if i < places.len() - 1 {
                let last = keys[places.last() as int];
                assert(!goes_before(last, keys[places[i] as int])) by {
                    assert(places[places.len() - 1] == places.last());
                }
                assert(!goes_before(keys[place as int], last));
            }
        }
    } else {
        let rest = places.drop_last();
        let part = put_in(rest, keys, goes_before, place);
        assert forall|i: int, j: int| 0 <= i < j < rest.len() implies !goes_before(
            keys[(#[trigger] rest[j]) as int],
            keys[(#[trigger] rest[i]) as int],
        ) && (goes_before(keys[rest[i] as int], keys[rest[j] as int]) || rest[i] < rest[j]) by {
            assert(rest[i] == places[i] && rest[j] == places[j]);
        }
        lemma_put_in_part(rest, keys, goes_before, place);
        let last = places.last();
        assert(result == part.push(last));
        assert forall|i: int| 0 <= i < part.len() implies (#[trigger] part[i]) == place || (exists|k: int|
            0 <= k < places.len() - 1 && places[k] == part[i]) by {
            if part[i] != place {
                let k = choose|k: int| 0 <= k < rest.len() && rest[k] == part[i];
                assert(places[k] == part[i]);
            }
        }
        assert forall|i: int| 0 <= i < result.len() implies (#[trigger] result[i]) == place || places.contains(
            result[i],
        ) by {
            if i < part.len() {
                assert(result[i] == part[i]);
            } else {
                assert(result[i] == places[places.len() - 1]);
            }
        }
        assert forall|i: int, j: int| 0 <= i < j < result.len() implies !goes_before(
            keys[(#[trigger] result[j]) as int],
            keys[(#[trigger] result[i]) as int],
        ) && (goes_before(keys[result[i] as int], keys[result[j] as int]) || result[i] < result[j]) && result[i]
            != result[j] by {
            assert(result[i] == part[i]);
            if j < part.len() {
                assert(result[j] == part[j]);
            } else {
                assert(result[j] == last);
                if part[i] != place {
                    let k = choose|k: int| 0 <= k < places.len() - 1 && places[k] == part[i];
                    assert(places[places.len() - 1] == last);
                }
            }
        }
    }
}

proof fn lemma_sorted<K>(keys: Seq<K>, goes_before: spec_fn(K, K) -> bool, count: nat)
    requires
        sorts(goes_before),
        count <= usize::MAX,
    ensures
        lists_all(sorted_places(keys, goes_before, count), count),
        in_stable_order(sorted_places(keys, goes_before, count), keys, goes_before),
    decreases count,
{
    if count > 0 {
        lemma_sorted(keys, goes_before, (count - 1) as nat);
        lemma_put_in(
            sorted_places(keys, goes_before, (count - 1) as nat),
            keys,
            goes_before,
            (count - 1) as usize,
        );
    }
}

/// Sorting by any relation that can sort keeps every item once, puts no item
/// behind one that it goes before, and keeps the order of items that are in
/// one place.
pub proof fn sorting_is_stable<K>(keys: Seq<K>, goes_before: spec_fn(K, K) -> bool)
    requires
        sorts(goes_before),
        keys.len() <= usize::MAX,
    ensures
        lists_all(sorted_places(keys, goes_before, keys.len()), keys.len()),
        in_stable_order(sorted_places(keys, goes_before, keys.len()), keys, goes_before),
{
    lemma_sorted(keys, goes_before, keys.len());
}

/// The relation that puts the greater number first.
pub open spec fn greater_first() -> spec_fn(i64, i64) -> bool {
    |a: i64, b: i64| a > b
}

/// The relation that puts texts in the order of their characters.
pub open spec fn alphabetical() -> spec_fn(Seq<char>, Seq<char>) -> bool {
    |a: Seq<char>, b: Seq<char>| !not_after(b, a)
}

/// The greater number first is a relation that can sort.
pub proof fn greater_first_sorts()
    ensures
        sorts(greater_first()),
{
}

/// The order of texts is a relation that can sort.
pub proof fn alphabetical_sorts()
    ensures
        sorts(alphabetical()),
{
    assert forall|a: Seq<char>, b: Seq<char>| #[trigger] alphabetical()(a, b) implies !alphabetical()(b, a) by {
        text::order_is_total(a, b);
    }
    assert forall|a: Seq<char>, b: Seq<char>, c: Seq<char>|
        #![trigger alphabetical()(a, b), alphabetical()(b, c)]
        !alphabetical()(a, b) && !alphabetical()(b, c) implies !alphabetical()(a, c) by {
        text::order_is_transitive(c, b, a);
    }
}

/// Puts a new place into the list before the entry `at`.
fn insert_place(places: &mut Vec<usize>, at: usize, place: usize)
    requires
        at <= old(places)@.len(),
    ensures
        final(places)@ == old(places)@.take(at as int).push(place) + old(places)@.skip(at as int),
{
    places.insert(at, place);
    assert(places@ =~= old(places)@.take(at as int).push(place) + old(places)@.skip(at as int));
}

proof fn lemma_put_in_at<K>(
    places: Seq<usize>,
    keys: Seq<K>,
    goes_before: spec_fn(K, K) -> bool,
    place: usize,
    at: int,
)
    requires
        0 <= at <= places.len(),
        forall|i: int| at <= i < places.len() ==> goes_before(keys[place as int], keys[(#[trigger] places[i]) as int]),
        at > 0 ==> !goes_before(keys[place as int], keys[places[at - 1] as int]),
    ensures
        put_in(places, keys, goes_before, place) == places.take(at).push(place) + places.skip(at),
    decreases places.len(),
{
    if at == places.len() {
        assert(places.take(at) =~= places);
        assert(places.take(at).push(place) + places.skip(at) =~= places.push(place));
    } else {
        let rest = places.drop_last();
        assert(places[places.len() - 1] == places.last());
        assert forall|i: int| at <= i < rest.len() implies goes_before(
            keys[place as int],
            keys[(#[trigger] rest[i]) as int],
        ) by {
            assert(rest[i] == places[i]);
        }
        lemma_put_in_at(rest, keys, goes_before, place, at);
        assert((rest.take(at).push(place) + rest.skip(at)).push(places.last()) =~= places.take(at).push(place)
            + places.skip(at));
    }
}

proof fn lemma_places_below<K>(keys: Seq<K>, goes_before: spec_fn(K, K) -> bool, count: nat)
    ensures
        sorted_places(keys, goes_before, count).len() == count,
        count <= usize::MAX ==> forall|i: int| 0 <= i < count ==> (#[trigger] sorted_places(keys, goes_before, count)[i]) < count,
    decreases count,
{
    if count > 0 {
        lemma_places_below(keys, goes_before, (count - 1) as nat);
        lemma_put_in_below(
            sorted_places(keys, goes_before, (count - 1) as nat),
            keys,
            goes_before,
            (count - 1) as usize,
        );
    }
}

proof fn lemma_put_in_below<K>(places: Seq<usize>, keys: Seq<K>, goes_before: spec_fn(K, K) -> bool, place: usize)
    ensures
        put_in(places, keys, goes_before, place).len() == places.len() + 1,
        (forall|i: int| 0 <= i < places.len() ==> (#[trigger] places[i]) <= place) ==> forall|i: int|
            0 <= i <= places.len() ==> (#[trigger] put_in(places, keys, goes_before, place)[i]) <= place,
    decreases places.len(),
{
    if places.len() == 0 || !goes_before(keys[place as int], keys[places.last() as int]) {
    } else {
        lemma_put_in_below(places.drop_last(), keys, goes_before, place);
        if forall|i: int| 0 <= i < places.len() ==> (#[trigger] places[i]) <= place {
            assert(places[places.len() - 1] <= place);
            assert(places.last() <= place);
        }
    }
}

/// The places of numbers, the greatest first.
pub fn sort_descending(keys: &Vec<i64>) -> (result: Vec<usize>)
    ensures
        result@ == sorted_places(keys@, greater_first(), keys@.len()),
        result@.len() == keys@.len(),
        forall|i: int| 0 <= i < result@.len() ==> (#[trigger] result@[i]) < keys@.len(),
{
    let mut places: Vec<usize> = Vec::new();
    let mut next: usize = 0;
    let size: usize = keys.len();
    while next < size
        invariant
            next <= size,
            size == keys@.len(),
            places@ == sorted_places(keys@, greater_first(), next as nat),
        decreases size - next,
    {
        proof {
            lemma_places_below(keys@, greater_first(), next as nat);
        }
        let mut at: usize = places.len();
        while at > 0 && keys[next] > keys[places[at - 1]]
            invariant
                at <= places@.len(),
                next < keys@.len(),
                places@.len() == next,
                forall|i: int| 0 <= i < places@.len() ==> (#[trigger] places@[i]) < next,
                forall|i: int| at <= i < places@.len() ==> keys@[next as int] > keys@[(#[trigger] places@[i]) as int],
            decreases at,
        {
            at -= 1;
        }
        proof {
            lemma_put_in_at(places@, keys@, greater_first(), next, at as int);
        }
        insert_place(&mut places, at, next);
        next += 1;
    }
    proof {
        lemma_places_below(keys@, greater_first(), size as nat);
    }
    places
}

/// The places of texts, in their order.
pub fn sort_alphabetical(keys: &Vec<String>) -> (result: Vec<usize>)
    ensures
        result@ == sorted_places(text::texts(keys@), alphabetical(), keys@.len()),
        result@.len() == keys@.len(),
        forall|i: int| 0 <= i < result@.len() ==> (#[trigger] result@[i]) < keys@.len(),
{
    let mut places: Vec<usize> = Vec::new();
    let mut next: usize = 0;
    let size: usize = keys.len();
    let ghost words = text::texts(keys@);
    while next < size
        invariant
            next <= size,
            size == keys@.len(),
            words == text::texts(keys@),
            places@ == sorted_places(words, alphabetical(), next as nat),
        decreases size - next,
    {
        proof {
            lemma_places_below(words, alphabetical(), next as nat);
        }
        let mut at: usize = places.len();
        while at > 0 && !text::ordered(keys[places[at - 1]].as_str(), keys[next].as_str())
            invariant
                at <= places@.len(),
                next < keys@.len(),
                words == text::texts(keys@),
                places@.len() == next,
                forall|i: int| 0 <= i < places@.len() ==> (#[trigger] places@[i]) < next,
                forall|i: int|
                    at <= i < places@.len() ==> alphabetical()(words[next as int], words[(#[trigger] places@[i]) as int]),
            decreases at,
        {
            at -= 1;
        }
        proof {
            lemma_put_in_at(places@, words, alphabetical(), next, at as int);
        }
        insert_place(&mut places, at, next);
        next += 1;
    }
    proof {
        lemma_places_below(words, alphabetical(), size as nat);
    }
    places
}

/// Puts items at the given places.
pub fn arrange<T>(items: Vec<T>, places: &Vec<usize>) -> (result: Vec<T>)
    requires
        lists_all(places@, items@.len()),
    ensures
        result@ == arranged(items@, places@),
{
    let ghost all = items@;
    let mut slots: Vec<Option<T>> = Vec::new();
    for item in iter: items
        invariant
            iter.seq() == all,
            slots@.len() == iter.index(),
            forall|i: int| 0 <= i < slots@.len() ==> #[trigger] slots@[i] == Some(all[i]),
    {
        slots.push(Some(item));
    }
    let mut result: Vec<T> = Vec::new();
    let mut at: usize = 0;
    while at < places.len()
        invariant
            at <= places@.len(),
            lists_all(places@, all.len()),
            slots@.len() == all.len(),
            result@ == arranged(all, places@).take(at as int),
            forall|i: int| at <= i < places@.len() ==> slots@[(#[trigger] places@[i]) as int] == Some(
                all[places@[i] as int],
            ),
        decreases places.len() - at,
    {
        let place: usize = places[at];
        let mut slot: Option<T> = None;
        std::mem::swap(&mut slot, &mut slots[place]);
        match slot {
            Some(item) => {
                result.push(item);
            },
            None => {},
        }
        assert(arranged(all, places@).take(at + 1) =~= arranged(all, places@).take(at as int).push(
            all[place as int],
        ));
        at += 1;
    }
    assert(arranged(all, places@).take(at as int) =~= arranged(all, places@));
    result
}

} // verus!
