//! Listings of maps: sequences that hold every entry once, in whatever order.

use vstd::prelude::*;

verus! {

/// `list` holds every entry of `m` once, and nothing else.
pub open spec fn lists<V>(list: Seq<(Seq<char>, V)>, m: Map<Seq<char>, V>) -> bool {
    &&& forall|i: int|
        0 <= i < list.len() ==> m.contains_key((#[trigger] list[i]).0) && m[list[i].0]
            == list[i].1
    &&& forall|i: int, j: int|
        0 <= i < j < list.len() ==> (#[trigger] list[i]).0 != (#[trigger] list[j]).0
    &&& forall|k: Seq<char>| #[trigger]
        m.contains_key(k) ==> exists|i: int| 0 <= i < list.len() && (#[trigger] list[i]).0 == k
}

/// Without its last item, a listing lists the map without the last item's key.
pub proof fn listing_drop_last<V>(list: Seq<(Seq<char>, V)>, m: Map<Seq<char>, V>)
    requires
        lists(list, m),
        list.len() > 0,
    ensures
        lists(list.drop_last(), m.remove(list.last().0)),
        m.contains_key(list.last().0),
        m[list.last().0] == list.last().1,
{
    let shorter = list.drop_last();
    let key = list.last().0;
    let rest = m.remove(key);
    assert(list[list.len() - 1] == list.last());
    assert forall|i: int| 0 <= i < shorter.len() implies rest.contains_key(
        (#[trigger] shorter[i]).0,
    ) && rest[shorter[i].0] == shorter[i].1 by {
        assert(shorter[i] == list[i]);
    }
    assert forall|i: int, j: int| 0 <= i < j < shorter.len() implies (#[trigger] shorter[i]).0 != (
    #[trigger] shorter[j]).0 by {
        assert(shorter[i] == list[i] && shorter[j] == list[j]);
    }
    assert forall|k: Seq<char>| #[trigger] rest.contains_key(k) implies exists|i: int|
        0 <= i < shorter.len() && (#[trigger] shorter[i]).0 == k by {
        assert(m.contains_key(k));
        let i = choose|i: int| 0 <= i < list.len() && (#[trigger] list[i]).0 == k;
        assert(shorter[i].0 == k);
    }
}

/// Only the empty map has an empty listing.
pub proof fn empty_listing<V>(list: Seq<(Seq<char>, V)>, m: Map<Seq<char>, V>)
    requires
        lists(list, m),
    ensures
        list.len() == 0 <==> m == Map::<Seq<char>, V>::empty(),
{
    if list.len() == 0 {
        assert forall|k: Seq<char>| !m.contains_key(k) by {
            if m.contains_key(k) {
                let i = choose|i: int| 0 <= i < list.len() && (#[trigger] list[i]).0 == k;
            }
        }
        assert(m =~= Map::<Seq<char>, V>::empty());
    } else {
        assert(m.contains_key(list[0].0));
    }
}

/// A map that has a listing is finite, and has as many keys as the listing has items.
pub proof fn listing_length<V>(list: Seq<(Seq<char>, V)>, m: Map<Seq<char>, V>)
    requires
        lists(list, m),
    ensures
        m.dom().finite(),
        list.len() == m.len(),
    decreases list.len(),
{
    empty_listing(list, m);
    if list.len() > 0 {
        let key = list.last().0;
        listing_drop_last(list, m);
        listing_length(list.drop_last(), m.remove(key));
        assert(m.dom() =~= m.remove(key).dom().insert(key));
    } else {
        assert(m.dom() =~= Set::empty());
    }
}

/// A listing and its map say the same: a key with its value is in the map exactly where it is
/// an item of the listing, and it is one item only.
pub proof fn listings_say_what_the_map_says<V>(list: Seq<(Seq<char>, V)>, m: Map<Seq<char>, V>)
    requires
        lists(list, m),
    ensures
        forall|k: Seq<char>, v: V| #[trigger]
            list.contains((k, v)) <==> m.contains_key(k) && m[k] == v,
        forall|k: Seq<char>| #[trigger]
            m.contains_key(k) <==> exists|i: int|
                0 <= i < list.len() && (#[trigger] list[i]).0 == k && list[i].1 == m[k],
        forall|i: int, j: int|
            0 <= i < list.len() && 0 <= j < list.len() && (#[trigger] list[i]).0 == (
            #[trigger] list[j]).0 ==> i == j,
        list.len() == m.len(),
{
    listing_length(list, m);
    assert forall|k: Seq<char>, v: V| #[trigger]
        list.contains((k, v)) <==> m.contains_key(k) && m[k] == v by {
        if m.contains_key(k) && m[k] == v {
            let i = choose|i: int| 0 <= i < list.len() && (#[trigger] list[i]).0 == k;
            assert(list[i] == (k, v));
        }
        if list.contains((k, v)) {
            let i = choose|i: int| 0 <= i < list.len() && list[i] == (k, v);
            assert(list[i].0 == k);
        }
    }
    assert forall|i: int, j: int|
        0 <= i < list.len() && 0 <= j < list.len() && (#[trigger] list[i]).0 == (
        #[trigger] list[j]).0 implies i == j by {
        if i < j {
            assert(list[i].0 != list[j].0);
        } else if j < i {
            assert(list[j].0 != list[i].0);
        }
    }
}

/// Whatever holds every entry of a map once, and nothing else, is a listing of it.
pub proof fn every_order_is_a_listing<V>(list: Seq<(Seq<char>, V)>, m: Map<Seq<char>, V>)
    requires
        forall|k: Seq<char>, v: V| #[trigger]
            list.contains((k, v)) <==> m.contains_key(k) && m[k] == v,
        list.no_duplicates(),
    ensures
        lists(list, m),
{
    assert forall|i: int| 0 <= i < list.len() implies m.contains_key((#[trigger] list[i]).0)
        && m[list[i].0] == list[i].1 by {
        assert(list.contains((list[i].0, list[i].1)));
    }
    assert forall|i: int, j: int| 0 <= i < j < list.len() implies (#[trigger] list[i]).0 != (
    #[trigger] list[j]).0 by {
        if list[i].0 == list[j].0 {
            assert(list[i] == list[j]);
        }
    }
    assert forall|k: Seq<char>| #[trigger] m.contains_key(k) implies exists|i: int|
        0 <= i < list.len() && (#[trigger] list[i]).0 == k by {
        assert(list.contains((k, m[k])));
        let i = choose|i: int| 0 <= i < list.len() && list[i] == (k, m[k]);
        assert(list[i].0 == k);
    }
}

} // verus!
