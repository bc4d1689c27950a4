//! Bounded lists of candidates, kept in the order of their distance.
//!
//! A distance enters the index as a key: an integer that orders distances
//! as the measure does, a smaller key standing for a closer vector.

use vstd::prelude::*;

verus! {

/// A candidate neighbour: the key of its distance, and its id.
pub type Candidate = (u64, usize);

/// `a` comes before `b`: it has the smaller key or, with equal keys, the
/// smaller id.
pub open spec fn closer(a: Candidate, b: Candidate) -> bool {
    a.0 < b.0 || (a.0 == b.0 && a.1 < b.1)
}

/// No candidate of `list` comes before one in front of it.
pub open spec fn ascending(list: Seq<Candidate>) -> bool {
    forall|i: int, j: int| 0 <= i < j < list.len() ==> !closer(list[j], list[i])
}

/// The place of `item` in the ascending `list`: behind the last candidate
/// that `item` does not come before.
pub open spec fn place_of(list: Seq<Candidate>, item: Candidate) -> nat
    decreases list.len(),
{
    if list.len() == 0 {
        0
    } else if closer(item, list.last()) {
        place_of(list.drop_last(), item)
    } else {
        list.len()
    }
}

/// `list` with `item` at its place, cut to the first `cap` candidates.
pub open spec fn inserted(list: Seq<Candidate>, item: Candidate, cap: nat) -> Seq<Candidate> {
    let all = list.insert(place_of(list, item) as int, item);
    if all.len() > cap {
        all.subrange(0, cap as int)
    } else {
        all
    }
}

/// The `cap` first of `items` in ascending order: what is left when they are
/// inserted one after the other into a list bounded by `cap`.
pub open spec fn nearest(items: Seq<Candidate>, cap: nat) -> Seq<Candidate>
    decreases items.len(),
{
    if items.len() == 0 {
        Seq::empty()
    } else {
        inserted(nearest(items.drop_last(), cap), items.last(), cap)
    }
}

/// The ids of `list`, in order.
pub open spec fn ids_of(list: Seq<Candidate>) -> Seq<usize> {
    Seq::new(list.len(), |k: int| list[k].1)
}

/// The candidates that pair each of `keys` with the id at its position.
pub open spec fn paired(keys: Seq<u64>, ids: Seq<usize>) -> Seq<Candidate> {
    Seq::new(ids.len(), |k: int| (keys[k], ids[k]))
}

/// The place of an item lies inside the list, with nothing that the item
/// comes before in front of it and nothing else behind it.
pub proof fn lemma_place_of(list: Seq<Candidate>, item: Candidate)
    requires
        ascending(list),
    ensures
        place_of(list, item) <= list.len(),
        forall|i: int| 0 <= i < place_of(list, item) ==> !closer(item, list[i]),
        forall|i: int| place_of(list, item) <= i < list.len() ==> closer(item, list[i]),
    decreases list.len(),
{
    if list.len() > 0 {
        let front = list.drop_last();
        if closer(item, list.last()) {
            lemma_place_of(front, item);
            assert forall|i: int| 0 <= i < place_of(list, item) implies !closer(item, list[i]) by {
                assert(front[i] == list[i]);
            }
            assert forall|i: int| place_of(list, item) <= i < list.len() implies closer(
                item,
                list[i],
            ) by {
                if i < front.len() {
                    assert(front[i] == list[i]);
                }
            }
        } else {
            assert forall|i: int| 0 <= i < list.len() implies !closer(item, list[i]) by {
                if i < list.len() - 1 {
                    assert(!closer(list.last(), list[i]));
                }
            }
        }
    }
}

/// The only position that has nothing that the item comes before in front of
/// it, and nothing else behind it, is the item's place.
pub proof fn lemma_place_is(list: Seq<Candidate>, item: Candidate, p: int)
    requires
        0 <= p <= list.len(),
        forall|i: int| 0 <= i < p ==> !closer(item, list[i]),
        forall|i: int| p <= i < list.len() ==> closer(item, list[i]),
    ensures
        place_of(list, item) == p,
    decreases list.len(),
{
    if list.len() > 0 && closer(item, list.last()) {
        let front = list.drop_last();
        assert(p < list.len());
        assert forall|i: int| 0 <= i < p implies !closer(item, front[i]) by {
            assert(front[i] == list[i]);
        }
        assert forall|i: int| p <= i < front.len() implies closer(item, front[i]) by {
            assert(front[i] == list[i]);
        }
        lemma_place_is(front, item, p);
    }
}

/// Inserting into an ascending list bounded by `cap` leaves an ascending list
/// bounded by `cap`, made of the item and of candidates of the list.
pub proof fn lemma_inserted(list: Seq<Candidate>, item: Candidate, cap: nat)
    requires
        ascending(list),
        list.len() <= cap,
    ensures
        ascending(inserted(list, item, cap)),
        inserted(list, item, cap).len() == (if list.len() < cap {
            list.len() + 1
        } else {
            cap
        }),
        forall|k: int|
            0 <= k < inserted(list, item, cap).len() ==> (#[trigger] inserted(list, item, cap)[k])
                == item || list.contains(inserted(list, item, cap)[k]),
{
    lemma_place_of(list, item);
    lemma_insert_ascending(list, item);
    let p = place_of(list, item) as int;
    let all = list.insert(p, item);
    let res = inserted(list, item, cap);
    assert forall|k: int| 0 <= k < res.len() implies (#[trigger] res[k]) == item || list.contains(
        res[k],
    ) by {
        assert(res[k] == all[k]);
        if k < p {
            assert(all[k] == list[k]);
        } else if k > p {
            assert(all[k] == list[k - 1]);
        }
    }
}

/// The nearest of any candidates are ascending, at most `cap`, and taken from
/// the candidates.
pub proof fn lemma_nearest(items: Seq<Candidate>, cap: nat)
    ensures
        ascending(nearest(items, cap)),
        nearest(items, cap).len() == (if items.len() < cap {
            items.len()
        } else {
            cap
        }),
        forall|k: int|
            0 <= k < nearest(items, cap).len() ==> items.contains(
                #[trigger] nearest(items, cap)[k],
            ),
    decreases items.len(),
{
    if items.len() > 0 {
        let front = items.drop_last();
        lemma_nearest(front, cap);
        lemma_inserted(nearest(front, cap), items.last(), cap);
        let res = nearest(items, cap);
        assert forall|k: int| 0 <= k < res.len() implies items.contains(#[trigger] res[k]) by {
            if res[k] == items.last() {
                assert(items[items.len() - 1] == res[k]);
            } else {
                let w = choose|w: int|
                    0 <= w < front.len() && front[w] == res[k];
                assert(items[w] == res[k]);
            }
        }
    }
}

/// A list with an item at its place is ascending.
pub proof fn lemma_insert_ascending(list: Seq<Candidate>, item: Candidate)
    requires
        ascending(list),
    ensures
        ascending(list.insert(place_of(list, item) as int, item)),
{
    lemma_place_of(list, item);
    let p = place_of(list, item) as int;
    let all = list.insert(p, item);
    assert forall|i: int, j: int| 0 <= i < j < all.len() implies !closer(all[j], all[i]) by {
        let a = if i < p {
            list[i]
        } else if i == p {
            item
        } else {
            list[i - 1]
        };
        let b = if j < p {
            list[j]
        } else if j == p {
            item
        } else {
            list[j - 1]
        };
        assert(all[i] == a && all[j] == b);
    }
}

/// Inserting into a bounded list keeps every candidate, of the list or the
/// item, that comes before one that is kept.
pub proof fn lemma_inserted_keeps_closer(
    list: Seq<Candidate>,
    item: Candidate,
    cap: nat,
    y: Candidate,
    k: int,
)
    requires
        ascending(list),
        list.len() <= cap,
        y == item || list.contains(y),
        0 <= k < inserted(list, item, cap).len(),
        closer(y, inserted(list, item, cap)[k]),
    ensures
        inserted(list, item, cap).contains(y),
{
    lemma_place_of(list, item);
    lemma_insert_ascending(list, item);
    let p = place_of(list, item) as int;
    let all = list.insert(p, item);
    let res = inserted(list, item, cap);
    assert(res[k] == all[k]);
    let j = if y == item {
        p
    } else {
        let w = choose|w: int| 0 <= w < list.len() && list[w] == y;
        if w < p {
            w
        } else {
            w + 1
        }
    };
    assert(0 <= j < all.len() && all[j] == y);
    if j > k {
        assert(!closer(all[j], all[k]));
    }
    assert(j < res.len());
    assert(res[j] == y);
}

/// Where the candidates are no more than the bound, all of them are kept.
pub proof fn lemma_nearest_all(items: Seq<Candidate>, cap: nat)
    requires
        items.len() <= cap,
    ensures
        forall|i: int| 0 <= i < items.len() ==> nearest(items, cap).contains(#[trigger] items[i]),
    decreases items.len(),
{
    if items.len() > 0 {
        let front = items.drop_last();
        let item = items.last();
        lemma_nearest_all(front, cap);
        lemma_nearest(front, cap);
        let prev = nearest(front, cap);
        lemma_place_of(prev, item);
        let p = place_of(prev, item) as int;
        let all = prev.insert(p, item);
        let res = nearest(items, cap);
        assert(res == all);
        assert forall|i: int| 0 <= i < items.len() implies res.contains(#[trigger] items[i]) by {
            if i == items.len() - 1 {
                assert(all[p] == item);
            } else {
                assert(front[i] == items[i]);
                assert(prev.contains(front[i]));
                let w = choose|w: int| 0 <= w < prev.len() && prev[w] == front[i];
                if w < p {
                    assert(all[w] == prev[w]);
                } else {
                    assert(all[w + 1] == prev[w]);
                }
            }
        }
    }
}

/// The nearest are the closest: a candidate that comes before one that is
/// kept is kept itself.
pub proof fn lemma_nearest_closest(items: Seq<Candidate>, cap: nat, i: int, k: int)
    requires
        0 <= i < items.len(),
        0 <= k < nearest(items, cap).len(),
        closer(items[i], nearest(items, cap)[k]),
    ensures
        nearest(items, cap).contains(items[i]),
    decreases items.len(),
{
    let front = items.drop_last();
    let item = items.last();
    let prev = nearest(front, cap);
    let res = nearest(items, cap);
    let y = items[i];
    lemma_nearest(front, cap);
    lemma_inserted(prev, item, cap);
    lemma_place_of(prev, item);
    if y != item {
        assert(front[i] == y);
        if front.len() <= cap {
            lemma_nearest_all(front, cap);
        } else {
            let p = place_of(prev, item) as int;
            let all = prev.insert(p, item);
            assert(res[k] == all[k]);
            let at = if k < p {
                k
            } else if k == p {
                // The item stands at `k`: what stood there comes behind it.
                assert(p < prev.len());
                assert(closer(item, prev[p]));
                p
            } else {
                k - 1
            };
            assert(closer(y, prev[at]));
            lemma_nearest_closest(front, cap, i, at);
        }
        assert(prev.contains(y));
    }
    lemma_inserted_keeps_closer(prev, item, cap, y, k);
}

/// Whether `a` comes before `b`.
pub fn is_closer(a: Candidate, b: Candidate) -> (res: bool)
    ensures
        res == closer(a, b),
{
    a.0 < b.0 || (a.0 == b.0 && a.1 < b.1)
}

/// Puts `item` at its place in the ascending `list` and cuts the list to
/// `cap` candidates.
pub fn insert_bounded(list: &mut Vec<Candidate>, item: Candidate, cap: usize)
    requires
        ascending(old(list)@),
        old(list)@.len() <= cap,
    ensures
        final(list)@ == inserted(old(list)@, item, cap as nat),
        ascending(final(list)@),
        final(list)@.len() <= cap,
{
    let mut p: usize = list.len();
    while p > 0 && is_closer(item, list[p - 1])
        invariant
            p <= list@.len(),
            list@ == old(list)@,
            forall|i: int| p <= i < list@.len() ==> closer(item, list@[i]),
        decreases p,
    {
        p = p - 1;
    }
    proof {
        assert forall|i: int| 0 <= i < p implies !closer(item, list@[i]) by {
            assert(!closer(item, list@[p - 1]));
            if i < p - 1 {
                assert(!closer(list@[p - 1], list@[i]));
            }
        }
        lemma_place_is(list@, item, p as int);
        lemma_inserted(list@, item, cap as nat);
    }
    if list.len() < cap {
        list.insert(p, item);
    } else if p < cap {
        list.insert(p, item);
        list.truncate(cap);
    } else {
        proof {
            assert(list@.insert(p as int, item).subrange(0, cap as int) =~= list@);
        }
    }
}

/// The ids of the `cap` nearest of the candidates that pair each key with
/// the id at its position, in ascending order.
pub fn nearest_ids(keys: &[u64], ids: &[usize], cap: usize) -> (res: Vec<usize>)
    requires
        keys@.len() == ids@.len(),
    ensures
        res@ == ids_of(nearest(paired(keys@, ids@), cap as nat)),
{
    let mut list: Vec<Candidate> = Vec::new();
    let mut k: usize = 0;
    let ghost all = paired(keys@, ids@);
    while k < ids.len()
        invariant
            k <= ids@.len(),
            keys@.len() == ids@.len(),
            all == paired(keys@, ids@),
            list@ == nearest(all.subrange(0, k as int), cap as nat),
        decreases ids.len() - k,
    {
        proof {
            lemma_nearest(all.subrange(0, k as int), cap as nat);
            assert(all.subrange(0, k + 1).drop_last() =~= all.subrange(0, k as int));
        }
        insert_bounded(&mut list, (keys[k], ids[k]), cap);
        k = k + 1;
    }
    assert(all.subrange(0, k as int) =~= all);
    let res = candidate_ids(list.as_slice());
    res
}

/// The ids of `list`, in order.
pub fn candidate_ids(list: &[Candidate]) -> (res: Vec<usize>)
    ensures
        res@ == ids_of(list@),
{
    let mut res: Vec<usize> = Vec::new();
    let mut k: usize = 0;
    while k < list.len()
        invariant
            k <= list@.len(),
            res@ == ids_of(list@).subrange(0, k as int),
        decreases list.len() - k,
    {
        res.push(list[k].1);
        k = k + 1;
        assert(res@ =~= ids_of(list@).subrange(0, k as int));
    }
    assert(res@ =~= ids_of(list@));
    res
}

} // verus!
