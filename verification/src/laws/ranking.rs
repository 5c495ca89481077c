//! Laws of the nearest few of many candidates.
use crate::floats;
use crate::topk;
use crate::topk::Candidate;
use vstd::prelude::*;

verus! {

/// Whether ids grow with the places of candidates.
pub open spec fn ids_grow(s: Seq<Candidate>) -> bool {
    forall|i: int, j: int| 0 <= i < j < s.len() ==> (#[trigger] s[i]).id < (#[trigger] s[j]).id
}

/// Whether `r` are the candidates at these places, each place once.
pub open spec fn are_at(s: Seq<Candidate>, r: Seq<Candidate>, places: Seq<int>) -> bool {
    &&& places.len() == r.len()
    &&& places.no_duplicates()
    &&& forall|j: int|
        0 <= j < places.len() ==> 0 <= #[trigger] places[j] < s.len() && r[j] == s[places[j]]
}

/// Whether a candidate that is kept is nearer than another, or as near with the lower
/// id if `ids` tells them apart.
pub open spec fn is_nearer(kept: Candidate, other: Candidate, ids: bool) -> bool {
    ||| floats::order_key(kept.distance) < floats::order_key(other.distance)
    ||| floats::order_key(kept.distance) == floats::order_key(other.distance) && (ids ==> kept.id
        < other.id)
}

spec fn none_is_nearer(s: Seq<Candidate>, places: Seq<int>, ids: bool) -> bool {
    forall|p: int, q: int|
        0 <= p < s.len() && !#[trigger] places.contains(p) && #[trigger] places.contains(q)
            ==> is_nearer(s[q], s[p], ids)
}

proof fn put_in(s: Seq<Candidate>, kept: Seq<Candidate>, places: Seq<int>, at: int)
    requires
        s.len() > 0,
        are_at(s.drop_last(), kept, places),
        0 <= at <= kept.len(),
    ensures
        are_at(s, kept.insert(at, s.last()), places.insert(at, s.len() - 1)),
        forall|p: int| #[trigger]
            places.insert(at, s.len() - 1).contains(p) <==> p == s.len() - 1 || places.contains(p),
{
    let n = s.len() - 1;
    let r = kept.insert(at, s.last());
    let more = places.insert(at, n);
    assert forall|j: int| 0 <= j < more.len() implies 0 <= #[trigger] more[j] < s.len() && r[j]
        == s[more[j]] by {
        if j < at {
            assert(more[j] == places[j]);
        } else if j > at {
            assert(more[j] == places[j - 1]);
        }
    }
    assert forall|i: int, j: int| 0 <= i < more.len() && 0 <= j < more.len() && i != j implies more[i]
        != more[j] by {
        if i < at {
            assert(more[i] == places[i]);
        } else if i > at {
            assert(more[i] == places[i - 1]);
        }
        if j < at {
            assert(more[j] == places[j]);
        } else if j > at {
            assert(more[j] == places[j - 1]);
        }
    }
    assert forall|p: int| #[trigger] more.contains(p) <==> p == n || places.contains(p) by {
        if more.contains(p) && p != n {
            let q = choose|q: int| 0 <= q < more.len() && more[q] == p;
            assert(places[if q < at { q } else { q - 1 }] == p);
        }
        if p == n {
            assert(more[at] == n);
        }
        if places.contains(p) {
            let q = choose|q: int| 0 <= q < places.len() && places[q] == p;
            assert(more[if q < at { q } else { q + 1 }] == p);
        }
    }
}

proof fn take_out_last(s: Seq<Candidate>, kept: Seq<Candidate>, places: Seq<int>)
    requires
        are_at(s, kept, places),
        kept.len() > 0,
    ensures
        are_at(s, kept.drop_last(), places.drop_last()),
        !places.drop_last().contains(places.last()),
        forall|p: int| #[trigger]
            places.drop_last().contains(p) <==> p != places.last() && places.contains(p),
{
    let less = places.drop_last();
    assert(places[places.len() - 1] == places.last());
    assert forall|p: int| #[trigger] less.contains(p) <==> p != places.last() && places.contains(
        p,
    ) by {
        if less.contains(p) {
            let q = choose|q: int| 0 <= q < less.len() && less[q] == p;
            assert(places[q] == p);
        }
        if places.contains(p) && p != places.last() {
            let q = choose|q: int| 0 <= q < places.len() && places[q] == p;
            assert(less[q] == p);
        }
    }
}

proof fn places_of_nearest(s: Seq<Candidate>, k: nat, ids: bool) -> (places: Seq<int>)
    requires
        ids ==> ids_grow(s),
    ensures
        are_at(s, topk::nearest(s, k), places),
        none_is_nearer(s, places, ids),
        s.len() <= k ==> forall|p: int| 0 <= p < s.len() ==> #[trigger] places.contains(p),
    decreases s.len(),
{
    if s.len() == 0 {
        Seq::empty()
    } else {
        let front = s.drop_last();
        let x = s.last();
        let n = s.len() - 1;
        topk::nearest_is_nearest(front, k);
        let was = topk::nearest(front, k);
        if ids {
            assert forall|i: int, j: int| 0 <= i < j < front.len() implies (
            #[trigger] front[i]).id < (#[trigger] front[j]).id by {
                assert(s[i].id < s[j].id);
            }
        }
        let before = places_of_nearest(front, k, ids);
        assert forall|p: int| #[trigger] before.contains(p) implies 0 <= p < n by {
            let q = choose|q: int| 0 <= q < before.len() && before[q] == p;
        }
        if was.len() < k {
            let at = topk::placed_is_insert(was, x);
            put_in(s, was, before, at);
            before.insert(at, n)
        } else if was.len() > 0 && floats::order_key(x.distance) < floats::order_key(
            was.last().distance,
        ) {
            let last = before.last();
            assert(before[before.len() - 1] == last);
            take_out_last(front, was, before);
            let left = before.drop_last();
            let at = topk::placed_is_insert(was.drop_last(), x);
            put_in(s, was.drop_last(), left, at);
            let places = left.insert(at, n);
            assert(was.last() == s[last]);
            assert forall|p: int, q: int|
                0 <= p < s.len() && !#[trigger] places.contains(p) && #[trigger] places.contains(
                    q,
                ) implies is_nearer(s[q], s[p], ids) by {
                assert(places.contains(n));
                assert(before.contains(last));
                assert(left.contains(q) || q == n);
                if p == last {
                    if q != n {
                        assert(before.contains(q) && q != last);
                        let i = choose|i: int| 0 <= i < before.len() && before[i] == q;
                        assert(was[i] == s[q]);
                        assert(!topk::precedes(was[was.len() - 1], was[i]));
                        if ids {
                            if q < last {
                                assert(s[q].id < s[last].id);
                            } else {
                                assert(s[last].id < s[q].id);
                            }
                        }
                    }
                } else {
                    assert(!before.contains(p));
                    assert(is_nearer(front[last], front[p], ids));
                    if q != n {
                        assert(before.contains(q));
                        assert(is_nearer(front[q], front[p], ids));
                    }
                }
            }
            places
        } else {
            assert forall|p: int, q: int|
                0 <= p < s.len() && !#[trigger] before.contains(p) && #[trigger] before.contains(
                    q,
                ) implies is_nearer(s[q], s[p], ids) by {
                if p == n {
                    let i = choose|i: int| 0 <= i < before.len() && before[i] == q;
                    assert(was[i] == s[q]);
                    if i < was.len() - 1 {
                        assert(!topk::precedes(was[was.len() - 1], was[i]));
                    }
                    if ids {
                        assert(s[q].id < s[n].id);
                    }
                } else {
                    assert(is_nearer(front[q], front[p], ids));
                }
            }
            before
        }
    }
}

/// The nearest few are candidates at different places, as many as are wanted or there
/// are, in the order of their distances and, at the same distance, of their ids. None
/// that is left out is nearer than one that is kept; where ids grow with the places, one
/// at the same distance that is left out has the higher id.
pub proof fn nearest_are_kept(s: Seq<Candidate>, k: nat) -> (places: Seq<int>)
    ensures
        places.no_duplicates(),
        places.len() == topk::nearest(s, k).len(),
        places.len() == (if s.len() < k {
            s.len()
        } else {
            k
        }),
        forall|j: int|
            0 <= j < places.len() ==> 0 <= #[trigger] places[j] < s.len() && topk::nearest(
                s,
                k,
            )[j] == s[places[j]],
        forall|i: int, j: int|
            0 <= i < j < places.len() ==> {
                let a = s[#[trigger] places[i]];
                let b = s[#[trigger] places[j]];
                floats::order_key(a.distance) < floats::order_key(b.distance) || (
                floats::order_key(a.distance) == floats::order_key(b.distance) && a.id <= b.id)
            },
        forall|p: int, j: int|
            0 <= p < s.len() && !#[trigger] places.contains(p) && 0 <= j < places.len() ==> {
                let kept = s[#[trigger] places[j]];
                let other = s[p];
                floats::order_key(kept.distance) < floats::order_key(other.distance) || (
                floats::order_key(kept.distance) == floats::order_key(other.distance) && (
                ids_grow(s) ==> kept.id < other.id))
            },
        s.len() <= k ==> forall|p: int| 0 <= p < s.len() ==> #[trigger] places.contains(p),
{
    let r = topk::nearest(s, k);
    topk::nearest_is_nearest(s, k);
    let places = places_of_nearest(s, k, ids_grow(s));
    assert forall|i: int, j: int| 0 <= i < j < places.len() implies {
        let a = s[#[trigger] places[i]];
        let b = s[#[trigger] places[j]];
        floats::order_key(a.distance) < floats::order_key(b.distance) || (floats::order_key(
            a.distance,
        ) == floats::order_key(b.distance) && a.id <= b.id)
    } by {
        assert(!topk::precedes(r[j], r[i]));
    }
    assert forall|p: int, j: int|
        0 <= p < s.len() && !#[trigger] places.contains(p) && 0 <= j < places.len() implies {
        let kept = s[#[trigger] places[j]];
        let other = s[p];
        floats::order_key(kept.distance) < floats::order_key(other.distance) || (floats::order_key(
            kept.distance,
        ) == floats::order_key(other.distance) && (ids_grow(s) ==> kept.id < other.id))
    } by {
        assert(places.contains(places[j]));
        assert(is_nearer(s[places[j]], s[p], ids_grow(s)));
    }
    places
}

} // verus!
