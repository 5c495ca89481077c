//! The nearest few of many candidates.
use crate::floats;
use vstd::prelude::*;

verus! {

/// Something found at a distance, held as a bit pattern.
#[derive(Clone, Copy, Debug, PartialEq, Eq, Structural)]
pub struct Candidate {
    pub distance: u32,
    pub id: u64,
}

/// Whether `a` comes in front of `b`: it is nearer, or as near with a lower id.
pub open spec fn precedes(a: Candidate, b: Candidate) -> bool {
    ||| floats::order_key(a.distance) < floats::order_key(b.distance)
    ||| floats::order_key(a.distance) == floats::order_key(b.distance) && a.id < b.id
}

/// Whether no candidate comes in front of an earlier one.
pub open spec fn is_ranked(s: Seq<Candidate>) -> bool {
    forall|i: int, j: int| 0 <= i < j < s.len() ==> !precedes(#[trigger] s[j], #[trigger] s[i])
}

/// `x` put in its place in the ranked sequence `s`.
pub open spec fn placed(s: Seq<Candidate>, x: Candidate) -> Seq<Candidate>
    decreases s.len(),
{
    if s.len() > 0 && precedes(x, s.last()) {
        placed(s.drop_last(), x).push(s.last())
    } else {
        s.push(x)
    }
}

/// What is kept when `x` is offered: as long as there is room, everything; then
/// `x` takes the place of the last one kept if it is nearer.
pub open spec fn offered(s: Seq<Candidate>, x: Candidate, k: nat) -> Seq<Candidate> {
    if s.len() < k {
        placed(s, x)
    } else if s.len() > 0 && floats::order_key(x.distance) < floats::order_key(s.last().distance) {
        placed(s.drop_last(), x)
    } else {
        s
    }
}

/// What is kept of all candidates, offered in their order.
pub open spec fn nearest(candidates: Seq<Candidate>, k: nat) -> Seq<Candidate>
    decreases candidates.len(),
{
    if candidates.len() == 0 {
        Seq::empty()
    } else {
        offered(nearest(candidates.drop_last(), k), candidates.last(), k)
    }
}

/// What is kept once all of `more` have been offered too.
pub open spec fn offered_all(s: Seq<Candidate>, more: Seq<Candidate>, k: nat) -> Seq<Candidate>
    decreases more.len(),
{
    if more.len() == 0 {
        s
    } else {
        offered(offered_all(s, more.drop_last(), k), more.last(), k)
    }
}

/// Candidates may be offered part by part.
pub proof fn nearest_in_parts(a: Seq<Candidate>, b: Seq<Candidate>, k: nat)
    ensures
        nearest(a + b, k) == offered_all(nearest(a, k), b, k),
    decreases b.len(),
{
    if b.len() == 0 {
        assert(a + b =~= a);
    } else {
        assert((a + b).drop_last() =~= a + b.drop_last());
        assert((a + b).last() == b.last());
        nearest_in_parts(a, b.drop_last(), k);
    }
}

/// What is put in its place is inserted somewhere, and the sequence stays ranked.
pub proof fn placed_is_insert(s: Seq<Candidate>, x: Candidate) -> (p: int)
    ensures
        0 <= p <= s.len(),
        placed(s, x) == s.insert(p, x),
        is_ranked(s) ==> is_ranked(placed(s, x)),
    decreases s.len(),
{
    if is_ranked(s) {
        placed_facts(s, x);
    }
    if s.len() > 0 && precedes(x, s.last()) {
        let p = placed_is_insert(s.drop_last(), x);
        assert(s.drop_last().insert(p, x).push(s.last()) =~= s.insert(p, x));
        p
    } else {
        assert(s.push(x) =~= s.insert(s.len() as int, x));
        s.len() as int
    }
}

proof fn placed_facts(s: Seq<Candidate>, x: Candidate)
    requires
        is_ranked(s),
    ensures
        is_ranked(placed(s, x)),
        placed(s, x).len() == s.len() + 1,
        placed(s, x).to_multiset() =~= s.to_multiset().insert(x),
    decreases s.len(),
{
    broadcast use vstd::seq_lib::group_to_multiset_ensures;

    let r = placed(s, x);
    if s.len() > 0 && precedes(x, s.last()) {
        let t = s.drop_last();
        let l = s.last();
        assert(is_ranked(t));
        placed_facts(t, x);
        assert(t.push(l) =~= s);
        let p = placed(t, x);
        assert(p.push(l).to_multiset() =~= p.to_multiset().insert(l));
        assert forall|i: int, j: int| 0 <= i < j < r.len() implies !precedes(
            #[trigger] r[j],
            #[trigger] r[i],
        ) by {
            if j == r.len() - 1 {
                assert(p.contains(p[i]));
                assert(p.to_multiset().contains(p[i]));
                if p[i] != x {
                    assert(t.to_multiset().contains(p[i]));
                    assert(t.contains(p[i]));
                    let q = choose|q: int| 0 <= q < t.len() && t[q] == p[i];
                    assert(s[q] == p[i]);
                    assert(!precedes(s[s.len() - 1], s[q]));
                }
            }
        }
    } else {
        assert forall|i: int, j: int| 0 <= i < j < r.len() implies !precedes(
            #[trigger] r[j],
            #[trigger] r[i],
        ) by {
            if j == r.len() - 1 && i < s.len() - 1 {
                assert(!precedes(s[s.len() - 1], s[i]));
            }
        }
    }
}

/// What is kept is ranked, is `k` candidates or all if there are fewer, and
/// consists of candidates; and no candidate that was not kept is nearer than one
/// that was.
pub proof fn nearest_is_nearest(candidates: Seq<Candidate>, k: nat)
    ensures
        is_ranked(nearest(candidates, k)),
        nearest(candidates, k).len() == (if candidates.len() < k {
            candidates.len()
        } else {
            k
        }),
        nearest(candidates, k).to_multiset().subset_of(candidates.to_multiset()),
        forall|i: int, c: Candidate|
            0 <= i < nearest(candidates, k).len() && candidates.to_multiset().sub(
                nearest(candidates, k).to_multiset(),
            ).count(c) > 0 ==> floats::order_key(#[trigger] nearest(candidates, k)[i].distance)
                <= floats::order_key(#[trigger] c.distance),
    decreases candidates.len(),
{
    broadcast use vstd::seq_lib::group_to_multiset_ensures;

    let r = nearest(candidates, k);
    if candidates.len() > 0 {
        let front = candidates.drop_last();
        let x = candidates.last();
        nearest_is_nearest(front, k);
        let s = nearest(front, k);
        assert(front.push(x) =~= candidates);
        assert(candidates.to_multiset() =~= front.to_multiset().insert(x));
        let ms = s.to_multiset();
        let mf = front.to_multiset();
        if s.len() < k {
            placed_facts(s, x);
            assert(candidates.to_multiset().sub(r.to_multiset()) =~= mf.sub(ms));
            assert(front.len() == s.len());
            assert forall|i: int, c: Candidate|
                0 <= i < r.len() && candidates.to_multiset().sub(r.to_multiset()).count(c)
                    > 0 implies floats::order_key(#[trigger] r[i].distance) <= floats::order_key(
                #[trigger] c.distance,
            ) by {
                assert(mf.len() == ms.len());
                all_taken(mf, ms, c);
            }
        } else if s.len() > 0 && floats::order_key(x.distance) < floats::order_key(
            s.last().distance,
        ) {
            let t = s.drop_last();
            let l = s.last();
            assert(t.push(l) =~= s);
            assert(ms =~= t.to_multiset().insert(l));
            assert(is_ranked(t));
            placed_facts(t, x);
            assert forall|i: int, c: Candidate|
                0 <= i < r.len() && candidates.to_multiset().sub(r.to_multiset()).count(c)
                    > 0 implies floats::order_key(#[trigger] r[i].distance) <= floats::order_key(
                #[trigger] c.distance,
            ) by {
                assert(r.contains(r[i]));
                assert(r.to_multiset().contains(r[i]));
                if r[i] != x {
                    assert(t.to_multiset().contains(r[i]));
                    assert(t.contains(r[i]));
                    let q = choose|q: int| 0 <= q < t.len() && t[q] == r[i];
                    assert(s[q] == r[i]);
                    assert(!precedes(s[s.len() - 1], s[q]));
                }
                if c != l {
                    assert(mf.sub(ms).count(c) > 0);
                    assert(floats::order_key(s[s.len() - 1].distance) <= floats::order_key(
                        c.distance,
                    ));
                }
            }
        } else {
            assert forall|i: int, c: Candidate|
                0 <= i < r.len() && candidates.to_multiset().sub(r.to_multiset()).count(c)
                    > 0 implies floats::order_key(#[trigger] r[i].distance) <= floats::order_key(
                #[trigger] c.distance,
            ) by {
                assert(s[s.len() - 1] == s.last());
                if i < s.len() - 1 {
                    assert(!precedes(s[s.len() - 1], s[i]));
                }
                if c != x {
                    assert(mf.sub(ms).count(c) > 0);
                }
            }
        }
    }
}

proof fn all_taken(
    a: vstd::multiset::Multiset<Candidate>,
    b: vstd::multiset::Multiset<Candidate>,
    c: Candidate,
)
    requires
        b.subset_of(a),
        a.len() == b.len(),
    ensures
        a.sub(b).count(c) == 0,
{
    assert(a =~= a.sub(b).add(b));
    assert(a.sub(b).len() == 0);
    if a.sub(b).count(c) > 0 {
        let d = a.sub(b);
        assert(d.remove(c).insert(c) =~= d);
        assert(d.len() == d.remove(c).len() + 1);
    }
}

/// A candidate is kept, or all that are kept are as near; and if fewer than `k` are
/// kept, it is.
pub proof fn kept_or_as_near(candidates: Seq<Candidate>, k: nat, x: Candidate)
    requires
        candidates.contains(x),
    ensures
        nearest(candidates, k).contains(x) || forall|i: int|
            0 <= i < nearest(candidates, k).len() ==> floats::order_key(
                #[trigger] nearest(candidates, k)[i].distance,
            ) <= floats::order_key(x.distance),
        nearest(candidates, k).len() < k || candidates.len() <= k ==> nearest(candidates, k).contains(
            x,
        ),
{
    broadcast use vstd::seq_lib::group_to_multiset_ensures;

    let r = nearest(candidates, k);
    nearest_is_nearest(candidates, k);
    let all = candidates.to_multiset();
    let kept = r.to_multiset();
    assert(all.contains(x));
    if !r.contains(x) {
        assert(!kept.contains(x));
        assert(all.sub(kept).count(x) > 0);
        if r.len() == candidates.len() {
            all_taken(all, kept, x);
        }
    }
}

/// The nearest `k` of the candidates offered so far.
#[derive(Debug)]
pub struct TopK {
    k: usize,
    kept: Vec<Candidate>,
}

impl TopK {
    /// How many are kept.
    pub closed spec fn limit(self) -> nat {
        self.k as nat
    }

    /// What is kept, in its order.
    pub closed spec fn view(self) -> Seq<Candidate> {
        self.kept@
    }

    /// Keeps `k` candidates; there are none yet.
    pub fn new(k: usize) -> (r: Self)
        ensures
            r.limit() == k,
            r@ == nearest(Seq::empty(), k as nat),
    {
        TopK { k, kept: Vec::new() }
    }

    /// Offers one more candidate.
    pub fn offer(&mut self, x: Candidate)
        ensures
            final(self).limit() == old(self).limit(),
            final(self)@ == offered(old(self)@, x, old(self).limit()),
    {
        if self.kept.len() >= self.k {
            if self.kept.len() == 0 {
                return;
            }
            let last: Candidate = self.kept[self.kept.len() - 1];
            if floats::key(x.distance) >= floats::key(last.distance) {
                return;
            }
            self.kept.pop();
            assert(self.kept@ =~= old(self).kept@.drop_last());
        }
        place(&mut self.kept, x);
    }

    /// What was kept, in its order.
    pub fn into_ranked(self) -> (r: Vec<Candidate>)
        ensures
            r@ == self@,
    {
        self.kept
    }
}

/// Puts `x` in its place.
pub(crate) fn place(kept: &mut Vec<Candidate>, x: Candidate)
    ensures
        final(kept)@ == placed(old(kept)@, x),
{
    let mut at: usize = kept.len();
    let ghost s = kept@;
    proof {
        assert(s.take(at as int) =~= s);
        assert(placed(s, x) + s.skip(at as int) =~= placed(s, x));
    }
    while at > 0 && in_front(x, kept[at - 1])
        invariant
            kept@ == s,
            at <= s.len(),
            placed(s, x) == placed(s.take(at as int), x) + s.skip(at as int),
        decreases at,
    {
        proof {
            let t = s.take(at as int);
            assert(t.last() == s[at - 1]);
            assert(t.drop_last() =~= s.take(at - 1));
            assert(placed(t, x) + s.skip(at as int) =~= placed(t.drop_last(), x) + s.skip(at - 1));
        }
        at = at - 1;
    }
    proof {
        let t = s.take(at as int);
        assert(t.len() > 0 ==> t.last() == s[at - 1]);
        assert(placed(t, x) =~= t.push(x));
    }
    kept.insert(at, x);
    assert(kept@ =~= placed(s, x));
}

/// Tells whether `a` comes in front of `b`.
pub fn in_front(a: Candidate, b: Candidate) -> (r: bool)
    ensures
        r == precedes(a, b),
{
    let ka: u32 = floats::key(a.distance);
    let kb: u32 = floats::key(b.distance);
    ka < kb || (ka == kb && a.id < b.id)
}

} // verus!
