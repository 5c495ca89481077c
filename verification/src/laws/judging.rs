//! Laws of judging searches, and of what is made to measure them.
use crate::bench::blocks;
use crate::bench::blocks::Block;
use crate::bench::disk;
use crate::bench::recall;
use crate::floats;
use crate::laws::probing;
use crate::laws::ranking;
use crate::topk;
use crate::topk::Candidate;
use crate::vector_index::VectorSearchResult;
use vstd::prelude::*;

verus! {

/// A result counts once if its row is among those wanted, and not at all otherwise; and
/// results behind others count as much as both.
pub proof fn hits_add_up(
    a: Seq<VectorSearchResult>,
    b: Seq<VectorSearchResult>,
    x: VectorSearchResult,
    wanted: Set<u32>,
)
    ensures
        recall::hits(Seq::empty(), wanted) == 0,
        recall::hits(seq![x], wanted) == (if wanted.contains(x.row_id as u32) {
            1nat
        } else {
            0
        }),
        recall::hits(a + b, wanted) == recall::hits(a, wanted) + recall::hits(b, wanted),
    decreases b.len(),
{
    assert(seq![x].drop_last() =~= Seq::<VectorSearchResult>::empty());
    reveal_with_fuel(recall::hits, 2);
    if b.len() == 0 {
        assert(a + b =~= a);
    } else {
        assert((a + b).drop_last() =~= a + b.drop_last());
        hits_add_up(a, b.drop_last(), x, wanted);
    }
}

/// Each query adds the hits among its own results, and as many as it should have found.
pub proof fn queries_add_up(
    results: Seq<Vec<VectorSearchResult>>,
    truth: Seq<Vec<u32>>,
    k: nat,
    available: u32,
    n: int,
)
    requires
        0 <= n,
    ensures
        recall::tally(results, truth, k, available, 0) == (0int, 0int),
        ({
            let wanted = recall::expected(truth[n]@, k, available).to_set();
            let before = recall::tally(results, truth, k, available, n);
            let after = recall::tally(results, truth, k, available, n + 1);
            &&& after.0 - before.0 == recall::hits(results[n]@, wanted)
            &&& after.1 - before.1 == wanted.len()
        }),
{
}

proof fn filtered_contains(s: Seq<u32>, p: spec_fn(u32) -> bool, x: u32)
    ensures
        s.filter(p).contains(x) <==> s.contains(x) && p(x),
        s.filter(p).len() <= s.len(),
    decreases s.len(),
{
    reveal(Seq::filter);
    if s.len() > 0 {
        let front = s.drop_last();
        filtered_contains(front, p, x);
        let f = front.filter(p);
        let r = s.filter(p);
        if s.contains(x) {
            let i = choose|i: int| 0 <= i < s.len() && s[i] == x;
            if i < front.len() {
                assert(front[i] == x);
            }
        }
        if front.contains(x) {
            let i = choose|i: int| 0 <= i < front.len() && front[i] == x;
            assert(s[i] == x);
        }
        assert(s[s.len() - 1] == s.last());
        if p(s.last()) {
            assert(r == f.push(s.last()));
            assert(r[f.len() as int] == s.last());
            if f.contains(x) {
                let i = choose|i: int| 0 <= i < f.len() && f[i] == x;
                assert(r[i] == x);
            }
            if r.contains(x) {
                let i = choose|i: int| 0 <= i < r.len() && r[i] == x;
                if i < f.len() {
                    assert(f[i] == x);
                }
            }
        }
    }
}

proof fn all_pass_filter(s: Seq<u32>, p: spec_fn(u32) -> bool)
    requires
        forall|i: int| 0 <= i < s.len() ==> p(#[trigger] s[i]),
    ensures
        s.filter(p) == s,
    decreases s.len(),
{
    reveal(Seq::filter);
    if s.len() > 0 {
        all_pass_filter(s.drop_last(), p);
        assert(p(s[s.len() - 1]));
        assert(s.drop_last().push(s.last()) =~= s);
    }
}

/// What should be found are true neighbors that are available, no more than are asked
/// for; if `k` is not zero a true neighbor that is available is missing only if there are
/// `k` others. If all are available, they are the first ones.
pub proof fn available_neighbors_are_expected(truth: Seq<u32>, k: nat, available: u32, x: u32)
    ensures
        ({
            let r = recall::expected(truth, k, available);
            &&& r.contains(x) ==> truth.contains(x) && x < available
            &&& k > 0 ==> r.len() <= k
            &&& k > 0 && truth.contains(x) && x < available && !r.contains(x) ==> r.len() == k
            &&& k == 0 && truth.len() > 0 && truth[0] < available && truth.contains(x) && x
                < available ==> r.contains(x)
            &&& k == 0 && truth.len() > 0 && truth[0] >= available ==> r.len() == 0
            &&& k > 0 && (forall|i: int| 0 <= i < truth.len() ==> #[trigger] truth[i] < available)
                ==> r == truth.take(if truth.len() < k {
                truth.len() as int
            } else {
                k as int
            })
        }),
{
    let p = |n: u32| n < available;
    let there = truth.filter(p);
    let r = recall::expected(truth, k, available);
    filtered_contains(truth, p, x);
    if r.contains(x) {
        let i = choose|i: int| 0 <= i < r.len() && r[i] == x;
        assert(there[i] == x);
    }
    if forall|i: int| 0 <= i < truth.len() ==> #[trigger] truth[i] < available {
        all_pass_filter(truth, p);
        if truth.len() < k {
            assert(truth.take(truth.len() as int) =~= truth);
        }
    }
}

/// A batch goes on for as many queries as it may have, or to the last.
pub proof fn batches_end(start: int, batch_size: int, queries: int)
    requires
        0 <= start <= queries,
        0 <= batch_size,
    ensures
        ({
            let end = recall::batch_end(start, batch_size, queries);
            &&& start <= end <= queries
            &&& end - start <= batch_size
            &&& end < queries ==> end - start == batch_size
        }),
{
}

/// Results of batches come one behind the other: that of query `j` of batch `b` is the
/// one with the number that the query has among all.
pub proof fn batches_are_joined(
    batches: Seq<Vec<Vec<VectorSearchResult>>>,
    start: int,
    batch_size: int,
    queries: int,
    b: int,
    j: int,
)
    requires
        0 <= start <= queries,
        0 < batch_size,
        0 <= b < batches.len(),
        0 <= j < batches[b]@.len(),
        recall::unbatched(batches, start, batch_size, queries) is Ok,
    ensures
        ({
            let all = recall::unbatched(batches, start, batch_size, queries)->Ok_0;
            &&& 0 <= b * batch_size + j < all.len()
            &&& all[b * batch_size + j] == batches[b]@[j]
            &&& all.len() <= queries - start
        }),
    decreases b,
{
    let end = recall::batch_end(start, batch_size, queries);
    let rest = batches.drop_first();
    joined_len(rest, end, batch_size, queries);
    if b == 0 {
        assert(0 * batch_size == 0) by (nonlinear_arith);
    } else {
        assert(rest[b - 1] == batches[b]);
        batches_are_joined(rest, end, batch_size, queries, b - 1, j);
        assert((b - 1) * batch_size + batch_size == b * batch_size) by (nonlinear_arith);
        assert((b - 1) * batch_size >= 0) by (nonlinear_arith)
            requires
                b >= 1,
                batch_size > 0,
        ;
    }
}

proof fn joined_len(
    batches: Seq<Vec<Vec<VectorSearchResult>>>,
    start: int,
    batch_size: int,
    queries: int,
)
    requires
        0 <= start <= queries,
        0 < batch_size,
        recall::unbatched(batches, start, batch_size, queries) is Ok,
    ensures
        recall::unbatched(batches, start, batch_size, queries)->Ok_0.len() <= queries - start,
    decreases batches.len(),
{
    if batches.len() > 0 {
        joined_len(
            batches.drop_first(),
            recall::batch_end(start, batch_size, queries),
            batch_size,
            queries,
        );
    }
}

/// The vectors that are compared are all of them, each at its own distance from the
/// query; the nearest of them come first, and none that is left out is in front of them.
pub proof fn exact_neighbors_are_nearest<F: Fn(&[u32], &[u32]) -> u32>(
    vectors: Seq<u32>,
    dim: nat,
    query: Seq<u32>,
    f: F,
    k: nat,
) -> (places: Seq<int>)
    requires
        dim > 0,
        vectors.len() / dim <= u64::MAX,
    ensures
        ({
            let n = vectors.len() / dim;
            let all = recall::distances(vectors, dim, query, f);
            let r = topk::nearest(all, k).map_values(|c: Candidate| c.id as u32);
            &&& r.len() == places.len() == (if n < k {
                n
            } else {
                k
            })
            &&& places.no_duplicates()
            &&& forall|i: int|
                0 <= i < places.len() ==> 0 <= #[trigger] places[i] < n && r[i]
                    == places[i] as u64 as u32
            &&& forall|i: int, j: int|
                0 <= i < j < places.len() ==> {
                    let a = floats::order_key(
                        probing::distance_to(f, query, vectors, dim, #[trigger] places[i]),
                    );
                    let b = floats::order_key(
                        probing::distance_to(f, query, vectors, dim, #[trigger] places[j]),
                    );
                    a < b || (a == b && places[i] < places[j])
                }
            &&& forall|p: int, i: int|
                0 <= p < n && !(#[trigger] places.contains(p)) && 0 <= i < places.len() ==> {
                    let a = floats::order_key(
                        probing::distance_to(f, query, vectors, dim, #[trigger] places[i]),
                    );
                    let b = floats::order_key(probing::distance_to(f, query, vectors, dim, p));
                    a < b || (a == b && places[i] < p)
                }
        }),
{
    let n = vectors.len() / dim;
    let all = recall::distances(vectors, dim, query, f);
    let places = ranking::nearest_are_kept(all, k);
    assert(ranking::ids_grow(all));
    assert forall|i: int| 0 <= i < n implies (#[trigger] all[i]).distance == probing::distance_to(
        f,
        query,
        vectors,
        dim,
        i,
    ) && all[i].id == i by {}
    assert forall|i: int, j: int| 0 <= i < j < places.len() implies {
        let a = floats::order_key(
            probing::distance_to(f, query, vectors, dim, #[trigger] places[i]),
        );
        let b = floats::order_key(
            probing::distance_to(f, query, vectors, dim, #[trigger] places[j]),
        );
        a < b || (a == b && places[i] < places[j])
    } by {
        assert(all[places[i]].id == places[i]);
        assert(all[places[j]].id == places[j]);
        assert(places[i] != places[j]);
    }
    assert forall|p: int, i: int|
        0 <= p < n && !(#[trigger] places.contains(p)) && 0 <= i < places.len() implies {
        let a = floats::order_key(
            probing::distance_to(f, query, vectors, dim, #[trigger] places[i]),
        );
        let b = floats::order_key(probing::distance_to(f, query, vectors, dim, p));
        a < b || (a == b && places[i] < p)
    } by {
        assert(all[places[i]].id == places[i]);
        assert(all[p].id == p);
    }
    places
}

/// The blocks that are picked are different ones, as many as are asked for or there are,
/// in the order of how far their centers are from the score; none that is left out is
/// nearer than one that is picked, and of equally near ones the earlier is picked.
pub proof fn nearest_blocks_are_picked(
    score: u16,
    all: Seq<Block>,
    top_k: nat,
    r: Seq<usize>,
    i: int,
    j: int,
    p: usize,
)
    requires
        blocks::is_smallest(blocks::gaps(score, all), top_k, r),
        0 <= i < r.len(),
    ensures
        r.len() == (if top_k < all.len() {
            top_k
        } else {
            all.len()
        }),
        r[i] < all.len(),
        i < j < r.len() ==> r[i] != r[j] && apart(all[r[i] as int].center, score) <= apart(
            all[r[j] as int].center,
            score,
        ),
        p < all.len() && !r.contains(p) ==> apart(all[r[i] as int].center, score) < apart(
            all[p as int].center,
            score,
        ) || (apart(all[r[i] as int].center, score) == apart(all[p as int].center, score) && r[i]
            < p),
{
    let keys = blocks::gaps(score, all);
    assert(r[i] < keys.len());
    assert(keys[r[i] as int] == apart(all[r[i] as int].center, score));
    if i < j < r.len() {
        assert(blocks::stands_before(keys, r[i], r[j]));
        assert(r[j] < keys.len());
    }
    if p < all.len() && !r.contains(p) {
        assert(blocks::stands_before(keys, r[i], p));
    }
}

/// How far two scores are apart.
pub open spec fn apart(a: u16, b: u16) -> int {
    if a < b {
        b - a
    } else {
        a - b
    }
}

/// Scores are at most 60 away from the center of their block; centers are 500 apart, as
/// long as they can be written in 16 bits.
pub proof fn scores_are_near_centers(b: int, score: u16)
    requires
        0 <= b,
        500 * (b + 1) + 5000 < 0x1_0000,
    ensures
        blocks::center_of(0) == 5000,
        blocks::center_of(b + 1) - blocks::center_of(b) == 500,
        blocks::is_score(blocks::center_of(b), score) <==> apart(blocks::center_of(b), score)
            <= 60,
{
    let c = blocks::center_of(b);
    assert(c == 500 * b + 5000);
    if blocks::is_score(c, score) {
        let noise = choose|noise: int|
            -60 <= noise <= 60 && #[trigger] blocks::clamped(c + noise) == score;
    }
    if apart(c, score) <= 60 {
        assert(blocks::clamped(c + (score - c)) == score);
    }
}

/// The clusters of a block follow each other from the start of its data, four bytes for
/// each component.
pub proof fn clusters_are_in_a_row(meta: disk::BlockMeta, dim: usize, c: int)
    requires
        0 <= c < meta.cluster_counts@.len(),
    ensures
        meta.cluster_start(dim, 0) == meta.data_offset,
        meta.cluster_size(dim, c) == 4 * (meta.cluster_counts@[c] * dim),
        meta.cluster_start(dim, c + 1) - meta.cluster_start(dim, c) == 4 * (meta.cluster_counts@[c]
            * dim),
{
    disk::clusters_adjoin(meta, dim, c);
    let n = meta.cluster_counts@[c];
    assert(n * dim * 4 == 4 * (n * dim));
    assert(0 * dim * 4 == 0) by (nonlinear_arith);
}

} // verus!
