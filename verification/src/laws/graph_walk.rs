//! Laws of searching a graph of vectors.
use crate::floats;
use crate::topk;
use crate::vector_index::hnsw;
use crate::vector_index::hnsw_index;
use crate::vector_index::hnsw_index::Graph;
use crate::vector_index::layer;
use crate::vector_index::{VectorIndexError, VectorSearchResult};
use vstd::prelude::*;

verus! {

/// The distance of vector `i` from the query.
pub open spec fn from_query<F: Fn(&[u32], &[u32]) -> u32>(
    f: F,
    values: Seq<u32>,
    dim: nat,
    query: Seq<u32>,
    i: int,
) -> u32 {
    floats::distance(f, values.subrange(i * dim, i * dim + dim), query)
}

/// The neighbors of a vector on a level are those in its list, and none if it has no
/// list there; and its distance from a query is that of its components.
pub proof fn neighbors_and_distances<F: Fn(&[u32], &[u32]) -> u32>(
    f: F,
    values: Seq<u32>,
    dim: nat,
    query: Seq<u32>,
    nodes: Seq<Seq<Seq<usize>>>,
    i: int,
    level: int,
)
    requires
        0 <= i < nodes.len(),
        0 <= level,
    ensures
        level < nodes[i].len() ==> hnsw::neighbors_of(nodes, i, level) == nodes[i][level],
        level >= nodes[i].len() ==> hnsw::neighbors_of(nodes, i, level).len() == 0,
        hnsw::distance_to(f, values, dim, query, i) == from_query(f, values, dim, query, i),
{
}

/// Whether place `j` of a list is the first of those that are nearest to the query.
pub open spec fn is_nearest_place<F: Fn(&[u32], &[u32]) -> u32>(
    f: F,
    values: Seq<u32>,
    dim: nat,
    query: Seq<u32>,
    list: Seq<usize>,
    j: int,
) -> bool {
    let d = from_query(f, values, dim, query, list[j] as int);
    &&& 0 <= j < list.len()
    &&& !floats::is_nan(d)
    &&& forall|e: int|
        0 <= e < list.len() ==> {
            let x = from_query(f, values, dim, query, #[trigger] list[e] as int);
            &&& !floats::is_below(x, d)
            &&& e < j ==> floats::is_nan(x) || floats::is_below(d, x)
        }
}

proof fn nearest_place_is_chosen<F: Fn(&[u32], &[u32]) -> u32>(
    f: F,
    values: Seq<u32>,
    dim: nat,
    query: Seq<u32>,
    list: Seq<usize>,
    at: int,
    j: int,
    k: nat,
)
    requires
        is_nearest_place(f, values, dim, query, list, j),
        floats::is_below(
            from_query(f, values, dim, query, list[j] as int),
            from_query(f, values, dim, query, at),
        ),
        k <= list.len(),
    ensures
        ({
            let best = hnsw::nearest_near(f, values, dim, query, list, k, at);
            &&& k > j ==> best == list[j]
            &&& k <= j ==> floats::is_below(
                from_query(f, values, dim, query, list[j] as int),
                from_query(f, values, dim, query, best),
            )
        }),
    decreases k,
{
    if k > 0 {
        nearest_place_is_chosen(f, values, dim, query, list, at, j, (k - 1) as nat);
        let x = from_query(f, values, dim, query, list[k - 1] as int);
        assert(x == hnsw::distance_to(f, values, dim, query, list[k - 1] as int));
    }
}

/// A walk goes to the first of the nearest neighbors if that is nearer to the query, and
/// on from there; if no neighbor is nearer it stays.
pub proof fn walks_go_to_the_nearest_neighbor<F: Fn(&[u32], &[u32]) -> u32>(
    f: F,
    values: Seq<u32>,
    dim: nat,
    query: Seq<u32>,
    nodes: Seq<Seq<Seq<usize>>>,
    level: int,
    at: int,
    j: int,
)
    requires
        0 <= at < nodes.len(),
        0 <= level < nodes[at].len(),
    ensures
        is_nearest_place(f, values, dim, query, nodes[at][level], j) && floats::is_below(
            from_query(f, values, dim, query, nodes[at][level][j] as int),
            from_query(f, values, dim, query, at),
        ) ==> hnsw::greedy(f, values, dim, query, nodes, level, at) == hnsw::greedy(
            f,
            values,
            dim,
            query,
            nodes,
            level,
            nodes[at][level][j] as int,
        ),
        (forall|e: int|
            0 <= e < nodes[at][level].len() ==> !floats::is_below(
                from_query(f, values, dim, query, #[trigger] nodes[at][level][e] as int),
                from_query(f, values, dim, query, at),
            )) ==> hnsw::greedy(f, values, dim, query, nodes, level, at) == at,
{
    let list = nodes[at][level];
    let next = hnsw::nearest_near(f, values, dim, query, list, list.len(), at);
    hnsw::nearest_near_is_listed(f, values, dim, query, list, list.len(), at);
    if is_nearest_place(f, values, dim, query, list, j) && floats::is_below(
        from_query(f, values, dim, query, list[j] as int),
        from_query(f, values, dim, query, at),
    ) {
        nearest_place_is_chosen(f, values, dim, query, list, at, j, list.len());
        assert(next == list[j]);
        assert(hnsw::distance_to(f, values, dim, query, next) == from_query(
            f,
            values,
            dim,
            query,
            next,
        ));
    }
    if forall|e: int|
        0 <= e < list.len() ==> !floats::is_below(
            from_query(f, values, dim, query, #[trigger] list[e] as int),
            from_query(f, values, dim, query, at),
        ) {
        if next != at {
            let e = choose|e: int| 0 <= e < list.len() && #[trigger] list[e] == next;
            assert(!floats::is_below(
                from_query(f, values, dim, query, list[e] as int),
                from_query(f, values, dim, query, at),
            ));
        }
    }
}

/// A walk down the levels is a walk on the highest one, and from where that ends on the
/// one below, and so on; it may be cut in two at any level between.
pub proof fn walks_go_down_level_by_level<F: Fn(&[u32], &[u32]) -> u32>(
    f: F,
    values: Seq<u32>,
    dim: nat,
    query: Seq<u32>,
    nodes: Seq<Seq<Seq<usize>>>,
    top: nat,
    mid: nat,
    bottom: nat,
    at: int,
)
    requires
        bottom <= mid <= top,
    ensures
        hnsw::descended(f, values, dim, query, nodes, bottom, bottom, at) == at,
        hnsw::descended(f, values, dim, query, nodes, bottom + 1, bottom, at) == hnsw::greedy(
            f,
            values,
            dim,
            query,
            nodes,
            (bottom + 1) as int,
            at,
        ),
        hnsw::descended(f, values, dim, query, nodes, top, bottom, at) == hnsw::descended(
            f,
            values,
            dim,
            query,
            nodes,
            mid,
            bottom,
            hnsw::descended(f, values, dim, query, nodes, top, mid, at),
        ),
    decreases top,
{
    reveal_with_fuel(hnsw::descended, 2);
    if mid < top {
        let next = hnsw::greedy(f, values, dim, query, nodes, top as int, at);
        walks_go_down_level_by_level(
            f,
            values,
            dim,
            query,
            nodes,
            (top - 1) as nat,
            mid,
            bottom,
            next,
        );
    }
}

/// What a search on a level finds is at least one vector and no more than are kept; each
/// is at its own distance from the query, none comes twice, and nearer ones come first,
/// at the same distance those with lower numbers. If no distance is NaN, the vector
/// where it starts and each neighbor of a vector that is found is found too, or there are
/// as many as are kept and it is not nearer than the last of them.
pub proof fn level_searches_find<F: Fn(&[u32], &[u32]) -> u32>(
    f: F,
    values: Seq<u32>,
    dim: nat,
    query: Seq<u32>,
    nodes: Seq<Seq<Seq<usize>>>,
    level: int,
    entry: int,
    ef: nat,
    i: int,
    j: int,
)
    requires
        hnsw::all_within(nodes),
        nodes.len() <= u64::MAX,
        0 <= entry < nodes.len(),
        0 <= level,
        ef > 0,
    ensures
        ({
            let r = layer::found(f, values, dim, query, nodes, level, entry, ef);
            &&& 0 < r.len() <= ef
            &&& 0 <= i < r.len() ==> r[i].id < nodes.len() && r[i].distance == from_query(
                f,
                values,
                dim,
                query,
                r[i].id as int,
            )
            &&& 0 <= i < j < r.len() ==> {
                let a = floats::order_key(r[i].distance);
                let b = floats::order_key(r[j].distance);
                a < b || (a == b && r[i].id < r[j].id)
            }
            &&& (forall|v: int|
                0 <= v < nodes.len() ==> !floats::is_nan(
                    #[trigger] from_query(f, values, dim, query, v),
                )) ==> {
                &&& is_found_or_farther(f, values, dim, query, r, ef, entry)
                &&& 0 <= i < r.len() && level < nodes[r[i].id as int].len() && 0 <= j
                    < nodes[r[i].id as int][level].len() ==> is_found_or_farther(
                    f,
                    values,
                    dim,
                    query,
                    r,
                    ef,
                    nodes[r[i].id as int][level][j] as int,
                )
            }
        }),
{
    let r = layer::found(f, values, dim, query, nodes, level, entry, ef);
    layer::found_are_vectors(f, values, dim, query, nodes, level, entry, ef);
    if 0 <= i < r.len() {
        assert(r[i] == layer::candidate(f, values, dim, query, r[i].id as int));
    }
    if 0 <= i < j < r.len() {
        assert(r[j] == layer::candidate(f, values, dim, query, r[j].id as int));
        assert(!topk::precedes(r[j], r[i]));
        assert(r[i] != r[j]);
    }
    if forall|v: int|
        0 <= v < nodes.len() ==> !floats::is_nan(#[trigger] from_query(f, values, dim, query, v)) {
        assert forall|v: int| 0 <= v < nodes.len() implies !floats::is_nan(
            #[trigger] hnsw::distance_to(f, values, dim, query, v),
        ) by {
            assert(!floats::is_nan(from_query(f, values, dim, query, v)));
        }
        layer::found_is_local_optimum(f, values, dim, query, nodes, level, entry, ef);
        kept_is_found(f, values, dim, query, r, ef, entry);
        if 0 <= i < r.len() && level < nodes[r[i].id as int].len() && 0 <= j
            < nodes[r[i].id as int][level].len() {
            let x = hnsw::neighbors_of(nodes, r[i].id as int, level)[j] as int;
            assert(x == nodes[r[i].id as int][level][j]);
            assert(nodes[r[i].id as int][level][j] < nodes.len());
            kept_is_found(f, values, dim, query, r, ef, x);
        }
    }
}

/// Whether vector `v` is among those that are found, or as many are found as are kept,
/// and it is not nearer than the last of them.
pub open spec fn is_found_or_farther<F: Fn(&[u32], &[u32]) -> u32>(
    f: F,
    values: Seq<u32>,
    dim: nat,
    query: Seq<u32>,
    r: Seq<topk::Candidate>,
    ef: nat,
    v: int,
) -> bool {
    ||| exists|i: int| 0 <= i < r.len() && (#[trigger] r[i]).id == v
    ||| r.len() >= ef && !floats::is_below(
        from_query(f, values, dim, query, v),
        r.last().distance,
    )
}

proof fn kept_is_found<F: Fn(&[u32], &[u32]) -> u32>(
    f: F,
    values: Seq<u32>,
    dim: nat,
    query: Seq<u32>,
    r: Seq<topk::Candidate>,
    ef: nat,
    v: int,
)
    requires
        0 <= v <= u64::MAX,
        layer::kept(f, values, dim, query, r, ef, v),
    ensures
        is_found_or_farther(f, values, dim, query, r, ef, v),
{
    let c = layer::candidate(f, values, dim, query, v);
    if r.contains(c) {
        let i = choose|i: int| 0 <= i < r.len() && r[i] == c;
        assert(r[i].id == v);
    }
}

/// A search of a graph walks down to the lowest level, and gives the first `k` of what a
/// search there finds that keeps as many vectors as the graph says, but at least `k`.
pub proof fn graph_searches_find<F: Fn(&[u32], &[u32]) -> u32>(
    f: F,
    g: Graph,
    query: Seq<u32>,
    k: nat,
    width: nat,
    i: int,
) -> (start: int)
    requires
        g.searchable(),
        g.nodes.len() <= u64::MAX,
        query.len() == g.dimension,
        width >= k,
        width >= g.ef_search,
        width == k || width == g.ef_search,
        hnsw_index::knn_outcome(f, g, query, k) is Ok,
    ensures
        start == hnsw::descended(
            f,
            g.values,
            g.dimension,
            query,
            g.nodes,
            g.max_level,
            0,
            g.entry_point as int,
        ),
        ({
            let all = layer::found(
                f,
                g.values,
                g.dimension,
                query,
                g.nodes,
                0,
                start,
                width,
            );
            let found = hnsw_index::knn_outcome(f, g, query, k)->Ok_0;
            &&& found.len() == (if k < all.len() {
                k
            } else {
                all.len()
            })
            &&& 0 <= i < found.len() ==> found[i].row_id == all[i].id && found[i].distance
                == all[i].distance
        }),
{
    hnsw::descended(
        f,
        g.values,
        g.dimension,
        query,
        g.nodes,
        g.max_level,
        0,
        g.entry_point as int,
    )
}

/// A search of a graph fails if the query has another number of components; otherwise it
/// does not if all distances from the query are numbers.
pub proof fn graph_searches_of_numbers<F: Fn(&[u32], &[u32]) -> u32>(
    f: F,
    g: Graph,
    query: Seq<u32>,
    k: nat,
)
    requires
        g.searchable(),
        g.nodes.len() <= u64::MAX,
    ensures
        query.len() != g.dimension ==> hnsw_index::knn_outcome(f, g, query, k) == Err::<
            Seq<VectorSearchResult>,
            VectorIndexError,
        >(VectorIndexError::QueryDimension),
        query.len() == g.dimension && (forall|v: int|
            0 <= v < g.nodes.len() ==> !floats::is_nan(
                #[trigger] from_query(f, g.values, g.dimension, query, v),
            )) ==> hnsw_index::knn_outcome(f, g, query, k) is Ok,
{
    if query.len() == g.dimension && (forall|v: int|
        0 <= v < g.nodes.len() ==> !floats::is_nan(
            #[trigger] from_query(f, g.values, g.dimension, query, v),
        )) {
        assert forall|v: int| 0 <= v < g.nodes.len() implies !floats::is_nan(
            #[trigger] hnsw::distance_to(f, g.values, g.dimension, query, v),
        ) by {
            assert(!floats::is_nan(from_query(f, g.values, g.dimension, query, v)));
        }
        hnsw_index::numbers_are_found(f, g, query, k);
    }
}

} // verus!
