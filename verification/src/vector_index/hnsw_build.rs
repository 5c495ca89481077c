//! Building a graph of vectors.
use crate::floats;
use crate::topk::Candidate;
use crate::vector_index::hnsw;
use crate::vector_index::hnsw_index;
use crate::vector_index::hnsw_link;
use crate::vector_index::layer;
use crate::vector_index::VectorIndexError;
use vstd::prelude::*;

verus! {

/// A graph that is being built.
#[derive(Debug)]
pub struct HnswBuilder {
    pub dimension: usize,
    pub m: usize,
    pub m0: usize,
    pub ef_construction: usize,
    pub ef_search: usize,
    pub values: Vec<u32>,
    pub nodes: Vec<Vec<Vec<usize>>>,
    pub entry_point: usize,
    pub level_count: usize,
}

/// What a graph that is being built holds.
#[verifier::ext_equal]
pub struct Build {
    pub dimension: nat,
    pub m: nat,
    pub m0: nat,
    pub ef_construction: nat,
    pub ef_search: nat,
    pub values: Seq<u32>,
    pub nodes: Seq<Seq<Seq<usize>>>,
    pub entry_point: nat,
    pub level_count: nat,
}

impl View for HnswBuilder {
    type V = Build;

    open spec fn view(&self) -> Build {
        Build {
            dimension: self.dimension as nat,
            m: self.m as nat,
            m0: self.m0 as nat,
            ef_construction: self.ef_construction as nat,
            ef_search: self.ef_search as nat,
            values: self.values@,
            nodes: hnsw::lists_of(self.nodes@),
            entry_point: self.entry_point as nat,
            level_count: self.level_count as nat,
        }
    }
}

/// How many neighbors a vector keeps above the lowest level.
pub open spec fn degree_limit(max_neighbors: nat) -> nat {
    if max_neighbors > 64 {
        64
    } else if max_neighbors < 2 {
        2
    } else {
        max_neighbors
    }
}

/// How many neighbors a vector may keep on the levels above the first if this many
/// are asked for.
pub fn degree(max_neighbors: usize) -> (r: usize)
    ensures
        r == degree_limit(max_neighbors as nat),
{
    if max_neighbors > 64 {
        64
    } else if max_neighbors < 2 {
        2
    } else {
        max_neighbors
    }
}

/// A graph without vectors.
pub open spec fn nothing_built(dimension: nat, max_neighbors: nat, ef_search: nat) -> Build {
    let m = degree_limit(max_neighbors);
    Build {
        dimension,
        m,
        m0: 2 * m,
        ef_construction: if ef_search > 2 * m {
            ef_search
        } else {
            2 * m
        },
        ef_search: if ef_search > 1 {
            ef_search
        } else {
            1
        },
        values: Seq::empty(),
        nodes: Seq::empty(),
        entry_point: 0,
        level_count: 0,
    }
}

/// How many neighbors a vector keeps on a level.
pub open spec fn degree_on(b: Build, level: int) -> nat {
    if level == 0 {
        b.m0
    } else {
        b.m
    }
}

/// The vectors that vector `query` is linked with on a level: the nearest that a
/// search from vector `at` finds.
pub open spec fn chosen<F: Fn(&[u32], &[u32]) -> u32>(
    f: F,
    b: Build,
    query: Seq<u32>,
    nodes: Seq<Seq<Seq<usize>>>,
    level: int,
    at: int,
) -> Seq<Candidate> {
    let found = layer::found(
        f,
        b.values,
        b.dimension,
        query,
        nodes,
        level,
        at,
        b.ef_construction,
    );
    let max = degree_on(b, level);
    found.take(
        if found.len() < max {
            found.len() as int
        } else {
            max as int
        },
    )
}

/// The lists when vector `node` has been linked on `level` and all levels below.
pub open spec fn linked_down<F: Fn(&[u32], &[u32]) -> u32>(
    f: F,
    b: Build,
    query: Seq<u32>,
    nodes: Seq<Seq<Seq<usize>>>,
    node: usize,
    level: int,
    at: int,
) -> Seq<Seq<Seq<usize>>>
    decreases level + 1,
{
    if level < 0 {
        nodes
    } else {
        let near = chosen(f, b, query, nodes, level, at);
        linked_down(
            f,
            b,
            query,
            hnsw_link::connected(
                f,
                b.values,
                b.dimension,
                nodes,
                node,
                near,
                level,
                degree_on(b, level),
            ),
            node,
            level - 1,
            if near.len() > 0 {
                near[0].id as int
            } else {
                at
            },
        )
    }
}

/// Whether vector `node` can be linked on `level` and all levels below: what a
/// search meets can be compared with what it keeps, and so can the neighbors of
/// each vector that has too many.
pub open spec fn down_comparable<F: Fn(&[u32], &[u32]) -> u32>(
    f: F,
    b: Build,
    query: Seq<u32>,
    nodes: Seq<Seq<Seq<usize>>>,
    node: usize,
    level: int,
    at: int,
) -> bool
    decreases level + 1,
{
    level < 0 || {
        let near = chosen(f, b, query, nodes, level, at);
        let max = degree_on(b, level);
        &&& layer::comparable(
            f,
            b.values,
            b.dimension,
            query,
            nodes,
            level,
            at,
            b.ef_construction,
        )
        &&& hnsw_link::connect_comparable(f, b.values, b.dimension, nodes, node, near, level, max)
        &&& down_comparable(
            f,
            b,
            query,
            hnsw_link::connected(f, b.values, b.dimension, nodes, node, near, level, max),
            node,
            level - 1,
            if near.len() > 0 {
                near[0].id as int
            } else {
                at
            },
        )
    }
}

/// Whether a vector can be added that has lists on the levels up to `level`.
pub open spec fn add_comparable<F: Fn(&[u32], &[u32]) -> u32>(
    f: F,
    b: Build,
    vector: Seq<u32>,
    level: nat,
) -> bool {
    let node = b.nodes.len();
    let grown = Build {
        values: b.values + vector,
        nodes: b.nodes.push(hnsw_index::empty_lists(level + 1)),
        ..b
    };
    node > 0 ==> {
        let at = hnsw::descended(
            f,
            grown.values,
            b.dimension,
            vector,
            grown.nodes,
            (b.level_count - 1) as nat,
            level,
            b.entry_point as int,
        );
        let top = if level < b.level_count - 1 {
            level as int
        } else {
            b.level_count - 1
        };
        down_comparable(f, grown, vector, grown.nodes, node as usize, top, at)
    }
}

/// The graph with one more vector, which has lists on the levels up to `level`.
pub open spec fn added<F: Fn(&[u32], &[u32]) -> u32>(
    f: F,
    b: Build,
    vector: Seq<u32>,
    level: nat,
) -> Build {
    let node = b.nodes.len();
    let grown = Build {
        values: b.values + vector,
        nodes: b.nodes.push(hnsw_index::empty_lists(level + 1)),
        ..b
    };
    if node == 0 {
        Build { entry_point: 0, level_count: level + 1, ..grown }
    } else {
        let at = hnsw::descended(
            f,
            grown.values,
            b.dimension,
            vector,
            grown.nodes,
            (b.level_count - 1) as nat,
            level,
            b.entry_point as int,
        );
        let top = if level < b.level_count - 1 {
            level as int
        } else {
            b.level_count - 1
        };
        let linked = Build {
            nodes: linked_down(f, grown, vector, grown.nodes, node as usize, top, at),
            ..grown
        };
        if level + 1 > b.level_count {
            Build { entry_point: node, level_count: level + 1, ..linked }
        } else {
            linked
        }
    }
}

/// Whether neighbors on a level are other vectors that have that level.
pub open spec fn leveled(nodes: Seq<Seq<Seq<usize>>>) -> bool {
    forall|i: int, l: int, j: int|
        0 <= i < nodes.len() && 0 <= l < nodes[i].len() && 0 <= j < nodes[i][l].len()
            ==> #[trigger] nodes[i][l][j] < nodes.len() && nodes[i][l][j] != i && l
            < nodes[nodes[i][l][j] as int].len()
}

/// Whether no vector has more neighbors on a level than it may keep.
pub open spec fn bounded(b: Build, nodes: Seq<Seq<Seq<usize>>>) -> bool {
    forall|i: int, l: int|
        0 <= i < nodes.len() && 0 <= l < nodes[i].len() ==> (#[trigger] nodes[i][l]).len()
            <= degree_on(b, l)
}

impl Build {
    /// What holds of a graph that is being built all along.
    pub open spec fn valid(self) -> bool {
        &&& self.dimension > 0
        &&& 2 <= self.m <= 64
        &&& self.m0 == 2 * self.m
        &&& self.ef_construction >= self.m0
        &&& self.ef_search > 0
        &&& self.values.len() == self.nodes.len() * self.dimension
        &&& leveled(self.nodes)
        &&& bounded(self, self.nodes)
        &&& forall|i: int|
            0 <= i < self.nodes.len() ==> 0 < (#[trigger] self.nodes[i]).len() <= self.level_count
        &&& self.nodes.len() == 0 ==> self.level_count == 0
        &&& self.nodes.len() > 0 ==> self.entry_point < self.nodes.len()
            && self.nodes[self.entry_point as int].len() == self.level_count
    }
}

/// Whether vector `node` is in no list of the levels up to `level`.
pub open spec fn unlisted(nodes: Seq<Seq<Seq<usize>>>, node: usize, level: int) -> bool {
    forall|i: int, l: int, j: int|
        0 <= i < nodes.len() && 0 <= l < nodes[i].len() && l <= level && 0 <= j < nodes[i][l].len()
            ==> #[trigger] nodes[i][l][j] != node
}

proof fn leveled_is_within(nodes: Seq<Seq<Seq<usize>>>)
    requires
        leveled(nodes),
    ensures
        hnsw::all_within(nodes),
{
    assert forall|i: int, l: int, j: int|
        0 <= i < nodes.len() && 0 <= l < nodes[i].len() && 0 <= j < nodes[i][l].len() implies #[trigger] nodes[i][l][j]
        < nodes.len() by {}
}

/// A vector that is in a list of a level has that level.
proof fn listed_has_level(nodes: Seq<Seq<Seq<usize>>>, level: int, x: int)
    requires
        leveled(nodes),
        layer::is_listed(nodes, level, x),
    ensures
        0 <= x < nodes.len(),
        level < nodes[x].len(),
{
    let (a, j) = choose|a: int, j: int|
        0 <= j < hnsw::neighbors_of(nodes, a, level).len() && #[trigger] hnsw::neighbors_of(
            nodes,
            a,
            level,
        )[j] == x;
    assert(nodes[a][level][j] == x);
}

proof fn greedy_has_level<F: Fn(&[u32], &[u32]) -> u32>(
    f: F,
    values: Seq<u32>,
    dim: nat,
    query: Seq<u32>,
    nodes: Seq<Seq<Seq<usize>>>,
    level: int,
    at: int,
)
    requires
        leveled(nodes),
        0 <= at < nodes.len(),
    ensures
        ({
            let end = hnsw::greedy(f, values, dim, query, nodes, level, at);
            &&& 0 <= end < nodes.len()
            &&& end == at || level < nodes[end].len() && layer::is_listed(nodes, level, end)
        }),
    decreases floats::order_key(hnsw::distance_to(f, values, dim, query, at)),
{
    let list = hnsw::neighbors_of(nodes, at, level);
    let next = hnsw::nearest_near(f, values, dim, query, list, list.len(), at);
    hnsw::nearest_near_is_listed(f, values, dim, query, list, list.len(), at);
    if floats::is_below(
        hnsw::distance_to(f, values, dim, query, next),
        hnsw::distance_to(f, values, dim, query, at),
    ) {
        let j = choose|j: int| 0 <= j < list.len() && #[trigger] list[j] == next;
        assert(nodes[at][level][j] == next);
        assert(hnsw::neighbors_of(nodes, at, level)[j] == next);
        assert(layer::is_listed(nodes, level, next));
        greedy_has_level(f, values, dim, query, nodes, level, next);
    }
}

proof fn descended_has_level<F: Fn(&[u32], &[u32]) -> u32>(
    f: F,
    values: Seq<u32>,
    dim: nat,
    query: Seq<u32>,
    nodes: Seq<Seq<Seq<usize>>>,
    top: nat,
    bottom: nat,
    at: int,
    node: usize,
)
    requires
        leveled(nodes),
        0 <= at < nodes.len(),
        unlisted(nodes, node, top as int),
        at != node,
    ensures
        ({
            let end = hnsw::descended(f, values, dim, query, nodes, top, bottom, at);
            &&& 0 <= end < nodes.len()
            &&& end == at || bottom + 1 < nodes[end].len()
            &&& end != node
        }),
    decreases top,
{
    if top > bottom {
        greedy_has_level(f, values, dim, query, nodes, top as int, at);
        let end = hnsw::greedy(f, values, dim, query, nodes, top as int, at);
        assert(end != node) by {
            if end != at {
                let (a, j) = choose|a: int, j: int|
                    0 <= j < hnsw::neighbors_of(nodes, a, top as int).len()
                        && #[trigger] hnsw::neighbors_of(nodes, a, top as int)[j] == end;
                assert(nodes[a][top as int][j] != node);
            }
        }
        descended_has_level(
            f,
            values,
            dim,
            query,
            nodes,
            (top - 1) as nat,
            bottom,
            end,
            node,
        );
    }
}

/// What holds of the lists while vector `node` is being linked: it is in no list
/// of the levels that are still to come.
pub open spec fn linking(
    b: Build,
    nodes: Seq<Seq<Seq<usize>>>,
    shape: Seq<Seq<Seq<usize>>>,
    node: usize,
    level: int,
) -> bool {
    &&& leveled(nodes)
    &&& bounded(b, nodes)
    &&& unlisted(nodes, node, level)
    &&& hnsw_link::same_shape(nodes, shape)
    &&& node < nodes.len()
    &&& nodes.len() <= usize::MAX
    &&& forall|l: int| 0 <= l <= level && l < nodes[node as int].len() ==> (
    #[trigger] nodes[node as int][l]).len() == 0
}

/// What is chosen for a vector that is being linked: other vectors that have the
/// level.
pub proof fn chosen_have_level<F: Fn(&[u32], &[u32]) -> u32>(
    f: F,
    b: Build,
    query: Seq<u32>,
    nodes: Seq<Seq<Seq<usize>>>,
    node: usize,
    level: int,
    at: int,
)
    requires
        leveled(nodes),
        unlisted(nodes, node, level),
        0 <= level,
        0 <= at < nodes.len(),
        nodes.len() <= usize::MAX,
        level < nodes[at].len(),
        at != node,
        b.ef_construction > 0,
    ensures
        ({
            let near = chosen(f, b, query, nodes, level, at);
            &&& near.len() <= degree_on(b, level)
            &&& near.no_duplicates()
            &&& forall|j: int|
                0 <= j < near.len() ==> (#[trigger] near[j]).id < nodes.len() && level
                    < nodes[near[j].id as int].len() && near[j].id != node
        }),
{
    leveled_is_within(nodes);
    layer::found_are_vectors(
        f,
        b.values,
        b.dimension,
        query,
        nodes,
        level,
        at,
        b.ef_construction,
    );
    let found = layer::found(
        f,
        b.values,
        b.dimension,
        query,
        nodes,
        level,
        at,
        b.ef_construction,
    );
    let near = chosen(f, b, query, nodes, level, at);
    assert forall|j: int| 0 <= j < near.len() implies (#[trigger] near[j]).id < nodes.len() && level
        < nodes[near[j].id as int].len() && near[j].id != node by {
        assert(near[j] == found[j]);
        let x = near[j].id as int;
        if x != at {
            listed_has_level(nodes, level, x);
            let (a, q) = choose|a: int, q: int|
                0 <= q < hnsw::neighbors_of(nodes, a, level).len() && #[trigger] hnsw::neighbors_of(
                    nodes,
                    a,
                    level,
                )[q] == x;
            assert(nodes[a][level][q] != node);
        }
    }
}

/// Replacing a list by one whose members may be in it keeps the lists in order.
proof fn with_list_leveled(nodes: Seq<Seq<Seq<usize>>>, node: int, level: int, list: Seq<usize>)
    requires
        leveled(nodes),
        0 <= node < nodes.len(),
        0 <= level < nodes[node].len(),
        forall|j: int|
            0 <= j < list.len() ==> #[trigger] list[j] < nodes.len() && list[j] != node && level
                < nodes[list[j] as int].len(),
    ensures
        leveled(hnsw_link::with_list(nodes, node, level, list)),
        hnsw_link::same_shape(hnsw_link::with_list(nodes, node, level, list), nodes),
{
    let t = hnsw_link::with_list(nodes, node, level, list);
    assert forall|i: int| 0 <= i < t.len() implies (#[trigger] t[i]).len() == nodes[i].len() by {}
    assert forall|i: int, l: int, j: int|
        0 <= i < t.len() && 0 <= l < t[i].len() && 0 <= j < t[i][l].len() implies #[trigger] t[i][l][j]
        < t.len() && t[i][l][j] != i && l < t[t[i][l][j] as int].len() by {
        if i == node && l == level {
            assert(list[j] < nodes.len());
        } else {
            assert(nodes[i][l][j] < nodes.len());
        }
    }
}

/// What linking with one vector changes: the lists of the two on the level.
proof fn linked_facts<F: Fn(&[u32], &[u32]) -> u32>(
    f: F,
    values: Seq<u32>,
    dim: nat,
    nodes: Seq<Seq<Seq<usize>>>,
    node: usize,
    other: usize,
    level: int,
    max: nat,
)
    requires
        leveled(nodes),
        node < nodes.len(),
        other < nodes.len(),
        node != other,
        0 <= level < nodes[node as int].len(),
        level < nodes[other as int].len(),
        nodes[other as int][level].len() < u64::MAX,
    ensures
        ({
            let r = hnsw_link::linked(f, values, dim, nodes, node, other, level, max);
            &&& leveled(r)
            &&& hnsw_link::same_shape(r, nodes)
            &&& forall|i: int, l: int|
                0 <= i < nodes.len() && 0 <= l < nodes[i].len() && (l != level || i != node && i
                    != other) ==> #[trigger] r[i][l] == nodes[i][l]
            &&& r[node as int][level].len() <= nodes[node as int][level].len() + 1
            &&& r[other as int][level].len() <= max
        }),
{
    let first = hnsw_link::listed(nodes[node as int][level], other);
    assert forall|j: int| 0 <= j < first.len() implies #[trigger] first[j] < nodes.len() && first[j]
        != node && level < nodes[first[j] as int].len() by {
        if j < nodes[node as int][level].len() {
            assert(nodes[node as int][level][j] < nodes.len());
        }
    }
    with_list_leveled(nodes, node as int, level, first);
    let a = hnsw_link::with_list(nodes, node as int, level, first);
    let second = hnsw_link::listed(a[other as int][level], node);
    assert forall|j: int| 0 <= j < second.len() implies #[trigger] second[j] < a.len() && second[j]
        != other && level < a[second[j] as int].len() by {
        if j < a[other as int][level].len() {
            assert(a[other as int][level][j] < a.len());
        }
    }
    with_list_leveled(a, other as int, level, second);
    let b = hnsw_link::with_list(a, other as int, level, second);
    let third = hnsw_link::pruned(f, values, dim, other as int, second, max);
    assert(b[other as int][level] == second);
    hnsw_link::places_are_within(f, values, dim, other as int, second, max);
    assert forall|j: int| 0 <= j < third.len() implies #[trigger] third[j] < b.len() && third[j]
        != other && level < b[third[j] as int].len() by {
        assert(second.contains(third[j]));
        let q = choose|q: int| 0 <= q < second.len() && second[q] == third[j];
        assert(b[other as int][level][q] < b.len());
    }
    with_list_leveled(b, other as int, level, third);
}

/// What linking with the first `k` that were chosen changes.
proof fn linked_all_facts<F: Fn(&[u32], &[u32]) -> u32>(
    f: F,
    values: Seq<u32>,
    dim: nat,
    nodes: Seq<Seq<Seq<usize>>>,
    node: usize,
    near: Seq<Candidate>,
    k: nat,
    level: int,
    max: nat,
)
    requires
        leveled(nodes),
        node < nodes.len() <= usize::MAX,
        0 <= level < nodes[node as int].len(),
        nodes[node as int][level].len() == 0,
        k <= near.len(),
        max < u64::MAX,
        forall|j: int|
            0 <= j < near.len() ==> (#[trigger] near[j]).id < nodes.len() && level
                < nodes[near[j].id as int].len() && near[j].id != node,
        forall|i: int|
            0 <= i < nodes.len() && level < nodes[i].len() ==> (#[trigger] nodes[i][level]).len()
                <= max,
    ensures
        ({
            let r = hnsw_link::linked_all(f, values, dim, nodes, node, near, k, level, max);
            &&& leveled(r)
            &&& hnsw_link::same_shape(r, nodes)
            &&& forall|i: int, l: int|
                0 <= i < nodes.len() && 0 <= l < nodes[i].len() && l != level ==> #[trigger] r[i][l]
                    == nodes[i][l]
            &&& r[node as int][level].len() <= k
            &&& forall|i: int|
                0 <= i < nodes.len() && i != node && level < nodes[i].len() ==> (
                #[trigger] r[i][level]).len() <= max
        }),
    decreases k,
{
    if k > 0 {
        linked_all_facts(f, values, dim, nodes, node, near, (k - 1) as nat, level, max);
        let before = hnsw_link::linked_all(
            f,
            values,
            dim,
            nodes,
            node,
            near,
            (k - 1) as nat,
            level,
            max,
        );
        let other = near[k - 1].id as usize;
        assert(near[k - 1].id < nodes.len());
        assert(before[node as int].len() == nodes[node as int].len());
        assert(before[other as int].len() == nodes[other as int].len());
        assert(before[other as int][level].len() <= max);
        linked_facts(f, values, dim, before, node, other, level, max);
        let r = hnsw_link::linked_all(f, values, dim, nodes, node, near, k, level, max);
        assert forall|i: int, l: int|
            0 <= i < nodes.len() && 0 <= l < nodes[i].len() && l != level implies #[trigger] r[i][l]
            == nodes[i][l] by {
            assert(before[i].len() == nodes[i].len());
            assert(before[i][l] == nodes[i][l]);
        }
        assert forall|i: int|
            0 <= i < nodes.len() && i != node && level < nodes[i].len() implies (
        #[trigger] r[i][level]).len() <= max by {
            assert(before[i].len() == nodes[i].len());
            if i != other {
                assert(before[i][level].len() <= max);
            }
        }
        assert forall|i: int| 0 <= i < r.len() implies (#[trigger] r[i]).len() == nodes[i].len() by {
            assert(before[i].len() == nodes[i].len());
        }
    } else {
        assert(forall|i: int|
            0 <= i < nodes.len() && level < nodes[i].len() ==> (#[trigger] nodes[i][level]).len()
                <= max);
    }
}

/// Linking on one level keeps the lists in order and leaves the other levels.
pub proof fn connected_links<F: Fn(&[u32], &[u32]) -> u32>(
    f: F,
    b: Build,
    query: Seq<u32>,
    nodes: Seq<Seq<Seq<usize>>>,
    shape: Seq<Seq<Seq<usize>>>,
    node: usize,
    level: int,
    at: int,
)
    requires
        linking(b, nodes, shape, node, level),
        0 <= level < nodes[node as int].len(),
        0 <= at < nodes.len(),
        level < nodes[at].len(),
        at != node,
        2 <= b.m <= 64,
        b.m0 == 2 * b.m,
        b.ef_construction >= b.m0,
    ensures
        ({
            let near = chosen(f, b, query, nodes, level, at);
            let r = hnsw_link::connected(
                f,
                b.values,
                b.dimension,
                nodes,
                node,
                near,
                level,
                degree_on(b, level),
            );
            linking(b, r, shape, node, level - 1)
        }),
{
    let near = chosen(f, b, query, nodes, level, at);
    let max = degree_on(b, level);
    chosen_have_level(f, b, query, nodes, node, level, at);
    assert forall|i: int| 0 <= i < nodes.len() && level < nodes[i].len() implies (
    #[trigger] nodes[i][level]).len() <= max by {}
    linked_all_facts(
        f,
        b.values,
        b.dimension,
        nodes,
        node,
        near,
        near.len(),
        level,
        max,
    );
    let a = hnsw_link::linked_all(
        f,
        b.values,
        b.dimension,
        nodes,
        node,
        near,
        near.len(),
        level,
        max,
    );
    let r = hnsw_link::connected(f, b.values, b.dimension, nodes, node, near, level, max);
    assert(a[node as int].len() == nodes[node as int].len());
    assert(a[node as int][level].len() <= max);
    assert(a[node as int].update(level, a[node as int][level]) =~= a[node as int]);
    assert(r =~= a);
    assert forall|i: int, l: int| 0 <= i < r.len() && 0 <= l < r[i].len() implies (
    #[trigger] r[i][l]).len() <= degree_on(b, l) by {
        assert(r[i].len() == nodes[i].len());
        if l != level {
            assert(r[i][l] == nodes[i][l]);
        }
    }
    assert forall|i: int, l: int, j: int|
        0 <= i < r.len() && 0 <= l < r[i].len() && l <= level - 1 && 0 <= j < r[i][l].len() implies #[trigger] r[i][l][j]
        != node by {
        assert(r[i].len() == nodes[i].len());
        assert(r[i][l] == nodes[i][l]);
        assert(nodes[i][l][j] != node);
    }
    assert forall|l: int| 0 <= l <= level - 1 && l < r[node as int].len() implies (
    #[trigger] r[node as int][l]).len() == 0 by {
        assert(r[node as int][l] == nodes[node as int][l]);
    }
    assert forall|i: int| 0 <= i < r.len() implies (#[trigger] r[i]).len() == shape[i].len() by {
        assert(r[i].len() == nodes[i].len());
    }
}

/// Linking on all levels keeps the lists in order.
proof fn linked_down_links<F: Fn(&[u32], &[u32]) -> u32>(
    f: F,
    b: Build,
    query: Seq<u32>,
    nodes: Seq<Seq<Seq<usize>>>,
    shape: Seq<Seq<Seq<usize>>>,
    node: usize,
    level: int,
    at: int,
)
    requires
        linking(b, nodes, shape, node, level),
        level < nodes[node as int].len(),
        0 <= at < nodes.len(),
        level < nodes[at].len(),
        at != node,
        2 <= b.m <= 64,
        b.m0 == 2 * b.m,
        b.ef_construction >= b.m0,
    ensures
        leveled(linked_down(f, b, query, nodes, node, level, at)),
        bounded(b, linked_down(f, b, query, nodes, node, level, at)),
        hnsw_link::same_shape(linked_down(f, b, query, nodes, node, level, at), shape),
    decreases level + 1,
{
    if level >= 0 {
        let near = chosen(f, b, query, nodes, level, at);
        let r = hnsw_link::connected(
            f,
            b.values,
            b.dimension,
            nodes,
            node,
            near,
            level,
            degree_on(b, level),
        );
        connected_links(f, b, query, nodes, shape, node, level, at);
        chosen_have_level(f, b, query, nodes, node, level, at);
        let next = if near.len() > 0 {
            near[0].id as int
        } else {
            at
        };
        assert(r[next].len() == shape[next].len() && nodes[next].len() == shape[next].len());
        assert(r[node as int].len() == shape[node as int].len() && nodes[node as int].len()
            == shape[node as int].len());
        linked_down_links(f, b, query, r, shape, node, level - 1, next);
    }
}

/// Before a vector is linked the lists are in order and it is in none of them.
pub proof fn grown_links(b: Build, level: nat, upto: int)
    requires
        b.valid(),
        b.nodes.len() < usize::MAX,
    ensures
        ({
            let nodes = b.nodes.push(hnsw_index::empty_lists(level + 1));
            linking(b, nodes, nodes, b.nodes.len() as usize, upto)
        }),
{
    let n = b.nodes.len() as int;
    let nodes = b.nodes.push(hnsw_index::empty_lists(level + 1));
    assert forall|i: int, l: int, j: int|
        0 <= i < nodes.len() && 0 <= l < nodes[i].len() && 0 <= j < nodes[i][l].len() implies #[trigger] nodes[i][l][j]
        < nodes.len() && nodes[i][l][j] != i && l < nodes[nodes[i][l][j] as int].len() by {
        if i < n {
            assert(nodes[i] == b.nodes[i]);
            assert(b.nodes[i][l][j] < n);
        }
    }
    assert forall|i: int, l: int| 0 <= i < nodes.len() && 0 <= l < nodes[i].len() implies (
    #[trigger] nodes[i][l]).len() <= degree_on(b, l) by {
        if i < n {
            assert(nodes[i][l] == b.nodes[i][l]);
        }
    }
    assert forall|i: int, l: int, j: int|
        0 <= i < nodes.len() && 0 <= l < nodes[i].len() && l <= upto && 0 <= j < nodes[i][l].len() implies #[trigger] nodes[i][l][j]
        != n as usize by {
        if i < n {
            assert(b.nodes[i][l][j] < n);
        }
    }
}

/// The vector where linking starts is another one, and has the level where it
/// starts.
pub proof fn start_has_level<F: Fn(&[u32], &[u32]) -> u32>(
    f: F,
    b: Build,
    vector: Seq<u32>,
    level: nat,
)
    requires
        b.valid(),
        0 < b.nodes.len() < usize::MAX,
    ensures
        ({
            let nodes = b.nodes.push(hnsw_index::empty_lists(level + 1));
            let at = hnsw::descended(
                f,
                b.values + vector,
                b.dimension,
                vector,
                nodes,
                (b.level_count - 1) as nat,
                level,
                b.entry_point as int,
            );
            let top = if level < b.level_count - 1 {
                level as int
            } else {
                b.level_count - 1
            };
            &&& 0 <= at < b.nodes.len()
            &&& top < nodes[at].len()
        }),
{
    let nodes = b.nodes.push(hnsw_index::empty_lists(level + 1));
    grown_links(b, level, b.level_count - 1);
    assert(nodes[b.entry_point as int] == b.nodes[b.entry_point as int]);
    descended_has_level(
        f,
        b.values + vector,
        b.dimension,
        vector,
        nodes,
        (b.level_count - 1) as nat,
        level,
        b.entry_point as int,
        b.nodes.len() as usize,
    );
}

/// A graph stays in order when a vector is added: neighbors are other vectors that
/// have the level, none has more of them than it may keep, and a search starts on
/// the highest level.
pub proof fn added_is_valid<F: Fn(&[u32], &[u32]) -> u32>(
    f: F,
    b: Build,
    vector: Seq<u32>,
    level: nat,
)
    requires
        b.valid(),
        b.nodes.len() < usize::MAX,
        vector.len() == b.dimension,
    ensures
        added(f, b, vector, level).valid(),
        added(f, b, vector, level).nodes.len() == b.nodes.len() + 1,
{
    let r = added(f, b, vector, level);
    let n = b.nodes.len();
    let nodes = b.nodes.push(hnsw_index::empty_lists(level + 1));
    let grown = Build { values: b.values + vector, nodes, ..b };
    let top = if level < b.level_count - 1 {
        level as int
    } else {
        b.level_count - 1
    };
    grown_links(b, level, top);
    floats::row_fits(b.dimension, n as int, n as int + 1);
    assert(linking(grown, nodes, nodes, n as usize, top));
    if n > 0 {
        let at = hnsw::descended(
            f,
            b.values + vector,
            b.dimension,
            vector,
            nodes,
            (b.level_count - 1) as nat,
            level,
            b.entry_point as int,
        );
        start_has_level(f, b, vector, level);
        linked_down_links(f, grown, vector, nodes, nodes, n as usize, top, at);
    }
    assert(hnsw_link::same_shape(r.nodes, nodes));
    assert forall|i: int| 0 <= i < r.nodes.len() implies 0 < (#[trigger] r.nodes[i]).len()
        <= r.level_count by {
        assert(r.nodes[i].len() == nodes[i].len());
        if i < n {
            assert(nodes[i] == b.nodes[i]);
        }
    }
    assert(bounded(r, r.nodes)) by {
        assert forall|i: int, l: int| 0 <= i < r.nodes.len() && 0 <= l < r.nodes[i].len() implies (
        #[trigger] r.nodes[i][l]).len() <= degree_on(r, l) by {
            assert(r.nodes[i][l].len() <= degree_on(grown, l));
        }
    }
    assert(r.nodes[r.entry_point as int].len() == nodes[r.entry_point as int].len());
    assert(r.entry_point < n ==> nodes[r.entry_point as int] == b.nodes[r.entry_point as int]);
}

/// Links vector `node` on `top` and all levels below, starting at vector `start`.
fn link_down<F: Fn(&[u32], &[u32]) -> u32>(
    values: &[u32],
    params: &HnswBuilder,
    query: &[u32],
    nodes: &mut Vec<Vec<Vec<usize>>>,
    node: usize,
    top: usize,
    start: usize,
    f: &F,
    Ghost(b): Ghost<Build>,
) -> (r: Result<(), VectorIndexError>)
    requires
        floats::is_distance(*f),
        b.values == values@,
        b.dimension == params.dimension,
        b.m == params.m,
        b.m0 == params.m0,
        b.ef_construction == params.ef_construction,
        2 <= b.m <= 64,
        b.m0 == 2 * b.m,
        b.ef_construction >= b.m0,
        old(nodes)@.len() * b.dimension <= values@.len(),
        node < old(nodes)@.len(),
        query@ == floats::row_of(values@, b.dimension, node as int),
        linking(
            b,
            hnsw::lists_of(old(nodes)@),
            hnsw::lists_of(old(nodes)@),
            node,
            top as int,
        ),
        top < old(nodes)@[node as int]@.len(),
        start < old(nodes)@.len(),
        top < old(nodes)@[start as int]@.len(),
        start != node,
    ensures
        match r {
            Ok(_) => down_comparable(
                *f,
                b,
                query@,
                hnsw::lists_of(old(nodes)@),
                node,
                top as int,
                start as int,
            ) && hnsw::lists_of(final(nodes)@) == linked_down(
                *f,
                b,
                query@,
                hnsw::lists_of(old(nodes)@),
                node,
                top as int,
                start as int,
            ),
            Err(e) => e == VectorIndexError::NanDistance && !down_comparable(
                *f,
                b,
                query@,
                hnsw::lists_of(old(nodes)@),
                node,
                top as int,
                start as int,
            ),
        },
{
    let dim: usize = params.dimension;
    let n: usize = nodes.len();
    let ghost begin = hnsw::lists_of(nodes@);
    let mut at: usize = start;
    let own: usize = nodes[node].len();
    let mut left: usize = top + 1;
    while left > 0
        invariant
            floats::is_distance(*f),
            b.values == values@,
            dim == params.dimension,
            b.dimension == dim,
            b.m == params.m,
            b.m0 == params.m0,
            b.ef_construction == params.ef_construction,
            2 <= b.m <= 64,
            b.m0 == 2 * b.m,
            b.ef_construction >= b.m0,
            n == old(nodes)@.len(),
            n * dim <= values@.len(),
            begin == hnsw::lists_of(old(nodes)@),
            begin.len() == n,
            node < n,
            query@ == floats::row_of(values@, dim as nat, node as int),
            left <= top + 1,
            top < begin[node as int].len(),
            linking(b, hnsw::lists_of(nodes@), begin, node, left - 1),
            at < n,
            left - 1 < begin[at as int].len(),
            at != node,
            linked_down(
                *f,
                b,
                query@,
                hnsw::lists_of(nodes@),
                node,
                left - 1,
                at as int,
            ) == linked_down(*f, b, query@, begin, node, top as int, start as int),
            down_comparable(
                *f,
                b,
                query@,
                hnsw::lists_of(nodes@),
                node,
                left - 1,
                at as int,
            ) == down_comparable(*f, b, query@, begin, node, top as int, start as int),
        decreases left,
    {
        let level: usize = left - 1;
        let ghost lists = hnsw::lists_of(nodes@);
        proof {
            leveled_is_within(lists);
            assert(lists[at as int].len() == begin[at as int].len());
            assert(lists[node as int].len() == begin[node as int].len());
            chosen_have_level(*f, b, query@, lists, node, level as int, at as int);
            connected_links(*f, b, query@, lists, begin, node, level as int, at as int);
        }
        let max: usize = if level == 0 { params.m0 } else { params.m };
        match layer::search_layer(values, dim, query, nodes, level, at, params.ef_construction, f) {
            Err(e) => {
                return Err(e);
            },
            Ok(mut near) => {
                if near.len() > max {
                    near.truncate(max);
                }
                assert(near@ =~= chosen(*f, b, query@, lists, level as int, at as int));
                proof {
                    assert forall|j: int| 0 <= j < near@.len() implies (#[trigger] near@[j]).id
                        < nodes@.len() && level < nodes@[near@[j].id as int]@.len() by {
                        assert(lists[near@[j].id as int].len() == nodes@[near@[j].id as int]@.len());
                    }
                    assert(nodes@[node as int]@.len() == lists[node as int].len());
                }
                hnsw_link::connect_new_node(values, dim, nodes, node, &near, level, max, f)?;
                if near.len() > 0 {
                    assert(near@[0].id < n);
                    at = near[0].id as usize;
                }
                proof {
                    assert(lists[at as int].len() == begin[at as int].len());
                }
            },
        }
        left = left - 1;
    }
    Ok(())
}

impl HnswBuilder {
    /// A graph without vectors.
    pub fn new(dimension: usize, max_neighbors: usize, ef_search: usize) -> (r: Self)
        ensures
            r@ == nothing_built(dimension as nat, max_neighbors as nat, ef_search as nat),
            dimension > 0 ==> r@.valid(),
    {
        let m: usize = degree(max_neighbors);
        let m0: usize = 2 * m;
        let r = HnswBuilder {
            dimension,
            m,
            m0,
            ef_construction: if ef_search > m0 { ef_search } else { m0 },
            ef_search: if ef_search > 1 { ef_search } else { 1 },
            values: Vec::new(),
            nodes: Vec::new(),
            entry_point: 0,
            level_count: 0,
        };
        assert(r@.nodes =~= Seq::empty());
        assert(r@.values =~= Seq::empty());
        assert(r@.nodes.len() * r@.dimension == 0) by (nonlinear_arith)
            requires
                r@.nodes.len() == 0,
        ;
        r
    }

    /// Adds a vector that has lists on the levels up to `level`. If vectors cannot be
    /// compared, because a distance is not a number, the graph cannot be used any
    /// more.
    pub fn add_vector<F: Fn(&[u32], &[u32]) -> u32>(
        &mut self,
        vector: &[u32],
        level: usize,
        f: &F,
    ) -> (r: Result<(), VectorIndexError>)
        requires
            old(self)@.valid(),
            floats::is_distance(*f),
            level < u32::MAX,
            old(self).nodes@.len() < usize::MAX,
        ensures
            vector@.len() != old(self).dimension <==> r == Err::<(), VectorIndexError>(
                VectorIndexError::DimensionMismatch,
            ),
            vector@.len() != old(self).dimension ==> final(self)@ == old(self)@,
            vector@.len() == old(self).dimension ==> (if add_comparable(
                *f,
                old(self)@,
                vector@,
                level as nat,
            ) {
                &&& r is Ok
                &&& final(self)@ == added(*f, old(self)@, vector@, level as nat)
                &&& final(self)@.valid()
            } else {
                r == Err::<(), VectorIndexError>(VectorIndexError::NanDistance)
            }),
    {
        if vector.len() != self.dimension {
            return Err(VectorIndexError::DimensionMismatch);
        }
        let ghost b = self@;
        let node: usize = self.nodes.len();
        let mut lists: Vec<Vec<usize>> = Vec::new();
        let mut l: usize = 0;
        while l <= level
            invariant
                l <= level + 1,
                level < u32::MAX,
                hnsw_index::node_lists(lists@) =~= hnsw_index::empty_lists(l as nat),
                lists@.len() == l,
            decreases level + 1 - l,
        {
            let ghost before = hnsw_index::node_lists(lists@);
            lists.push(Vec::new());
            proof {
                let now = hnsw_index::node_lists(lists@);
                assert(now =~= before.push(Seq::empty()));
                assert(now =~= hnsw_index::empty_lists(l as nat + 1));
            }
            l = l + 1;
        }
        self.values.extend_from_slice(vector);
        assert(self.values@ =~= b.values + vector@);
        let ghost before = self.nodes@;
        self.nodes.push(lists);
        let ghost grown = Build {
            values: b.values + vector@,
            nodes: b.nodes.push(hnsw_index::empty_lists(level as nat + 1)),
            ..b
        };
        proof {
            assert(hnsw::lists_of(self.nodes@) =~= grown.nodes);
            added_is_valid(*f, b, vector@, level as nat);
            floats::row_fits(b.dimension, node as int, node as int + 1);
            assert(floats::row_of(grown.values, b.dimension, node as int) =~= vector@);
        }
        if node == 0 {
            self.entry_point = 0;
            self.level_count = level + 1;
            assert(self@ =~= added(*f, b, vector@, level as nat));
            return Ok(());
        }
        proof {
            assert(b.nodes[b.entry_point as int].len() > 0);
            let top = if level < b.level_count - 1 {
                level as int
            } else {
                b.level_count - 1
            };
            grown_links(b, level as nat, top);
            start_has_level(*f, b, vector@, level as nat);
            leveled_is_within(grown.nodes);
        }
        let at: usize = hnsw::descend(
            self.values.as_slice(),
            self.dimension,
            vector,
            &self.nodes,
            self.level_count - 1,
            level,
            self.entry_point,
            f,
        );
        let top: usize = if level < self.level_count - 1 { level } else { self.level_count - 1 };
        let mut nodes: Vec<Vec<Vec<usize>>> = Vec::new();
        std::mem::swap(&mut nodes, &mut self.nodes);
        proof {
            assert(linking(grown, grown.nodes, grown.nodes, node, top as int));
            assert(nodes@[node as int]@.len() == grown.nodes[node as int].len());
            assert(nodes@[at as int]@.len() == grown.nodes[at as int].len());
        }
        link_down(
            self.values.as_slice(),
            self,
            vector,
            &mut nodes,
            node,
            top,
            at,
            f,
            Ghost(grown),
        )?;
        self.nodes = nodes;
        if level + 1 > self.level_count {
            self.level_count = level + 1;
            self.entry_point = node;
        }
        assert(self@ =~= added(*f, b, vector@, level as nat));
        Ok(())
    }
}

proof fn link_of_numbers<F: Fn(&[u32], &[u32]) -> u32>(
    f: F,
    values: Seq<u32>,
    dim: nat,
    nodes: Seq<Seq<Seq<usize>>>,
    node: usize,
    near: Seq<Candidate>,
    k: nat,
    level: int,
    max: nat,
)
    requires
        leveled(nodes),
        node < nodes.len() <= usize::MAX,
        0 <= level < nodes[node as int].len(),
        nodes[node as int][level].len() == 0,
        k <= near.len(),
        max < u64::MAX,
        forall|j: int|
            0 <= j < near.len() ==> (#[trigger] near[j]).id < nodes.len() && level
                < nodes[near[j].id as int].len() && near[j].id != node,
        forall|i: int|
            0 <= i < nodes.len() && level < nodes[i].len() ==> (#[trigger] nodes[i][level]).len()
                <= max,
        !hnsw_link::nan_between(f, values, dim, nodes.len()),
    ensures
        hnsw_link::link_comparable(f, values, dim, nodes, node, near, k, level, max),
    decreases k,
{
    if k > 0 {
        let j = (k - 1) as nat;
        link_of_numbers(f, values, dim, nodes, node, near, j, level, max);
        linked_all_facts(f, values, dim, nodes, node, near, j, level, max);
        let now = hnsw_link::linked_all(f, values, dim, nodes, node, near, j, level, max);
        let other = near[k - 1].id as usize;
        assert(near[k - 1].id < nodes.len());
        assert(now[node as int].len() == nodes[node as int].len());
        assert(now[other as int].len() == nodes[other as int].len());
        let list = hnsw_link::with_neighbor(now, node, other, level);
        let was = now[other as int][level];
        assert forall|q: int| 0 <= q < list.len() implies !floats::is_nan(
            #[trigger] floats::distance(
                f,
                floats::row_of(values, dim, other as int),
                floats::row_of(values, dim, list[q] as int),
            ),
        ) by {
            if q < was.len() {
                assert(list[q] == was[q]);
                assert(now[other as int][level][q] < now.len());
            } else {
                assert(list[q] == node);
            }
        }
    }
}

proof fn down_of_numbers<F: Fn(&[u32], &[u32]) -> u32>(
    f: F,
    b: Build,
    query: Seq<u32>,
    nodes: Seq<Seq<Seq<usize>>>,
    shape: Seq<Seq<Seq<usize>>>,
    node: usize,
    level: int,
    at: int,
)
    requires
        linking(b, nodes, shape, node, level),
        level < nodes[node as int].len(),
        0 <= at < nodes.len(),
        level < nodes[at].len(),
        at != node,
        2 <= b.m <= 64,
        b.m0 == 2 * b.m,
        b.ef_construction >= b.m0,
        query == floats::row_of(b.values, b.dimension, node as int),
        !hnsw_link::nan_between(f, b.values, b.dimension, nodes.len()),
    ensures
        down_comparable(f, b, query, nodes, node, level, at),
    decreases level + 1,
{
    if level >= 0 {
        let near = chosen(f, b, query, nodes, level, at);
        let max = degree_on(b, level);
        let r = hnsw_link::connected(f, b.values, b.dimension, nodes, node, near, level, max);
        leveled_is_within(nodes);
        assert forall|i: int| 0 <= i < nodes.len() implies !floats::is_nan(
            #[trigger] hnsw::distance_to(f, b.values, b.dimension, query, i),
        ) by {
            assert(!floats::is_nan(
                floats::distance(
                    f,
                    floats::row_of(b.values, b.dimension, i),
                    floats::row_of(b.values, b.dimension, node as int),
                ),
            ));
        }
        layer::numbers_are_comparable(
            f,
            b.values,
            b.dimension,
            query,
            nodes,
            level,
            at,
            b.ef_construction,
        );
        chosen_have_level(f, b, query, nodes, node, level, at);
        assert forall|i: int| 0 <= i < nodes.len() && level < nodes[i].len() implies (
        #[trigger] nodes[i][level]).len() <= max by {}
        link_of_numbers(f, b.values, b.dimension, nodes, node, near, near.len(), level, max);
        linked_all_facts(f, b.values, b.dimension, nodes, node, near, near.len(), level, max);
        let a = hnsw_link::linked_all(
            f,
            b.values,
            b.dimension,
            nodes,
            node,
            near,
            near.len(),
            level,
            max,
        );
        let list = a[node as int][level];
        assert(list.len() <= max);
        connected_links(f, b, query, nodes, shape, node, level, at);
        let next = if near.len() > 0 {
            near[0].id as int
        } else {
            at
        };
        assert(r[next].len() == shape[next].len() && nodes[next].len() == shape[next].len());
        assert(r[node as int].len() == shape[node as int].len() && nodes[node as int].len()
            == shape[node as int].len());
        down_of_numbers(f, b, query, r, shape, node, level - 1, next);
    }
}

/// Where all distances between vectors are numbers, a vector can be added.
pub proof fn numbers_are_added<F: Fn(&[u32], &[u32]) -> u32>(
    f: F,
    b: Build,
    vector: Seq<u32>,
    level: nat,
)
    requires
        b.valid(),
        b.nodes.len() < usize::MAX,
        vector.len() == b.dimension,
        !hnsw_link::nan_between(f, b.values + vector, b.dimension, b.nodes.len() + 1),
    ensures
        add_comparable(f, b, vector, level),
{
    let n = b.nodes.len();
    if n > 0 {
        let grown = Build {
            values: b.values + vector,
            nodes: b.nodes.push(hnsw_index::empty_lists(level + 1)),
            ..b
        };
        let top = if level < b.level_count - 1 {
            level as int
        } else {
            b.level_count - 1
        };
        let at = hnsw::descended(
            f,
            grown.values,
            b.dimension,
            vector,
            grown.nodes,
            (b.level_count - 1) as nat,
            level,
            b.entry_point as int,
        );
        grown_links(b, level, top);
        start_has_level(f, b, vector, level);
        floats::row_fits(b.dimension, n as int, n as int + 1);
        assert(floats::row_of(grown.values, b.dimension, n as int) =~= vector);
        assert(linking(grown, grown.nodes, grown.nodes, n as usize, top));
        down_of_numbers(f, grown, vector, grown.nodes, grown.nodes, n as usize, top, at);
    }
}

} // verus!
