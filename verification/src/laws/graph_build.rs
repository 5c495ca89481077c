//! Laws of adding vectors to a graph.
use crate::topk::Candidate;
use crate::vector_index::hnsw;
use crate::vector_index::hnsw_build;
use crate::vector_index::hnsw_build::Build;
use crate::vector_index::hnsw_index;
use crate::vector_index::hnsw_link;
use crate::vector_index::layer;
use vstd::prelude::*;

verus! {

/// Whether `chosen` are different vectors, other than `node`, that have the level, and
/// that `node` is no neighbor of yet.
pub open spec fn can_be_linked(
    nodes: Seq<Seq<Seq<usize>>>,
    node: usize,
    chosen: Seq<Candidate>,
    level: int,
) -> bool {
    &&& node < nodes.len() <= usize::MAX
    &&& 0 <= level < nodes[node as int].len()
    &&& nodes[node as int][level].len() == 0
    &&& forall|j: int|
        0 <= j < chosen.len() ==> {
            let other = (#[trigger] chosen[j]).id;
            &&& other < nodes.len()
            &&& other != node
            &&& level < nodes[other as int].len()
            &&& nodes[other as int][level].len() < u64::MAX
            &&& !nodes[other as int][level].contains(node)
        }
    &&& forall|i: int, j: int|
        0 <= i < j < chosen.len() ==> (#[trigger] chosen[i]).id != (#[trigger] chosen[j]).id
}

/// Whether `after` are the lists when `node` has been linked with the first `k` of
/// `chosen`: they are its neighbors, in this order; it has been put behind the neighbors
/// of each, which keeps what pruning leaves; and nothing else has changed.
pub open spec fn are_linked<F: Fn(&[u32], &[u32]) -> u32>(
    f: F,
    values: Seq<u32>,
    dim: nat,
    before: Seq<Seq<Seq<usize>>>,
    after: Seq<Seq<Seq<usize>>>,
    node: usize,
    chosen: Seq<Candidate>,
    k: nat,
    level: int,
    max: nat,
) -> bool {
    &&& hnsw_link::same_shape(after, before)
    &&& after[node as int][level].len() == k
    &&& forall|j: int|
        0 <= j < k ==> #[trigger] after[node as int][level][j] == chosen[j].id
    &&& forall|j: int|
        0 <= j < k ==> after[(#[trigger] chosen[j]).id as int][level] == hnsw_link::pruned(
            f,
            values,
            dim,
            chosen[j].id as int,
            before[chosen[j].id as int][level].push(node),
            max,
        )
    &&& forall|i: int, l: int|
        0 <= i < before.len() && 0 <= l < before[i].len() && (l != level || (i != node && (forall|
            j: int,
        |
            0 <= j < k ==> (#[trigger] chosen[j]).id != i))) ==> #[trigger] after[i][l]
            == before[i][l]
}

proof fn first_are_linked<F: Fn(&[u32], &[u32]) -> u32>(
    f: F,
    values: Seq<u32>,
    dim: nat,
    nodes: Seq<Seq<Seq<usize>>>,
    node: usize,
    chosen: Seq<Candidate>,
    k: nat,
    level: int,
    max: nat,
)
    requires
        can_be_linked(nodes, node, chosen, level),
        k <= chosen.len(),
    ensures
        are_linked(
            f,
            values,
            dim,
            nodes,
            hnsw_link::linked_all(f, values, dim, nodes, node, chosen, k, level, max),
            node,
            chosen,
            k,
            level,
            max,
        ),
    decreases k,
{
    if k > 0 {
        let p = (k - 1) as nat;
        first_are_linked(f, values, dim, nodes, node, chosen, p, level, max);
        let was = hnsw_link::linked_all(f, values, dim, nodes, node, chosen, p, level, max);
        let now = hnsw_link::linked_all(f, values, dim, nodes, node, chosen, k, level, max);
        let x = chosen[k - 1].id;
        let other = x as usize;
        assert(x == other);
        assert(was[node as int].len() == nodes[node as int].len());
        assert(was[other as int].len() == nodes[other as int].len());
        assert(was[other as int][level] == nodes[other as int][level]);
        let mine = was[node as int][level];
        assert(!mine.contains(other)) by {
            if mine.contains(other) {
                let j = choose|j: int| 0 <= j < mine.len() && mine[j] == other;
                assert(was[node as int][level][j] == chosen[j].id);
                assert(chosen[j].id != chosen[k - 1].id);
            }
        }
        let a = hnsw_link::with_list(was, node as int, level, mine.push(other));
        assert(a[other as int] == was[other as int]);
        let theirs = was[other as int][level].push(node);
        let b = hnsw_link::with_list(a, other as int, level, theirs);
        let left = hnsw_link::pruned(f, values, dim, other as int, theirs, max);
        assert(b[other as int][level] == theirs);
        assert(now == hnsw_link::with_list(b, other as int, level, left));
        assert(now[other as int][level] == left);
        assert(now[node as int] == a[node as int]);
        assert(now[node as int][level] == mine.push(other));
        assert forall|j: int| 0 <= j < k implies now[(#[trigger] chosen[j]).id as int][level]
            == hnsw_link::pruned(
            f,
            values,
            dim,
            chosen[j].id as int,
            nodes[chosen[j].id as int][level].push(node),
            max,
        ) by {
            if j < k - 1 {
                assert(chosen[j].id != chosen[k - 1].id);
                assert(now[chosen[j].id as int] == was[chosen[j].id as int]);
            }
        }
        assert forall|i: int, l: int|
            0 <= i < nodes.len() && 0 <= l < nodes[i].len() && (l != level || (i != node && (forall|
                j: int,
            |
                0 <= j < k ==> (#[trigger] chosen[j]).id != i))) implies #[trigger] now[i][l]
            == nodes[i][l] by {
            assert(was[i].len() == nodes[i].len());
            if l == level {
                assert(chosen[k - 1].id != i);
                assert(now[i] == was[i]);
            } else {
                assert(was[i][l] == nodes[i][l]);
                if i == node || i == other {
                    assert(now[i][l] == was[i][l]);
                } else {
                    assert(now[i] == was[i]);
                }
            }
        }
        assert forall|i: int| 0 <= i < now.len() implies (#[trigger] now[i]).len()
            == nodes[i].len() by {
            assert(was[i].len() == nodes[i].len());
        }
    }
}

/// Linking a new vector makes those that are chosen its neighbors, and makes it a
/// neighbor of each of them, which keeps its nearest; no other list changes.
pub proof fn new_vectors_are_linked<F: Fn(&[u32], &[u32]) -> u32>(
    f: F,
    values: Seq<u32>,
    dim: nat,
    nodes: Seq<Seq<Seq<usize>>>,
    node: usize,
    chosen: Seq<Candidate>,
    level: int,
    max: nat,
)
    requires
        can_be_linked(nodes, node, chosen, level),
        chosen.len() <= max,
    ensures
        are_linked(
            f,
            values,
            dim,
            nodes,
            hnsw_link::connected(f, values, dim, nodes, node, chosen, level, max),
            node,
            chosen,
            chosen.len(),
            level,
            max,
        ),
{
    first_are_linked(f, values, dim, nodes, node, chosen, chosen.len(), level, max);
    let a = hnsw_link::linked_all(
        f,
        values,
        dim,
        nodes,
        node,
        chosen,
        chosen.len(),
        level,
        max,
    );
    let r = hnsw_link::connected(f, values, dim, nodes, node, chosen, level, max);
    assert(a[node as int].len() == nodes[node as int].len());
    assert(a[node as int].update(level, a[node as int][level]) =~= a[node as int]);
    assert(r =~= a);
}

/// Whether two graphs have the same lists on a level.
pub open spec fn agree_on(a: Seq<Seq<Seq<usize>>>, b: Seq<Seq<Seq<usize>>>, level: int) -> bool {
    &&& hnsw_link::same_shape(a, b)
    &&& forall|i: int|
        0 <= i < a.len() && 0 <= level < a[i].len() ==> #[trigger] a[i][level] == b[i][level]
}

/// How many neighbors a vector keeps on a level: twice as many on the lowest.
pub open spec fn most_on(b: Build, level: int) -> nat {
    if level == 0 {
        b.m0
    } else {
        b.m
    }
}

/// Whether vector `node` has been linked on a level with the nearest few that a search
/// from vector `start` finds, on lists that were there before.
pub open spec fn is_linked_from<F: Fn(&[u32], &[u32]) -> u32>(
    f: F,
    b: Build,
    query: Seq<u32>,
    before: Seq<Seq<Seq<usize>>>,
    after: Seq<Seq<Seq<usize>>>,
    node: usize,
    level: int,
    start: int,
) -> bool {
    exists|now: Seq<Seq<Seq<usize>>>|
        {
            let found = #[trigger] layer::found(
                f,
                b.values,
                b.dimension,
                query,
                now,
                level,
                start,
                b.ef_construction,
            );
            &&& agree_on(now, before, level)
            &&& after[node as int][level].len() == (if found.len() < most_on(b, level) {
                found.len()
            } else {
                most_on(b, level)
            })
            &&& forall|j: int|
                0 <= j < after[node as int][level].len() ==> #[trigger] after[node as int][level][j]
                    == found[j].id
        }
}

/// Whether the lists of the other vectors on a level are as they were, but that `node`
/// has been put behind the neighbors of each of its own, which keeps its nearest.
pub open spec fn others_are_linked<F: Fn(&[u32], &[u32]) -> u32>(
    f: F,
    b: Build,
    before: Seq<Seq<Seq<usize>>>,
    after: Seq<Seq<Seq<usize>>>,
    node: usize,
    level: int,
) -> bool {
    forall|i: int|
        0 <= i < before.len() && i != node && level < before[i].len() ==> #[trigger] after[i][level]
            == (if after[node as int][level].contains(i as usize) {
            hnsw_link::pruned(
                f,
                b.values,
                b.dimension,
                i,
                before[i][level].push(node),
                most_on(b, level),
            )
        } else {
            before[i][level]
        })
}

proof fn linked_on_one_level<F: Fn(&[u32], &[u32]) -> u32>(
    f: F,
    b: Build,
    query: Seq<u32>,
    nodes: Seq<Seq<Seq<usize>>>,
    node: usize,
    level: int,
    at: int,
)
    requires
        hnsw_build::linking(b, nodes, nodes, node, level),
        0 <= level < nodes[node as int].len(),
        0 <= at < nodes.len(),
        level < nodes[at].len(),
        at != node,
        2 <= b.m <= 64,
        b.m0 == 2 * b.m,
        b.ef_construction >= b.m0,
    ensures
        ({
            let near = hnsw_build::chosen(f, b, query, nodes, level, at);
            let r = hnsw_link::connected(
                f,
                b.values,
                b.dimension,
                nodes,
                node,
                near,
                level,
                hnsw_build::degree_on(b, level),
            );
            &&& hnsw_link::same_shape(r, nodes)
            &&& is_linked_from(f, b, query, nodes, r, node, level, at)
            &&& others_are_linked(f, b, nodes, r, node, level)
            &&& forall|l: int| l != level ==> #[trigger] agree_on(r, nodes, l)
            &&& r[node as int][level].len() == near.len()
            &&& near.len() > 0 ==> r[node as int][level][0] == near[0].id
        }),
{
    let near = hnsw_build::chosen(f, b, query, nodes, level, at);
    let max = hnsw_build::degree_on(b, level);
    hnsw_build::chosen_have_level(f, b, query, nodes, node, level, at);
    assert(hnsw::all_within(nodes)) by {
        assert forall|i: int, l: int, j: int|
            0 <= i < nodes.len() && 0 <= l < nodes[i].len() && 0 <= j
                < nodes[i][l].len() implies #[trigger] nodes[i][l][j] < nodes.len() by {}
    }
    layer::found_are_vectors(
        f,
        b.values,
        b.dimension,
        query,
        nodes,
        level,
        at,
        b.ef_construction,
    );
    let found = layer::found(
        f,
        b.values,
        b.dimension,
        query,
        nodes,
        level,
        at,
        b.ef_construction,
    );
    assert forall|i: int, j: int| 0 <= i < j < near.len() implies (#[trigger] near[i]).id != (
    #[trigger] near[j]).id by {
        assert(near[i] == found[i]);
        assert(near[j] == found[j]);
        assert(found[i] != found[j]);
        assert(found[i] == layer::candidate(
            f,
            b.values,
            b.dimension,
            query,
            found[i].id as int,
        ));
        assert(found[j] == layer::candidate(
            f,
            b.values,
            b.dimension,
            query,
            found[j].id as int,
        ));
    }
    assert forall|j: int| 0 <= j < near.len() implies {
        let other = (#[trigger] near[j]).id;
        &&& other < nodes.len()
        &&& other != node
        &&& level < nodes[other as int].len()
        &&& nodes[other as int][level].len() < u64::MAX
        &&& !nodes[other as int][level].contains(node)
    } by {
        let other = near[j].id as int;
        let list = nodes[other][level];
        assert(list.len() <= hnsw_build::degree_on(b, level));
        if list.contains(node) {
            let q = choose|q: int| 0 <= q < list.len() && list[q] == node;
            assert(nodes[other][level][q] != node);
        }
    }
    new_vectors_are_linked(f, b.values, b.dimension, nodes, node, near, level, max);
    let r = hnsw_link::connected(f, b.values, b.dimension, nodes, node, near, level, max);
    let mine = r[node as int][level];
    assert forall|j: int| 0 <= j < mine.len() implies #[trigger] mine[j] == found[j].id by {
        assert(r[node as int][level][j] == near[j].id);
    }
    assert forall|i: int| 0 <= i < nodes.len() && 0 <= level < nodes[i].len() implies #[trigger] nodes[i][level]
        == nodes[i][level] by {}
    assert(agree_on(nodes, nodes, level));
    assert(is_linked_from(f, b, query, nodes, r, node, level, at));
    assert forall|i: int| 0 <= i < nodes.len() && i != node && level < nodes[i].len() implies #[trigger] r[i][level]
        == (if mine.contains(i as usize) {
        hnsw_link::pruned(
            f,
            b.values,
            b.dimension,
            i,
            nodes[i][level].push(node),
            most_on(b, level),
        )
    } else {
        nodes[i][level]
    }) by {
        if mine.contains(i as usize) {
            let j = choose|j: int| 0 <= j < mine.len() && mine[j] == i as usize;
            assert(r[node as int][level][j] == near[j].id);
            assert(near[j].id == i);
        } else {
            assert forall|j: int| 0 <= j < near.len() implies (#[trigger] near[j]).id != i by {
                if near[j].id == i {
                    assert(r[node as int][level][j] == near[j].id);
                    assert(mine[j] == i as usize);
                }
            }
        }
    }
    assert forall|l: int| l != level implies #[trigger] agree_on(r, nodes, l) by {
        assert forall|i: int| 0 <= i < r.len() && 0 <= l < r[i].len() implies #[trigger] r[i][l]
            == nodes[i][l] by {
            assert(r[i].len() == nodes[i].len());
        }
    }
    if near.len() > 0 {
        assert(r[node as int][level][0] == near[0].id);
    }
}

proof fn agreeing(
    a: Seq<Seq<Seq<usize>>>,
    b: Seq<Seq<Seq<usize>>>,
    c: Seq<Seq<Seq<usize>>>,
    level: int,
)
    requires
        agree_on(a, b, level),
        agree_on(b, c, level),
    ensures
        agree_on(a, c, level),
        agree_on(b, a, level),
{
    assert forall|i: int| 0 <= i < a.len() implies (#[trigger] a[i]).len() == c[i].len() by {
        assert(b[i].len() == c[i].len());
    }
    assert forall|i: int| 0 <= i < a.len() && 0 <= level < a[i].len() implies #[trigger] a[i][level]
        == c[i][level] by {
        assert(a[i].len() == b[i].len());
        assert(a[i][level] == b[i][level]);
        assert(b[i][level] == c[i][level]);
    }
    assert forall|i: int| 0 <= i < b.len() implies (#[trigger] b[i]).len() == a[i].len() by {
        assert(a[i].len() == b[i].len());
    }
    assert forall|i: int| 0 <= i < b.len() && 0 <= level < b[i].len() implies #[trigger] b[i][level]
        == a[i][level] by {
        assert(a[i].len() == b[i].len());
        assert(a[i][level] == b[i][level]);
    }
}

/// A vector is linked on a level and on each below: on each with the nearest few that a
/// search of that level finds, which starts at the nearest that was found on the level
/// above. Lists of higher levels do not change.
pub proof fn vectors_are_linked_on_all_levels<F: Fn(&[u32], &[u32]) -> u32>(
    f: F,
    b: Build,
    query: Seq<u32>,
    nodes: Seq<Seq<Seq<usize>>>,
    node: usize,
    level: int,
    at: int,
) -> (starts: Seq<int>)
    requires
        hnsw_build::linking(b, nodes, nodes, node, level),
        -1 <= level < nodes[node as int].len(),
        0 <= at < nodes.len(),
        level < nodes[at].len(),
        at != node,
        2 <= b.m <= 64,
        b.m0 == 2 * b.m,
        b.ef_construction >= b.m0,
    ensures
        ({
            let r = hnsw_build::linked_down(f, b, query, nodes, node, level, at);
            &&& hnsw_link::same_shape(r, nodes)
            &&& starts.len() == level + 1
            &&& level >= 0 ==> starts[level] == at
            &&& forall|l: int|
                0 <= l <= level ==> is_linked_from(
                    f,
                    b,
                    query,
                    nodes,
                    r,
                    node,
                    l,
                    #[trigger] starts[l],
                ) && others_are_linked(f, b, nodes, r, node, l)
            &&& forall|l: int|
                0 < l <= level ==> starts[l - 1] == (if (#[trigger] r[node as int][l]).len() > 0 {
                    r[node as int][l][0] as int
                } else {
                    starts[l]
                })
            &&& forall|l: int| l > level ==> #[trigger] agree_on(r, nodes, l)
        }),
    decreases level + 1,
{
    if level < 0 {
        assert forall|l: int| l > level implies #[trigger] agree_on(nodes, nodes, l) by {}
        Seq::empty()
    } else {
        let near = hnsw_build::chosen(f, b, query, nodes, level, at);
        let mid = hnsw_link::connected(
            f,
            b.values,
            b.dimension,
            nodes,
            node,
            near,
            level,
            hnsw_build::degree_on(b, level),
        );
        linked_on_one_level(f, b, query, nodes, node, level, at);
        hnsw_build::chosen_have_level(f, b, query, nodes, node, level, at);
        hnsw_build::connected_links(f, b, query, nodes, nodes, node, level, at);
        let next = if near.len() > 0 {
            near[0].id as int
        } else {
            at
        };
        assert(mid[next].len() == nodes[next].len());
        assert(mid[node as int].len() == nodes[node as int].len());
        assert forall|i: int| 0 <= i < mid.len() implies (#[trigger] mid[i]).len()
            == mid[i].len() by {}
        assert(hnsw_build::linking(b, mid, mid, node, level - 1));
        let below = vectors_are_linked_on_all_levels(
            f,
            b,
            query,
            mid,
            node,
            level - 1,
            next,
        );
        let r = hnsw_build::linked_down(f, b, query, nodes, node, level, at);
        assert(r == hnsw_build::linked_down(f, b, query, mid, node, level - 1, next));
        let starts = below.push(at);
        assert(agree_on(r, mid, level));
        same_level_is_linked(f, b, query, nodes, mid, r, node, level, at);
        assert forall|l: int| 0 <= l <= level implies is_linked_from(
            f,
            b,
            query,
            nodes,
            r,
            node,
            l,
            #[trigger] starts[l],
        ) && others_are_linked(f, b, nodes, r, node, l) by {
            if l < level {
                assert(starts[l] == below[l]);
                assert(agree_on(mid, nodes, l));
                from_lists_before(f, b, query, nodes, mid, r, node, l, below[l]);
            }
        }
        assert forall|l: int| 0 < l <= level implies starts[l - 1] == (if (
        #[trigger] r[node as int][l]).len() > 0 {
            r[node as int][l][0] as int
        } else {
            starts[l]
        }) by {
            assert(r[node as int].len() == mid[node as int].len());
            if l < level {
                assert(starts[l] == below[l]);
                assert(starts[l - 1] == below[l - 1]);
            } else {
                assert(r[node as int][l] == mid[node as int][l]);
            }
        }
        assert forall|l: int| l > level implies #[trigger] agree_on(r, nodes, l) by {
            assert(agree_on(r, mid, l));
            assert(agree_on(mid, nodes, l));
            agreeing(r, mid, nodes, l);
        }
        assert forall|i: int| 0 <= i < r.len() implies (#[trigger] r[i]).len()
            == nodes[i].len() by {
            assert(mid[i].len() == nodes[i].len());
        }
        starts
    }
}

proof fn same_level_is_linked<F: Fn(&[u32], &[u32]) -> u32>(
    f: F,
    b: Build,
    query: Seq<u32>,
    nodes: Seq<Seq<Seq<usize>>>,
    mid: Seq<Seq<Seq<usize>>>,
    r: Seq<Seq<Seq<usize>>>,
    node: usize,
    level: int,
    at: int,
)
    requires
        hnsw_link::same_shape(mid, nodes),
        agree_on(r, mid, level),
        node < nodes.len(),
        0 <= level < nodes[node as int].len(),
        is_linked_from(f, b, query, nodes, mid, node, level, at),
        others_are_linked(f, b, nodes, mid, node, level),
    ensures
        is_linked_from(f, b, query, nodes, r, node, level, at),
        others_are_linked(f, b, nodes, r, node, level),
{
    assert(mid[node as int].len() == nodes[node as int].len());
    assert(r[node as int].len() == mid[node as int].len());
    assert(r[node as int][level] == mid[node as int][level]);
    assert forall|i: int| 0 <= i < nodes.len() && i != node && level < nodes[i].len() implies #[trigger] r[i][level]
        == (if r[node as int][level].contains(i as usize) {
        hnsw_link::pruned(
            f,
            b.values,
            b.dimension,
            i,
            nodes[i][level].push(node),
            most_on(b, level),
        )
    } else {
        nodes[i][level]
    }) by {
        assert(mid[i].len() == nodes[i].len());
        assert(r[i].len() == mid[i].len());
        assert(r[i][level] == mid[i][level]);
    }
    let now = choose|now: Seq<Seq<Seq<usize>>>|
        {
            let found = #[trigger] layer::found(
                f,
                b.values,
                b.dimension,
                query,
                now,
                level,
                at,
                b.ef_construction,
            );
            &&& agree_on(now, nodes, level)
            &&& mid[node as int][level].len() == (if found.len() < most_on(b, level) {
                found.len()
            } else {
                most_on(b, level)
            })
            &&& forall|j: int|
                0 <= j < mid[node as int][level].len() ==> #[trigger] mid[node as int][level][j]
                    == found[j].id
        };
    let found = layer::found(
        f,
        b.values,
        b.dimension,
        query,
        now,
        level,
        at,
        b.ef_construction,
    );
    assert forall|j: int| 0 <= j < r[node as int][level].len() implies #[trigger] r[node as int][level][j]
        == found[j].id by {
        assert(mid[node as int][level][j] == found[j].id);
    }
}

proof fn from_lists_before<F: Fn(&[u32], &[u32]) -> u32>(
    f: F,
    b: Build,
    query: Seq<u32>,
    nodes: Seq<Seq<Seq<usize>>>,
    mid: Seq<Seq<Seq<usize>>>,
    r: Seq<Seq<Seq<usize>>>,
    node: usize,
    level: int,
    at: int,
)
    requires
        agree_on(mid, nodes, level),
        0 <= level,
        is_linked_from(f, b, query, mid, r, node, level, at),
        others_are_linked(f, b, mid, r, node, level),
    ensures
        is_linked_from(f, b, query, nodes, r, node, level, at),
        others_are_linked(f, b, nodes, r, node, level),
{
    assert forall|i: int| 0 <= i < nodes.len() && i != node && level < nodes[i].len() implies #[trigger] r[i][level]
        == (if r[node as int][level].contains(i as usize) {
        hnsw_link::pruned(
            f,
            b.values,
            b.dimension,
            i,
            nodes[i][level].push(node),
            most_on(b, level),
        )
    } else {
        nodes[i][level]
    }) by {
        assert(mid[i].len() == nodes[i].len());
        assert(mid[i][level] == nodes[i][level]);
    }
    let now = choose|now: Seq<Seq<Seq<usize>>>|
        {
            let found = #[trigger] layer::found(
                f,
                b.values,
                b.dimension,
                query,
                now,
                level,
                at,
                b.ef_construction,
            );
            &&& agree_on(now, mid, level)
            &&& r[node as int][level].len() == (if found.len() < most_on(b, level) {
                found.len()
            } else {
                most_on(b, level)
            })
            &&& forall|j: int|
                0 <= j < r[node as int][level].len() ==> #[trigger] r[node as int][level][j]
                    == found[j].id
        };
    agreeing(now, mid, nodes, level);
    let found = layer::found(
        f,
        b.values,
        b.dimension,
        query,
        now,
        level,
        at,
        b.ef_construction,
    );
    assert(agree_on(now, nodes, level));
}

/// With empty lists for one more vector, linking it can start.
proof fn new_vectors_can_be_linked(b: Build, vector: Seq<u32>, level: nat, top: int)
    requires
        b.valid(),
        0 < b.nodes.len() < usize::MAX,
        vector.len() == b.dimension,
        top == (if level < b.level_count {
            level as int
        } else {
            b.level_count - 1
        }),
    ensures
        ({
            let was = b.nodes.push(hnsw_index::empty_lists(level + 1));
            let grown = Build { values: b.values + vector, nodes: was, ..b };
            hnsw_build::linking(grown, was, was, b.nodes.len() as usize, top)
        }),
{
    let was = b.nodes.push(hnsw_index::empty_lists(level + 1));
    let grown = Build { values: b.values + vector, nodes: was, ..b };
    hnsw_build::grown_links(b, level, top);
    assert forall|i: int, l: int| 0 <= i < was.len() && 0 <= l < was[i].len() implies (
    #[trigger] was[i][l]).len() <= hnsw_build::degree_on(grown, l) by {
        assert(was[i][l].len() <= hnsw_build::degree_on(b, l));
    }
}

/// A graph with one more vector has its components behind all others, lists for it on as
/// many levels as were asked for, and for the others as before. It is searched from the
/// new vector on if that is the first, or has more levels than all others. The new vector
/// is linked on all levels that others have too, from the highest of them down, starting
/// where a walk from the highest level ends; lists above do not change.
#[verifier::rlimit(60)]
#[verifier::spinoff_prover]
pub proof fn vectors_are_added<F: Fn(&[u32], &[u32]) -> u32>(
    f: F,
    b: Build,
    vector: Seq<u32>,
    level: nat,
) -> (starts: Seq<int>)
    requires
        b.valid(),
        b.nodes.len() < usize::MAX,
        vector.len() == b.dimension,
    ensures
        ({
            let r = hnsw_build::added(f, b, vector, level);
            let n = b.nodes.len();
            let top = if level < b.level_count {
                level as int
            } else {
                b.level_count - 1
            };
            let grown = Build { values: b.values + vector, ..b };
            &&& r.dimension == b.dimension
            &&& r.m == b.m
            &&& r.m0 == b.m0
            &&& r.ef_construction == b.ef_construction
            &&& r.ef_search == b.ef_search
            &&& r.values == b.values + vector
            &&& r.nodes.len() == n + 1
            &&& r.nodes[n as int].len() == level + 1
            &&& forall|i: int| 0 <= i < n ==> (#[trigger] r.nodes[i]).len() == b.nodes[i].len()
            &&& r.level_count == (if level + 1 > b.level_count {
                level + 1
            } else {
                b.level_count
            })
            &&& n > 0 ==> r.entry_point == (if level + 1 > b.level_count {
                n
            } else {
                b.entry_point
            })
            &&& n == 0 ==> r.entry_point == 0
            &&& n > 0 ==> {
                let was = b.nodes.push(hnsw_index::empty_lists(level + 1));
                &&& starts.len() == top + 1
                &&& starts[top] == hnsw::descended(
                    f,
                    r.values,
                    b.dimension,
                    vector,
                    was,
                    (b.level_count - 1) as nat,
                    level,
                    b.entry_point as int,
                )
                &&& forall|l: int|
                    0 <= l <= top ==> is_linked_from(
                        f,
                        grown,
                        vector,
                        was,
                        r.nodes,
                        n as usize,
                        l,
                        #[trigger] starts[l],
                    ) && others_are_linked(f, grown, was, r.nodes, n as usize, l)
                &&& forall|l: int|
                    0 < l <= top ==> starts[l - 1] == (if (#[trigger] r.nodes[n as int][l]).len()
                        > 0 {
                        r.nodes[n as int][l][0] as int
                    } else {
                        starts[l]
                    })
                &&& forall|l: int| l > top ==> #[trigger] agree_on(r.nodes, was, l)
            }
        }),
{
    let r = hnsw_build::added(f, b, vector, level);
    let n = b.nodes.len();
    let was = b.nodes.push(hnsw_index::empty_lists(level + 1));
    let top = if level < b.level_count {
        level as int
    } else {
        b.level_count - 1
    };
    let grown = Build { values: b.values + vector, nodes: was, ..b };
    let other = Build { values: b.values + vector, ..b };
    if n > 0 {
        let at = hnsw::descended(
            f,
            grown.values,
            b.dimension,
            vector,
            was,
            (b.level_count - 1) as nat,
            level,
            b.entry_point as int,
        );
        new_vectors_can_be_linked(b, vector, level, top);
        hnsw_build::start_has_level(f, b, vector, level);
        let starts = vectors_are_linked_on_all_levels(
            f,
            grown,
            vector,
            was,
            n as usize,
            top,
            at,
        );
        assert(r.nodes == hnsw_build::linked_down(f, grown, vector, was, n as usize, top, at));
        assert(r.nodes[n as int].len() == was[n as int].len());
        assert forall|i: int| 0 <= i < n implies (#[trigger] r.nodes[i]).len()
            == b.nodes[i].len() by {
            assert(r.nodes[i].len() == was[i].len());
        }
        assert forall|l: int| 0 <= l <= top implies is_linked_from(
            f,
            other,
            vector,
            was,
            r.nodes,
            n as usize,
            l,
            #[trigger] starts[l],
        ) && others_are_linked(f, other, was, r.nodes, n as usize, l) by {
            assert(is_linked_from(f, grown, vector, was, r.nodes, n as usize, l, starts[l]));
            assert(others_are_linked(f, grown, was, r.nodes, n as usize, l));
            assert(most_on(other, l) == most_on(grown, l));
            same_build(f, grown, other, vector, was, r.nodes, n as usize, l, starts[l]);
        }
        starts
    } else {
        Seq::empty()
    }
}

proof fn same_build<F: Fn(&[u32], &[u32]) -> u32>(
    f: F,
    a: Build,
    b: Build,
    query: Seq<u32>,
    before: Seq<Seq<Seq<usize>>>,
    after: Seq<Seq<Seq<usize>>>,
    node: usize,
    level: int,
    start: int,
)
    requires
        a.values == b.values,
        a.dimension == b.dimension,
        a.m == b.m,
        a.m0 == b.m0,
        a.ef_construction == b.ef_construction,
        is_linked_from(f, a, query, before, after, node, level, start),
        others_are_linked(f, a, before, after, node, level),
    ensures
        is_linked_from(f, b, query, before, after, node, level, start),
        others_are_linked(f, b, before, after, node, level),
{
    assert forall|i: int| 0 <= i < before.len() && i != node && level < before[i].len() implies #[trigger] after[i][level]
        == (if after[node as int][level].contains(i as usize) {
        hnsw_link::pruned(
            f,
            b.values,
            b.dimension,
            i,
            before[i][level].push(node),
            most_on(b, level),
        )
    } else {
        before[i][level]
    }) by {}
}

/// A new graph has no vectors. A vector keeps as many neighbors as are asked for, but from
/// 2 to 64, and twice as many on the lowest level; building looks at no fewer, and at no
/// fewer than searching does, which looks at one at least.
pub proof fn limits_of_graphs(dimension: nat, max_neighbors: nat, ef_search: nat)
    ensures
        ({
            let b = hnsw_build::nothing_built(dimension, max_neighbors, ef_search);
            &&& b.dimension == dimension
            &&& b.nodes.len() == 0
            &&& b.values.len() == 0
            &&& b.level_count == 0
            &&& 2 <= b.m <= 64
            &&& 2 <= max_neighbors <= 64 ==> b.m == max_neighbors
            &&& max_neighbors < 2 ==> b.m == 2
            &&& max_neighbors > 64 ==> b.m == 64
            &&& b.m0 == b.m + b.m
            &&& b.ef_construction >= b.m0 && b.ef_construction >= ef_search
            &&& b.ef_construction == b.m0 || b.ef_construction == ef_search
            &&& b.ef_search >= 1
            &&& ef_search >= 1 ==> b.ef_search == ef_search
            &&& ef_search == 0 ==> b.ef_search == 1
        }),
{
}

} // verus!
