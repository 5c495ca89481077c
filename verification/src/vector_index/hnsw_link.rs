//! Linking a vector into one level of a graph.
use crate::floats;
use crate::ivf_flat;
use crate::topk;
use crate::topk::{Candidate, TopK};
use crate::vector_index::hnsw;
use crate::vector_index::VectorIndexError;
use vstd::prelude::*;

verus! {

/// The neighbors of vector `node` at their distances from it, by their places.
pub open spec fn scored<F: Fn(&[u32], &[u32]) -> u32>(
    f: F,
    values: Seq<u32>,
    dim: nat,
    node: int,
    list: Seq<usize>,
    n: nat,
) -> Seq<Candidate> {
    Seq::new(
        n,
        |j: int|
            Candidate {
                distance: floats::distance(
                    f,
                    floats::row_of(values, dim, node),
                    floats::row_of(values, dim, list[j] as int),
                ),
                id: j as u64,
            },
    )
}

/// The neighbors at these places.
pub open spec fn at_places(list: Seq<usize>, places: Seq<Candidate>) -> Seq<usize> {
    places.map_values(|c: Candidate| list[c.id as int])
}

/// What is left of the neighbors of vector `node`: the nearest `max`, nearest
/// first, if there are more.
pub open spec fn pruned<F: Fn(&[u32], &[u32]) -> u32>(
    f: F,
    values: Seq<u32>,
    dim: nat,
    node: int,
    list: Seq<usize>,
    max: nat,
) -> Seq<usize> {
    if list.len() <= max {
        list
    } else {
        at_places(list, topk::nearest(scored(f, values, dim, node, list, list.len()), max))
    }
}

/// The lists when one of them has been replaced.
pub open spec fn with_list(
    nodes: Seq<Seq<Seq<usize>>>,
    node: int,
    level: int,
    list: Seq<usize>,
) -> Seq<Seq<Seq<usize>>> {
    nodes.update(node, nodes[node].update(level, list))
}

/// The list with `x` in it.
pub open spec fn listed(list: Seq<usize>, x: usize) -> Seq<usize> {
    if list.contains(x) {
        list
    } else {
        list.push(x)
    }
}

/// The lists when vectors `node` and `other` have become neighbors on a level, and
/// `other` has kept its nearest.
pub open spec fn linked<F: Fn(&[u32], &[u32]) -> u32>(
    f: F,
    values: Seq<u32>,
    dim: nat,
    nodes: Seq<Seq<Seq<usize>>>,
    node: usize,
    other: usize,
    level: int,
    max: nat,
) -> Seq<Seq<Seq<usize>>> {
    let a = with_list(nodes, node as int, level, listed(nodes[node as int][level], other));
    let b = with_list(a, other as int, level, listed(a[other as int][level], node));
    with_list(
        b,
        other as int,
        level,
        pruned(f, values, dim, other as int, b[other as int][level], max),
    )
}

/// The lists when vector `node` has been linked with the first `k` of `chosen`.
pub open spec fn linked_all<F: Fn(&[u32], &[u32]) -> u32>(
    f: F,
    values: Seq<u32>,
    dim: nat,
    nodes: Seq<Seq<Seq<usize>>>,
    node: usize,
    chosen: Seq<Candidate>,
    k: nat,
    level: int,
    max: nat,
) -> Seq<Seq<Seq<usize>>>
    decreases k,
{
    if k == 0 {
        nodes
    } else {
        linked(
            f,
            values,
            dim,
            linked_all(f, values, dim, nodes, node, chosen, (k - 1) as nat, level, max),
            node,
            chosen[k - 1].id as usize,
            level,
            max,
        )
    }
}

/// The lists when vector `node` has been linked with all of `chosen`, and has kept
/// its nearest too.
pub open spec fn connected<F: Fn(&[u32], &[u32]) -> u32>(
    f: F,
    values: Seq<u32>,
    dim: nat,
    nodes: Seq<Seq<Seq<usize>>>,
    node: usize,
    chosen: Seq<Candidate>,
    level: int,
    max: nat,
) -> Seq<Seq<Seq<usize>>> {
    let a = linked_all(f, values, dim, nodes, node, chosen, chosen.len(), level, max);
    with_list(
        a,
        node as int,
        level,
        pruned(f, values, dim, node as int, a[node as int][level], max),
    )
}

/// Whether the neighbors of vector `node` can be compared, or need not be.
pub open spec fn prune_comparable<F: Fn(&[u32], &[u32]) -> u32>(
    f: F,
    values: Seq<u32>,
    dim: nat,
    node: int,
    list: Seq<usize>,
    max: nat,
) -> bool {
    list.len() > max ==> forall|j: int|
        0 <= j < list.len() ==> !floats::is_nan(
            #[trigger] floats::distance(
                f,
                floats::row_of(values, dim, node),
                floats::row_of(values, dim, list[j] as int),
            ),
        )
}

/// The neighbors of vector `other` when it has become one of `node`, before the
/// nearest are chosen.
pub open spec fn with_neighbor(
    nodes: Seq<Seq<Seq<usize>>>,
    node: usize,
    other: usize,
    level: int,
) -> Seq<usize> {
    let a = with_list(nodes, node as int, level, listed(nodes[node as int][level], other));
    listed(a[other as int][level], node)
}

/// Whether vector `node` can be linked with the first `k` of `chosen`: the
/// neighbors of each can be compared.
pub open spec fn link_comparable<F: Fn(&[u32], &[u32]) -> u32>(
    f: F,
    values: Seq<u32>,
    dim: nat,
    nodes: Seq<Seq<Seq<usize>>>,
    node: usize,
    chosen: Seq<Candidate>,
    k: nat,
    level: int,
    max: nat,
) -> bool
    decreases k,
{
    k == 0 || link_comparable(f, values, dim, nodes, node, chosen, (k - 1) as nat, level, max) && {
        let now = linked_all(f, values, dim, nodes, node, chosen, (k - 1) as nat, level, max);
        let other = chosen[k - 1].id as usize;
        prune_comparable(
            f,
            values,
            dim,
            other as int,
            with_neighbor(now, node, other, level),
            max,
        )
    }
}

/// Whether vector `node` can be linked with all of `chosen`.
pub open spec fn connect_comparable<F: Fn(&[u32], &[u32]) -> u32>(
    f: F,
    values: Seq<u32>,
    dim: nat,
    nodes: Seq<Seq<Seq<usize>>>,
    node: usize,
    chosen: Seq<Candidate>,
    level: int,
    max: nat,
) -> bool {
    let a = linked_all(f, values, dim, nodes, node, chosen, chosen.len(), level, max);
    link_comparable(f, values, dim, nodes, node, chosen, chosen.len(), level, max)
        && prune_comparable(f, values, dim, node as int, a[node as int][level], max)
}

proof fn incomparable_stays<F: Fn(&[u32], &[u32]) -> u32>(
    f: F,
    values: Seq<u32>,
    dim: nat,
    nodes: Seq<Seq<Seq<usize>>>,
    node: usize,
    chosen: Seq<Candidate>,
    k: nat,
    n: nat,
    level: int,
    max: nat,
)
    requires
        k <= n,
        !link_comparable(f, values, dim, nodes, node, chosen, k, level, max),
    ensures
        !link_comparable(f, values, dim, nodes, node, chosen, n, level, max),
    decreases n,
{
    if k < n {
        incomparable_stays(f, values, dim, nodes, node, chosen, k, (n - 1) as nat, level, max);
    }
}

/// Whether two of `n` vectors are at a distance that is not a number.
pub open spec fn nan_between<F: Fn(&[u32], &[u32]) -> u32>(
    f: F,
    values: Seq<u32>,
    dim: nat,
    n: nat,
) -> bool {
    exists|i: int, j: int|
        0 <= i < n && 0 <= j < n && floats::is_nan(
            #[trigger] floats::distance(
                f,
                floats::row_of(values, dim, i),
                floats::row_of(values, dim, j),
            ),
        )
}

/// Replacing a list changes just that one.
pub proof fn with_list_is_update(
    before: Seq<Vec<Vec<usize>>>,
    after: Seq<Vec<Vec<usize>>>,
    node: int,
    level: int,
)
    requires
        0 <= node < before.len(),
        before.len() == after.len(),
        0 <= level < before[node]@.len(),
        before[node]@.len() == after[node]@.len(),
        forall|i: int| 0 <= i < before.len() && i != node ==> #[trigger] before[i] == after[i],
        forall|l: int|
            0 <= l < before[node]@.len() && l != level ==> #[trigger] before[node]@[l]
                == after[node]@[l],
    ensures
        hnsw::lists_of(after) == with_list(
            hnsw::lists_of(before),
            node,
            level,
            after[node]@[level]@,
        ),
{
    let a = hnsw::lists_of(after);
    let b = with_list(hnsw::lists_of(before), node, level, after[node]@[level]@);
    assert forall|i: int| 0 <= i < a.len() implies a[i] == b[i] by {
        if i == node {
            assert(a[i] =~= b[i]);
        } else {
            assert(before[i] == after[i]);
        }
    }
    assert(a =~= b);
}

/// The nearest are among those that were scored.
pub proof fn places_are_within<F: Fn(&[u32], &[u32]) -> u32>(
    f: F,
    values: Seq<u32>,
    dim: nat,
    node: int,
    list: Seq<usize>,
    max: nat,
)
    requires
        list.len() <= u64::MAX,
    ensures
        topk::nearest(scored(f, values, dim, node, list, list.len()), max).len() == (if list.len()
            < max {
            list.len()
        } else {
            max
        }),
        forall|j: int|
            0 <= j < topk::nearest(scored(f, values, dim, node, list, list.len()), max).len()
                ==> #[trigger] topk::nearest(
                scored(f, values, dim, node, list, list.len()),
                max,
            )[j].id < list.len(),
        forall|j: int|
            0 <= j < pruned(f, values, dim, node, list, max).len() ==> list.contains(
                #[trigger] pruned(f, values, dim, node, list, max)[j],
            ),
        pruned(f, values, dim, node, list, max).len() <= max || list.len() <= max,
        pruned(f, values, dim, node, list, max).len() <= max,
{
    let all = scored(f, values, dim, node, list, list.len());
    let near = topk::nearest(all, max);
    topk::nearest_is_nearest(all, max);
    assert forall|j: int| 0 <= j < near.len() implies #[trigger] near[j].id < list.len() by {
        ivf_flat::nearest_are_candidates(all, max, j);
    }
    let p = pruned(f, values, dim, node, list, max);
    assert forall|j: int| 0 <= j < p.len() implies list.contains(#[trigger] p[j]) by {
        if list.len() > max {
            assert(near[j].id < list.len());
            assert(list[near[j].id as int] == p[j]);
        } else {
            assert(list[j] == p[j]);
        }
    }
}

/// Keeps the nearest `max` neighbors of a vector if there are more. Fails if they
/// cannot be compared then.
pub fn prune_connections<F: Fn(&[u32], &[u32]) -> u32>(
    values: &[u32],
    dim: usize,
    nodes: &mut Vec<Vec<Vec<usize>>>,
    node: usize,
    level: usize,
    max: usize,
    f: &F,
) -> (r: Result<(), VectorIndexError>)
    requires
        floats::is_distance(*f),
        old(nodes)@.len() * dim <= values@.len(),
        hnsw::all_within(hnsw::lists_of(old(nodes)@)),
        node < old(nodes)@.len(),
        level < old(nodes)@[node as int]@.len(),
    ensures
        ({
            let list = hnsw::lists_of(old(nodes)@)[node as int][level as int];
            match r {
                Ok(_) => prune_comparable(*f, values@, dim as nat, node as int, list, max as nat)
                    && hnsw::lists_of(final(nodes)@) == with_list(
                    hnsw::lists_of(old(nodes)@),
                    node as int,
                    level as int,
                    pruned(*f, values@, dim as nat, node as int, list, max as nat),
                ),
                Err(e) => e == VectorIndexError::NanDistance && !prune_comparable(
                    *f,
                    values@,
                    dim as nat,
                    node as int,
                    list,
                    max as nat,
                ),
            }
        }),
{
    let n: usize = nodes.len();
    let count: usize = nodes[node][level].len();
    let ghost lists = hnsw::lists_of(nodes@);
    let ghost list = nodes@[node as int]@[level as int]@;
    assert(lists[node as int][level as int] == list);
    if count <= max {
        assert(lists =~= with_list(lists, node as int, level as int, list)) by {
            assert(lists[node as int].update(level as int, list) =~= lists[node as int]);
        }
        return Ok(());
    }
    let mut top = TopK::new(max);
    let mut j: usize = 0;
    assert(scored(*f, values@, dim as nat, node as int, list, 0) =~= Seq::empty());
    while j < count
        invariant
            floats::is_distance(*f),
            n == nodes@.len(),
            n * dim <= values@.len(),
            nodes@ == old(nodes)@,
            lists == hnsw::lists_of(nodes@),
            hnsw::all_within(lists),
            node < n,
            level < nodes@[node as int]@.len(),
            list == nodes@[node as int]@[level as int]@,
            count == list.len(),
            j <= count,
            count > max,
            forall|q: int|
                0 <= q < j ==> !floats::is_nan(
                    #[trigger] floats::distance(
                        *f,
                        floats::row_of(values@, dim as nat, node as int),
                        floats::row_of(values@, dim as nat, list[q] as int),
                    ),
                ),
            top.limit() == max,
            top@ == topk::nearest(
                scored(*f, values@, dim as nat, node as int, list, j as nat),
                max as nat,
            ),
        decreases count - j,
    {
        let neighbor: usize = nodes[node][level][j];
        assert(lists[node as int][level as int][j as int] == neighbor);
        let dist: u32 = floats::measure(
            f,
            floats::row(values, dim, node, n),
            floats::row(values, dim, neighbor, n),
        );
        if floats::nan(dist) {
            assert(floats::is_nan(
                floats::distance(
                    *f,
                    floats::row_of(values@, dim as nat, node as int),
                    floats::row_of(values@, dim as nat, neighbor as int),
                ),
            ));
            return Err(VectorIndexError::NanDistance);
        }
        let x = Candidate { distance: dist, id: j as u64 };
        top.offer(x);
        proof {
            let now = scored(*f, values@, dim as nat, node as int, list, j as nat);
            let next = scored(*f, values@, dim as nat, node as int, list, j as nat + 1);
            assert(next.drop_last() =~= now);
            assert(next.last() == x);
        }
        j = j + 1;
    }
    let places = top.into_ranked();
    proof {
        places_are_within(*f, values@, dim as nat, node as int, list, max as nat);
    }
    let mut short: Vec<usize> = Vec::new();
    let mut q: usize = 0;
    while q < places.len()
        invariant
            nodes@ == old(nodes)@,
            node < nodes@.len(),
            level < nodes@[node as int]@.len(),
            list == nodes@[node as int]@[level as int]@,
            q <= places@.len(),
            count == list.len(),
            forall|i: int| 0 <= i < places@.len() ==> #[trigger] places@[i].id < list.len(),
            short@ =~= at_places(list, places@.take(q as int)),
        decreases places@.len() - q,
    {
        assert(places@[q as int].id < list.len());
        let at: usize = places[q].id as usize;
        short.push(nodes[node][level][at]);
        q = q + 1;
    }
    assert(places@.take(q as int) =~= places@);
    nodes[node][level] = short;
    proof {
        with_list_is_update(old(nodes)@, nodes@, node as int, level as int);
    }
    Ok(())
}

/// Tells whether a list holds `x`.
pub fn holds(list: &Vec<usize>, x: usize) -> (r: bool)
    ensures
        r == list@.contains(x),
{
    let mut i: usize = 0;
    while i < list.len()
        invariant
            i <= list@.len(),
            forall|j: int| 0 <= j < i ==> list@[j] != x,
        decreases list@.len() - i,
    {
        if list[i] == x {
            return true;
        }
        i = i + 1;
    }
    false
}

/// Puts `x` in a list of a vector if it is not there.
fn put_in_list(nodes: &mut Vec<Vec<Vec<usize>>>, node: usize, level: usize, x: usize)
    requires
        node < old(nodes)@.len(),
        level < old(nodes)@[node as int]@.len(),
    ensures
        hnsw::lists_of(final(nodes)@) == with_list(
            hnsw::lists_of(old(nodes)@),
            node as int,
            level as int,
            listed(hnsw::lists_of(old(nodes)@)[node as int][level as int], x),
        ),
        final(nodes)@.len() == old(nodes)@.len(),
        forall|i: int|
            0 <= i < old(nodes)@.len() ==> (#[trigger] final(nodes)@[i])@.len() == old(
                nodes,
            )@[i]@.len(),
{
    if !holds(&nodes[node][level], x) {
        nodes[node][level].push(x);
    }
    proof {
        with_list_is_update(old(nodes)@, nodes@, node as int, level as int);
    }
}

/// Links vector `node` with each of `chosen`; each of them, and `node` itself,
/// keeps its nearest `max` neighbors.
pub fn connect_new_node<F: Fn(&[u32], &[u32]) -> u32>(
    values: &[u32],
    dim: usize,
    nodes: &mut Vec<Vec<Vec<usize>>>,
    node: usize,
    chosen: &Vec<Candidate>,
    level: usize,
    max: usize,
    f: &F,
) -> (r: Result<(), VectorIndexError>)
    requires
        floats::is_distance(*f),
        old(nodes)@.len() * dim <= values@.len(),
        hnsw::all_within(hnsw::lists_of(old(nodes)@)),
        node < old(nodes)@.len(),
        level < old(nodes)@[node as int]@.len(),
        forall|j: int|
            0 <= j < chosen@.len() ==> (#[trigger] chosen@[j]).id < old(nodes)@.len() && level
                < old(nodes)@[chosen@[j].id as int]@.len(),
    ensures
        match r {
            Ok(_) => connect_comparable(
                *f,
                values@,
                dim as nat,
                hnsw::lists_of(old(nodes)@),
                node,
                chosen@,
                level as int,
                max as nat,
            ) && hnsw::lists_of(final(nodes)@) == connected(
                *f,
                values@,
                dim as nat,
                hnsw::lists_of(old(nodes)@),
                node,
                chosen@,
                level as int,
                max as nat,
            ),
            Err(e) => e == VectorIndexError::NanDistance && !connect_comparable(
                *f,
                values@,
                dim as nat,
                hnsw::lists_of(old(nodes)@),
                node,
                chosen@,
                level as int,
                max as nat,
            ),
        },
{
    let ghost begin = hnsw::lists_of(nodes@);
    let n: usize = nodes.len();
    let mut j: usize = 0;
    while j < chosen.len()
        invariant
            floats::is_distance(*f),
            n == old(nodes)@.len(),
            n * dim <= values@.len(),
            begin == hnsw::lists_of(old(nodes)@),
            begin.len() == n,
            node < n,
            j <= chosen@.len(),
            forall|i: int|
                0 <= i < chosen@.len() ==> (#[trigger] chosen@[i]).id < n && level
                    < begin[chosen@[i].id as int].len(),
            level < begin[node as int].len(),
            same_shape(hnsw::lists_of(nodes@), begin),
            hnsw::all_within(hnsw::lists_of(nodes@)),
            hnsw::lists_of(nodes@) == linked_all(
                *f,
                values@,
                dim as nat,
                begin,
                node,
                chosen@,
                j as nat,
                level as int,
                max as nat,
            ),
            link_comparable(
                *f,
                values@,
                dim as nat,
                begin,
                node,
                chosen@,
                j as nat,
                level as int,
                max as nat,
            ),
        decreases chosen@.len() - j,
    {
        let other: usize = chosen[j].id as usize;
        let ghost l0 = hnsw::lists_of(nodes@);
        proof {
            assert(begin[other as int].len() == l0[other as int].len());
            assert(begin[node as int].len() == l0[node as int].len());
        }
        put_in_list(nodes, node, level, other);
        let ghost l1 = hnsw::lists_of(nodes@);
        proof {
            listed_within(l0, node as int, level as int, other);
            assert(l1.len() == l0.len());
            assert(nodes@.len() == l1.len());
            assert(l1[other as int].len() == l0[other as int].len());
            assert(nodes@[other as int]@.len() == l1[other as int].len());
        }
        put_in_list(nodes, other, level, node);
        let ghost l2 = hnsw::lists_of(nodes@);
        let held: usize = nodes[other][level].len();
        proof {
            assert(held == l2[other as int][level as int].len());
            listed_within(l1, other as int, level as int, node);
            assert(nodes@[other as int]@.len() == l2[other as int].len());
        }
        match prune_connections(values, dim, nodes, other, level, max, f) {
            Ok(_) => {},
            Err(e) => {
                proof {
                    incomparable_stays(
                        *f,
                        values@,
                        dim as nat,
                        begin,
                        node,
                        chosen@,
                        j as nat + 1,
                        chosen@.len(),
                        level as int,
                        max as nat,
                    );
                }
                return Err(e);
            },
        }
        proof {
            let list = l2[other as int][level as int];
            places_are_within(*f, values@, dim as nat, other as int, list, max as nat);
            part_within(
                l2,
                other as int,
                level as int,
                pruned(*f, values@, dim as nat, other as int, list, max as nat),
            );
        }
        j = j + 1;
    }
    proof {
        assert(hnsw::lists_of(nodes@)[node as int].len() == begin[node as int].len());
    }
    prune_connections(values, dim, nodes, node, level, max, f)
}

/// Whether the vectors have as many lists each.
pub open spec fn same_shape(a: Seq<Seq<Seq<usize>>>, b: Seq<Seq<Seq<usize>>>) -> bool {
    a.len() == b.len() && forall|i: int| 0 <= i < a.len() ==> (#[trigger] a[i]).len() == b[i].len()
}

proof fn listed_within(nodes: Seq<Seq<Seq<usize>>>, node: int, level: int, x: usize)
    requires
        hnsw::all_within(nodes),
        0 <= node < nodes.len(),
        0 <= level < nodes[node].len(),
        x < nodes.len(),
    ensures
        hnsw::all_within(with_list(nodes, node, level, listed(nodes[node][level], x))),
{
    let t = with_list(nodes, node, level, listed(nodes[node][level], x));
    assert forall|i: int, l: int, j: int|
        0 <= i < t.len() && 0 <= l < t[i].len() && 0 <= j < t[i][l].len() implies #[trigger] t[i][l][j]
        < t.len() by {
        if i != node || l != level || j < nodes[i][l].len() {
            assert(nodes[i][l][j] < nodes.len());
        }
    }
}

proof fn part_within(nodes: Seq<Seq<Seq<usize>>>, node: int, level: int, list: Seq<usize>)
    requires
        hnsw::all_within(nodes),
        0 <= node < nodes.len(),
        0 <= level < nodes[node].len(),
        forall|j: int| 0 <= j < list.len() ==> nodes[node][level].contains(#[trigger] list[j]),
    ensures
        hnsw::all_within(with_list(nodes, node, level, list)),
{
    let t = with_list(nodes, node, level, list);
    assert forall|i: int, l: int, j: int|
        0 <= i < t.len() && 0 <= l < t[i].len() && 0 <= j < t[i][l].len() implies #[trigger] t[i][l][j]
        < t.len() by {
        if i != node || l != level {
            assert(nodes[i][l][j] < nodes.len());
        } else {
            assert(nodes[node][level].contains(list[j]));
            let q = choose|q: int|
                0 <= q < nodes[node][level].len() && nodes[node][level][q] == list[j];
            assert(nodes[node][level][q] < nodes.len());
        }
    }
}

} // verus!
