//! Searching a graph of vectors, level by level.
use crate::floats;
use vstd::prelude::*;

verus! {

/// The neighbors of vector `i` on a level; there are none above its levels.
pub open spec fn neighbors_of(nodes: Seq<Seq<Seq<usize>>>, i: int, level: int) -> Seq<usize> {
    if 0 <= i < nodes.len() && 0 <= level < nodes[i].len() {
        nodes[i][level]
    } else {
        Seq::empty()
    }
}

/// The lists of neighbors, by vector and level.
pub open spec fn lists_of(nodes: Seq<Vec<Vec<usize>>>) -> Seq<Seq<Seq<usize>>> {
    nodes.map_values(|node: Vec<Vec<usize>>| node@.map_values(|list: Vec<usize>| list@))
}

/// Whether all neighbors are among the vectors.
pub open spec fn all_within(nodes: Seq<Seq<Seq<usize>>>) -> bool {
    forall|i: int, l: int, j: int|
        0 <= i < nodes.len() && 0 <= l < nodes[i].len() && 0 <= j < nodes[i][l].len()
            ==> #[trigger] nodes[i][l][j] < nodes.len()
}

/// How many neighbors vector `i` has on a level.
pub fn degree(nodes: &Vec<Vec<Vec<usize>>>, i: usize, level: usize) -> (r: usize)
    requires
        i < nodes@.len(),
    ensures
        r == neighbors_of(lists_of(nodes@), i as int, level as int).len(),
        r > 0 ==> level < nodes@[i as int]@.len(),
        r > 0 ==> neighbors_of(lists_of(nodes@), i as int, level as int)
            == nodes@[i as int]@[level as int]@,
{
    if level < nodes[i].len() {
        nodes[i][level].len()
    } else {
        0
    }
}

/// The distance of vector `i` from a query.
pub open spec fn distance_to<F: Fn(&[u32], &[u32]) -> u32>(
    f: F,
    values: Seq<u32>,
    dim: nat,
    query: Seq<u32>,
    i: int,
) -> u32 {
    floats::distance(f, floats::row_of(values, dim, i), query)
}

/// The nearest to the query of vector `at` and the first `k` of a list; of equals
/// the first.
pub open spec fn nearest_near<F: Fn(&[u32], &[u32]) -> u32>(
    f: F,
    values: Seq<u32>,
    dim: nat,
    query: Seq<u32>,
    list: Seq<usize>,
    k: nat,
    at: int,
) -> int
    decreases k,
{
    if k == 0 {
        at
    } else {
        let best = nearest_near(f, values, dim, query, list, (k - 1) as nat, at);
        let next = list[k - 1] as int;
        if floats::is_below(
            distance_to(f, values, dim, query, next),
            distance_to(f, values, dim, query, best),
        ) {
            next
        } else {
            best
        }
    }
}

/// Where one ends up that goes from vector `at` to its nearest neighbor on a
/// level as long as that is nearer to the query.
pub open spec fn greedy<F: Fn(&[u32], &[u32]) -> u32>(
    f: F,
    values: Seq<u32>,
    dim: nat,
    query: Seq<u32>,
    nodes: Seq<Seq<Seq<usize>>>,
    level: int,
    at: int,
) -> int
    decreases floats::order_key(distance_to(f, values, dim, query, at)),
{
    let list = neighbors_of(nodes, at, level);
    let next = nearest_near(f, values, dim, query, list, list.len(), at);
    if floats::is_below(
        distance_to(f, values, dim, query, next),
        distance_to(f, values, dim, query, at),
    ) {
        greedy(f, values, dim, query, nodes, level, next)
    } else {
        at
    }
}

/// Where one ends up that does so on the levels from `top` down to the one above
/// `bottom`.
pub open spec fn descended<F: Fn(&[u32], &[u32]) -> u32>(
    f: F,
    values: Seq<u32>,
    dim: nat,
    query: Seq<u32>,
    nodes: Seq<Seq<Seq<usize>>>,
    top: nat,
    bottom: nat,
    at: int,
) -> int
    decreases top,
{
    if top <= bottom {
        at
    } else {
        descended(
            f,
            values,
            dim,
            query,
            nodes,
            (top - 1) as nat,
            bottom,
            greedy(f, values, dim, query, nodes, top as int, at),
        )
    }
}

/// The nearest is the vector itself or in the list, and none is nearer.
pub proof fn nearest_near_is_listed<F: Fn(&[u32], &[u32]) -> u32>(
    f: F,
    values: Seq<u32>,
    dim: nat,
    query: Seq<u32>,
    list: Seq<usize>,
    k: nat,
    at: int,
)
    requires
        k <= list.len(),
    ensures
        ({
            let best = nearest_near(f, values, dim, query, list, k, at);
            &&& best == at || floats::is_below(
                distance_to(f, values, dim, query, best),
                distance_to(f, values, dim, query, at),
            )
            &&& best == at || exists|j: int| 0 <= j < k && #[trigger] list[j] == best
            &&& forall|j: int|
                0 <= j < k ==> !floats::is_below(
                    distance_to(f, values, dim, query, #[trigger] list[j] as int),
                    distance_to(f, values, dim, query, best),
                )
        }),
    decreases k,
{
    if k > 0 {
        nearest_near_is_listed(f, values, dim, query, list, (k - 1) as nat, at);
        let before = nearest_near(f, values, dim, query, list, (k - 1) as nat, at);
        let best = nearest_near(f, values, dim, query, list, k, at);
        assert(list[k - 1] == list[k - 1]);
        assert forall|j: int| 0 <= j < k implies !floats::is_below(
            distance_to(f, values, dim, query, #[trigger] list[j] as int),
            distance_to(f, values, dim, query, best),
        ) by {
            if j < k - 1 {
                assert(!floats::is_below(
                    distance_to(f, values, dim, query, list[j] as int),
                    distance_to(f, values, dim, query, before),
                ));
            }
        }
    }
}

/// A walk to nearer neighbors ends among the vectors, no farther from the query
/// than it started, where no neighbor is nearer.
pub proof fn greedy_is_local_minimum<F: Fn(&[u32], &[u32]) -> u32>(
    f: F,
    values: Seq<u32>,
    dim: nat,
    query: Seq<u32>,
    nodes: Seq<Seq<Seq<usize>>>,
    level: int,
    at: int,
)
    requires
        all_within(nodes),
        0 <= at < nodes.len(),
    ensures
        ({
            let end = greedy(f, values, dim, query, nodes, level, at);
            let list = neighbors_of(nodes, end, level);
            &&& 0 <= end < nodes.len()
            &&& end == at || floats::is_below(
                distance_to(f, values, dim, query, end),
                distance_to(f, values, dim, query, at),
            )
            &&& forall|j: int|
                0 <= j < list.len() ==> !floats::is_below(
                    distance_to(f, values, dim, query, #[trigger] list[j] as int),
                    distance_to(f, values, dim, query, end),
                )
        }),
    decreases floats::order_key(distance_to(f, values, dim, query, at)),
{
    let list = neighbors_of(nodes, at, level);
    let next = nearest_near(f, values, dim, query, list, list.len(), at);
    nearest_near_is_listed(f, values, dim, query, list, list.len(), at);
    if floats::is_below(
        distance_to(f, values, dim, query, next),
        distance_to(f, values, dim, query, at),
    ) {
        let j = choose|j: int| 0 <= j < list.len() && #[trigger] list[j] == next;
        assert(nodes[at][level][j] < nodes.len());
        greedy_is_local_minimum(f, values, dim, query, nodes, level, next);
    }
}

/// A walk down the levels ends among the vectors.
pub proof fn descended_is_within<F: Fn(&[u32], &[u32]) -> u32>(
    f: F,
    values: Seq<u32>,
    dim: nat,
    query: Seq<u32>,
    nodes: Seq<Seq<Seq<usize>>>,
    top: nat,
    bottom: nat,
    at: int,
)
    requires
        all_within(nodes),
        0 <= at < nodes.len(),
    ensures
        0 <= descended(f, values, dim, query, nodes, top, bottom, at) < nodes.len(),
    decreases top,
{
    if top > bottom {
        greedy_is_local_minimum(f, values, dim, query, nodes, top as int, at);
        let next = greedy(f, values, dim, query, nodes, top as int, at);
        descended_is_within(f, values, dim, query, nodes, (top - 1) as nat, bottom, next);
    }
}

/// Goes from vector `at` to nearer neighbors on a level.
pub fn greedy_search<F: Fn(&[u32], &[u32]) -> u32>(
    values: &[u32],
    dim: usize,
    query: &[u32],
    nodes: &Vec<Vec<Vec<usize>>>,
    level: usize,
    at: usize,
    f: &F,
) -> (r: usize)
    requires
        floats::is_distance(*f),
        nodes@.len() * dim <= values@.len(),
        all_within(lists_of(nodes@)),
        at < nodes@.len(),
    ensures
        r as int == greedy(
            *f,
            values@,
            dim as nat,
            query@,
            lists_of(nodes@),
            level as int,
            at as int,
        ),
        r < nodes@.len(),
{
    let n: usize = nodes.len();
    let ghost lists = lists_of(nodes@);
    let mut current: usize = at;
    let mut current_dist: u32 = floats::measure(f, floats::row(values, dim, at, n), query);
    loop
        invariant
            floats::is_distance(*f),
            n == nodes@.len(),
            n * dim <= values@.len(),
            lists == lists_of(nodes@),
            all_within(lists),
            current < n,
            current_dist == distance_to(*f, values@, dim as nat, query@, current as int),
            greedy(*f, values@, dim as nat, query@, lists, level as int, current as int) == greedy(
                *f,
                values@,
                dim as nat,
                query@,
                lists,
                level as int,
                at as int,
            ),
        ensures
            current as int == greedy(
                *f,
                values@,
                dim as nat,
                query@,
                lists,
                level as int,
                at as int,
            ),
            current < n,
        decreases floats::order_key(current_dist),
    {
        let start: usize = current;
        let start_dist: u32 = current_dist;
        let count: usize = degree(nodes, start, level);
        let ghost list = neighbors_of(lists, start as int, level as int);
        let mut j: usize = 0;
        while j < count
            invariant
                floats::is_distance(*f),
                n == nodes@.len(),
                n * dim <= values@.len(),
                lists == lists_of(nodes@),
                all_within(lists),
                start < n,
                j <= count,
                count == list.len(),
                list == neighbors_of(lists, start as int, level as int),
                count > 0 ==> level < nodes@[start as int]@.len(),
                count > 0 ==> list == nodes@[start as int]@[level as int]@,
                current < n,
                current as int == nearest_near(
                    *f,
                    values@,
                    dim as nat,
                    query@,
                    list,
                    j as nat,
                    start as int,
                ),
                current_dist == distance_to(*f, values@, dim as nat, query@, current as int),
            decreases count - j,
        {
            let neighbor: usize = nodes[start][level][j];
            assert(lists[start as int][level as int][j as int] == neighbor);
            let dist: u32 = floats::measure(f, floats::row(values, dim, neighbor, n), query);
            if floats::below(dist, current_dist) {
                current_dist = dist;
                current = neighbor;
            }
            j = j + 1;
        }
        proof {
            nearest_near_is_listed(
                *f,
                values@,
                dim as nat,
                query@,
                list,
                list.len(),
                start as int,
            );
        }
        if !floats::below(current_dist, start_dist) {
            break;
        }
    }
    current
}

/// Goes from vector `at` to nearer neighbors on the levels from `top` down to the
/// one above `bottom`.
pub fn descend<F: Fn(&[u32], &[u32]) -> u32>(
    values: &[u32],
    dim: usize,
    query: &[u32],
    nodes: &Vec<Vec<Vec<usize>>>,
    top: usize,
    bottom: usize,
    at: usize,
    f: &F,
) -> (r: usize)
    requires
        floats::is_distance(*f),
        nodes@.len() * dim <= values@.len(),
        all_within(lists_of(nodes@)),
        at < nodes@.len(),
    ensures
        r as int == descended(
            *f,
            values@,
            dim as nat,
            query@,
            lists_of(nodes@),
            top as nat,
            bottom as nat,
            at as int,
        ),
        r < nodes@.len(),
{
    let mut level: usize = top;
    let mut current: usize = at;
    while level > bottom
        invariant
            floats::is_distance(*f),
            nodes@.len() * dim <= values@.len(),
            all_within(lists_of(nodes@)),
            current < nodes@.len(),
            descended(
                *f,
                values@,
                dim as nat,
                query@,
                lists_of(nodes@),
                level as nat,
                bottom as nat,
                current as int,
            ) == descended(
                *f,
                values@,
                dim as nat,
                query@,
                lists_of(nodes@),
                top as nat,
                bottom as nat,
                at as int,
            ),
        decreases level,
    {
        current = greedy_search(values, dim, query, nodes, level, current, f);
        level = level - 1;
    }
    current
}

} // verus!
