//! Searching one level of a graph of vectors.
use crate::floats;
use crate::topk;
use crate::topk::{place, Candidate};
use crate::vector_index::hnsw;
use crate::vector_index::hnsw::degree;
use crate::vector_index::VectorIndexError;
use vstd::prelude::*;

verus! {

/// How far a search has come: which vectors were met, which of them are still to
/// be looked at, and the nearest so far, both ranked.
#[verifier::ext_equal]
pub struct Search {
    pub visited: Seq<bool>,
    pub frontier: Seq<Candidate>,
    pub best: Seq<Candidate>,
}

/// Vector `i` at its distance from the query.
pub open spec fn candidate<F: Fn(&[u32], &[u32]) -> u32>(
    f: F,
    values: Seq<u32>,
    dim: nat,
    query: Seq<u32>,
    i: int,
) -> Candidate {
    Candidate { distance: hnsw::distance_to(f, values, dim, query, i), id: i as u64 }
}

/// A search that has met vector `entry`.
pub open spec fn started<F: Fn(&[u32], &[u32]) -> u32>(
    f: F,
    values: Seq<u32>,
    dim: nat,
    query: Seq<u32>,
    n: nat,
    entry: int,
) -> Search {
    let first = candidate(f, values, dim, query, entry);
    Search {
        visited: Seq::new(n, |i: int| i == entry),
        frontier: seq![first],
        best: seq![first],
    }
}

/// The search when it has met vector `x`: one met for the first time is kept if
/// there is room among the `ef` nearest, or if it is nearer than the last of them,
/// which then goes.
pub open spec fn met<F: Fn(&[u32], &[u32]) -> u32>(
    f: F,
    values: Seq<u32>,
    dim: nat,
    query: Seq<u32>,
    s: Search,
    ef: nat,
    x: int,
) -> Search {
    let c = candidate(f, values, dim, query, x);
    if s.visited[x] {
        s
    } else if s.best.len() < ef {
        Search {
            visited: s.visited.update(x, true),
            frontier: topk::placed(s.frontier, c),
            best: topk::placed(s.best, c),
        }
    } else if floats::is_below(c.distance, s.best.last().distance) {
        Search {
            visited: s.visited.update(x, true),
            frontier: topk::placed(s.frontier, c),
            best: topk::placed(s.best.drop_last(), c),
        }
    } else {
        Search { visited: s.visited.update(x, true), ..s }
    }
}

/// The search when it has met the first `k` of a list.
pub open spec fn met_all<F: Fn(&[u32], &[u32]) -> u32>(
    f: F,
    values: Seq<u32>,
    dim: nat,
    query: Seq<u32>,
    s: Search,
    ef: nat,
    list: Seq<usize>,
    k: nat,
) -> Search
    decreases k,
{
    if k == 0 {
        s
    } else {
        met(
            f,
            values,
            dim,
            query,
            met_all(f, values, dim, query, s, ef, list, (k - 1) as nat),
            ef,
            list[k - 1] as int,
        )
    }
}

/// How many vectors have not been met.
pub open spec fn unvisited(visited: Seq<bool>) -> nat
    decreases visited.len(),
{
    if visited.len() == 0 {
        0
    } else {
        unvisited(visited.drop_last()) + (if visited.last() {
            0nat
        } else {
            1nat
        })
    }
}

/// Whether a search is done: nothing is left to be looked at, or what is left is
/// farther away than the `ef` nearest.
pub open spec fn done(s: Search, ef: nat) -> bool {
    ||| s.frontier.len() == 0
    ||| floats::is_below(s.best.last().distance, s.frontier[0].distance) && s.best.len() >= ef
}

/// The search when the nearest vector of those to be looked at has been.
pub open spec fn looked<F: Fn(&[u32], &[u32]) -> u32>(
    f: F,
    values: Seq<u32>,
    dim: nat,
    query: Seq<u32>,
    nodes: Seq<Seq<Seq<usize>>>,
    level: int,
    s: Search,
    ef: nat,
) -> Search {
    let list = hnsw::neighbors_of(nodes, s.frontier[0].id as int, level);
    met_all(
        f,
        values,
        dim,
        query,
        Search { frontier: s.frontier.skip(1), ..s },
        ef,
        list,
        list.len(),
    )
}

/// Whether vectors to be looked at and neighbors are among the vectors.
pub open spec fn on_graph(nodes: Seq<Seq<Seq<usize>>>, s: Search) -> bool {
    &&& hnsw::all_within(nodes)
    &&& nodes.len() <= u64::MAX
    &&& s.visited.len() == nodes.len()
    &&& forall|j: int| 0 <= j < s.frontier.len() ==> (#[trigger] s.frontier[j]).id < nodes.len()
}

/// The search when it is done.
pub open spec fn run<F: Fn(&[u32], &[u32]) -> u32>(
    f: F,
    values: Seq<u32>,
    dim: nat,
    query: Seq<u32>,
    nodes: Seq<Seq<Seq<usize>>>,
    level: int,
    s: Search,
    ef: nat,
) -> Search
    decreases unvisited(s.visited), s.frontier.len(),
    when on_graph(nodes, s)
{
    if done(s, ef) {
        s
    } else {
        proof {
            looked_on(f, values, dim, query, nodes, level, s, ef);
        }
        run(
            f,
            values,
            dim,
            query,
            nodes,
            level,
            looked(f, values, dim, query, nodes, level, s, ef),
            ef,
        )
    }
}

/// What `run` finds when it starts at vector `entry`: the nearest, ranked.
pub open spec fn found<F: Fn(&[u32], &[u32]) -> u32>(
    f: F,
    values: Seq<u32>,
    dim: nat,
    query: Seq<u32>,
    nodes: Seq<Seq<Seq<usize>>>,
    level: int,
    entry: int,
    ef: nat,
) -> Seq<Candidate> {
    run(
        f,
        values,
        dim,
        query,
        nodes,
        level,
        started(f, values, dim, query, nodes.len(), entry),
        ef,
    ).best
}

/// Whether a vector that is met can be compared with those that are kept: one at a
/// distance that is not a number is kept only if it is the only one.
pub open spec fn met_comparable<F: Fn(&[u32], &[u32]) -> u32>(
    f: F,
    values: Seq<u32>,
    dim: nat,
    query: Seq<u32>,
    s: Search,
    ef: nat,
    x: int,
) -> bool {
    ||| s.visited[x]
    ||| s.best.len() >= ef
    ||| !floats::is_nan(hnsw::distance_to(f, values, dim, query, x)) && !floats::is_nan(
        s.best[0].distance,
    )
}

/// Whether the first `k` of a list can be compared with those that are kept when
/// they are met.
pub open spec fn list_comparable<F: Fn(&[u32], &[u32]) -> u32>(
    f: F,
    values: Seq<u32>,
    dim: nat,
    query: Seq<u32>,
    s: Search,
    ef: nat,
    list: Seq<usize>,
    k: nat,
) -> bool
    decreases k,
{
    k == 0 || list_comparable(f, values, dim, query, s, ef, list, (k - 1) as nat)
        && met_comparable(
        f,
        values,
        dim,
        query,
        met_all(f, values, dim, query, s, ef, list, (k - 1) as nat),
        ef,
        list[k - 1] as int,
    )
}

/// Whether all vectors that `run` meets can be compared with those that it keeps.
pub open spec fn run_comparable<F: Fn(&[u32], &[u32]) -> u32>(
    f: F,
    values: Seq<u32>,
    dim: nat,
    query: Seq<u32>,
    nodes: Seq<Seq<Seq<usize>>>,
    level: int,
    s: Search,
    ef: nat,
) -> bool
    decreases unvisited(s.visited), s.frontier.len(),
    when on_graph(nodes, s)
{
    if done(s, ef) {
        true
    } else {
        proof {
            looked_on(f, values, dim, query, nodes, level, s, ef);
        }
        let list = hnsw::neighbors_of(nodes, s.frontier[0].id as int, level);
        list_comparable(
            f,
            values,
            dim,
            query,
            Search { frontier: s.frontier.skip(1), ..s },
            ef,
            list,
            list.len(),
        ) && run_comparable(
            f,
            values,
            dim,
            query,
            nodes,
            level,
            looked(f, values, dim, query, nodes, level, s, ef),
            ef,
        )
    }
}

/// Whether all vectors that a search meets which starts at vector `entry` can be
/// compared with those that it keeps.
pub open spec fn comparable<F: Fn(&[u32], &[u32]) -> u32>(
    f: F,
    values: Seq<u32>,
    dim: nat,
    query: Seq<u32>,
    nodes: Seq<Seq<Seq<usize>>>,
    level: int,
    entry: int,
    ef: nat,
) -> bool {
    run_comparable(
        f,
        values,
        dim,
        query,
        nodes,
        level,
        started(f, values, dim, query, nodes.len(), entry),
        ef,
    )
}

proof fn incomparable_stays<F: Fn(&[u32], &[u32]) -> u32>(
    f: F,
    values: Seq<u32>,
    dim: nat,
    query: Seq<u32>,
    s: Search,
    ef: nat,
    list: Seq<usize>,
    k: nat,
    n: nat,
)
    requires
        k <= n,
        !list_comparable(f, values, dim, query, s, ef, list, k),
    ensures
        !list_comparable(f, values, dim, query, s, ef, list, n),
    decreases n,
{
    if k < n {
        incomparable_stays(f, values, dim, query, s, ef, list, k, (n - 1) as nat);
    }
}

/// Whether fewer vectors have not been met, or as many and fewer are to be looked
/// at.
pub open spec fn smaller(a: Search, b: Search) -> bool {
    ||| unvisited(a.visited) < unvisited(b.visited)
    ||| unvisited(a.visited) == unvisited(b.visited) && a.frontier.len() < b.frontier.len()
}

proof fn unvisited_update(visited: Seq<bool>, x: int)
    requires
        0 <= x < visited.len(),
        !visited[x],
    ensures
        unvisited(visited.update(x, true)) + 1 == unvisited(visited),
    decreases visited.len(),
{
    let v = visited.update(x, true);
    if x == visited.len() - 1 {
        assert(v.drop_last() =~= visited.drop_last());
    } else {
        assert(v.drop_last() =~= visited.drop_last().update(x, true));
        unvisited_update(visited.drop_last(), x);
    }
}

proof fn met_on<F: Fn(&[u32], &[u32]) -> u32>(
    f: F,
    values: Seq<u32>,
    dim: nat,
    query: Seq<u32>,
    nodes: Seq<Seq<Seq<usize>>>,
    s: Search,
    ef: nat,
    x: int,
)
    requires
        on_graph(nodes, s),
        0 <= x < nodes.len(),
    ensures
        ({
            let t = met(f, values, dim, query, s, ef, x);
            &&& on_graph(nodes, t)
            &&& t == s || unvisited(t.visited) < unvisited(s.visited)
        }),
{
    if !s.visited[x] {
        unvisited_update(s.visited, x);
        let c = candidate(f, values, dim, query, x);
        let p = topk::placed_is_insert(s.frontier, c);
        let t = met(f, values, dim, query, s, ef, x);
        assert forall|j: int| 0 <= j < t.frontier.len() implies (#[trigger] t.frontier[j]).id
            < nodes.len() by {
            if t.frontier != s.frontier {
                if j < p {
                    assert(t.frontier[j] == s.frontier[j]);
                } else if j > p {
                    assert(t.frontier[j] == s.frontier[j - 1]);
                }
            }
        }
    }
}

proof fn met_all_on<F: Fn(&[u32], &[u32]) -> u32>(
    f: F,
    values: Seq<u32>,
    dim: nat,
    query: Seq<u32>,
    nodes: Seq<Seq<Seq<usize>>>,
    s: Search,
    ef: nat,
    list: Seq<usize>,
    k: nat,
)
    requires
        on_graph(nodes, s),
        k <= list.len(),
        forall|j: int| 0 <= j < list.len() ==> #[trigger] list[j] < nodes.len(),
    ensures
        ({
            let t = met_all(f, values, dim, query, s, ef, list, k);
            &&& on_graph(nodes, t)
            &&& t == s || unvisited(t.visited) < unvisited(s.visited)
        }),
    decreases k,
{
    if k > 0 {
        met_all_on(f, values, dim, query, nodes, s, ef, list, (k - 1) as nat);
        let t = met_all(f, values, dim, query, s, ef, list, (k - 1) as nat);
        assert(list[k - 1] < nodes.len());
        met_on(f, values, dim, query, nodes, t, ef, list[k - 1] as int);
    }
}

/// With every vector looked at a search comes nearer to its end.
pub proof fn looked_on<F: Fn(&[u32], &[u32]) -> u32>(
    f: F,
    values: Seq<u32>,
    dim: nat,
    query: Seq<u32>,
    nodes: Seq<Seq<Seq<usize>>>,
    level: int,
    s: Search,
    ef: nat,
)
    requires
        on_graph(nodes, s),
        !done(s, ef),
    ensures
        on_graph(nodes, looked(f, values, dim, query, nodes, level, s, ef)),
        smaller(looked(f, values, dim, query, nodes, level, s, ef), s),
{
    let popped = Search { frontier: s.frontier.skip(1), ..s };
    let at = s.frontier[0].id as int;
    let list = hnsw::neighbors_of(nodes, at, level);
    assert forall|j: int| 0 <= j < list.len() implies #[trigger] list[j] < nodes.len() by {
        assert(nodes[at][level][j] < nodes.len());
    }
    assert forall|j: int| 0 <= j < popped.frontier.len() implies (#[trigger] popped.frontier[j]).id
        < nodes.len() by {
        assert(popped.frontier[j] == s.frontier[j + 1]);
    }
    met_all_on(f, values, dim, query, nodes, popped, ef, list, list.len());
}

/// Looks on a level for the `ef` vectors nearest to a query, starting at vector
/// `entry`. Fails if a vector would be kept that cannot be compared with another
/// that is kept.
pub fn search_layer<F: Fn(&[u32], &[u32]) -> u32>(
    values: &[u32],
    dim: usize,
    query: &[u32],
    nodes: &Vec<Vec<Vec<usize>>>,
    level: usize,
    entry: usize,
    ef: usize,
    f: &F,
) -> (r: Result<Vec<Candidate>, VectorIndexError>)
    requires
        floats::is_distance(*f),
        nodes@.len() * dim <= values@.len(),
        hnsw::all_within(hnsw::lists_of(nodes@)),
        entry < nodes@.len(),
        ef > 0,
    ensures
        match r {
            Ok(v) => comparable(
                *f,
                values@,
                dim as nat,
                query@,
                hnsw::lists_of(nodes@),
                level as int,
                entry as int,
                ef as nat,
            ) && v@ == found(
                *f,
                values@,
                dim as nat,
                query@,
                hnsw::lists_of(nodes@),
                level as int,
                entry as int,
                ef as nat,
            ),
            Err(e) => e == VectorIndexError::NanDistance && !comparable(
                *f,
                values@,
                dim as nat,
                query@,
                hnsw::lists_of(nodes@),
                level as int,
                entry as int,
                ef as nat,
            ),
        },
{
    let n: usize = nodes.len();
    let ghost lists = hnsw::lists_of(nodes@);
    let ghost d = dim as nat;
    let mut visited: Vec<bool> = vec![false; n];
    visited.set(entry, true);
    let entry_dist: u32 = floats::measure(f, floats::row(values, dim, entry, n), query);
    let first = Candidate { distance: entry_dist, id: entry as u64 };
    let mut frontier: Vec<Candidate> = vec![first];
    let mut best: Vec<Candidate> = vec![first];
    let ghost begin = started(*f, values@, d, query@, lists.len(), entry as int);
    assert(visited@ =~= begin.visited);
    assert(frontier@ =~= begin.frontier);
    assert(best@ =~= begin.best);
    while frontier.len() > 0 && !(best.len() >= ef && floats::below(
        best[best.len() - 1].distance,
        frontier[0].distance,
    ))
        invariant
            floats::is_distance(*f),
            n == nodes@.len(),
            n * dim <= values@.len(),
            lists == hnsw::lists_of(nodes@),
            lists.len() == n,
            d == dim,
            ef > 0,
            best@.len() > 0,
            on_graph(lists, (Search { visited: visited@, frontier: frontier@, best: best@ })),
            run(
                *f,
                values@,
                d,
                query@,
                lists,
                level as int,
                (Search { visited: visited@, frontier: frontier@, best: best@ }),
                ef as nat,
            ) == run(*f, values@, d, query@, lists, level as int, begin, ef as nat),
            run_comparable(
                *f,
                values@,
                d,
                query@,
                lists,
                level as int,
                (Search { visited: visited@, frontier: frontier@, best: best@ }),
                ef as nat,
            ) == run_comparable(*f, values@, d, query@, lists, level as int, begin, ef as nat),
            begin == started(*f, values@, d, query@, lists.len(), entry as int),
        decreases unvisited(visited@), frontier@.len(),
    {
        let ghost now = Search { visited: visited@, frontier: frontier@, best: best@ };
        proof {
            looked_on(*f, values@, d, query@, lists, level as int, now, ef as nat);
        }
        let next: Candidate = frontier.remove(0);
        let at: usize = next.id as usize;
        let ghost popped = Search { visited: visited@, frontier: frontier@, best: best@ };
        let ghost list = hnsw::neighbors_of(lists, at as int, level as int);
        proof {
            assert(frontier@ =~= now.frontier.skip(1));
            assert forall|j: int| 0 <= j < popped.frontier.len() implies (
            #[trigger] popped.frontier[j]).id < n by {
                assert(popped.frontier[j] == now.frontier[j + 1]);
            }
        }
        let count: usize = degree(nodes, at, level);
        let mut j: usize = 0;
        while j < count
            invariant
                floats::is_distance(*f),
                n == nodes@.len(),
                n * dim <= values@.len(),
                lists == hnsw::lists_of(nodes@),
                lists.len() == n,
                d == dim,
                ef > 0,
                at < n,
                j <= count,
                count == list.len(),
                list == hnsw::neighbors_of(lists, at as int, level as int),
                count > 0 ==> level < nodes@[at as int]@.len(),
                count > 0 ==> list == nodes@[at as int]@[level as int]@,
                on_graph(lists, popped),
                on_graph(lists, now),
                !done(now, ef as nat),
                now.frontier[0].id == at,
                popped == (Search { frontier: now.frontier.skip(1), ..now }),
                begin == started(*f, values@, d, query@, lists.len(), entry as int),
                run_comparable(*f, values@, d, query@, lists, level as int, now, ef as nat)
                    == run_comparable(*f, values@, d, query@, lists, level as int, begin, ef as nat),
                list_comparable(*f, values@, d, query@, popped, ef as nat, list, j as nat),
                best@.len() > 0,
                visited@.len() == n,
                (Search { visited: visited@, frontier: frontier@, best: best@ }) == met_all(
                    *f,
                    values@,
                    d,
                    query@,
                    popped,
                    ef as nat,
                    list,
                    j as nat,
                ),
            decreases count - j,
        {
            let neighbor: usize = nodes[at][level][j];
            assert(lists[at as int][level as int][j as int] == neighbor);
            let ghost before = Search { visited: visited@, frontier: frontier@, best: best@ };
            if !visited[neighbor] {
                visited.set(neighbor, true);
                let dist: u32 = floats::measure(f, floats::row(values, dim, neighbor, n), query);
                let c = Candidate { distance: dist, id: neighbor as u64 };
                if best.len() < ef {
                    if floats::nan(dist) || floats::nan(best[0].distance) {
                        proof {
                            assert(!met_comparable(
                                *f,
                                values@,
                                d,
                                query@,
                                before,
                                ef as nat,
                                neighbor as int,
                            ));
                            assert(!list_comparable(
                                *f,
                                values@,
                                d,
                                query@,
                                popped,
                                ef as nat,
                                list,
                                j as nat + 1,
                            ));
                            incomparable_stays(
                                *f,
                                values@,
                                d,
                                query@,
                                popped,
                                ef as nat,
                                list,
                                j as nat + 1,
                                list.len(),
                            );
                        }
                        return Err(VectorIndexError::NanDistance);
                    }
                    place(&mut best, c);
                    place(&mut frontier, c);
                } else if floats::below(dist, best[best.len() - 1].distance) {
                    best.pop();
                    assert(best@ =~= before.best.drop_last());
                    place(&mut best, c);
                    place(&mut frontier, c);
                }
                proof {
                    let p = topk::placed_is_insert(before.best, c);
                    if before.best.len() > 0 {
                        let q = topk::placed_is_insert(before.best.drop_last(), c);
                    }
                }
            }
            proof {
                let after = Search { visited: visited@, frontier: frontier@, best: best@ };
                assert(after =~= met(
                    *f,
                    values@,
                    d,
                    query@,
                    before,
                    ef as nat,
                    neighbor as int,
                ));
            }
            j = j + 1;
        }
    }
    Ok(best)
}

/// Whether a vector is in a list of a level.
pub open spec fn is_listed(nodes: Seq<Seq<Seq<usize>>>, level: int, i: int) -> bool {
    exists|a: int, j: int|
        0 <= j < hnsw::neighbors_of(nodes, a, level).len() && #[trigger] hnsw::neighbors_of(
            nodes,
            a,
            level,
        )[j] == i
}

/// Whether what is held are vectors that were met, at their distances.
pub open spec fn held<F: Fn(&[u32], &[u32]) -> u32>(
    f: F,
    values: Seq<u32>,
    dim: nat,
    query: Seq<u32>,
    visited: Seq<bool>,
    held: Seq<Candidate>,
) -> bool {
    forall|j: int|
        0 <= j < held.len() ==> (#[trigger] held[j]).id < visited.len() && visited[held[j].id as int]
            && held[j] == candidate(f, values, dim, query, held[j].id as int)
}

/// What holds of a search that started at `entry` all along.
pub open spec fn sound<F: Fn(&[u32], &[u32]) -> u32>(
    f: F,
    values: Seq<u32>,
    dim: nat,
    query: Seq<u32>,
    nodes: Seq<Seq<Seq<usize>>>,
    level: int,
    entry: int,
    s: Search,
    ef: nat,
) -> bool {
    &&& on_graph(nodes, s)
    &&& 0 < s.best.len() <= ef
    &&& topk::is_ranked(s.best)
    &&& topk::is_ranked(s.frontier)
    &&& s.best.no_duplicates()
    &&& held(f, values, dim, query, s.visited, s.best)
    &&& held(f, values, dim, query, s.visited, s.frontier)
    &&& 0 <= entry < nodes.len()
    &&& s.visited[entry]
    &&& forall|i: int|
        0 <= i < nodes.len() && #[trigger] s.visited[i] ==> i == entry || is_listed(nodes, level, i)
}

/// Whether each vector that was met is kept, or is not nearer than the last kept
/// and there was no room.
pub open spec fn kept_or_farther<F: Fn(&[u32], &[u32]) -> u32>(
    f: F,
    values: Seq<u32>,
    dim: nat,
    query: Seq<u32>,
    s: Search,
    ef: nat,
) -> bool {
    forall|i: int|
        0 <= i < s.visited.len() && #[trigger] s.visited[i] ==> kept(
            f,
            values,
            dim,
            query,
            s.best,
            ef,
            i,
        )
}

/// Whether a vector is kept, or is not nearer than the last kept and there is no
/// room.
pub open spec fn kept<F: Fn(&[u32], &[u32]) -> u32>(
    f: F,
    values: Seq<u32>,
    dim: nat,
    query: Seq<u32>,
    best: Seq<Candidate>,
    ef: nat,
    i: int,
) -> bool {
    let c = candidate(f, values, dim, query, i);
    best.contains(c) || best.len() >= ef && !floats::is_below(c.distance, best.last().distance)
}

/// Whether each vector that is kept, except `except`, is to be looked at or has
/// been.
pub open spec fn looked_or_ahead(
    nodes: Seq<Seq<Seq<usize>>>,
    level: int,
    s: Search,
    except: int,
) -> bool {
    forall|j: int|
        0 <= j < s.best.len() && (#[trigger] s.best[j]).id != except ==> s.frontier.contains(
            s.best[j],
        ) || all_visited(hnsw::neighbors_of(nodes, s.best[j].id as int, level), s.visited)
}

/// Whether all of a list have been met.
pub open spec fn all_visited(list: Seq<usize>, visited: Seq<bool>) -> bool {
    forall|j: int| 0 <= j < list.len() ==> visited[#[trigger] list[j] as int]
}

/// Whether no vector is at a distance that is not a number.
pub open spec fn no_nan<F: Fn(&[u32], &[u32]) -> u32>(
    f: F,
    values: Seq<u32>,
    dim: nat,
    query: Seq<u32>,
    n: nat,
) -> bool {
    forall|i: int| 0 <= i < n ==> !floats::is_nan(#[trigger] hnsw::distance_to(f, values, dim, query, i))
}

proof fn placed_members(s: Seq<Candidate>, x: Candidate)
    ensures
        topk::placed(s, x).contains(x),
        topk::placed(s, x).len() == s.len() + 1,
        topk::is_ranked(s) ==> topk::is_ranked(topk::placed(s, x)),
        forall|c: Candidate| s.contains(c) ==> #[trigger] topk::placed(s, x).contains(c),
        forall|j: int|
            0 <= j < topk::placed(s, x).len() ==> #[trigger] topk::placed(s, x)[j] == x || s.contains(
                topk::placed(s, x)[j],
            ),
        s.no_duplicates() && !s.contains(x) ==> topk::placed(s, x).no_duplicates(),
{
    let p = topk::placed_is_insert(s, x);
    let t = topk::placed(s, x);
    assert(t[p] == x);
    assert forall|c: Candidate| s.contains(c) implies #[trigger] t.contains(c) by {
        let i = choose|i: int| 0 <= i < s.len() && s[i] == c;
        if i < p {
            assert(t[i] == c);
        } else {
            assert(t[i + 1] == c);
        }
    }
    assert forall|j: int| 0 <= j < t.len() implies #[trigger] t[j] == x || s.contains(t[j]) by {
        if j < p {
            assert(t[j] == s[j]);
        } else if j > p {
            assert(t[j] == s[j - 1]);
        }
    }
    if s.no_duplicates() && !s.contains(x) {
        assert forall|i: int, j: int| 0 <= i < t.len() && 0 <= j < t.len() && i != j implies t[i]
            != t[j] by {
            let a = if i < p { i } else { i - 1 };
            let b = if j < p { j } else { j - 1 };
            if i == p {
                assert(t[j] == s[b]);
            } else if j == p {
                assert(t[i] == s[a]);
            } else {
                assert(t[i] == s[a] && t[j] == s[b]);
            }
        }
    }
}

proof fn met_sound<F: Fn(&[u32], &[u32]) -> u32>(
    f: F,
    values: Seq<u32>,
    dim: nat,
    query: Seq<u32>,
    nodes: Seq<Seq<Seq<usize>>>,
    level: int,
    entry: int,
    s: Search,
    ef: nat,
    x: int,
    except: int,
)
    requires
        sound(f, values, dim, query, nodes, level, entry, s, ef),
        looked_or_ahead(nodes, level, s, except),
        0 <= x < nodes.len(),
        is_listed(nodes, level, x),
    ensures
        ({
            let t = met(f, values, dim, query, s, ef, x);
            &&& sound(f, values, dim, query, nodes, level, entry, t, ef)
            &&& looked_or_ahead(nodes, level, t, except)
            &&& t.visited[x]
            &&& forall|i: int| 0 <= i < nodes.len() && s.visited[i] ==> #[trigger] t.visited[i]
        }),
{
    let t = met(f, values, dim, query, s, ef, x);
    met_on(f, values, dim, query, nodes, s, ef, x);
    if !s.visited[x] {
        let c = candidate(f, values, dim, query, x);
        placed_members(s.frontier, c);
        placed_members(s.best, c);
        let short = s.best.drop_last();
        placed_members(short, c);
        assert(!s.best.contains(c)) by {
            if s.best.contains(c) {
                let j = choose|j: int| 0 <= j < s.best.len() && s.best[j] == c;
                assert(s.visited[s.best[j].id as int]);
            }
        }
        assert(!short.contains(c)) by {
            if short.contains(c) {
                let j = choose|j: int| 0 <= j < short.len() && short[j] == c;
                assert(s.best[j] == c);
            }
        }
        assert(short.no_duplicates());
        assert(topk::is_ranked(short));
        assert forall|j: int| 0 <= j < t.best.len() implies (#[trigger] t.best[j]).id
            < t.visited.len() && t.visited[t.best[j].id as int] && t.best[j] == candidate(
            f,
            values,
            dim,
            query,
            t.best[j].id as int,
        ) by {
            if t.best[j] != c {
                if t.best != s.best {
                    assert(s.best.contains(t.best[j])) by {
                        if short.contains(t.best[j]) {
                            let q = choose|q: int| 0 <= q < short.len() && short[q] == t.best[j];
                            assert(s.best[q] == t.best[j]);
                        }
                    }
                }
                let q = choose|q: int| 0 <= q < s.best.len() && s.best[q] == t.best[j];
                assert(s.best[q] == t.best[j]) by {
                    if t.best == s.best {
                        assert(s.best[j] == t.best[j]);
                    }
                }
                assert(s.visited[s.best[q].id as int]);
            }
        }
        assert forall|j: int| 0 <= j < t.frontier.len() implies (#[trigger] t.frontier[j]).id
            < t.visited.len() && t.visited[t.frontier[j].id as int] && t.frontier[j] == candidate(
            f,
            values,
            dim,
            query,
            t.frontier[j].id as int,
        ) by {
            if t.frontier[j] != c {
                if t.frontier == s.frontier {
                    assert(s.frontier[j] == t.frontier[j]);
                } else {
                    assert(s.frontier.contains(t.frontier[j]));
                }
                let q = choose|q: int| 0 <= q < s.frontier.len() && s.frontier[q] == t.frontier[j];
                assert(s.visited[s.frontier[q].id as int]);
            }
        }
        assert forall|j: int| 0 <= j < t.best.len() && (#[trigger] t.best[j]).id != except implies
            t.frontier.contains(t.best[j]) || all_visited(
            hnsw::neighbors_of(nodes, t.best[j].id as int, level),
            t.visited,
        ) by {
            if t.best[j] != c {
                if t.best == s.best {
                    assert(s.best[j] == t.best[j]);
                } else {
                    assert(s.best.contains(t.best[j])) by {
                        if short.contains(t.best[j]) {
                            let q = choose|q: int| 0 <= q < short.len() && short[q] == t.best[j];
                            assert(s.best[q] == t.best[j]);
                        }
                    }
                }
                let q = choose|q: int| 0 <= q < s.best.len() && s.best[q] == t.best[j];
                assert(s.best[q].id != except);
                let list = hnsw::neighbors_of(nodes, t.best[j].id as int, level);
                if !t.frontier.contains(t.best[j]) {
                    assert(all_visited(list, s.visited));
                    assert forall|k: int| 0 <= k < list.len() implies t.visited[
                        #[trigger] list[k] as int
                    ] by {
                        assert(s.visited[list[k] as int]);
                    }
                }
            } else {
                assert(t.frontier.contains(c));
            }
        }
    }
}

proof fn met_all_sound<F: Fn(&[u32], &[u32]) -> u32>(
    f: F,
    values: Seq<u32>,
    dim: nat,
    query: Seq<u32>,
    nodes: Seq<Seq<Seq<usize>>>,
    level: int,
    entry: int,
    s: Search,
    ef: nat,
    at: int,
    k: nat,
)
    requires
        sound(f, values, dim, query, nodes, level, entry, s, ef),
        looked_or_ahead(nodes, level, s, at),
        0 <= at < nodes.len(),
        k <= hnsw::neighbors_of(nodes, at, level).len(),
    ensures
        ({
            let list = hnsw::neighbors_of(nodes, at, level);
            let t = met_all(f, values, dim, query, s, ef, list, k);
            &&& sound(f, values, dim, query, nodes, level, entry, t, ef)
            &&& looked_or_ahead(nodes, level, t, at)
            &&& forall|j: int| 0 <= j < k ==> t.visited[#[trigger] list[j] as int]
        }),
    decreases k,
{
    if k > 0 {
        let list = hnsw::neighbors_of(nodes, at, level);
        met_all_sound(f, values, dim, query, nodes, level, entry, s, ef, at, (k - 1) as nat);
        let before = met_all(f, values, dim, query, s, ef, list, (k - 1) as nat);
        let x = list[k - 1] as int;
        assert(nodes[at][level][k - 1] < nodes.len());
        assert(is_listed(nodes, level, x)) by {
            assert(hnsw::neighbors_of(nodes, at, level)[k - 1] == x);
        }
        met_sound(f, values, dim, query, nodes, level, entry, before, ef, x, at);
        let t = met_all(f, values, dim, query, s, ef, list, k);
        assert forall|j: int| 0 <= j < k implies t.visited[#[trigger] list[j] as int] by {
            if j < k - 1 {
                assert(nodes[at][level][j] < nodes.len());
                assert(before.visited[list[j] as int]);
            }
        }
    }
}

proof fn run_sound<F: Fn(&[u32], &[u32]) -> u32>(
    f: F,
    values: Seq<u32>,
    dim: nat,
    query: Seq<u32>,
    nodes: Seq<Seq<Seq<usize>>>,
    level: int,
    entry: int,
    s: Search,
    ef: nat,
)
    requires
        sound(f, values, dim, query, nodes, level, entry, s, ef),
        looked_or_ahead(nodes, level, s, -1),
    ensures
        ({
            let t = run(f, values, dim, query, nodes, level, s, ef);
            &&& sound(f, values, dim, query, nodes, level, entry, t, ef)
            &&& looked_or_ahead(nodes, level, t, -1)
            &&& done(t, ef)
        }),
    decreases unvisited(s.visited), s.frontier.len(),
{
    if !done(s, ef) {
        let next = looked(f, values, dim, query, nodes, level, s, ef);
        looked_on(f, values, dim, query, nodes, level, s, ef);
        looked_sound(f, values, dim, query, nodes, level, entry, s, ef);
        run_sound(f, values, dim, query, nodes, level, entry, next, ef);
    }
}

proof fn looked_sound<F: Fn(&[u32], &[u32]) -> u32>(
    f: F,
    values: Seq<u32>,
    dim: nat,
    query: Seq<u32>,
    nodes: Seq<Seq<Seq<usize>>>,
    level: int,
    entry: int,
    s: Search,
    ef: nat,
)
    requires
        sound(f, values, dim, query, nodes, level, entry, s, ef),
        looked_or_ahead(nodes, level, s, -1),
        !done(s, ef),
    ensures
        ({
            let t = looked(f, values, dim, query, nodes, level, s, ef);
            &&& sound(f, values, dim, query, nodes, level, entry, t, ef)
            &&& looked_or_ahead(nodes, level, t, -1)
        }),
{
    let popped = Search { frontier: s.frontier.skip(1), ..s };
    let at = s.frontier[0].id as int;
    let list = hnsw::neighbors_of(nodes, at, level);
    popped_sound(f, values, dim, query, nodes, level, entry, s, ef);
    met_all_sound(f, values, dim, query, nodes, level, entry, popped, ef, at, list.len());
    let t = looked(f, values, dim, query, nodes, level, s, ef);
    assert(all_visited(list, t.visited));
}

proof fn started_sound<F: Fn(&[u32], &[u32]) -> u32>(
    f: F,
    values: Seq<u32>,
    dim: nat,
    query: Seq<u32>,
    nodes: Seq<Seq<Seq<usize>>>,
    level: int,
    entry: int,
    ef: nat,
)
    requires
        hnsw::all_within(nodes),
        nodes.len() <= u64::MAX,
        0 <= entry < nodes.len(),
        ef > 0,
    ensures
        ({
            let s = started(f, values, dim, query, nodes.len(), entry);
            &&& sound(f, values, dim, query, nodes, level, entry, s, ef)
            &&& looked_or_ahead(nodes, level, s, -1)
        }),
{
    let s = started(f, values, dim, query, nodes.len(), entry);
    assert(s.frontier.contains(s.best[0]));
}

/// What a search on a level finds: at least one and at most `ef` vectors, ranked,
/// none twice, each at its distance from the query; and each is the one where the
/// search started or in a list of the level.
pub proof fn found_are_vectors<F: Fn(&[u32], &[u32]) -> u32>(
    f: F,
    values: Seq<u32>,
    dim: nat,
    query: Seq<u32>,
    nodes: Seq<Seq<Seq<usize>>>,
    level: int,
    entry: int,
    ef: nat,
)
    requires
        hnsw::all_within(nodes),
        nodes.len() <= u64::MAX,
        0 <= entry < nodes.len(),
        ef > 0,
    ensures
        ({
            let r = found(f, values, dim, query, nodes, level, entry, ef);
            &&& 0 < r.len() <= ef
            &&& topk::is_ranked(r)
            &&& r.no_duplicates()
            &&& forall|j: int|
                0 <= j < r.len() ==> (#[trigger] r[j]).id < nodes.len() && r[j] == candidate(
                    f,
                    values,
                    dim,
                    query,
                    r[j].id as int,
                ) && (r[j].id == entry || is_listed(nodes, level, r[j].id as int))
        }),
{
    let s = started(f, values, dim, query, nodes.len(), entry);
    started_sound(f, values, dim, query, nodes, level, entry, ef);
    run_sound(f, values, dim, query, nodes, level, entry, s, ef);
    let t = run(f, values, dim, query, nodes, level, s, ef);
    assert forall|j: int| 0 <= j < t.best.len() implies (#[trigger] t.best[j]).id < nodes.len()
        && t.best[j] == candidate(f, values, dim, query, t.best[j].id as int) && (t.best[j].id
        == entry || is_listed(nodes, level, t.best[j].id as int)) by {
        assert(t.visited[t.best[j].id as int]);
    }
}

proof fn met_kept<F: Fn(&[u32], &[u32]) -> u32>(
    f: F,
    values: Seq<u32>,
    dim: nat,
    query: Seq<u32>,
    nodes: Seq<Seq<Seq<usize>>>,
    level: int,
    entry: int,
    s: Search,
    ef: nat,
    x: int,
)
    requires
        sound(f, values, dim, query, nodes, level, entry, s, ef),
        kept_or_farther(f, values, dim, query, s, ef),
        no_nan(f, values, dim, query, nodes.len()),
        0 <= x < nodes.len(),
    ensures
        kept_or_farther(f, values, dim, query, met(f, values, dim, query, s, ef, x), ef),
{
    let t = met(f, values, dim, query, s, ef, x);
    if !s.visited[x] {
        let c = candidate(f, values, dim, query, x);
        let short = s.best.drop_last();
        placed_members(s.best, c);
        placed_members(short, c);
        assert(topk::is_ranked(short));
        assert(t.best.len() > 0);
        assert forall|i: int| 0 <= i < t.visited.len() && #[trigger] t.visited[i] implies kept(
            f,
            values,
            dim,
            query,
            t.best,
            ef,
            i,
        ) by {
            let ci = candidate(f, values, dim, query, i);
            if i != x {
                assert(s.visited[i]);
                assert(kept(f, values, dim, query, s.best, ef, i));
            }
            if s.best.len() >= ef && floats::is_below(c.distance, s.best.last().distance) {
                let last = s.best.last();
                assert(s.visited[last.id as int]) by {
                    assert(last == s.best[s.best.len() - 1]);
                }
                let new = t.best.last();
                assert(new == c || short.contains(new)) by {
                    assert(new == t.best[t.best.len() - 1]);
                }
                assert(floats::order_key(new.distance) <= floats::order_key(last.distance)) by {
                    if new != c {
                        let q = choose|q: int| 0 <= q < short.len() && short[q] == new;
                        assert(s.best[q] == new);
                        assert(!topk::precedes(s.best[s.best.len() - 1], s.best[q]));
                    }
                }
                if i != x {
                    if s.best.contains(ci) {
                        let q = choose|q: int| 0 <= q < s.best.len() && s.best[q] == ci;
                        if q < short.len() {
                            assert(short[q] == ci);
                        }
                    } else {
                        assert(!floats::is_nan(
                            hnsw::distance_to(f, values, dim, query, last.id as int),
                        ));
                        assert(last == s.best[s.best.len() - 1]);
                    }
                }
            }
        }
    }
}

proof fn met_all_kept<F: Fn(&[u32], &[u32]) -> u32>(
    f: F,
    values: Seq<u32>,
    dim: nat,
    query: Seq<u32>,
    nodes: Seq<Seq<Seq<usize>>>,
    level: int,
    entry: int,
    s: Search,
    ef: nat,
    at: int,
    k: nat,
)
    requires
        sound(f, values, dim, query, nodes, level, entry, s, ef),
        looked_or_ahead(nodes, level, s, at),
        kept_or_farther(f, values, dim, query, s, ef),
        no_nan(f, values, dim, query, nodes.len()),
        0 <= at < nodes.len(),
        k <= hnsw::neighbors_of(nodes, at, level).len(),
    ensures
        kept_or_farther(
            f,
            values,
            dim,
            query,
            met_all(f, values, dim, query, s, ef, hnsw::neighbors_of(nodes, at, level), k),
            ef,
        ),
    decreases k,
{
    if k > 0 {
        let list = hnsw::neighbors_of(nodes, at, level);
        met_all_kept(f, values, dim, query, nodes, level, entry, s, ef, at, (k - 1) as nat);
        met_all_sound(f, values, dim, query, nodes, level, entry, s, ef, at, (k - 1) as nat);
        let before = met_all(f, values, dim, query, s, ef, list, (k - 1) as nat);
        assert(nodes[at][level][k - 1] < nodes.len());
        met_kept(f, values, dim, query, nodes, level, entry, before, ef, list[k - 1] as int);
    }
}

proof fn run_kept<F: Fn(&[u32], &[u32]) -> u32>(
    f: F,
    values: Seq<u32>,
    dim: nat,
    query: Seq<u32>,
    nodes: Seq<Seq<Seq<usize>>>,
    level: int,
    entry: int,
    s: Search,
    ef: nat,
)
    requires
        sound(f, values, dim, query, nodes, level, entry, s, ef),
        looked_or_ahead(nodes, level, s, -1),
        kept_or_farther(f, values, dim, query, s, ef),
        no_nan(f, values, dim, query, nodes.len()),
    ensures
        kept_or_farther(
            f,
            values,
            dim,
            query,
            run(f, values, dim, query, nodes, level, s, ef),
            ef,
        ),
    decreases unvisited(s.visited), s.frontier.len(),
{
    if !done(s, ef) {
        let next = looked(f, values, dim, query, nodes, level, s, ef);
        let popped = Search { frontier: s.frontier.skip(1), ..s };
        let at = s.frontier[0].id as int;
        let list = hnsw::neighbors_of(nodes, at, level);
        looked_on(f, values, dim, query, nodes, level, s, ef);
        looked_sound(f, values, dim, query, nodes, level, entry, s, ef);
        popped_sound(f, values, dim, query, nodes, level, entry, s, ef);
        met_all_kept(f, values, dim, query, nodes, level, entry, popped, ef, at, list.len());
        run_kept(f, values, dim, query, nodes, level, entry, next, ef);
    }
}

/// A search on a level cannot be made better by a neighbor: each neighbor of a
/// vector that was found, and the vector where the search started, was found too,
/// or is not nearer to the query than the last of `ef` that were found.
pub proof fn found_is_local_optimum<F: Fn(&[u32], &[u32]) -> u32>(
    f: F,
    values: Seq<u32>,
    dim: nat,
    query: Seq<u32>,
    nodes: Seq<Seq<Seq<usize>>>,
    level: int,
    entry: int,
    ef: nat,
)
    requires
        hnsw::all_within(nodes),
        nodes.len() <= u64::MAX,
        0 <= entry < nodes.len(),
        ef > 0,
        no_nan(f, values, dim, query, nodes.len()),
    ensures
        ({
            let r = found(f, values, dim, query, nodes, level, entry, ef);
            &&& kept(f, values, dim, query, r, ef, entry)
            &&& forall|j: int, k: int|
                0 <= j < r.len() && 0 <= k < hnsw::neighbors_of(
                    nodes,
                    r[j].id as int,
                    level,
                ).len() ==> kept(
                    f,
                    values,
                    dim,
                    query,
                    r,
                    ef,
                    #[trigger] hnsw::neighbors_of(nodes, r[j].id as int, level)[k] as int,
                )
        }),
{
    let s = started(f, values, dim, query, nodes.len(), entry);
    started_sound(f, values, dim, query, nodes, level, entry, ef);
    assert(s.best[0] == candidate(f, values, dim, query, entry));
    assert(kept_or_farther(f, values, dim, query, s, ef));
    run_sound(f, values, dim, query, nodes, level, entry, s, ef);
    run_kept(f, values, dim, query, nodes, level, entry, s, ef);
    let t = run(f, values, dim, query, nodes, level, s, ef);
    let r = t.best;
    assert(t.visited[entry]);
    assert forall|j: int, k: int|
        0 <= j < r.len() && 0 <= k < hnsw::neighbors_of(nodes, r[j].id as int, level).len() implies kept(
        f,
        values,
        dim,
        query,
        r,
        ef,
        #[trigger] hnsw::neighbors_of(nodes, r[j].id as int, level)[k] as int,
    ) by {
        let c = r[j];
        let at = c.id as int;
        let list = hnsw::neighbors_of(nodes, at, level);
        assert(nodes[at][level][k] < nodes.len());
        if t.frontier.contains(c) {
            let q = choose|q: int| 0 <= q < t.frontier.len() && t.frontier[q] == c;
            assert(q > 0 ==> !topk::precedes(t.frontier[q], t.frontier[0]));
            assert(j < r.len() - 1 ==> !topk::precedes(r[r.len() - 1], r[j]));
            assert(false);
        }
        assert(all_visited(list, t.visited));
        assert(t.visited[list[k] as int]);
    }
}

proof fn list_of_numbers<F: Fn(&[u32], &[u32]) -> u32>(
    f: F,
    values: Seq<u32>,
    dim: nat,
    query: Seq<u32>,
    nodes: Seq<Seq<Seq<usize>>>,
    level: int,
    entry: int,
    s: Search,
    ef: nat,
    at: int,
    k: nat,
)
    requires
        sound(f, values, dim, query, nodes, level, entry, s, ef),
        looked_or_ahead(nodes, level, s, at),
        no_nan(f, values, dim, query, nodes.len()),
        0 <= at < nodes.len(),
        k <= hnsw::neighbors_of(nodes, at, level).len(),
    ensures
        list_comparable(
            f,
            values,
            dim,
            query,
            s,
            ef,
            hnsw::neighbors_of(nodes, at, level),
            k,
        ),
    decreases k,
{
    if k > 0 {
        let list = hnsw::neighbors_of(nodes, at, level);
        list_of_numbers(f, values, dim, query, nodes, level, entry, s, ef, at, (k - 1) as nat);
        met_all_sound(f, values, dim, query, nodes, level, entry, s, ef, at, (k - 1) as nat);
        let before = met_all(f, values, dim, query, s, ef, list, (k - 1) as nat);
        assert(nodes[at][level][k - 1] < nodes.len());
        assert(!floats::is_nan(hnsw::distance_to(f, values, dim, query, list[k - 1] as int)));
        let first = before.best[0];
        assert(first == candidate(f, values, dim, query, first.id as int));
        assert(!floats::is_nan(hnsw::distance_to(f, values, dim, query, first.id as int)));
    }
}

proof fn run_of_numbers<F: Fn(&[u32], &[u32]) -> u32>(
    f: F,
    values: Seq<u32>,
    dim: nat,
    query: Seq<u32>,
    nodes: Seq<Seq<Seq<usize>>>,
    level: int,
    entry: int,
    s: Search,
    ef: nat,
)
    requires
        sound(f, values, dim, query, nodes, level, entry, s, ef),
        looked_or_ahead(nodes, level, s, -1),
        no_nan(f, values, dim, query, nodes.len()),
    ensures
        run_comparable(f, values, dim, query, nodes, level, s, ef),
    decreases unvisited(s.visited), s.frontier.len(),
{
    if !done(s, ef) {
        let next = looked(f, values, dim, query, nodes, level, s, ef);
        let popped = Search { frontier: s.frontier.skip(1), ..s };
        let at = s.frontier[0].id as int;
        let list = hnsw::neighbors_of(nodes, at, level);
        looked_on(f, values, dim, query, nodes, level, s, ef);
        looked_sound(f, values, dim, query, nodes, level, entry, s, ef);
        popped_sound(f, values, dim, query, nodes, level, entry, s, ef);
        list_of_numbers(f, values, dim, query, nodes, level, entry, popped, ef, at, list.len());
        run_of_numbers(f, values, dim, query, nodes, level, entry, next, ef);
    }
}

proof fn popped_sound<F: Fn(&[u32], &[u32]) -> u32>(
    f: F,
    values: Seq<u32>,
    dim: nat,
    query: Seq<u32>,
    nodes: Seq<Seq<Seq<usize>>>,
    level: int,
    entry: int,
    s: Search,
    ef: nat,
)
    requires
        sound(f, values, dim, query, nodes, level, entry, s, ef),
        looked_or_ahead(nodes, level, s, -1),
        !done(s, ef),
    ensures
        ({
            let popped = Search { frontier: s.frontier.skip(1), ..s };
            &&& sound(f, values, dim, query, nodes, level, entry, popped, ef)
            &&& looked_or_ahead(nodes, level, popped, s.frontier[0].id as int)
        }),
{
    let popped = Search { frontier: s.frontier.skip(1), ..s };
    let at = s.frontier[0].id as int;
    assert forall|j: int| 0 <= j < popped.frontier.len() implies #[trigger] popped.frontier[j]
        == s.frontier[j + 1] by {}
    assert(topk::is_ranked(popped.frontier));
    assert forall|j: int| 0 <= j < popped.best.len() && (#[trigger] popped.best[j]).id != at implies
        popped.frontier.contains(popped.best[j]) || all_visited(
        hnsw::neighbors_of(nodes, popped.best[j].id as int, level),
        popped.visited,
    ) by {
        if s.frontier.contains(s.best[j]) {
            let q = choose|q: int| 0 <= q < s.frontier.len() && s.frontier[q] == s.best[j];
            assert(popped.frontier[q - 1] == s.best[j]);
        }
    }
}

/// Where all distances are numbers a search on a level does not fail.
pub proof fn numbers_are_comparable<F: Fn(&[u32], &[u32]) -> u32>(
    f: F,
    values: Seq<u32>,
    dim: nat,
    query: Seq<u32>,
    nodes: Seq<Seq<Seq<usize>>>,
    level: int,
    entry: int,
    ef: nat,
)
    requires
        hnsw::all_within(nodes),
        nodes.len() <= u64::MAX,
        0 <= entry < nodes.len(),
        ef > 0,
        no_nan(f, values, dim, query, nodes.len()),
    ensures
        comparable(f, values, dim, query, nodes, level, entry, ef),
{
    let s = started(f, values, dim, query, nodes.len(), entry);
    started_sound(f, values, dim, query, nodes, level, entry, ef);
    run_of_numbers(f, values, dim, query, nodes, level, entry, s, ef);
}

/// Whether those that are kept are at distances that are numbers, unless it is just
/// one.
pub open spec fn numbers_if_many(best: Seq<Candidate>) -> bool {
    best.len() > 1 ==> forall|j: int|
        0 <= j < best.len() ==> !floats::is_nan((#[trigger] best[j]).distance)
}

proof fn list_keeps_numbers<F: Fn(&[u32], &[u32]) -> u32>(
    f: F,
    values: Seq<u32>,
    dim: nat,
    query: Seq<u32>,
    s: Search,
    ef: nat,
    list: Seq<usize>,
    k: nat,
)
    requires
        s.best.len() > 0,
        ef > 0,
        numbers_if_many(s.best),
        list_comparable(f, values, dim, query, s, ef, list, k),
    ensures
        numbers_if_many(met_all(f, values, dim, query, s, ef, list, k).best),
        met_all(f, values, dim, query, s, ef, list, k).best.len() > 0,
    decreases k,
{
    if k > 0 {
        list_keeps_numbers(f, values, dim, query, s, ef, list, (k - 1) as nat);
        let b = met_all(f, values, dim, query, s, ef, list, (k - 1) as nat);
        let x = list[k - 1] as int;
        let t = met(f, values, dim, query, b, ef, x);
        let c = candidate(f, values, dim, query, x);
        let short = b.best.drop_last();
        placed_members(b.best, c);
        placed_members(short, c);
        if t.best.len() > 1 && t.best != b.best {
            assert forall|j: int| 0 <= j < t.best.len() implies !floats::is_nan(
                (#[trigger] t.best[j]).distance,
            ) by {
                if t.best[j] != c {
                    if b.best.len() < ef {
                        let q = choose|q: int| 0 <= q < b.best.len() && b.best[q] == t.best[j];
                        assert(!floats::is_nan(b.best[q].distance));
                    } else {
                        let q = choose|q: int| 0 <= q < short.len() && short[q] == t.best[j];
                        assert(!floats::is_nan(b.best[q].distance));
                    }
                }
            }
        }
    }
}

proof fn run_keeps_numbers<F: Fn(&[u32], &[u32]) -> u32>(
    f: F,
    values: Seq<u32>,
    dim: nat,
    query: Seq<u32>,
    nodes: Seq<Seq<Seq<usize>>>,
    level: int,
    s: Search,
    ef: nat,
)
    requires
        on_graph(nodes, s),
        s.best.len() > 0,
        ef > 0,
        numbers_if_many(s.best),
        run_comparable(f, values, dim, query, nodes, level, s, ef),
    ensures
        numbers_if_many(run(f, values, dim, query, nodes, level, s, ef).best),
    decreases unvisited(s.visited), s.frontier.len(),
{
    if !done(s, ef) {
        let popped = Search { frontier: s.frontier.skip(1), ..s };
        let list = hnsw::neighbors_of(nodes, s.frontier[0].id as int, level);
        looked_on(f, values, dim, query, nodes, level, s, ef);
        list_keeps_numbers(f, values, dim, query, popped, ef, list, list.len());
        run_keeps_numbers(
            f,
            values,
            dim,
            query,
            nodes,
            level,
            looked(f, values, dim, query, nodes, level, s, ef),
            ef,
        );
    }
}

/// Where a search on a level does not fail, all that is found is at distances that
/// are numbers, unless it is just one vector.
pub proof fn found_are_numbers<F: Fn(&[u32], &[u32]) -> u32>(
    f: F,
    values: Seq<u32>,
    dim: nat,
    query: Seq<u32>,
    nodes: Seq<Seq<Seq<usize>>>,
    level: int,
    entry: int,
    ef: nat,
)
    requires
        hnsw::all_within(nodes),
        nodes.len() <= u64::MAX,
        0 <= entry < nodes.len(),
        ef > 0,
        comparable(f, values, dim, query, nodes, level, entry, ef),
    ensures
        numbers_if_many(found(f, values, dim, query, nodes, level, entry, ef)),
{
    let s = started(f, values, dim, query, nodes.len(), entry);
    started_sound(f, values, dim, query, nodes, level, entry, ef);
    run_keeps_numbers(f, values, dim, query, nodes, level, s, ef);
}

} // verus!
