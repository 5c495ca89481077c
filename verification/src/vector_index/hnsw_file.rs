//! Writing a graph of vectors as bytes.
use crate::floats;
use crate::ivf_file;
use crate::le;
use crate::vector;
use crate::vector_index;
use crate::vector_index::check_vectors;
use crate::vector_index::hnsw;
use crate::vector_index::hnsw_build;
use crate::vector_index::hnsw_build::{Build, HnswBuilder};
use crate::vector_index::hnsw_index;
use crate::vector_index::hnsw_index::Graph;
use crate::vector_index::hnsw_link;
use crate::vector_index::VectorIndexError;
use vstd::prelude::*;

verus! {

broadcast use crate::le::sizes;

/// Neighbors as they are stored.
pub open spec fn ids(list: Seq<usize>) -> Seq<u32> {
    list.map_values(|x: usize| x as u32)
}

/// The bytes of a list: how many neighbors, and the neighbors.
pub open spec fn list_bytes(list: Seq<usize>) -> Seq<u8> {
    le::bytes_of_u32(list.len() as u32) + le::bytes_of_u32s(ids(list))
}

/// The bytes of lists.
pub open spec fn lists_bytes(lists: Seq<Seq<usize>>) -> Seq<u8>
    decreases lists.len(),
{
    if lists.len() == 0 {
        Seq::empty()
    } else {
        lists_bytes(lists.drop_last()) + list_bytes(lists.last())
    }
}

/// The bytes of `k` zeros.
pub open spec fn filling(k: nat) -> Seq<u8>
    decreases k,
{
    if k == 0 {
        Seq::empty()
    } else {
        filling((k - 1) as nat) + le::bytes_of_u32(0)
    }
}

/// The bytes of a vector's lists: how many, the lists, and a zero for each of the
/// other levels.
pub open spec fn node_bytes(lists: Seq<Seq<usize>>, levels: nat) -> Seq<u8> {
    le::bytes_of_u32(lists.len() as u32) + lists_bytes(lists) + filling(
        (levels - lists.len()) as nat,
    )
}

/// The bytes of the lists of vectors.
pub open spec fn nodes_bytes(nodes: Seq<Seq<Seq<usize>>>, levels: nat) -> Seq<u8>
    decreases nodes.len(),
{
    if nodes.len() == 0 {
        Seq::empty()
    } else {
        nodes_bytes(nodes.drop_last(), levels) + node_bytes(nodes.last(), levels)
    }
}

/// The 24 bytes in front of the vectors.
pub open spec fn header_bytes(b: Build) -> Seq<u8> {
    le::bytes_of_u32(b.nodes.len() as u32) + le::bytes_of_u32(b.dimension as u32)
        + le::bytes_of_u32(b.m as u32) + le::bytes_of_u32(b.ef_search as u32) + le::bytes_of_u32(
        b.entry_point as u32,
    ) + le::bytes_of_u32(b.level_count as u32)
}

/// The bytes of a graph.
pub open spec fn hnsw_bytes(b: Build) -> Seq<u8> {
    header_bytes(b) + le::bytes_of_u32s(b.values) + nodes_bytes(b.nodes, b.level_count)
}

/// Lists for all levels, empty ones behind those that are there.
pub open spec fn filled(lists: Seq<Seq<usize>>, levels: nat) -> Seq<Seq<usize>> {
    lists + hnsw_index::empty_lists((levels - lists.len()) as nat)
}

/// The graph that is read of what was built.
pub open spec fn as_read(b: Build) -> Graph {
    Graph {
        dimension: b.dimension,
        values: b.values,
        nodes: b.nodes.map_values(|lists: Seq<Seq<usize>>| filled(lists, b.level_count)),
        entry_point: b.entry_point,
        ef_search: b.ef_search,
        max_level: (b.level_count - 1) as nat,
        m: b.m,
    }
}

/// Whether all numbers of a graph fit where they are stored.
pub open spec fn fits(b: Build) -> bool {
    &&& b.nodes.len() <= u32::MAX
    &&& b.dimension <= u32::MAX
    &&& b.ef_search <= u32::MAX
    &&& b.level_count <= u32::MAX
    &&& 4 * (b.nodes.len() * b.dimension) <= usize::MAX
}

proof fn list_read_back(buf: Seq<u8>, at: int, list: Seq<usize>, n: nat)
    requires
        0 <= at,
        at + list_bytes(list).len() <= buf.len(),
        buf.subrange(at, at + list_bytes(list).len()) == list_bytes(list),
        list.len() <= 0xffff,
        n <= u32::MAX,
        forall|j: int| 0 <= j < list.len() ==> #[trigger] list[j] < n,
    ensures
        hnsw_index::list_at(buf, at, n) == Ok::<(Seq<usize>, int), VectorIndexError>(
            (list, at + list_bytes(list).len()),
        ),
{
    let all = list_bytes(list);
    let stored = le::bytes_of_u32s(ids(list));
    let mine = buf.subrange(at, at + all.len());
    assert(buf.subrange(at, at + 4) =~= mine.subrange(0, 4));
    assert(all.subrange(0, 4) =~= le::bytes_of_u32(list.len() as u32));
    le::u32_round_trip(list.len() as u32);
    let count = ivf_file::u32_at(buf, at);
    assert(count == list.len());
    assert(all.subrange(4, all.len() as int) =~= stored);
    le::u32s_round_trip(ids(list));
    let read = Seq::new(count as nat, |i: int| ivf_file::u32_at(buf, at + 4 + 4 * i) as usize);
    assert forall|i: int| 0 <= i < list.len() implies read[i] == list[i] by {
        assert(buf.subrange(at + 4 + 4 * i, at + 8 + 4 * i) =~= mine.subrange(4 + 4 * i, 8 + 4 * i));
        assert(mine.subrange(4 + 4 * i, 8 + 4 * i) =~= stored.subrange(4 * i, 4 * i + 4));
        assert(le::u32s_of(stored)[i] == ids(list)[i]);
        assert(list[i] < n);
    }
    assert(read =~= list);
}

proof fn lists_read_back(buf: Seq<u8>, at: int, lists: Seq<Seq<usize>>, n: nat)
    requires
        0 <= at,
        at + lists_bytes(lists).len() <= buf.len(),
        buf.subrange(at, at + lists_bytes(lists).len()) == lists_bytes(lists),
        n <= u32::MAX,
        forall|l: int| 0 <= l < lists.len() ==> (#[trigger] lists[l]).len() <= 0xffff,
        forall|l: int, j: int|
            0 <= l < lists.len() && 0 <= j < lists[l].len() ==> #[trigger] lists[l][j] < n,
    ensures
        hnsw_index::lists_at(buf, at, lists.len(), n) == Ok::<
            (Seq<Seq<usize>>, int),
            VectorIndexError,
        >((lists, at + lists_bytes(lists).len())),
    decreases lists.len(),
{
    if lists.len() == 0 {
        assert(lists =~= Seq::empty());
    } else {
        let front = lists.drop_last();
        let last = lists.last();
        let all = lists_bytes(lists);
        let k = lists_bytes(front).len() as int;
        let mine = buf.subrange(at, at + all.len());
        assert(last == lists[lists.len() - 1]);
        assert(buf.subrange(at, at + k) =~= mine.subrange(0, k));
        assert(all.subrange(0, k) =~= lists_bytes(front));
        assert forall|l: int, j: int| 0 <= l < front.len() && 0 <= j < front[l].len() implies #[trigger] front[l][j]
            < n by {
            assert(lists[l][j] < n);
        }
        lists_read_back(buf, at, front, n);
        assert(buf.subrange(at + k, at + all.len()) =~= mine.subrange(k, all.len() as int));
        assert(all.subrange(k, all.len() as int) =~= list_bytes(last));
        assert forall|j: int| 0 <= j < last.len() implies #[trigger] last[j] < n by {
            assert(lists[lists.len() - 1][j] < n);
        }
        list_read_back(buf, at + k, last, n);
        assert(front.push(last) =~= lists);
    }
}

proof fn filling_read_back(buf: Seq<u8>, at: int, k: nat)
    requires
        0 <= at,
        at + filling(k).len() <= buf.len(),
        buf.subrange(at, at + filling(k).len()) == filling(k),
    ensures
        hnsw_index::filling_at(buf, at, k) == Ok::<int, VectorIndexError>(at + filling(k).len()),
    decreases k,
{
    if k > 0 {
        let all = filling(k);
        let front = filling((k - 1) as nat);
        let n = front.len() as int;
        let mine = buf.subrange(at, at + all.len());
        assert(buf.subrange(at, at + n) =~= mine.subrange(0, n));
        assert(all.subrange(0, n) =~= front);
        filling_read_back(buf, at, (k - 1) as nat);
        assert(buf.subrange(at + n, at + n + 4) =~= mine.subrange(n, n + 4));
        assert(all.subrange(n, n + 4) =~= le::bytes_of_u32(0));
        le::u32_round_trip(0);
    }
}

proof fn node_read_back(buf: Seq<u8>, at: int, lists: Seq<Seq<usize>>, levels: nat, n: nat)
    requires
        0 <= at,
        at + node_bytes(lists, levels).len() <= buf.len(),
        buf.subrange(at, at + node_bytes(lists, levels).len()) == node_bytes(lists, levels),
        lists.len() <= levels <= u32::MAX,
        n <= u32::MAX,
        forall|l: int| 0 <= l < lists.len() ==> (#[trigger] lists[l]).len() <= 0xffff,
        forall|l: int, j: int|
            0 <= l < lists.len() && 0 <= j < lists[l].len() ==> #[trigger] lists[l][j] < n,
    ensures
        hnsw_index::node_at(buf, at, levels, n) == Ok::<(Seq<Seq<usize>>, int), VectorIndexError>(
            (filled(lists, levels), at + node_bytes(lists, levels).len()),
        ),
{
    let all = node_bytes(lists, levels);
    let mine = buf.subrange(at, at + all.len());
    let k = lists_bytes(lists).len() as int;
    assert(buf.subrange(at, at + 4) =~= mine.subrange(0, 4));
    assert(all.subrange(0, 4) =~= le::bytes_of_u32(lists.len() as u32));
    le::u32_round_trip(lists.len() as u32);
    assert(buf.subrange(at + 4, at + 4 + k) =~= mine.subrange(4, 4 + k));
    assert(all.subrange(4, 4 + k) =~= lists_bytes(lists));
    lists_read_back(buf, at + 4, lists, n);
    assert(buf.subrange(at + 4 + k, at + all.len()) =~= mine.subrange(4 + k, all.len() as int));
    assert(all.subrange(4 + k, all.len() as int) =~= filling((levels - lists.len()) as nat));
    filling_read_back(buf, at + 4 + k, (levels - lists.len()) as nat);
}

proof fn nodes_read_back(buf: Seq<u8>, at: int, nodes: Seq<Seq<Seq<usize>>>, levels: nat, n: nat)
    requires
        0 <= at,
        at + nodes_bytes(nodes, levels).len() <= buf.len(),
        buf.subrange(at, at + nodes_bytes(nodes, levels).len()) == nodes_bytes(nodes, levels),
        levels <= u32::MAX,
        n <= u32::MAX,
        forall|i: int| 0 <= i < nodes.len() ==> (#[trigger] nodes[i]).len() <= levels,
        forall|i: int, l: int|
            0 <= i < nodes.len() && 0 <= l < nodes[i].len() ==> (#[trigger] nodes[i][l]).len()
                <= 0xffff,
        forall|i: int, l: int, j: int|
            0 <= i < nodes.len() && 0 <= l < nodes[i].len() && 0 <= j < nodes[i][l].len()
                ==> #[trigger] nodes[i][l][j] < n,
    ensures
        hnsw_index::nodes_at(buf, at, nodes.len(), levels, n) == Ok::<
            (Seq<Seq<Seq<usize>>>, int),
            VectorIndexError,
        >(
            (
                nodes.map_values(|lists: Seq<Seq<usize>>| filled(lists, levels)),
                at + nodes_bytes(nodes, levels).len(),
            ),
        ),
    decreases nodes.len(),
{
    let g = |lists: Seq<Seq<usize>>| filled(lists, levels);
    if nodes.len() == 0 {
        assert(nodes.map_values(g) =~= Seq::empty());
    } else {
        let front = nodes.drop_last();
        let last = nodes.last();
        let all = nodes_bytes(nodes, levels);
        let k = nodes_bytes(front, levels).len() as int;
        let mine = buf.subrange(at, at + all.len());
        assert(last == nodes[nodes.len() - 1]);
        assert(buf.subrange(at, at + k) =~= mine.subrange(0, k));
        assert(all.subrange(0, k) =~= nodes_bytes(front, levels));
        assert forall|i: int, l: int| 0 <= i < front.len() && 0 <= l < front[i].len() implies (
        #[trigger] front[i][l]).len() <= 0xffff by {
            assert(nodes[i][l].len() <= 0xffff);
        }
        assert forall|i: int, l: int, j: int|
            0 <= i < front.len() && 0 <= l < front[i].len() && 0 <= j < front[i][l].len() implies #[trigger] front[i][l][j]
            < n by {
            assert(nodes[i][l][j] < n);
        }
        nodes_read_back(buf, at, front, levels, n);
        assert(buf.subrange(at + k, at + all.len()) =~= mine.subrange(k, all.len() as int));
        assert(all.subrange(k, all.len() as int) =~= node_bytes(last, levels));
        let p = nodes.len() - 1;
        assert forall|l: int| 0 <= l < last.len() implies (#[trigger] last[l]).len() <= 0xffff by {
            assert(nodes[p][l].len() <= 0xffff);
        }
        assert forall|l: int, j: int| 0 <= l < last.len() && 0 <= j < last[l].len() implies #[trigger] last[l][j]
            < n by {
            assert(nodes[p][l][j] < n);
        }
        node_read_back(buf, at + k, last, levels, n);
        assert(nodes.map_values(g) =~= front.map_values(g).push(filled(last, levels)));
    }
}

/// A graph that is written is read back: the same vectors, and each on each level
/// with the same neighbors.
pub proof fn hnsw_round_trip(b: Build)
    requires
        b.valid(),
        b.nodes.len() > 0,
        fits(b),
    ensures
        hnsw_index::hnsw_of(hnsw_bytes(b)) == Ok::<Graph, VectorIndexError>(as_read(b)),
        as_read(b).searchable(),
        forall|i: int, l: int|
            0 <= i < b.nodes.len() && 0 <= l ==> #[trigger] hnsw::neighbors_of(
                as_read(b).nodes,
                i,
                l,
            ) == hnsw::neighbors_of(b.nodes, i, l),
{
    let buf = hnsw_bytes(b);
    let n = b.nodes.len();
    let stored = le::bytes_of_u32s(b.values);
    let start = 24 + 4 * (n * b.dimension);
    assert(0 < b.nodes[b.entry_point as int].len());
    assert(stored.len() == 4 * (n * b.dimension));
    assert(buf.subrange(0, 4) =~= le::bytes_of_u32(n as u32));
    assert(buf.subrange(4, 8) =~= le::bytes_of_u32(b.dimension as u32));
    assert(buf.subrange(8, 12) =~= le::bytes_of_u32(b.m as u32));
    assert(buf.subrange(12, 16) =~= le::bytes_of_u32(b.ef_search as u32));
    assert(buf.subrange(16, 20) =~= le::bytes_of_u32(b.entry_point as u32));
    assert(buf.subrange(20, 24) =~= le::bytes_of_u32(b.level_count as u32));
    le::u32_round_trip(n as u32);
    le::u32_round_trip(b.dimension as u32);
    le::u32_round_trip(b.m as u32);
    le::u32_round_trip(b.ef_search as u32);
    le::u32_round_trip(b.entry_point as u32);
    le::u32_round_trip(b.level_count as u32);
    assert(buf.subrange(24, start as int) =~= stored);
    le::u32s_round_trip(b.values);
    assert(buf.subrange(start as int, buf.len() as int) =~= nodes_bytes(b.nodes, b.level_count));
    assert forall|i: int, l: int| 0 <= i < b.nodes.len() && 0 <= l < b.nodes[i].len() implies (
    #[trigger] b.nodes[i][l]).len() <= 0xffff by {
        assert(b.nodes[i][l].len() <= hnsw_build::degree_on(b, l));
    }
    nodes_read_back(buf, start as int, b.nodes, b.level_count, n);
    let g = as_read(b);
    assert forall|i: int, l: int| 0 <= i < b.nodes.len() && 0 <= l implies #[trigger] hnsw::neighbors_of(
        g.nodes,
        i,
        l,
    ) == hnsw::neighbors_of(b.nodes, i, l) by {
        assert(g.nodes[i] == filled(b.nodes[i], b.level_count));
        if l < b.level_count {
            assert(hnsw::neighbors_of(g.nodes, i, l) =~= hnsw::neighbors_of(b.nodes, i, l));
        }
    }
    assert forall|i: int, l: int, j: int|
        0 <= i < g.nodes.len() && 0 <= l < g.nodes[i].len() && 0 <= j < g.nodes[i][l].len() implies #[trigger] g.nodes[i][l][j]
        < g.nodes.len() by {
        assert(hnsw::neighbors_of(g.nodes, i, l) == hnsw::neighbors_of(b.nodes, i, l));
        assert(b.nodes[i][l][j] < n);
    }
}

/// Appends a list.
fn put_list(out: &mut Vec<u8>, list: &Vec<usize>)
    ensures
        final(out)@ == old(out)@ + list_bytes(list@),
{
    let ghost front = out@;
    le::put_u32(
        out,
        #[verifier::truncate]
        (list.len() as u32),
    );
    let mut j: usize = 0;
    assert(le::bytes_of_u32s(ids(list@.take(0))) =~= Seq::empty());
    while j < list.len()
        invariant
            j <= list@.len(),
            out@ == front + le::bytes_of_u32(list@.len() as u32) + le::bytes_of_u32s(
                ids(list@.take(j as int)),
            ),
        decreases list@.len() - j,
    {
        let id: u32 = #[verifier::truncate]
        (list[j] as u32);
        le::put_u32(out, id);
        proof {
            let now = ids(list@.take(j as int));
            assert(ids(list@.take(j + 1)) =~= now.push(id));
            vector::u32s_grow(now, id);
            assert(out@ =~= front + le::bytes_of_u32(list@.len() as u32) + le::bytes_of_u32s(
                ids(list@.take(j + 1)),
            ));
        }
        j = j + 1;
    }
    assert(list@.take(j as int) =~= list@);
    assert(out@ =~= front + list_bytes(list@));
}

/// Appends the lists of a vector.
fn put_node(out: &mut Vec<u8>, lists: &Vec<Vec<usize>>, levels: usize)
    requires
        lists@.len() <= levels,
    ensures
        final(out)@ == old(out)@ + node_bytes(hnsw_index::node_lists(lists@), levels as nat),
{
    let ghost front = out@;
    let ghost all = hnsw_index::node_lists(lists@);
    le::put_u32(
        out,
        #[verifier::truncate]
        (lists.len() as u32),
    );
    let ghost mid = out@;
    let mut l: usize = 0;
    assert(all.take(0) =~= Seq::empty());
    assert(out@ =~= mid + lists_bytes(all.take(0)));
    while l < lists.len()
        invariant
            l <= lists@.len(),
            all == hnsw_index::node_lists(lists@),
            out@ == mid + lists_bytes(all.take(l as int)),
        decreases lists@.len() - l,
    {
        put_list(out, &lists[l]);
        proof {
            let next = all.take(l + 1);
            assert(next.drop_last() =~= all.take(l as int));
            assert(next.last() == lists@[l as int]@);
            assert(out@ =~= mid + lists_bytes(next));
        }
        l = l + 1;
    }
    assert(all.take(l as int) =~= all);
    let ghost done = out@;
    let mut q: usize = 0;
    let rest: usize = levels - lists.len();
    assert(out@ =~= done + filling(0));
    while q < rest
        invariant
            q <= rest,
            out@ == done + filling(q as nat),
        decreases rest - q,
    {
        le::put_u32(out, 0);
        assert(out@ =~= done + filling(q as nat + 1));
        q = q + 1;
    }
    assert(out@ =~= front + node_bytes(all, levels as nat));
}

impl HnswBuilder {
    /// Writes the graph.
    pub fn serialize(&self) -> (r: Vec<u8>)
        requires
            self@.valid(),
        ensures
            r@ == hnsw_bytes(self@),
    {
        let ghost b = self@;
        let mut out: Vec<u8> = Vec::new();
        le::put_u32(
            &mut out,
            #[verifier::truncate]
            (self.nodes.len() as u32),
        );
        le::put_u32(
            &mut out,
            #[verifier::truncate]
            (self.dimension as u32),
        );
        le::put_u32(
            &mut out,
            #[verifier::truncate]
            (self.m as u32),
        );
        le::put_u32(
            &mut out,
            #[verifier::truncate]
            (self.ef_search as u32),
        );
        le::put_u32(
            &mut out,
            #[verifier::truncate]
            (self.entry_point as u32),
        );
        le::put_u32(
            &mut out,
            #[verifier::truncate]
            (self.level_count as u32),
        );
        assert(out@ =~= header_bytes(b));
        let mut i: usize = 0;
        assert(le::bytes_of_u32s(b.values.take(0)) =~= Seq::empty());
        while i < self.values.len()
            invariant
                i <= self.values@.len(),
                b == self@,
                out@ == header_bytes(b) + le::bytes_of_u32s(b.values.take(i as int)),
            decreases self.values@.len() - i,
        {
            le::put_u32(&mut out, self.values[i]);
            proof {
                let now = b.values.take(i as int);
                assert(b.values.take(i + 1) =~= now.push(b.values[i as int]));
                vector::u32s_grow(now, b.values[i as int]);
                assert(out@ =~= header_bytes(b) + le::bytes_of_u32s(b.values.take(i + 1)));
            }
            i = i + 1;
        }
        assert(b.values.take(i as int) =~= b.values);
        let ghost front = out@;
        let mut node: usize = 0;
        assert(b.nodes.take(0) =~= Seq::empty());
        assert(out@ =~= front + nodes_bytes(b.nodes.take(0), b.level_count));
        while node < self.nodes.len()
            invariant
                node <= self.nodes@.len(),
                b == self@,
                b.valid(),
                out@ == front + nodes_bytes(b.nodes.take(node as int), b.level_count),
            decreases self.nodes@.len() - node,
        {
            assert(b.nodes[node as int] =~= hnsw_index::node_lists(self.nodes@[node as int]@));
            put_node(&mut out, &self.nodes[node], self.level_count);
            proof {
                let next = b.nodes.take(node + 1);
                assert(next.drop_last() =~= b.nodes.take(node as int));
                assert(next.last() == b.nodes[node as int]);
                assert(out@ =~= front + nodes_bytes(next, b.level_count));
            }
            node = node + 1;
        }
        assert(b.nodes.take(node as int) =~= b.nodes);
        out
    }
}

/// The graph of the first `k` vectors, added one after the other.
pub open spec fn built<F: Fn(&[u32], &[u32]) -> u32>(
    f: F,
    vectors: Seq<Seq<u32>>,
    levels: Seq<usize>,
    max_neighbors: nat,
    ef_search: nat,
    k: nat,
) -> Build
    decreases k,
{
    if k == 0 {
        hnsw_build::nothing_built(vectors[0].len(), max_neighbors, ef_search)
    } else {
        hnsw_build::added(
            f,
            built(f, vectors, levels, max_neighbors, ef_search, (k - 1) as nat),
            vectors[k - 1],
            levels[k - 1] as nat,
        )
    }
}

/// What is wrong with what a graph is to be built of.
pub open spec fn hnsw_check(
    vectors: Seq<Seq<u32>>,
    max_neighbors: nat,
    ef_search: nat,
) -> Option<VectorIndexError> {
    if vectors.len() == 0 {
        Some(VectorIndexError::NoVectors)
    } else if max_neighbors == 0 {
        Some(VectorIndexError::ZeroNeighbors)
    } else if ef_search == 0 {
        Some(VectorIndexError::ZeroSearch)
    } else {
        vector_index::vectors_check(vectors)
    }
}

/// Whether the first `k` vectors can be put into a graph, one after the other.
pub open spec fn build_comparable<F: Fn(&[u32], &[u32]) -> u32>(
    f: F,
    vectors: Seq<Seq<u32>>,
    levels: Seq<usize>,
    max_neighbors: nat,
    ef_search: nat,
    k: nat,
) -> bool
    decreases k,
{
    k == 0 || build_comparable(f, vectors, levels, max_neighbors, ef_search, (k - 1) as nat)
        && hnsw_build::add_comparable(
        f,
        built(f, vectors, levels, max_neighbors, ef_search, (k - 1) as nat),
        vectors[k - 1],
        levels[k - 1] as nat,
    )
}

/// The bytes of the graph of vectors, or why there is none: what it is to be built
/// of is wrong, or vectors cannot be compared because a distance is not a number.
pub open spec fn hnsw_outcome<F: Fn(&[u32], &[u32]) -> u32>(
    f: F,
    vectors: Seq<Seq<u32>>,
    levels: Seq<usize>,
    max_neighbors: nat,
    ef_search: nat,
) -> Result<Seq<u8>, VectorIndexError> {
    let n = vectors.len();
    match hnsw_check(vectors, max_neighbors, ef_search) {
        Some(e) => Err(e),
        None => if build_comparable(f, vectors, levels, max_neighbors, ef_search, n) {
            Ok(hnsw_bytes(built(f, vectors, levels, max_neighbors, ef_search, n)))
        } else {
            Err(VectorIndexError::NanDistance)
        },
    }
}

/// Where all distances between vectors are numbers, a graph can be built of them,
/// and it is valid.
pub proof fn numbers_are_built<F: Fn(&[u32], &[u32]) -> u32>(
    f: F,
    vectors: Seq<Seq<u32>>,
    levels: Seq<usize>,
    max_neighbors: nat,
    ef_search: nat,
    k: nat,
)
    requires
        hnsw_check(vectors, max_neighbors, ef_search) is None,
        k <= vectors.len() <= usize::MAX,
        forall|i: int, j: int|
            0 <= i < vectors.len() && 0 <= j < vectors.len() ==> !floats::is_nan(
                #[trigger] floats::distance(f, vectors[i], vectors[j]),
            ),
    ensures
        build_comparable(f, vectors, levels, max_neighbors, ef_search, k),
        built(f, vectors, levels, max_neighbors, ef_search, k).valid(),
        built(f, vectors, levels, max_neighbors, ef_search, k).nodes.len() == k,
    decreases k,
{
    let dim = vectors[0].len();
    if k == 0 {
        let b = hnsw_build::nothing_built(dim, max_neighbors, ef_search);
        assert(b.nodes.len() * b.dimension == 0) by (nonlinear_arith)
            requires
                b.nodes.len() == 0,
        ;
    } else {
        let i = k - 1;
        numbers_are_built(f, vectors, levels, max_neighbors, ef_search, i as nat);
        built_facts(f, vectors, levels, max_neighbors, ef_search, i as nat);
        let b = built(f, vectors, levels, max_neighbors, ef_search, i as nat);
        let part = vectors.take(k as int);
        let values = b.values + vectors[i];
        assert(vectors[i].len() == dim);
        assert(part.drop_last() =~= vectors.take(i));
        assert(part.last() == vectors[i]);
        assert(values == vector_index::flat(part));
        assert forall|q: int| 0 <= q < part.len() implies (#[trigger] part[q]).len() == dim by {
            assert(vectors[q].len() == dim);
        }
        vector_index::flat_rows(part, dim);
        assert(!hnsw_link::nan_between(f, values, dim, k)) by {
            assert forall|p: int, q: int| 0 <= p < k && 0 <= q < k implies !floats::is_nan(
                #[trigger] floats::distance(
                    f,
                    floats::row_of(values, dim, p),
                    floats::row_of(values, dim, q),
                ),
            ) by {
                assert(floats::row_of(values, dim, p) == part[p]);
                assert(floats::row_of(values, dim, q) == part[q]);
                assert(!floats::is_nan(floats::distance(f, vectors[p], vectors[q])));
            }
        }
        hnsw_build::numbers_are_added(f, b, vectors[i], levels[i] as nat);
        hnsw_build::added_is_valid(f, b, vectors[i], levels[i] as nat);
    }
}

proof fn incomparable_stays<F: Fn(&[u32], &[u32]) -> u32>(
    f: F,
    vectors: Seq<Seq<u32>>,
    levels: Seq<usize>,
    max_neighbors: nat,
    ef_search: nat,
    k: nat,
    n: nat,
)
    requires
        k <= n,
        !build_comparable(f, vectors, levels, max_neighbors, ef_search, k),
    ensures
        !build_comparable(f, vectors, levels, max_neighbors, ef_search, n),
    decreases n,
{
    if k < n {
        incomparable_stays(f, vectors, levels, max_neighbors, ef_search, k, (n - 1) as nat);
    }
}

/// What building changes and keeps.
proof fn built_facts<F: Fn(&[u32], &[u32]) -> u32>(
    f: F,
    vectors: Seq<Seq<u32>>,
    levels: Seq<usize>,
    max_neighbors: nat,
    ef_search: nat,
    k: nat,
)
    requires
        vectors.len() > 0,
        k <= vectors.len(),
    ensures
        built(f, vectors, levels, max_neighbors, ef_search, k).values == vector_index::flat(
            vectors.take(k as int),
        ),
        built(f, vectors, levels, max_neighbors, ef_search, k).dimension == vectors[0].len(),
    decreases k,
{
    if k == 0 {
        assert(vectors.take(0) =~= Seq::empty());
    } else {
        built_facts(f, vectors, levels, max_neighbors, ef_search, (k - 1) as nat);
        let next = vectors.take(k as int);
        assert(next.drop_last() =~= vectors.take(k - 1));
        assert(next.last() == vectors[k - 1]);
    }
}

/// Writes a graph of vectors. Vector `i` has lists on the levels up to
/// `levels[i]`.
pub fn encode_hnsw_index<F: Fn(&[u32], &[u32]) -> u32>(
    vectors: &[Vec<u32>],
    max_neighbors: usize,
    ef_search: usize,
    levels: &[usize],
    f: &F,
) -> (r: Result<Vec<u8>, VectorIndexError>)
    requires
        floats::is_distance(*f),
        levels@.len() >= vectors@.len(),
        forall|i: int| 0 <= i < levels@.len() ==> #[trigger] levels@[i] < u32::MAX,
    ensures
        ({
            let all = vector_index::components(vectors@);
            let outcome = hnsw_outcome(
                *f,
                all,
                levels@,
                max_neighbors as nat,
                ef_search as nat,
            );
            match r {
                Ok(bytes) => {
                    &&& outcome == Ok::<Seq<u8>, VectorIndexError>(bytes@)
                    &&& built(
                        *f,
                        all,
                        levels@,
                        max_neighbors as nat,
                        ef_search as nat,
                        all.len(),
                    ).valid()
                },
                Err(e) => outcome == Err::<Seq<u8>, VectorIndexError>(e),
            }
        }),
{
    if vectors.len() == 0 {
        return Err(VectorIndexError::NoVectors);
    }
    if max_neighbors == 0 {
        return Err(VectorIndexError::ZeroNeighbors);
    }
    if ef_search == 0 {
        return Err(VectorIndexError::ZeroSearch);
    }
    if let Some(e) = check_vectors(vectors) {
        return Err(e);
    }
    let ghost all = vector_index::components(vectors@);
    assert(all[0] == vectors@[0]@);
    let mut builder = HnswBuilder::new(vectors[0].len(), max_neighbors, ef_search);
    let n: usize = vectors.len();
    let mut i: usize = 0;
    while i < n
        invariant
            floats::is_distance(*f),
            levels@.len() >= vectors@.len(),
            forall|i: int| 0 <= i < levels@.len() ==> #[trigger] levels@[i] < u32::MAX,
            n == vectors@.len(),
            n > 0,
            all == vector_index::components(vectors@),
            hnsw_check(all, max_neighbors as nat, ef_search as nat) is None,
            i <= n,
            builder@.valid(),
            builder@.nodes.len() == i,
            builder@ == built(
                *f,
                all,
                levels@,
                max_neighbors as nat,
                ef_search as nat,
                i as nat,
            ),
            build_comparable(
                *f,
                all,
                levels@,
                max_neighbors as nat,
                ef_search as nat,
                i as nat,
            ),
        decreases n - i,
    {
        let ghost b = builder@;
        let level: usize = levels[i];
        assert(all[i as int] == vectors@[i as int]@);
        assert(all[i as int].len() == all[0].len());
        proof {
            built_facts(*f, all, levels@, max_neighbors as nat, ef_search as nat, i as nat);
            hnsw_build::added_is_valid(*f, b, all[i as int], level as nat);
        }
        match builder.add_vector(vectors[i].as_slice(), level, f) {
            Ok(_) => {},
            Err(e) => {
                proof {
                    incomparable_stays(
                        *f,
                        all,
                        levels@,
                        max_neighbors as nat,
                        ef_search as nat,
                        i as nat + 1,
                        n as nat,
                    );
                }
                return Err(e);
            },
        }
        i = i + 1;
    }
    Ok(builder.serialize())
}

} // verus!
