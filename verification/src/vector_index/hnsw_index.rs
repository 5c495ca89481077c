//! Graphs of vectors as bytes, and queries to them.
use crate::floats;
use crate::ivf_file;
use crate::le;
use crate::num;
use crate::topk::Candidate;
use crate::vector_index::brute_force;
use crate::vector_index::brute_force::as_search_results;
use crate::vector_index::hnsw;
use crate::vector_index::layer;
use crate::vector_index::{VectorIndexError, VectorSearchResult};
use vstd::prelude::*;

verus! {

broadcast use crate::le::sizes;

/// Vectors, and for each on each level its neighbors.
#[derive(Debug)]
pub struct HnswIndex {
    pub dimension: usize,
    /// The vectors, one behind the other.
    pub values: Vec<u32>,
    /// For each vector on each level its neighbors.
    pub nodes: Vec<Vec<Vec<usize>>>,
    pub entry_point: usize,
    pub ef_search: usize,
    pub max_level: usize,
    pub m: usize,
}

/// What a graph holds.
#[verifier::ext_equal]
pub struct Graph {
    pub dimension: nat,
    pub values: Seq<u32>,
    pub nodes: Seq<Seq<Seq<usize>>>,
    pub entry_point: nat,
    pub ef_search: nat,
    pub max_level: nat,
    pub m: nat,
}

impl View for HnswIndex {
    type V = Graph;

    open spec fn view(&self) -> Graph {
        Graph {
            dimension: self.dimension as nat,
            values: self.values@,
            nodes: hnsw::lists_of(self.nodes@),
            entry_point: self.entry_point as nat,
            ef_search: self.ef_search as nat,
            max_level: self.max_level as nat,
            m: self.m as nat,
        }
    }
}

impl Graph {
    /// Whether a search can start, and stays among the vectors.
    pub open spec fn searchable(self) -> bool {
        &&& self.entry_point < self.nodes.len()
        &&& self.ef_search > 0
        &&& self.values.len() == self.nodes.len() * self.dimension
        &&& hnsw::all_within(self.nodes)
    }
}

/// The list of neighbors that stands at `at`, and where it ends.
pub open spec fn list_at(b: Seq<u8>, at: int, n: nat) -> Result<
    (Seq<usize>, int),
    VectorIndexError,
> {
    let count = ivf_file::u32_at(b, at);
    let list = Seq::new(count as nat, |i: int| ivf_file::u32_at(b, at + 4 + 4 * i) as usize);
    if b.len() < at + 4 {
        Err(VectorIndexError::NeighborsTruncated)
    } else if 4 * count > usize::MAX {
        Err(VectorIndexError::SizeOverflow)
    } else if b.len() < at + 4 + 4 * count {
        Err(VectorIndexError::NeighborsTruncated)
    } else if exists|i: int| 0 <= i < list.len() && #[trigger] list[i] >= n {
        Err(VectorIndexError::NeighborOutOfBounds)
    } else {
        Ok((list, at + 4 + 4 * count))
    }
}

/// The `k` lists that stand at `at`, and where they end.
pub open spec fn lists_at(b: Seq<u8>, at: int, k: nat, n: nat) -> Result<
    (Seq<Seq<usize>>, int),
    VectorIndexError,
>
    decreases k,
{
    if k == 0 {
        Ok((Seq::empty(), at))
    } else {
        match lists_at(b, at, (k - 1) as nat, n) {
            Err(e) => Err(e),
            Ok((front, end)) => match list_at(b, end, n) {
                Err(e) => Err(e),
                Ok((list, next)) => Ok((front.push(list), next)),
            },
        }
    }
}

/// Where the filling of `k` zeros that stands at `at` ends.
pub open spec fn filling_at(b: Seq<u8>, at: int, k: nat) -> Result<int, VectorIndexError>
    decreases k,
{
    if k == 0 {
        Ok(at)
    } else {
        match filling_at(b, at, (k - 1) as nat) {
            Err(e) => Err(e),
            Ok(end) => if b.len() < end + 4 {
                Err(VectorIndexError::PaddingTruncated)
            } else if ivf_file::u32_at(b, end) != 0 {
                Err(VectorIndexError::PaddingNotZero)
            } else {
                Ok(end + 4)
            },
        }
    }
}

/// No lists.
pub open spec fn empty_lists(k: nat) -> Seq<Seq<usize>> {
    Seq::new(k, |i: int| Seq::<usize>::empty())
}

/// The lists of one vector, one for each of `levels` levels, that stand at `at`:
/// how many lists there are, the lists, and filling for the other levels.
pub open spec fn node_at(b: Seq<u8>, at: int, levels: nat, n: nat) -> Result<
    (Seq<Seq<usize>>, int),
    VectorIndexError,
> {
    let stored = ivf_file::u32_at(b, at) as nat;
    let count = if stored < levels {
        stored
    } else {
        levels
    };
    if b.len() < at + 4 {
        Err(VectorIndexError::AdjacencyTruncated)
    } else {
        match lists_at(b, at + 4, count, n) {
            Err(e) => Err(e),
            Ok((lists, end)) => match filling_at(b, end, (levels - count) as nat) {
                Err(e) => Err(e),
                Ok(next) => Ok((lists + empty_lists((levels - count) as nat), next)),
            },
        }
    }
}

/// The lists of `k` vectors that stand at `at`, and where they end.
pub open spec fn nodes_at(b: Seq<u8>, at: int, k: nat, levels: nat, n: nat) -> Result<
    (Seq<Seq<Seq<usize>>>, int),
    VectorIndexError,
>
    decreases k,
{
    if k == 0 {
        Ok((Seq::empty(), at))
    } else {
        match nodes_at(b, at, (k - 1) as nat, levels, n) {
            Err(e) => Err(e),
            Ok((front, end)) => match node_at(b, end, levels, n) {
                Err(e) => Err(e),
                Ok((node, next)) => Ok((front.push(node), next)),
            },
        }
    }
}

/// What the header says, if it is in order, and where the vectors end.
pub open spec fn header_check(b: Seq<u8>) -> Result<int, VectorIndexError> {
    let n = ivf_file::u32_at(b, 0);
    let dim = ivf_file::u32_at(b, 4);
    if b.len() < 24 {
        Err(VectorIndexError::HeaderTruncated)
    } else if n == 0 {
        Err(VectorIndexError::NoVectors)
    } else if dim == 0 {
        Err(VectorIndexError::ZeroDimension)
    } else if ivf_file::u32_at(b, 12) == 0 {
        Err(VectorIndexError::ZeroSearch)
    } else if ivf_file::u32_at(b, 16) >= n {
        Err(VectorIndexError::EntryPoint)
    } else if ivf_file::u32_at(b, 20) == 0 {
        Err(VectorIndexError::NoLevels)
    } else if 4 * (n * dim) > usize::MAX {
        Err(VectorIndexError::SizeOverflow)
    } else if b.len() < 24 + 4 * (n * dim) {
        Err(VectorIndexError::VectorsTruncated)
    } else {
        Ok(24 + 4 * (n * dim))
    }
}

/// The graph that bytes hold.
pub open spec fn hnsw_of(b: Seq<u8>) -> Result<Graph, VectorIndexError> {
    let n = ivf_file::u32_at(b, 0) as nat;
    let levels = ivf_file::u32_at(b, 20) as nat;
    match header_check(b) {
        Err(e) => Err(e),
        Ok(start) => match nodes_at(b, start, n, levels, n) {
            Err(e) => Err(e),
            Ok((nodes, end)) => if end != b.len() {
                Err(VectorIndexError::TrailingBytes)
            } else {
                Ok(
                    Graph {
                        dimension: ivf_file::u32_at(b, 4) as nat,
                        values: le::u32s_of(b.subrange(24, start)),
                        nodes,
                        entry_point: ivf_file::u32_at(b, 16) as nat,
                        ef_search: ivf_file::u32_at(b, 12) as nat,
                        max_level: (levels - 1) as nat,
                        m: ivf_file::u32_at(b, 8) as nat,
                    },
                )
            },
        },
    }
}

/// Reads one list of neighbors.
fn read_list(b: &[u8], at: usize, n: usize) -> (r: Result<(Vec<usize>, usize), VectorIndexError>)
    requires
        at <= b@.len(),
    ensures
        match list_at(b@, at as int, n as nat) {
            Ok((list, end)) => r is Ok && (r->Ok_0).0@ == list && (r->Ok_0).1 == end && end
                <= b@.len(),
            Err(e) => r is Err && r->Err_0 == e,
        },
{
    let len: usize = b.len();
    if len - at < 4 {
        return Err(VectorIndexError::NeighborsTruncated);
    }
    let count: u32 = ivf_file::get_u32_at(b, at);
    if 4 * (count as u128) > usize::MAX as u128 {
        return Err(VectorIndexError::SizeOverflow);
    }
    if ((len - at - 4) as u128) < 4 * (count as u128) {
        return Err(VectorIndexError::NeighborsTruncated);
    }
    let ghost all = Seq::new(
        count as nat,
        |i: int| ivf_file::u32_at(b@, at + 4 + 4 * i) as usize,
    );
    let mut list: Vec<usize> = Vec::new();
    let mut j: usize = 0;
    while j < count as usize
        invariant
            j <= count,
            len == b@.len(),
            at + 4 + 4 * count <= len,
            all == Seq::new(count as nat, |i: int| ivf_file::u32_at(b@, at + 4 + 4 * i) as usize),
            list@ =~= all.take(j as int),
            forall|i: int| 0 <= i < j ==> #[trigger] all[i] < n,
            count == ivf_file::u32_at(b@, at as int),
            4 * count <= usize::MAX,
        decreases count - j,
    {
        let idx: usize = ivf_file::get_u32_at(b, at + 4 + 4 * j) as usize;
        assert(all[j as int] == idx);
        if idx >= n {
            return Err(VectorIndexError::NeighborOutOfBounds);
        }
        list.push(idx);
        j = j + 1;
    }
    assert(all.take(j as int) =~= all);
    Ok((list, at + 4 + 4 * (count as usize)))
}

proof fn lists_stop(b: Seq<u8>, at: int, k: nat, all: nat, n: nat)
    requires
        k <= all,
        lists_at(b, at, k, n) is Err,
    ensures
        lists_at(b, at, all, n) == lists_at(b, at, k, n),
    decreases all,
{
    if k < all {
        lists_stop(b, at, k, (all - 1) as nat, n);
    }
}

proof fn filling_stops(b: Seq<u8>, at: int, k: nat, all: nat)
    requires
        k <= all,
        filling_at(b, at, k) is Err,
    ensures
        filling_at(b, at, all) == filling_at(b, at, k),
    decreases all,
{
    if k < all {
        filling_stops(b, at, k, (all - 1) as nat);
    }
}

proof fn nodes_stop(b: Seq<u8>, at: int, k: nat, all: nat, levels: nat, n: nat)
    requires
        k <= all,
        nodes_at(b, at, k, levels, n) is Err,
    ensures
        nodes_at(b, at, all, levels, n) == nodes_at(b, at, k, levels, n),
    decreases all,
{
    if k < all {
        nodes_stop(b, at, k, (all - 1) as nat, levels, n);
    }
}

/// The lists of one vector.
pub open spec fn node_lists(node: Seq<Vec<usize>>) -> Seq<Seq<usize>> {
    node.map_values(|list: Vec<usize>| list@)
}

/// Reads the lists of one vector.
fn read_node(b: &[u8], at: usize, levels: u32, n: usize) -> (r: Result<
    (Vec<Vec<usize>>, usize),
    VectorIndexError,
>)
    requires
        at <= b@.len(),
    ensures
        match node_at(b@, at as int, levels as nat, n as nat) {
            Ok((node, end)) => r is Ok && node_lists((r->Ok_0).0@) == node && (r->Ok_0).1 == end
                && end <= b@.len(),
            Err(e) => r is Err && r->Err_0 == e,
        },
{
    let len: usize = b.len();
    if len - at < 4 {
        return Err(VectorIndexError::AdjacencyTruncated);
    }
    let stored: u32 = ivf_file::get_u32_at(b, at);
    let count: u32 = if stored < levels { stored } else { levels };
    let ghost start = at + 4;
    let mut node: Vec<Vec<usize>> = Vec::new();
    let mut offset: usize = at + 4;
    let mut j: u32 = 0;
    assert(node_lists(node@) =~= Seq::empty());
    while j < count
        invariant
            j <= count,
            len == b@.len(),
            offset <= len,
            start == at + 4,
            start <= len,
            stored == ivf_file::u32_at(b@, at as int),
            count == (if stored < levels {
                stored
            } else {
                levels
            }),
            lists_at(b@, start, j as nat, n as nat) == Ok::<(Seq<Seq<usize>>, int), VectorIndexError>(
                (node_lists(node@), offset as int),
            ),
        decreases count - j,
    {
        match read_list(b, offset, n) {
            Err(e) => {
                proof {
                    lists_stop(b@, start, j as nat + 1, count as nat, n as nat);
                }
                return Err(e);
            },
            Ok((list, end)) => {
                let ghost before = node@;
                node.push(list);
                assert(node_lists(node@) =~= node_lists(before).push(list@));
                offset = end;
            },
        }
        j = j + 1;
    }
    let ghost mid = offset;
    let ghost lists = node_lists(node@);
    let rest: u32 = levels - count;
    let mut q: u32 = 0;
    assert(node_lists(node@) =~= lists + empty_lists(0));
    while q < rest
        invariant
            q <= rest,
            rest == levels - count,
            len == b@.len(),
            offset <= len,
            start == at + 4,
            start <= len,
            stored == ivf_file::u32_at(b@, at as int),
            count == (if stored < levels {
                stored
            } else {
                levels
            }),
            lists_at(b@, start, count as nat, n as nat) == Ok::<
                (Seq<Seq<usize>>, int),
                VectorIndexError,
            >((lists, mid as int)),
            filling_at(b@, mid as int, q as nat) == Ok::<int, VectorIndexError>(offset as int),
            node_lists(node@) == lists + empty_lists(q as nat),
        decreases rest - q,
    {
        if len - offset < 4 {
            proof {
                filling_stops(b@, mid as int, q as nat + 1, rest as nat);
            }
            return Err(VectorIndexError::PaddingTruncated);
        }
        if ivf_file::get_u32_at(b, offset) != 0 {
            proof {
                filling_stops(b@, mid as int, q as nat + 1, rest as nat);
            }
            return Err(VectorIndexError::PaddingNotZero);
        }
        let ghost before = node@;
        node.push(Vec::new());
        proof {
            assert(node_lists(node@) =~= node_lists(before).push(Seq::empty()));
            assert(node_lists(node@) =~= lists + empty_lists(q as nat + 1));
        }
        offset = offset + 4;
        q = q + 1;
    }
    Ok((node, offset))
}

/// Lists that are read hold vectors of the graph.
proof fn read_nodes_within(b: Seq<u8>, at: int, k: nat, levels: nat, n: nat)
    requires
        nodes_at(b, at, k, levels, n) is Ok,
    ensures
        (nodes_at(b, at, k, levels, n)->Ok_0).0.len() == k,
        forall|i: int, l: int, j: int|
            0 <= i < k && 0 <= l < (nodes_at(b, at, k, levels, n)->Ok_0).0[i].len() && 0 <= j < (
            nodes_at(b, at, k, levels, n)->Ok_0).0[i][l].len() ==> #[trigger] (nodes_at(
                b,
                at,
                k,
                levels,
                n,
            )->Ok_0).0[i][l][j] < n,
    decreases k,
{
    if k > 0 {
        read_nodes_within(b, at, (k - 1) as nat, levels, n);
        let (front, end) = nodes_at(b, at, (k - 1) as nat, levels, n)->Ok_0;
        let (node, next) = node_at(b, end, levels, n)->Ok_0;
        let nodes = (nodes_at(b, at, k, levels, n)->Ok_0).0;
        let stored = ivf_file::u32_at(b, end) as nat;
        let count = if stored < levels {
            stored
        } else {
            levels
        };
        read_lists_within(b, end + 4, count, n);
        assert forall|i: int, l: int, j: int|
            0 <= i < k && 0 <= l < nodes[i].len() && 0 <= j < nodes[i][l].len() implies #[trigger] nodes[i][l][j]
            < n by {
            if i < k - 1 {
                assert(nodes[i] == front[i]);
                assert(front[i][l][j] < n);
            } else {
                assert(nodes[i] == node);
                let lists = (lists_at(b, end + 4, count, n)->Ok_0).0;
                if l < lists.len() {
                    assert(node[l] == lists[l]);
                    assert(lists[l][j] < n);
                }
            }
        }
    }
}

proof fn read_lists_within(b: Seq<u8>, at: int, k: nat, n: nat)
    requires
        lists_at(b, at, k, n) is Ok,
    ensures
        (lists_at(b, at, k, n)->Ok_0).0.len() == k,
        forall|l: int, j: int|
            0 <= l < k && 0 <= j < (lists_at(b, at, k, n)->Ok_0).0[l].len() ==> #[trigger] (lists_at(
                b,
                at,
                k,
                n,
            )->Ok_0).0[l][j] < n,
    decreases k,
{
    if k > 0 {
        read_lists_within(b, at, (k - 1) as nat, n);
        let (front, end) = lists_at(b, at, (k - 1) as nat, n)->Ok_0;
        let lists = (lists_at(b, at, k, n)->Ok_0).0;
        assert forall|l: int, j: int| 0 <= l < k && 0 <= j < lists[l].len() implies #[trigger] lists[l][j]
            < n by {
            if l < k - 1 {
                assert(lists[l] == front[l]);
                assert(front[l][j] < n);
            }
        }
    }
}

impl HnswIndex {
    /// Reads a graph.
    pub fn from_bytes(bytes: &[u8]) -> (r: Result<Self, VectorIndexError>)
        ensures
            match hnsw_of(bytes@) {
                Ok(g) => r is Ok && (r->Ok_0)@ == g && g.searchable(),
                Err(e) => r is Err && r->Err_0 == e,
            },
    {
        let len: usize = bytes.len();
        if len < 24 {
            return Err(VectorIndexError::HeaderTruncated);
        }
        let n: u32 = ivf_file::get_u32_at(bytes, 0);
        let dim: u32 = ivf_file::get_u32_at(bytes, 4);
        let m: u32 = ivf_file::get_u32_at(bytes, 8);
        let ef_search: u32 = ivf_file::get_u32_at(bytes, 12);
        let entry: u32 = ivf_file::get_u32_at(bytes, 16);
        let levels: u32 = ivf_file::get_u32_at(bytes, 20);
        if n == 0 {
            return Err(VectorIndexError::NoVectors);
        }
        if dim == 0 {
            return Err(VectorIndexError::ZeroDimension);
        }
        if ef_search == 0 {
            return Err(VectorIndexError::ZeroSearch);
        }
        if entry >= n {
            return Err(VectorIndexError::EntryPoint);
        }
        if levels == 0 {
            return Err(VectorIndexError::NoLevels);
        }
        let cells: u128 = num::product_u64(n as u64, dim as u64);
        assert(n * dim <= 0xffff_ffff * 0xffff_ffff) by (nonlinear_arith)
            requires
                n <= 0xffff_ffff,
                dim <= 0xffff_ffff,
        ;
        if 4 * cells > usize::MAX as u128 {
            return Err(VectorIndexError::SizeOverflow);
        }
        if (len as u128) < 24 + 4 * cells {
            return Err(VectorIndexError::VectorsTruncated);
        }
        let start: usize = 24 + 4 * (cells as usize);
        let values = le::get_u32s(&bytes[24..start]);
        let mut nodes: Vec<Vec<Vec<usize>>> = Vec::new();
        let mut offset: usize = start;
        let mut i: u32 = 0;
        assert(hnsw::lists_of(nodes@) =~= Seq::empty());
        while i < n
            invariant
                i <= n,
                len == bytes@.len(),
                offset <= len,
                header_check(bytes@) == Ok::<int, VectorIndexError>(start as int),
                n == ivf_file::u32_at(bytes@, 0),
                levels == ivf_file::u32_at(bytes@, 20),
                nodes@.len() == i,
                nodes_at(bytes@, start as int, i as nat, levels as nat, n as nat) == Ok::<
                    (Seq<Seq<Seq<usize>>>, int),
                    VectorIndexError,
                >((hnsw::lists_of(nodes@), offset as int)),
            decreases n - i,
        {
            match read_node(bytes, offset, levels, n as usize) {
                Err(e) => {
                    proof {
                        nodes_stop(
                            bytes@,
                            start as int,
                            i as nat + 1,
                            n as nat,
                            levels as nat,
                            n as nat,
                        );
                    }
                    return Err(e);
                },
                Ok((node, end)) => {
                    let ghost before = nodes@;
                    nodes.push(node);
                    assert(hnsw::lists_of(nodes@) =~= hnsw::lists_of(before).push(
                        node_lists(node@),
                    ));
                    offset = end;
                },
            }
            i = i + 1;
        }
        if offset != len {
            return Err(VectorIndexError::TrailingBytes);
        }
        proof {
            read_nodes_within(bytes@, start as int, n as nat, levels as nat, n as nat);
        }
        Ok(
            HnswIndex {
                dimension: dim as usize,
                values,
                nodes,
                entry_point: entry as usize,
                ef_search: ef_search as usize,
                max_level: (levels - 1) as usize,
                m: m as usize,
            },
        )
    }
}

/// How many vectors a search for the `k` nearest keeps.
pub open spec fn search_width(ef_search: nat, k: nat) -> nat {
    let least = if k > 0 {
        k
    } else {
        1
    };
    if ef_search > least {
        ef_search
    } else {
        least
    }
}

/// What a search for the `k` nearest finds.
pub open spec fn nearest_found<F: Fn(&[u32], &[u32]) -> u32>(
    f: F,
    g: Graph,
    query: Seq<u32>,
    k: nat,
) -> Seq<Candidate> {
    let at = hnsw::descended(
        f,
        g.values,
        g.dimension,
        query,
        g.nodes,
        g.max_level,
        0,
        g.entry_point as int,
    );
    let r = layer::found(
        f,
        g.values,
        g.dimension,
        query,
        g.nodes,
        0,
        at,
        search_width(g.ef_search, k),
    );
    r.take(
        if k < r.len() {
            k as int
        } else {
            r.len() as int
        },
    )
}

/// Whether what a search for the `k` nearest meets can be compared with what it
/// keeps.
pub open spec fn nearest_comparable<F: Fn(&[u32], &[u32]) -> u32>(
    f: F,
    g: Graph,
    query: Seq<u32>,
    k: nat,
) -> bool {
    let at = hnsw::descended(
        f,
        g.values,
        g.dimension,
        query,
        g.nodes,
        g.max_level,
        0,
        g.entry_point as int,
    );
    layer::comparable(
        f,
        g.values,
        g.dimension,
        query,
        g.nodes,
        0,
        at,
        search_width(g.ef_search, k),
    )
}

/// What a search for the `k` nearest gives.
pub open spec fn knn_outcome<F: Fn(&[u32], &[u32]) -> u32>(
    f: F,
    g: Graph,
    query: Seq<u32>,
    k: nat,
) -> Result<Seq<VectorSearchResult>, VectorIndexError> {
    if query.len() != g.dimension {
        Err(VectorIndexError::QueryDimension)
    } else if !nearest_comparable(f, g, query, k) {
        Err(VectorIndexError::NanDistance)
    } else {
        Ok(brute_force::search_results(nearest_found(f, g, query, k)))
    }
}

/// Where all distances from the query are numbers a search does not fail.
pub proof fn numbers_are_found<F: Fn(&[u32], &[u32]) -> u32>(
    f: F,
    g: Graph,
    query: Seq<u32>,
    k: nat,
)
    requires
        g.searchable(),
        g.nodes.len() <= u64::MAX,
        query.len() == g.dimension,
        layer::no_nan(f, g.values, g.dimension, query, g.nodes.len()),
    ensures
        knn_outcome(f, g, query, k) == Ok::<Seq<VectorSearchResult>, VectorIndexError>(
            brute_force::search_results(nearest_found(f, g, query, k)),
        ),
{
    let at = hnsw::descended(
        f,
        g.values,
        g.dimension,
        query,
        g.nodes,
        g.max_level,
        0,
        g.entry_point as int,
    );
    hnsw::descended_is_within(
        f,
        g.values,
        g.dimension,
        query,
        g.nodes,
        g.max_level,
        0,
        g.entry_point as int,
    );
    layer::numbers_are_comparable(
        f,
        g.values,
        g.dimension,
        query,
        g.nodes,
        0,
        at,
        search_width(g.ef_search, k),
    );
}

impl HnswIndex {
    /// Looks for the `k` vectors nearest to a query. A vector at a distance that is
    /// not a number cannot be put in order with others.
    pub fn knn_l2<F: Fn(&[u32], &[u32]) -> u32>(&self, query: &[u32], k: usize, f: &F) -> (r: Result<
        Vec<VectorSearchResult>,
        VectorIndexError,
    >)
        requires
            self@.searchable(),
            floats::is_distance(*f),
        ensures
            match r {
                Ok(v) => knn_outcome(*f, self@, query@, k as nat) == Ok::<
                    Seq<VectorSearchResult>,
                    VectorIndexError,
                >(v@),
                Err(e) => knn_outcome(*f, self@, query@, k as nat) == Err::<
                    Seq<VectorSearchResult>,
                    VectorIndexError,
                >(e),
            },
    {
        if query.len() != self.dimension {
            return Err(VectorIndexError::QueryDimension);
        }
        let at: usize = hnsw::descend(
            self.values.as_slice(),
            self.dimension,
            query,
            &self.nodes,
            self.max_level,
            0,
            self.entry_point,
            f,
        );
        let least: usize = if k > 0 { k } else { 1 };
        let ef: usize = if self.ef_search > least { self.ef_search } else { least };
        match layer::search_layer(
            self.values.as_slice(),
            self.dimension,
            query,
            &self.nodes,
            0,
            at,
            ef,
            f,
        ) {
            Err(e) => Err(e),
            Ok(mut found) => {
                if found.len() > k {
                    found.truncate(k);
                }
                assert(found@ =~= nearest_found(*f, self@, query@, k as nat));
                Ok(as_search_results(&found))
            },
        }
    }
}

} // verus!
