//! Blocks of clustered vectors in a file.
use crate::align_up;
use crate::bench::blocks::smallest_places;
use crate::floats::{apply, key, nan};
use vstd::prelude::*;

verus! {

/// Where a block of clustered vectors stands in a file.
#[derive(Clone, Debug, PartialEq, Eq)]
pub struct BlockMeta {
    /// The pattern of the number that the vectors lie around.
    pub center_scalar: u32,
    pub block_offset: u64,
    pub centroids_offset: u64,
    pub data_offset: u64,
    pub block_size: usize,
    pub k: usize,
    pub cluster_counts: Vec<usize>,
}

/// How many vectors the first `n` clusters have.
pub open spec fn vectors_before(counts: Seq<usize>, n: int) -> int
    decreases n,
{
    if n <= 0 {
        0
    } else {
        vectors_before(counts, n - 1) + counts[n - 1]
    }
}

proof fn vectors_grow(counts: Seq<usize>, i: int, n: int)
    requires
        0 <= i <= n <= counts.len(),
    ensures
        0 <= vectors_before(counts, i) <= vectors_before(counts, n),
    decreases n,
{
    if i < n {
        vectors_grow(counts, i, n - 1);
    } else if n > 0 {
        vectors_grow(counts, n - 1, n - 1);
    }
}

impl BlockMeta {
    /// Whether the vectors of the block end within the numbers there are.
    pub open spec fn fits(self, dim: usize) -> bool {
        &&& self.data_offset + vectors_before(
            self.cluster_counts@,
            self.cluster_counts@.len() as int,
        ) * dim * 4 <= u64::MAX
        &&& vectors_before(self.cluster_counts@, self.cluster_counts@.len() as int) * dim * 4
            <= usize::MAX
    }

    /// Where the vectors of cluster `c` start.
    pub open spec fn cluster_start(self, dim: usize, c: int) -> int {
        self.data_offset + vectors_before(self.cluster_counts@, c) * dim * 4
    }

    /// How many bytes the vectors of cluster `c` take.
    pub open spec fn cluster_size(self, dim: usize, c: int) -> int {
        self.cluster_counts@[c] * dim * 4
    }
}

/// A cluster starts where the one in front of it ends.
pub proof fn clusters_adjoin(meta: BlockMeta, dim: usize, c: int)
    requires
        0 <= c < meta.cluster_counts@.len(),
    ensures
        meta.cluster_start(dim, c) + meta.cluster_size(dim, c) == meta.cluster_start(dim, c + 1),
{
    let before = vectors_before(meta.cluster_counts@, c);
    let own = meta.cluster_counts@[c] as int;
    assert((before + own) * dim * 4 == before * dim * 4 + own * dim * 4) by (nonlinear_arith);
}

/// The bytes of a cluster: where they start and how many there are.
pub fn cluster_span(meta: &BlockMeta, dim: usize, best: usize) -> (r: (u64, usize))
    requires
        best < meta.cluster_counts@.len(),
        meta.fits(dim),
    ensures
        r.0 == meta.cluster_start(dim, best as int),
        r.1 == meta.cluster_size(dim, best as int),
{
    let ghost counts = meta.cluster_counts@;
    let ghost all = vectors_before(counts, counts.len() as int);
    if dim == 0 {
        proof {
            assert(vectors_before(counts, best as int) * 0 * 4 == 0) by (nonlinear_arith);
            assert(counts[best as int] * 0 * 4 == 0) by (nonlinear_arith);
        }
        return (meta.data_offset, 0);
    }
    let mut before: usize = 0;
    let mut i: usize = 0;
    proof {
        vectors_grow(counts, 0, counts.len() as int);
    }
    assert(all <= all * dim * 4) by (nonlinear_arith)
        requires
            all >= 0,
            dim >= 1,
    ;
    while i < best
        invariant
            counts == meta.cluster_counts@,
            all == vectors_before(counts, counts.len() as int),
            all <= usize::MAX,
            i <= best < counts.len(),
            before == vectors_before(counts, i as int),
        decreases best - i,
    {
        proof {
            vectors_grow(counts, i + 1, counts.len() as int);
        }
        before = before + meta.cluster_counts[i];
        i = i + 1;
    }
    let own: usize = meta.cluster_counts[best];
    proof {
        vectors_grow(counts, best + 1, counts.len() as int);
        vectors_grow(counts, best as int, best as int);
        assert(before * dim <= before * dim * 4 && before * dim * 4 <= all * dim * 4 && own * dim
            <= own * dim * 4 && own * dim * 4 <= all * dim * 4) by (nonlinear_arith)
            requires
                0 <= before,
                0 <= own,
                before + own <= all,
                dim >= 1,
        ;
    }
    (meta.data_offset + (before * dim * 4) as u64, own * dim * 4)
}

/// How many bytes a block takes from its start.
pub open spec fn block_len(k: usize, dim: usize, counts: Seq<usize>) -> int {
    k * dim * 4 + vectors_before(counts, counts.len() as int) * dim * 4
}

/// Places a block behind `offset`: its centroids at the next multiple of `align`,
/// its vectors behind them. Gives the block and where it ends.
pub fn place_block(
    offset: u64,
    align: u64,
    dim: usize,
    center_scalar: u32,
    block_size: usize,
    cluster_counts: Vec<usize>,
) -> (r: (BlockMeta, u64))
    requires
        align > 0,
        offset + align + block_len(
            cluster_counts@.len() as usize,
            dim,
            cluster_counts@,
        ) <= u64::MAX,
        block_len(cluster_counts@.len() as usize, dim, cluster_counts@) <= usize::MAX,
    ensures
        r.0.center_scalar == center_scalar,
        crate::is_aligned_up(r.0.block_offset as int, offset as int, align as int),
        r.0.centroids_offset == r.0.block_offset,
        r.0.data_offset == r.0.block_offset + cluster_counts@.len() * dim * 4,
        r.0.block_size == block_size,
        r.0.k == cluster_counts@.len(),
        r.0.cluster_counts == cluster_counts,
        r.0.fits(dim),
        r.1 == r.0.cluster_start(dim, cluster_counts@.len() as int),
{
    let ghost counts = cluster_counts@;
    let ghost all = vectors_before(counts, counts.len() as int);
    let k: usize = cluster_counts.len();
    proof {
        vectors_grow(counts, 0, k as int);
        assert(0 <= k * dim && k * dim <= k * dim * 4 && 0 <= all * dim && 0 <= all * dim * 4)
            by (nonlinear_arith)
            requires
                0 <= k,
                0 <= dim,
                0 <= all,
        ;
    }
    let block_offset: u64 = align_up(offset, align);
    let data_offset: u64 = block_offset + (k * dim * 4) as u64;
    let mut vectors: usize = 0;
    if dim > 0 {
        assert(all <= all * dim * 4) by (nonlinear_arith)
            requires
                all >= 0,
                dim >= 1,
        ;
        let mut i: usize = 0;
        while i < k
            invariant
                counts == cluster_counts@,
                k == counts.len(),
                i <= k,
                all == vectors_before(counts, k as int),
                all <= usize::MAX,
                vectors == vectors_before(counts, i as int),
            decreases k - i,
        {
            proof {
                vectors_grow(counts, i + 1, k as int);
            }
            vectors = vectors + cluster_counts[i];
            i = i + 1;
        }
    }
    proof {
        assert(dim == 0 ==> all * dim * 4 == 0) by (nonlinear_arith);
        assert(vectors * dim * 4 == all * dim * 4);
        assert(vectors * dim <= vectors * dim * 4) by (nonlinear_arith)
            requires
                vectors >= 0,
                dim >= 0,
        ;
    }
    let end: u64 = data_offset + (vectors * dim * 4) as u64;
    (
        BlockMeta {
            center_scalar,
            block_offset,
            centroids_offset: block_offset,
            data_offset,
            block_size,
            k,
            cluster_counts,
        },
        end,
    )
}

/// A place in the order of numbers, in which both zeros stand at one place.
pub open spec fn level(bits: u32) -> u32 {
    if bits % 0x8000_0000 == 0 {
        0x8000_0000
    } else {
        crate::floats::order_key(bits)
    }
}

/// The first component of a query, or zero.
pub open spec fn scalar_of(query: Seq<u32>) -> u32 {
    if query.len() == 0 {
        0
    } else {
        query[0]
    }
}

/// The distances of the centers of blocks from a query.
pub open spec fn center_gaps<G: Fn(u32, u32) -> u32>(
    query: Seq<u32>,
    metas: Seq<BlockMeta>,
    gap: G,
) -> Seq<u32> {
    Seq::new(
        metas.len(),
        |i: int| crate::floats::applied(gap, metas[i].center_scalar, scalar_of(query)),
    )
}

/// Whether a sequence of patterns holds one that is no number.
pub open spec fn any_nan(s: Seq<u32>) -> bool {
    exists|i: int| 0 <= i < s.len() && crate::floats::is_nan(#[trigger] s[i])
}

/// The blocks whose centers are nearest to the first component of a query, the
/// nearest first and of equally near ones the earlier first. `gap` gives the
/// distance of two numbers. There is no answer if a distance is no number and
/// there is another one to compare it with.
pub fn pick_blocks<G: Fn(u32, u32) -> u32>(
    query: &[u32],
    metas: &[BlockMeta],
    top_k: usize,
    gap: &G,
) -> (r: Option<Vec<usize>>)
    requires
        crate::floats::is_operation(*gap),
    ensures
        r is None <==> metas@.len() > 1 && any_nan(center_gaps(query@, metas@, *gap)),
        r matches Some(v) ==> crate::bench::blocks::is_smallest(
            center_gaps(query@, metas@, *gap).map_values(|x: u32| level(x)),
            top_k as nat,
            v@,
        ),
{
    let ghost all = center_gaps(query@, metas@, *gap);
    let ghost levels = all.map_values(|x: u32| level(x));
    let scalar: u32 = if query.len() == 0 { 0 } else { query[0] };
    let n: usize = metas.len();
    let mut keys: Vec<u32> = Vec::new();
    let mut i: usize = 0;
    while i < n
        invariant
            crate::floats::is_operation(*gap),
            n == metas@.len(),
            i <= n,
            scalar == scalar_of(query@),
            all == center_gaps(query@, metas@, *gap),
            levels == all.map_values(|x: u32| level(x)),
            keys@ =~= levels.take(i as int),
            n > 1 ==> forall|j: int| 0 <= j < i ==> !crate::floats::is_nan(#[trigger] all[j]),
        decreases n - i,
    {
        let d: u32 = apply(gap, metas[i].center_scalar, scalar);
        if n > 1 && nan(d) {
            assert(crate::floats::is_nan(all[i as int]));
            return None;
        }
        keys.push(if d % 0x8000_0000 == 0 { 0x8000_0000 } else { key(d) });
        i = i + 1;
    }
    assert(keys@ =~= levels);
    Some(smallest_places(keys.as_slice(), top_k))
}

/// Where a query stands behind the centroids in the memory of a guest.
pub fn query_place(centroid_bytes: u64) -> (r: u64)
    requires
        centroid_bytes + 64 <= u64::MAX,
    ensures
        crate::is_aligned_up(r as int, centroid_bytes as int, 64),
{
    align_up(centroid_bytes, 64)
}

/// The cluster that a guest has chosen. What is no cluster counts as the last one.
pub fn chosen_cluster(best: i32, k: usize) -> (r: usize)
    requires
        k > 0,
    ensures
        r == (if 0 <= best < k {
            best as int
        } else {
            k - 1
        }),
{
    if best < 0 || best as usize >= k {
        k - 1
    } else {
        best as usize
    }
}

} // verus!
