//! Indexes that are searched vector by vector.
use crate::floats;
use crate::ivf_file;
use crate::ivf_flat;
use crate::le;
use crate::num;
use crate::topk;
use crate::topk::{Candidate, TopK};
use crate::vector_index;
use crate::vector_index::{check_vectors, put_vectors, VectorIndexError, VectorSearchResult};
use vstd::prelude::*;

verus! {

broadcast use crate::le::sizes;

/// All vectors, one behind the other.
#[derive(Debug)]
pub struct BruteForceIndex {
    pub dimension: usize,
    pub num_vectors: usize,
    pub values: Vec<u32>,
}

/// What an index holds.
#[verifier::ext_equal]
pub struct Vectors {
    pub dimension: nat,
    pub num_vectors: nat,
    pub values: Seq<u32>,
}

impl View for BruteForceIndex {
    type V = Vectors;

    open spec fn view(&self) -> Vectors {
        Vectors {
            dimension: self.dimension as nat,
            num_vectors: self.num_vectors as nat,
            values: self.values@,
        }
    }
}

/// The bytes of an index: how many vectors, how many components, the components.
pub open spec fn bruteforce_bytes(vectors: Seq<Seq<u32>>) -> Seq<u8> {
    le::bytes_of_u32(vectors.len() as u32) + le::bytes_of_u32(vectors[0].len() as u32)
        + le::bytes_of_u32s(vector_index::flat(vectors))
}

/// The index that bytes hold.
pub open spec fn bruteforce_of(b: Seq<u8>) -> Result<Vectors, VectorIndexError> {
    let n = ivf_file::u32_at(b, 0);
    let dim = ivf_file::u32_at(b, 4);
    if b.len() < 8 {
        Err(VectorIndexError::HeaderTruncated)
    } else if 4 * (n * dim) > usize::MAX {
        Err(VectorIndexError::SizeOverflow)
    } else if b.len() != 8 + 4 * (n * dim) {
        Err(VectorIndexError::SizeMismatch)
    } else {
        Ok(
            Vectors {
                dimension: dim as nat,
                num_vectors: n as nat,
                values: le::u32s_of(b.subrange(8, b.len() as int)),
            },
        )
    }
}

/// An index that is written is read back with the same vectors.
pub proof fn bruteforce_round_trip(vectors: Seq<Seq<u32>>)
    requires
        vector_index::vectors_check(vectors) is None,
        vectors.len() <= u32::MAX,
        vectors[0].len() <= u32::MAX,
        4 * (vectors.len() * vectors[0].len()) <= usize::MAX,
    ensures
        bruteforce_of(bruteforce_bytes(vectors)) == Ok::<Vectors, VectorIndexError>(
            Vectors {
                dimension: vectors[0].len(),
                num_vectors: vectors.len(),
                values: vector_index::flat(vectors),
            },
        ),
        forall|i: int|
            0 <= i < vectors.len() ==> #[trigger] floats::row_of(
                vector_index::flat(vectors),
                vectors[0].len(),
                i,
            ) == vectors[i],
{
    let b = bruteforce_bytes(vectors);
    vector_index::flat_rows(vectors, vectors[0].len());
    assert(b.subrange(0, 4) =~= le::bytes_of_u32(vectors.len() as u32));
    assert(b.subrange(4, 8) =~= le::bytes_of_u32(vectors[0].len() as u32));
    le::u32_round_trip(vectors.len() as u32);
    le::u32_round_trip(vectors[0].len() as u32);
    assert(b.subrange(8, b.len() as int) =~= le::bytes_of_u32s(vector_index::flat(vectors)));
    le::u32s_round_trip(vector_index::flat(vectors));
}

/// No index has bytes to spare: if one is read from `b`, none is read from bytes
/// that start with the same header but are fewer or more.
pub proof fn other_lengths_are_refused(b: Seq<u8>, c: Seq<u8>)
    requires
        bruteforce_of(b) is Ok,
        c.len() != b.len(),
        c.len() >= 8 ==> c.take(8) == b.take(8),
    ensures
        bruteforce_of(c) is Err,
{
    if c.len() >= 8 {
        assert(c.subrange(0, 4) =~= c.take(8).subrange(0, 4));
        assert(c.subrange(4, 8) =~= c.take(8).subrange(4, 8));
        assert(b.subrange(0, 4) =~= b.take(8).subrange(0, 4));
        assert(b.subrange(4, 8) =~= b.take(8).subrange(4, 8));
    }
}

/// Writes an index of vectors.
pub fn encode_bruteforce_index(vectors: &[Vec<u32>]) -> (r: Result<Vec<u8>, VectorIndexError>)
    ensures
        match vector_index::vectors_check(vector_index::components(vectors@)) {
            Some(e) => r is Err && r->Err_0 == e,
            None => r is Ok && (r->Ok_0)@ == bruteforce_bytes(vector_index::components(vectors@)),
        },
{
    if let Some(e) = check_vectors(vectors) {
        return Err(e);
    }
    let ghost all = vector_index::components(vectors@);
    assert(all[0] == vectors@[0]@);
    let mut buffer: Vec<u8> = Vec::new();
    le::put_u32(
        &mut buffer,
        #[verifier::truncate]
        (vectors.len() as u32),
    );
    le::put_u32(
        &mut buffer,
        #[verifier::truncate]
        (vectors[0].len() as u32),
    );
    put_vectors(&mut buffer, vectors);
    assert(buffer@ =~= bruteforce_bytes(all));
    Ok(buffer)
}

/// What a search looks at: each vector, at its distance from the query.
pub open spec fn row_candidates<F: Fn(&[u32], &[u32]) -> u32>(
    f: F,
    v: Vectors,
    query: Seq<u32>,
    n: nat,
) -> Seq<Candidate> {
    Seq::new(
        n,
        |i: int|
            Candidate {
                distance: floats::distance(f, floats::row_of(v.values, v.dimension, i), query),
                id: i as u64,
            },
    )
}

/// The results for candidates.
pub open spec fn search_results(s: Seq<Candidate>) -> Seq<VectorSearchResult> {
    s.map_values(|c: Candidate| VectorSearchResult { row_id: c.id, distance: c.distance })
}

/// Turns candidates into results.
pub fn as_search_results(ranked: &Vec<Candidate>) -> (r: Vec<VectorSearchResult>)
    ensures
        r@ == search_results(ranked@),
{
    let mut out: Vec<VectorSearchResult> = Vec::new();
    let mut i: usize = 0;
    while i < ranked.len()
        invariant
            i <= ranked@.len(),
            out@ =~= search_results(ranked@.take(i as int)),
        decreases ranked@.len() - i,
    {
        out.push(VectorSearchResult { row_id: ranked[i].id, distance: ranked[i].distance });
        i = i + 1;
    }
    assert(ranked@.take(i as int) =~= ranked@);
    out
}

/// What a search for the `k` nearest finds.
pub open spec fn knn_outcome<F: Fn(&[u32], &[u32]) -> u32>(
    f: F,
    v: Vectors,
    query: Seq<u32>,
    k: nat,
) -> Result<Seq<VectorSearchResult>, VectorIndexError> {
    let all = row_candidates(f, v, query, v.num_vectors);
    if query.len() != v.dimension {
        Err(VectorIndexError::QueryDimension)
    } else if v.num_vectors > 1 && ivf_flat::has_nan(all) {
        Err(VectorIndexError::NanDistance)
    } else {
        Ok(search_results(topk::nearest(all, k)))
    }
}

impl BruteForceIndex {
    /// Whether the vectors are all there.
    pub open spec fn complete(self) -> bool {
        self.values@.len() == self.num_vectors * self.dimension
    }

    /// Reads an index.
    pub fn from_bytes(bytes: &[u8]) -> (r: Result<Self, VectorIndexError>)
        ensures
            match bruteforce_of(bytes@) {
                Ok(v) => r is Ok && (r->Ok_0)@ == v && (r->Ok_0).complete(),
                Err(e) => r is Err && r->Err_0 == e,
            },
    {
        let len: usize = bytes.len();
        if len < 8 {
            return Err(VectorIndexError::HeaderTruncated);
        }
        let n: u32 = ivf_file::get_u32_at(bytes, 0);
        let dim: u32 = ivf_file::get_u32_at(bytes, 4);
        let cells: u128 = num::product_u64(n as u64, dim as u64);
        assert(n * dim <= 0xffff_ffff * 0xffff_ffff) by (nonlinear_arith)
            requires
                n <= 0xffff_ffff,
                dim <= 0xffff_ffff,
        ;
        if 4 * cells > usize::MAX as u128 {
            return Err(VectorIndexError::SizeOverflow);
        }
        if len as u128 != 8 + 4 * cells {
            return Err(VectorIndexError::SizeMismatch);
        }
        let values = le::get_u32s(&bytes[8..len]);
        Ok(BruteForceIndex { dimension: dim as usize, num_vectors: n as usize, values })
    }

    /// Finds the `k` vectors nearest to a query. Where a distance is not a number
    /// vectors cannot be put in order.
    pub fn knn_l2<F: Fn(&[u32], &[u32]) -> u32>(&self, query: &[u32], k: usize, f: &F) -> (r: Result<
        Vec<VectorSearchResult>,
        VectorIndexError,
    >)
        requires
            self.complete(),
            floats::is_distance(*f),
        ensures
            match knn_outcome(*f, self@, query@, k as nat) {
                Ok(s) => r is Ok && (r->Ok_0)@ == s,
                Err(e) => r is Err && r->Err_0 == e,
            },
    {
        if query.len() != self.dimension {
            return Err(VectorIndexError::QueryDimension);
        }
        let n: usize = self.num_vectors;
        let ghost all = row_candidates(*f, self@, query@, n as nat);
        let mut top = TopK::new(k);
        let mut row: usize = 0;
        assert(row_candidates(*f, self@, query@, 0) =~= Seq::empty());
        while row < n
            invariant
                floats::is_distance(*f),
                row <= n,
                n == self.num_vectors,
                query@.len() == self.dimension,
                self.values@.len() == n * self.dimension,
                all == row_candidates(*f, self@, query@, n as nat),
                top.limit() == k,
                top@ == topk::nearest(row_candidates(*f, self@, query@, row as nat), k as nat),
                n > 1 ==> !ivf_flat::has_nan(row_candidates(*f, self@, query@, row as nat)),
            decreases n - row,
        {
            let d: u32 = floats::measure(
                f,
                floats::row(self.values.as_slice(), self.dimension, row, n),
                query,
            );
            let x = Candidate { distance: d, id: row as u64 };
            let ghost now = row_candidates(*f, self@, query@, row as nat);
            let ghost next = row_candidates(*f, self@, query@, row as nat + 1);
            proof {
                assert(next.drop_last() =~= now);
                assert(next.last() == x);
                assert(all[row as int] == x);
            }
            if n > 1 && floats::nan(d) {
                assert(floats::is_nan(all[row as int].distance));
                return Err(VectorIndexError::NanDistance);
            }
            top.offer(x);
            proof {
                if n > 1 && ivf_flat::has_nan(next) {
                    let i = choose|i: int|
                        0 <= i < next.len() && floats::is_nan(#[trigger] next[i].distance);
                    assert(i < row ==> now[i] == next[i]);
                    assert(false);
                }
            }
            row = row + 1;
        }
        let ranked = top.into_ranked();
        Ok(as_search_results(&ranked))
    }
}

/// A search is exact: each vector is found, or all that are found are as near; and
/// if fewer than `k` are found, it is.
pub proof fn bruteforce_is_exact<F: Fn(&[u32], &[u32]) -> u32>(
    f: F,
    v: Vectors,
    query: Seq<u32>,
    k: nat,
    row: int,
)
    requires
        0 <= row < v.num_vectors,
        v.num_vectors <= u64::MAX,
        knn_outcome(f, v, query, k) is Ok,
    ensures
        ({
            let found = knn_outcome(f, v, query, k)->Ok_0;
            let d = floats::distance(f, floats::row_of(v.values, v.dimension, row), query);
            let x = VectorSearchResult { row_id: row as u64, distance: d };
            &&& found.contains(x) || forall|i: int|
                0 <= i < found.len() ==> floats::order_key(#[trigger] found[i].distance)
                    <= floats::order_key(d)
            &&& found.len() < k ==> found.contains(x)
        }),
{
    let found = knn_outcome(f, v, query, k)->Ok_0;
    let all = row_candidates(f, v, query, v.num_vectors);
    let x = all[row];
    assert(all.contains(x));
    topk::kept_or_as_near(all, k, x);
    let kept = topk::nearest(all, k);
    if kept.contains(x) {
        let q = choose|q: int| 0 <= q < kept.len() && kept[q] == x;
        assert(found[q] == (VectorSearchResult { row_id: x.id, distance: x.distance }));
    } else {
        assert forall|i: int| 0 <= i < found.len() implies floats::order_key(
            #[trigger] found[i].distance,
        ) <= floats::order_key(x.distance) by {
            assert(found[i].distance == kept[i].distance);
        }
    }
}

} // verus!
