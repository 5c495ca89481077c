//! Indexes that a module of their own searches: what is asked of the module, and
//! what its answers say.
use crate::ivf_file;
use crate::le;
use crate::vector;
use crate::vector_index;
use crate::vector_index::{put_vectors, VectorDistanceMetric, VectorIndexError, VectorSearchResult};
use vstd::prelude::*;

verus! {

broadcast use crate::le::sizes;

/// The question for the `k` nearest to a query.
pub open spec fn knn_question(query: Seq<u32>, k: usize) -> Seq<u8> {
    le::bytes_of_u32(query.len() as u32) + le::bytes_of_u32(k as u32) + le::bytes_of_u32s(query)
}

/// The question for the `k` nearest to each of many queries.
pub open spec fn batch_question(queries: Seq<Seq<u32>>, k: usize) -> Seq<u8> {
    le::bytes_of_u32(queries[0].len() as u32) + le::bytes_of_u32(k as u32) + le::bytes_of_u32(
        queries.len() as u32,
    ) + le::bytes_of_u32s(vector_index::flat(queries))
}

/// The `n` results that stand at `at`.
pub open spec fn results_at(b: Seq<u8>, at: int, n: nat) -> Seq<VectorSearchResult> {
    Seq::new(
        n,
        |i: int|
            VectorSearchResult {
                row_id: ivf_file::u64_at(b, at + 12 * i),
                distance: ivf_file::u32_at(b, at + 12 * i + 8),
            },
    )
}

/// The bytes of results.
pub open spec fn result_bytes(results: Seq<VectorSearchResult>) -> Seq<u8>
    decreases results.len(),
{
    if results.len() == 0 {
        Seq::empty()
    } else {
        result_bytes(results.drop_last()) + le::bytes_of_u64(results.last().row_id)
            + le::bytes_of_u32(results.last().distance)
    }
}

/// What an answer to one query says.
pub open spec fn answer_of(b: Seq<u8>) -> Result<Seq<VectorSearchResult>, VectorIndexError> {
    let count = ivf_file::u32_at(b, 0);
    if b.len() < 4 {
        Err(VectorIndexError::AnswerTooSmall)
    } else if b.len() != 4 + 12 * count {
        Err(VectorIndexError::AnswerSizeMismatch)
    } else {
        Ok(results_at(b, 4, count as nat))
    }
}

/// What the parts of an answer for the first `k` queries say, and where they end.
pub open spec fn parts_at(b: Seq<u8>, k: nat) -> Result<
    (Seq<Seq<VectorSearchResult>>, int),
    VectorIndexError,
>
    decreases k,
{
    if k == 0 {
        Ok((Seq::empty(), 4))
    } else {
        match parts_at(b, (k - 1) as nat) {
            Err(e) => Err(e),
            Ok((front, end)) => {
                let count = ivf_file::u32_at(b, end);
                if b.len() < end + 4 {
                    Err(VectorIndexError::BatchTruncated)
                } else if b.len() < end + 4 + 12 * count {
                    Err(VectorIndexError::BatchPayloadTruncated)
                } else {
                    Ok((front.push(results_at(b, end + 4, count as nat)), end + 4 + 12 * count))
                }
            },
        }
    }
}

/// What an answer to `n` queries says.
pub open spec fn batch_answer_of(b: Seq<u8>, n: nat) -> Result<
    Seq<Seq<VectorSearchResult>>,
    VectorIndexError,
> {
    if b.len() < 4 {
        Err(VectorIndexError::AnswerTooSmall)
    } else if ivf_file::u32_at(b, 0) != n {
        Err(VectorIndexError::BatchCountMismatch)
    } else {
        match parts_at(b, n) {
            Err(e) => Err(e),
            Ok((parts, end)) => if end != b.len() {
                Err(VectorIndexError::BatchTrailingBytes)
            } else {
                Ok(parts)
            },
        }
    }
}

proof fn parts_stop(b: Seq<u8>, k: nat, all: nat)
    requires
        k <= all,
        parts_at(b, k) is Err,
    ensures
        parts_at(b, all) == parts_at(b, k),
    decreases all,
{
    if k < all {
        parts_stop(b, k, (all - 1) as nat);
    }
}

/// Results that were written are read back.
pub proof fn answer_round_trip(results: Seq<VectorSearchResult>)
    requires
        results.len() <= u32::MAX,
    ensures
        answer_of(le::bytes_of_u32(results.len() as u32) + result_bytes(results)) == Ok::<
            Seq<VectorSearchResult>,
            VectorIndexError,
        >(results),
{
    let b = le::bytes_of_u32(results.len() as u32) + result_bytes(results);
    assert(b.subrange(0, 4) =~= le::bytes_of_u32(results.len() as u32));
    le::u32_round_trip(results.len() as u32);
    result_bytes_len(results);
    assert(b.subrange(4, 4 + 12 * results.len() as int) =~= result_bytes(results));
    results_read_back(b, 4, results);
}

proof fn result_bytes_len(results: Seq<VectorSearchResult>)
    ensures
        result_bytes(results).len() == 12 * results.len(),
    decreases results.len(),
{
    if results.len() > 0 {
        result_bytes_len(results.drop_last());
    }
}

proof fn results_read_back(b: Seq<u8>, at: int, results: Seq<VectorSearchResult>)
    requires
        0 <= at,
        at + 12 * results.len() <= b.len(),
        b.subrange(at, at + 12 * results.len()) == result_bytes(results),
    ensures
        results_at(b, at, results.len()) == results,
    decreases results.len(),
{
    if results.len() > 0 {
        let n = results.len() - 1;
        let front = results.drop_last();
        let last = results.last();
        let all = result_bytes(results);
        let mine = b.subrange(at, at + 12 * results.len());
        result_bytes_len(front);
        assert(b.subrange(at, at + 12 * n) =~= mine.subrange(0, 12 * n));
        assert(all.subrange(0, 12 * n) =~= result_bytes(front));
        results_read_back(b, at, front);
        assert(b.subrange(at + 12 * n, at + 12 * n + 8) =~= mine.subrange(12 * n, 12 * n + 8));
        assert(all.subrange(12 * n, 12 * n + 8) =~= le::bytes_of_u64(last.row_id));
        assert(b.subrange(at + 12 * n + 8, at + 12 * n + 12) =~= mine.subrange(
            12 * n + 8,
            12 * n + 12,
        ));
        assert(all.subrange(12 * n + 8, 12 * n + 12) =~= le::bytes_of_u32(last.distance));
        le::u64_round_trip(last.row_id);
        le::u32_round_trip(last.distance);
        let got = results_at(b, at, results.len());
        assert forall|i: int| 0 <= i < results.len() implies got[i] == results[i] by {
            if i < n {
                assert(results_at(b, at, front.len())[i] == front[i]);
            }
        }
    }
    assert(results_at(b, at, results.len()) =~= results);
}

/// Reads `n` results.
fn read_results(b: &[u8], at: usize, n: usize) -> (r: Vec<VectorSearchResult>)
    requires
        at + 12 * n <= b@.len(),
    ensures
        r@ == results_at(b@, at as int, n as nat),
{
    let len: usize = b.len();
    let mut out: Vec<VectorSearchResult> = Vec::new();
    let mut i: usize = 0;
    while i < n
        invariant
            i <= n,
            len == b@.len(),
            at + 12 * n <= len,
            out@ =~= results_at(b@, at as int, i as nat),
        decreases n - i,
    {
        let row_id: u64 = ivf_file::get_u64_at(b, at + 12 * i);
        let distance: u32 = ivf_file::get_u32_at(b, at + 12 * i + 8);
        out.push(VectorSearchResult { row_id, distance });
        i = i + 1;
    }
    out
}

/// Reads the answer to one query.
pub fn decode_wasm_results(bytes: &[u8]) -> (r: Result<Vec<VectorSearchResult>, VectorIndexError>)
    ensures
        match answer_of(bytes@) {
            Ok(s) => r is Ok && (r->Ok_0)@ == s,
            Err(e) => r is Err && r->Err_0 == e,
        },
{
    let len: usize = bytes.len();
    if len < 4 {
        return Err(VectorIndexError::AnswerTooSmall);
    }
    let count: u32 = ivf_file::get_u32_at(bytes, 0);
    if len as u128 != 4 + 12 * (count as u128) {
        return Err(VectorIndexError::AnswerSizeMismatch);
    }
    Ok(read_results(bytes, 4, count as usize))
}

/// The results of each query.
pub open spec fn result_lists(v: Seq<Vec<VectorSearchResult>>) -> Seq<Seq<VectorSearchResult>> {
    v.map_values(|list: Vec<VectorSearchResult>| list@)
}

/// Reads the answer to `expected_batches` queries.
pub fn decode_wasm_batch_results(bytes: &[u8], expected_batches: usize) -> (r: Result<
    Vec<Vec<VectorSearchResult>>,
    VectorIndexError,
>)
    ensures
        match batch_answer_of(bytes@, expected_batches as nat) {
            Ok(s) => r is Ok && result_lists((r->Ok_0)@) == s,
            Err(e) => r is Err && r->Err_0 == e,
        },
{
    let len: usize = bytes.len();
    if len < 4 {
        return Err(VectorIndexError::AnswerTooSmall);
    }
    if ivf_file::get_u32_at(bytes, 0) as usize != expected_batches {
        return Err(VectorIndexError::BatchCountMismatch);
    }
    let mut out: Vec<Vec<VectorSearchResult>> = Vec::new();
    let mut offset: usize = 4;
    let mut i: usize = 0;
    assert(result_lists(out@) =~= Seq::empty());
    while i < expected_batches
        invariant
            i <= expected_batches,
            len == bytes@.len(),
            4 <= offset <= len,
            ivf_file::u32_at(bytes@, 0) == expected_batches,
            parts_at(bytes@, i as nat) == Ok::<
                (Seq<Seq<VectorSearchResult>>, int),
                VectorIndexError,
            >((result_lists(out@), offset as int)),
        decreases expected_batches - i,
    {
        if len - offset < 4 {
            proof {
                parts_stop(bytes@, i as nat + 1, expected_batches as nat);
            }
            return Err(VectorIndexError::BatchTruncated);
        }
        let count: u32 = ivf_file::get_u32_at(bytes, offset);
        if ((len - offset - 4) as u128) < 12 * (count as u128) {
            proof {
                parts_stop(bytes@, i as nat + 1, expected_batches as nat);
            }
            return Err(VectorIndexError::BatchPayloadTruncated);
        }
        let results = read_results(bytes, offset + 4, count as usize);
        let ghost before = out@;
        out.push(results);
        assert(result_lists(out@) =~= result_lists(before).push(results@));
        offset = offset + 4 + 12 * (count as usize);
        i = i + 1;
    }
    if offset != len {
        return Err(VectorIndexError::BatchTrailingBytes);
    }
    Ok(out)
}

/// An index that a module searches.
#[derive(Clone, Copy, Debug, PartialEq, Eq, Structural)]
pub struct WasmVectorIndex {
    pub metric: VectorDistanceMetric,
}


impl WasmVectorIndex {
    /// An index with a metric that modules know.
    pub fn new(metric: VectorDistanceMetric) -> (r: Result<Self, VectorIndexError>)
        ensures
            metric == VectorDistanceMetric::L2 ==> r == Ok::<Self, VectorIndexError>(
                (WasmVectorIndex { metric }),
            ),
            metric != VectorDistanceMetric::L2 ==> r == Err::<Self, VectorIndexError>(
                VectorIndexError::UnsupportedMetric,
            ),
    {
        match metric {
            VectorDistanceMetric::L2 => Ok(WasmVectorIndex { metric }),
            _ => Err(VectorIndexError::UnsupportedMetric),
        }
    }

    /// What the module is asked for the `k` nearest to a query.
    pub fn knn_request(&self, query: &[u32], k: usize) -> (r: Result<Vec<u8>, VectorIndexError>)
        ensures
            self.metric == VectorDistanceMetric::L2 ==> r is Ok && (r->Ok_0)@ == knn_question(
                query@,
                k,
            ),
            self.metric != VectorDistanceMetric::L2 ==> r is Err && r->Err_0
                == VectorIndexError::UnsupportedMetric,
    {
        match self.metric {
            VectorDistanceMetric::L2 => {},
            _ => {
                return Err(VectorIndexError::UnsupportedMetric);
            },
        }
        let mut payload: Vec<u8> = Vec::new();
        le::put_u32(
            &mut payload,
            #[verifier::truncate]
            (query.len() as u32),
        );
        le::put_u32(
            &mut payload,
            #[verifier::truncate]
            (k as u32),
        );
        let ghost front = payload@;
        let mut i: usize = 0;
        assert(le::bytes_of_u32s(query@.take(0)) =~= Seq::empty());
        while i < query.len()
            invariant
                i <= query@.len(),
                payload@ == front + le::bytes_of_u32s(query@.take(i as int)),
            decreases query@.len() - i,
        {
            le::put_u32(&mut payload, query[i]);
            proof {
                let now = query@.take(i as int);
                assert(query@.take(i + 1) =~= now.push(query@[i as int]));
                vector::u32s_grow(now, query@[i as int]);
                assert(payload@ =~= front + le::bytes_of_u32s(query@.take(i + 1)));
            }
            i = i + 1;
        }
        assert(query@.take(i as int) =~= query@);
        assert(payload@ =~= knn_question(query@, k));
        Ok(payload)
    }

    /// What the module is asked for the `k` nearest to each of many queries;
    /// nothing if there are none.
    pub fn knn_batch_request(&self, queries: &[Vec<u32>], k: usize) -> (r: Result<
        Option<Vec<u8>>,
        VectorIndexError,
    >)
        ensures
            ({
                let all = vector_index::components(queries@);
                if all.len() == 0 {
                    r == Ok::<Option<Vec<u8>>, VectorIndexError>(None)
                } else if self.metric != VectorDistanceMetric::L2 {
                    r is Err && r->Err_0 == VectorIndexError::UnsupportedMetric
                } else if !vector_index::all_of_dim(all, all[0].len()) {
                    r is Err && r->Err_0 == VectorIndexError::QueryDimension
                } else {
                    r is Ok && r->Ok_0 is Some && (r->Ok_0)->0@ == batch_question(all, k)
                }
            }),
    {
        if queries.len() == 0 {
            return Ok(None);
        }
        match self.metric {
            VectorDistanceMetric::L2 => {},
            _ => {
                return Err(VectorIndexError::UnsupportedMetric);
            },
        }
        let ghost all = vector_index::components(queries@);
        assert(all[0] == queries@[0]@);
        let dimension: usize = queries[0].len();
        let mut i: usize = 0;
        while i < queries.len()
            invariant
                i <= queries@.len(),
                queries@.len() > 0,
                all == vector_index::components(queries@),
                dimension == all[0].len(),
                self.metric == VectorDistanceMetric::L2,
                forall|j: int| 0 <= j < i ==> (#[trigger] all[j]).len() == dimension,
            decreases queries@.len() - i,
        {
            assert(all[i as int] == queries@[i as int]@);
            if queries[i].len() != dimension {
                return Err(VectorIndexError::QueryDimension);
            }
            i = i + 1;
        }
        let mut payload: Vec<u8> = Vec::new();
        le::put_u32(
            &mut payload,
            #[verifier::truncate]
            (dimension as u32),
        );
        le::put_u32(
            &mut payload,
            #[verifier::truncate]
            (k as u32),
        );
        le::put_u32(
            &mut payload,
            #[verifier::truncate]
            (queries.len() as u32),
        );
        put_vectors(&mut payload, queries);
        assert(payload@ =~= batch_question(all, k));
        Ok(Some(payload))
    }
}

} // verus!
