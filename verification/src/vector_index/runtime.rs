//! An index that is ready to be searched.
use crate::floats;
use crate::vector_index;
use crate::vector_index::brute_force;
use crate::vector_index::brute_force::BruteForceIndex;
use crate::vector_index::hnsw_index;
use crate::vector_index::hnsw_index::HnswIndex;
use crate::vector_index::wasm;
use crate::vector_index::wasm::WasmVectorIndex;
use crate::vector_index::{
    VectorDistanceMetric, VectorIndexAlgorithm, VectorIndexDescriptor, VectorIndexError,
    VectorSearchResult,
};
use vstd::prelude::*;

verus! {

/// An index that is ready to be searched.
#[derive(Debug)]
pub enum VectorIndexRuntime {
    BruteForce(BruteForceIndex),
    Hnsw(HnswIndex),
    CustomWasm(WasmVectorIndex),
}

/// How a search goes on: something was found, or the module of the index has to be
/// asked.
#[derive(Debug)]
pub enum KnnStep {
    Found(Vec<VectorSearchResult>),
    Ask(Vec<u8>),
}

/// How a search for many queries goes on.
#[derive(Debug)]
pub enum KnnBatchStep {
    Found(Vec<Vec<VectorSearchResult>>),
    Ask(Vec<u8>),
}

/// Whether an index read from these bytes is `r`.
pub open spec fn is_opened(
    algorithm: VectorIndexAlgorithm,
    metric: VectorDistanceMetric,
    bytes: Seq<u8>,
    has_module: bool,
    r: Result<VectorIndexRuntime, VectorIndexError>,
) -> bool {
    match algorithm {
        VectorIndexAlgorithm::BruteForce => if metric != VectorDistanceMetric::L2 {
            r == Err::<VectorIndexRuntime, VectorIndexError>(VectorIndexError::UnsupportedMetric)
        } else {
            match brute_force::bruteforce_of(bytes) {
                Ok(v) => r matches Ok(VectorIndexRuntime::BruteForce(i)) && i@ == v,
                Err(e) => r == Err::<VectorIndexRuntime, VectorIndexError>(e),
            }
        },
        VectorIndexAlgorithm::Hnsw => if metric != VectorDistanceMetric::L2 {
            r == Err::<VectorIndexRuntime, VectorIndexError>(VectorIndexError::UnsupportedMetric)
        } else {
            match hnsw_index::hnsw_of(bytes) {
                Ok(g) => r matches Ok(VectorIndexRuntime::Hnsw(i)) && i@ == g,
                Err(e) => r == Err::<VectorIndexRuntime, VectorIndexError>(e),
            }
        },
        VectorIndexAlgorithm::CustomWasm => if !has_module {
            r == Err::<VectorIndexRuntime, VectorIndexError>(VectorIndexError::MissingModule)
        } else if metric != VectorDistanceMetric::L2 {
            r == Err::<VectorIndexRuntime, VectorIndexError>(VectorIndexError::UnsupportedMetric)
        } else {
            r == Ok::<VectorIndexRuntime, VectorIndexError>(
                VectorIndexRuntime::CustomWasm(WasmVectorIndex { metric }),
            )
        },
        VectorIndexAlgorithm::Ivf => r == Err::<VectorIndexRuntime, VectorIndexError>(
            VectorIndexError::UnsupportedAlgorithm,
        ),
    }
}

impl VectorIndexRuntime {
    /// Whether the index can be searched.
    pub open spec fn ready(self) -> bool {
        match self {
            VectorIndexRuntime::BruteForce(i) => i.complete(),
            VectorIndexRuntime::Hnsw(i) => i@.searchable(),
            VectorIndexRuntime::CustomWasm(_) => true,
        }
    }

    /// What the index finds for a query by itself; an index with a module of its own
    /// finds nothing.
    pub open spec fn outcome<F: Fn(&[u32], &[u32]) -> u32>(
        self,
        f: F,
        query: Seq<u32>,
        k: nat,
    ) -> Result<Seq<VectorSearchResult>, VectorIndexError> {
        match self {
            VectorIndexRuntime::BruteForce(i) => brute_force::knn_outcome(f, i@, query, k),
            VectorIndexRuntime::Hnsw(i) => hnsw_index::knn_outcome(f, i@, query, k),
            VectorIndexRuntime::CustomWasm(_) => Ok(Seq::empty()),
        }
    }

    /// Opens the index of a descriptor. An index with a module of its own has to be
    /// handed to the module then.
    pub fn from_descriptor(
        desc: &VectorIndexDescriptor,
        bytes: &[u8],
        wasm_blob: Option<&[u8]>,
    ) -> (r: Result<Self, VectorIndexError>)
        ensures
            is_opened(desc.algorithm, desc.distance_metric, bytes@, wasm_blob is Some, r),
            r matches Ok(i) ==> i.ready(),
    {
        match desc.algorithm {
            VectorIndexAlgorithm::BruteForce => {
                match desc.distance_metric {
                    VectorDistanceMetric::L2 => {},
                    _ => {
                        return Err(VectorIndexError::UnsupportedMetric);
                    },
                }
                match BruteForceIndex::from_bytes(bytes) {
                    Ok(index) => Ok(VectorIndexRuntime::BruteForce(index)),
                    Err(e) => Err(e),
                }
            },
            VectorIndexAlgorithm::Hnsw => {
                match desc.distance_metric {
                    VectorDistanceMetric::L2 => {},
                    _ => {
                        return Err(VectorIndexError::UnsupportedMetric);
                    },
                }
                match HnswIndex::from_bytes(bytes) {
                    Ok(index) => Ok(VectorIndexRuntime::Hnsw(index)),
                    Err(e) => Err(e),
                }
            },
            VectorIndexAlgorithm::CustomWasm => {
                if wasm_blob.is_none() {
                    return Err(VectorIndexError::MissingModule);
                }
                match WasmVectorIndex::new(desc.distance_metric) {
                    Ok(index) => Ok(VectorIndexRuntime::CustomWasm(index)),
                    Err(e) => Err(e),
                }
            },
            VectorIndexAlgorithm::Ivf => Err(VectorIndexError::UnsupportedAlgorithm),
        }
    }

    /// Looks for the `k` vectors nearest to a query.
    pub fn knn_l2<F: Fn(&[u32], &[u32]) -> u32>(&self, query: &[u32], k: usize, f: &F) -> (r: Result<
        KnnStep,
        VectorIndexError,
    >)
        requires
            self.ready(),
            floats::is_distance(*f),
        ensures
            match self {
                VectorIndexRuntime::CustomWasm(i) => if i.metric != VectorDistanceMetric::L2 {
                    r matches Err(VectorIndexError::UnsupportedMetric)
                } else {
                    r matches Ok(KnnStep::Ask(q)) && q@ == wasm::knn_question(query@, k)
                },
                _ => match r {
                    Ok(KnnStep::Found(v)) => self.outcome(*f, query@, k as nat) == Ok::<
                        Seq<VectorSearchResult>,
                        VectorIndexError,
                    >(v@),
                    Ok(KnnStep::Ask(_)) => false,
                    Err(e) => self.outcome(*f, query@, k as nat) == Err::<
                        Seq<VectorSearchResult>,
                        VectorIndexError,
                    >(e),
                },
            },
    {
        match self {
            VectorIndexRuntime::BruteForce(index) => match index.knn_l2(query, k, f) {
                Ok(v) => Ok(KnnStep::Found(v)),
                Err(e) => Err(e),
            },
            VectorIndexRuntime::Hnsw(index) => match index.knn_l2(query, k, f) {
                Ok(v) => Ok(KnnStep::Found(v)),
                Err(e) => Err(e),
            },
            VectorIndexRuntime::CustomWasm(index) => match index.knn_request(query, k) {
                Ok(q) => Ok(KnnStep::Ask(q)),
                Err(e) => Err(e),
            },
        }
    }

    /// Looks for the `k` vectors nearest to each query; stops at the first query
    /// for which that fails.
    pub fn knn_l2_batch<F: Fn(&[u32], &[u32]) -> u32>(
        &self,
        queries: &[Vec<u32>],
        k: usize,
        f: &F,
    ) -> (r: Result<KnnBatchStep, VectorIndexError>)
        requires
            self.ready(),
            floats::is_distance(*f),
        ensures
            match self {
                VectorIndexRuntime::CustomWasm(i) => {
                    let all = vector_index::components(queries@);
                    if all.len() == 0 {
                        r matches Ok(KnnBatchStep::Found(v)) && v@.len() == 0
                    } else if i.metric != VectorDistanceMetric::L2 {
                        r matches Err(VectorIndexError::UnsupportedMetric)
                    } else if !vector_index::all_of_dim(all, all[0].len()) {
                        r matches Err(VectorIndexError::QueryDimension)
                    } else {
                        r matches Ok(KnnBatchStep::Ask(q)) && q@ == wasm::batch_question(all, k)
                    }
                },
                _ => match r {
                    Ok(KnnBatchStep::Found(v)) => v@.len() == queries@.len() && forall|j: int|
                        0 <= j < v@.len() ==> self.outcome(*f, queries@[j]@, k as nat) == Ok::<
                            Seq<VectorSearchResult>,
                            VectorIndexError,
                        >((#[trigger] v@[j])@),
                    Ok(KnnBatchStep::Ask(q)) => false,
                    Err(e) => exists|j: int|
                        0 <= j < queries@.len() && self.outcome(
                            *f,
                            (#[trigger] queries@[j])@,
                            k as nat,
                        ) == Err::<Seq<VectorSearchResult>, VectorIndexError>(e) && forall|i: int|
                            #![trigger queries@[i]]
                            0 <= i < j ==> self.outcome(*f, queries@[i]@, k as nat) is Ok,
                },
            },
    {
        if let VectorIndexRuntime::CustomWasm(index) = self {
            return match index.knn_batch_request(queries, k) {
                Ok(Some(q)) => Ok(KnnBatchStep::Ask(q)),
                Ok(None) => Ok(KnnBatchStep::Found(Vec::new())),
                Err(e) => Err(e),
            };
        }
        let mut out: Vec<Vec<VectorSearchResult>> = Vec::new();
        let mut i: usize = 0;
        while i < queries.len()
            invariant
                self.ready(),
                !(self is CustomWasm),
                floats::is_distance(*f),
                i <= queries@.len(),
                out@.len() == i,
                forall|j: int|
                    0 <= j < i ==> self.outcome(*f, queries@[j]@, k as nat) == Ok::<
                        Seq<VectorSearchResult>,
                        VectorIndexError,
                    >((#[trigger] out@[j])@),
            decreases queries@.len() - i,
        {
            match self.knn_l2(queries[i].as_slice(), k, f) {
                Ok(KnnStep::Found(v)) => {
                    out.push(v);
                },
                Ok(KnnStep::Ask(_)) => {},
                Err(e) => {
                    proof {
                        assert(self.outcome(*f, queries@[i as int]@, k as nat) is Err);
                        assert forall|j: int| 0 <= j < i implies self.outcome(
                            *f,
                            (#[trigger] queries@[j])@,
                            k as nat,
                        ) is Ok by {
                            assert(out@[j]@ == out@[j]@);
                        }
                    }
                    return Err(e);
                },
            }
            i = i + 1;
        }
        Ok(KnnBatchStep::Found(out))
    }
}

} // verus!
