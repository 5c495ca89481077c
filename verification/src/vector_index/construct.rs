//! Building an index from the vectors of a column.
use crate::floats;
use crate::vector_index;
use crate::vector_index::brute_force;
use crate::vector_index::brute_force::encode_bruteforce_index;
use crate::vector_index::hnsw_file;
use crate::vector_index::hnsw_file::encode_hnsw_index;
use crate::vector_index::{
    VectorIndexAlgorithm, VectorIndexBuildAlgorithm, VectorIndexBuildConfig, VectorIndexConfig, VectorIndexError,
};
use vstd::prelude::*;

verus! {

/// The bytes of the index that is asked for, or why it cannot be built.
pub open spec fn index_outcome<F: Fn(&[u32], &[u32]) -> u32>(
    f: F,
    algorithm: VectorIndexBuildAlgorithm,
    vectors: Seq<Seq<u32>>,
    levels: Seq<usize>,
) -> Result<Seq<u8>, VectorIndexError> {
    match algorithm {
        VectorIndexBuildAlgorithm::BruteForce => match vector_index::vectors_check(vectors) {
            Some(e) => Err(e),
            None => Ok(brute_force::bruteforce_bytes(vectors)),
        },
        VectorIndexBuildAlgorithm::Hnsw { max_neighbors, ef_search } => hnsw_file::hnsw_outcome(
            f,
            vectors,
            levels,
            max_neighbors as nat,
            ef_search as nat,
        ),
    }
}

impl VectorIndexBuildConfig {
    /// The algorithm that searches the index.
    pub open spec fn search_algorithm(self) -> VectorIndexAlgorithm {
        match self.algorithm {
            VectorIndexBuildAlgorithm::BruteForce => VectorIndexAlgorithm::BruteForce,
            VectorIndexBuildAlgorithm::Hnsw { .. } => VectorIndexAlgorithm::Hnsw,
        }
    }

    /// Builds the index from the vectors of the column. Where it is not said how
    /// many components the vectors have, those of the first vector are counted. In
    /// a graph vector `i` has lists on the levels up to `levels[i]`.
    pub fn build<F: Fn(&[u32], &[u32]) -> u32>(
        self,
        vectors: &[Vec<u32>],
        levels: &[usize],
        f: &F,
    ) -> (r: Result<VectorIndexConfig, VectorIndexError>)
        requires
            floats::is_distance(*f),
            levels@.len() >= vectors@.len(),
            forall|i: int| 0 <= i < levels@.len() ==> #[trigger] levels@[i] < u32::MAX,
        ensures
            match r {
                Ok(c) => {
                    let all = vector_index::components(vectors@);
                    &&& all.len() > 0
                    &&& index_outcome(*f, self.algorithm, all, levels@) == Ok::<
                        Seq<u8>,
                        VectorIndexError,
                    >(c.data@)
                    &&& c.index_id == self.index_id
                    &&& c.column == self.column
                    &&& c.algorithm == self.search_algorithm()
                    &&& c.distance_metric == self.distance_metric
                    &&& c.priority == self.priority
                    &&& c.usage_hint == self.usage_hint
                    &&& c.quantization.segments == self.quantization.segments
                    &&& c.quantization.dimension == (if self.quantization.dimension == 0 {
                        all[0].len() as u32
                    } else {
                        self.quantization.dimension
                    })
                    &&& c.custom_params == self.custom_params
                    &&& c.wasm_module is None
                },
                Err(e) => index_outcome(
                    *f,
                    self.algorithm,
                    vector_index::components(vectors@),
                    levels@,
                ) == Err::<Seq<u8>, VectorIndexError>(e),
            },
    {
        let ghost all = vector_index::components(vectors@);
        let (algorithm, data) = match self.algorithm {
            VectorIndexBuildAlgorithm::BruteForce => match encode_bruteforce_index(vectors) {
                Ok(data) => (VectorIndexAlgorithm::BruteForce, data),
                Err(e) => {
                    return Err(e);
                },
            },
            VectorIndexBuildAlgorithm::Hnsw { max_neighbors, ef_search } => match encode_hnsw_index(
                vectors,
                max_neighbors,
                ef_search,
                levels,
                f,
            ) {
                Ok(data) => (VectorIndexAlgorithm::Hnsw, data),
                Err(e) => {
                    return Err(e);
                },
            },
        };
        assert(all[0] == vectors@[0]@);
        let mut quantization = self.quantization;
        if quantization.dimension == 0 {
            let dimension: u32 = #[verifier::truncate]
            (vectors[0].len() as u32);
            quantization.dimension = dimension;
        }
        Ok(
            VectorIndexConfig {
                index_id: self.index_id,
                column: self.column,
                algorithm,
                distance_metric: self.distance_metric,
                priority: self.priority,
                usage_hint: self.usage_hint,
                quantization,
                custom_params: self.custom_params,
                data,
                wasm_module: None,
            },
        )
    }
}

} // verus!
