//! Laws of indexes that are embedded in a file.
use crate::floats;
use crate::laws::graph_walk;
use crate::laws::ranking;
use crate::le;
use crate::topk;
use crate::vector_index;
use crate::vector_index::brute_force;
use crate::vector_index::brute_force::Vectors;
use crate::vector_index::construct;
use crate::vector_index::runtime;
use crate::vector_index::runtime::VectorIndexRuntime;
use crate::vector_index::wasm;
use crate::vector_index::{
    VectorDistanceMetric, VectorIndexAlgorithm, VectorIndexBuildAlgorithm, VectorIndexError,
    VectorSearchResult,
};
use vstd::prelude::*;

verus! {

broadcast use crate::le::sizes;

/// A search of all vectors gives different rows, as many as are asked for or there are,
/// each at its own distance from the query, nearest first, at the same distance the
/// earlier first; and no row that is left out is in front of one that is given.
pub proof fn nearest_of_all_are_found<F: Fn(&[u32], &[u32]) -> u32>(
    f: F,
    v: Vectors,
    query: Seq<u32>,
    k: nat,
    i: int,
    j: int,
    row: int,
)
    requires
        v.num_vectors <= u64::MAX,
        brute_force::knn_outcome(f, v, query, k) is Ok,
    ensures
        ({
            let found = brute_force::knn_outcome(f, v, query, k)->Ok_0;
            &&& query.len() == v.dimension
            &&& found.len() == (if v.num_vectors < k {
                v.num_vectors
            } else {
                k
            })
            &&& 0 <= i < found.len() ==> found[i].row_id < v.num_vectors && found[i].distance
                == graph_walk::from_query(
                f,
                v.values,
                v.dimension,
                query,
                found[i].row_id as int,
            )
            &&& 0 <= i < j < found.len() ==> {
                let a = floats::order_key(found[i].distance);
                let b = floats::order_key(found[j].distance);
                a < b || (a == b && found[i].row_id < found[j].row_id)
            }
            &&& 0 <= i < found.len() && 0 <= row < v.num_vectors && (forall|q: int|
                0 <= q < found.len() ==> (#[trigger] found[q]).row_id != row) ==> {
                let a = floats::order_key(found[i].distance);
                let b = floats::order_key(
                    graph_walk::from_query(f, v.values, v.dimension, query, row),
                );
                a < b || (a == b && found[i].row_id < row)
            }
        }),
{
    let found = brute_force::knn_outcome(f, v, query, k)->Ok_0;
    let all = brute_force::row_candidates(f, v, query, v.num_vectors);
    let near = topk::nearest(all, k);
    let places = ranking::nearest_are_kept(all, k);
    assert(ranking::ids_grow(all));
    if 0 <= i < found.len() {
        assert(near[i] == all[places[i]]);
        if i < j < found.len() {
            assert(near[j] == all[places[j]]);
            assert(places[i] != places[j]);
        }
        if 0 <= row < v.num_vectors && (forall|q: int|
            0 <= q < found.len() ==> (#[trigger] found[q]).row_id != row) {
            if places.contains(row) {
                let q = choose|q: int| 0 <= q < places.len() && places[q] == row;
                assert(near[q] == all[row]);
                assert(found[q].row_id == row);
            }
            assert(all[row].id == row);
            assert(all[row].distance == graph_walk::from_query(
                f,
                v.values,
                v.dimension,
                query,
                row,
            ));
        }
    }
}

/// A search of all vectors fails if the query has another number of components, and
/// otherwise only if there is more than one vector and some distance is NaN.
pub proof fn searches_of_all_fail<F: Fn(&[u32], &[u32]) -> u32>(
    f: F,
    v: Vectors,
    query: Seq<u32>,
    k: nat,
)
    ensures
        ({
            let r = brute_force::knn_outcome(f, v, query, k);
            let nan = exists|i: int|
                0 <= i < v.num_vectors && floats::is_nan(
                    #[trigger] graph_walk::from_query(f, v.values, v.dimension, query, i),
                );
            &&& query.len() != v.dimension ==> r == Err::<
                Seq<VectorSearchResult>,
                VectorIndexError,
            >(VectorIndexError::QueryDimension)
            &&& query.len() == v.dimension ==> (r is Err <==> v.num_vectors > 1 && nan)
        }),
{
    let all = brute_force::row_candidates(f, v, query, v.num_vectors);
    if crate::ivf_flat::has_nan(all) {
        let i = choose|i: int| 0 <= i < all.len() && floats::is_nan(#[trigger] all[i].distance);
        assert(floats::is_nan(
            graph_walk::from_query(f, v.values, v.dimension, query, i),
        ));
    }
    if exists|i: int|
        0 <= i < v.num_vectors && floats::is_nan(
            #[trigger] graph_walk::from_query(f, v.values, v.dimension, query, i),
        ) {
        let i = choose|i: int|
            0 <= i < v.num_vectors && floats::is_nan(
                #[trigger] graph_walk::from_query(f, v.values, v.dimension, query, i),
            );
        assert(floats::is_nan(all[i].distance));
    }
}

/// Vectors can be indexed if there are some, they have components, and all have as many.
pub proof fn vectors_can_be_indexed(vectors: Seq<Seq<u32>>, i: int)
    ensures
        ({
            let e = vector_index::vectors_check(vectors);
            &&& vectors.len() == 0 ==> e == Some(VectorIndexError::NoVectors)
            &&& e is None ==> vectors.len() > 0 && vectors[0].len() > 0
            &&& e is None && 0 <= i < vectors.len() ==> vectors[i].len() == vectors[0].len()
            &&& 0 <= i < vectors.len() && vectors[i].len() != vectors[0].len() ==> e is Some
        }),
{
    if 0 <= i < vectors.len() && vector_index::all_of_dim(vectors, vectors[0].len()) {
        assert(vectors[i].len() == vectors[0].len());
    }
}

/// Where the components of vectors stand if they are put one behind the other.
pub proof fn vectors_are_flattened(vectors: Seq<Seq<u32>>, dim: nat, i: int, j: int)
    requires
        vector_index::all_of_dim(vectors, dim),
        0 <= i < vectors.len(),
        0 <= j < dim,
    ensures
        vector_index::flat(vectors).len() == vectors.len() * dim,
        vector_index::flat(vectors)[i * dim + j] == vectors[i][j],
{
    vector_index::flat_rows(vectors, dim);
    floats::row_fits(dim, i, vectors.len() as int);
    assert(floats::row_of(vector_index::flat(vectors), dim, i) == vectors[i]);
    assert(floats::row_of(vector_index::flat(vectors), dim, i)[j] == vector_index::flat(
        vectors,
    )[i * dim + j]);
}

/// The bytes of an index that is searched from end to end: the number of vectors, the
/// number of components, and the components, four bytes each.
pub proof fn vectors_are_stored(vectors: Seq<Seq<u32>>, i: int, j: int)
    requires
        vector_index::vectors_check(vectors) is None,
        vectors.len() <= u32::MAX,
        vectors[0].len() <= u32::MAX,
        0 <= i < vectors.len(),
        0 <= j < vectors[0].len(),
    ensures
        ({
            let b = brute_force::bruteforce_bytes(vectors);
            let at = 8 + 4 * (i * vectors[0].len() + j);
            &&& le::u32_of(b.subrange(0, 4)) == vectors.len()
            &&& le::u32_of(b.subrange(4, 8)) == vectors[0].len()
            &&& b.len() == 8 + 4 * (vectors.len() * vectors[0].len())
            &&& b.subrange(at, at + 4) == le::bytes_of_u32(vectors[i][j])
        }),
{
    let b = brute_force::bruteforce_bytes(vectors);
    let dim = vectors[0].len();
    vectors_are_flattened(vectors, dim, i, j);
    floats::row_fits(dim, i, vectors.len() as int);
    let x = i * dim + j;
    let flat = vector_index::flat(vectors);
    assert(b.subrange(0, 4) =~= le::bytes_of_u32(vectors.len() as u32));
    assert(b.subrange(4, 8) =~= le::bytes_of_u32(dim as u32));
    le::u32_round_trip(vectors.len() as u32);
    le::u32_round_trip(dim as u32);
    assert(b.subrange(8 + 4 * x, 8 + 4 * x + 4) =~= le::bytes_of_u32(flat[x]));
}

/// A question has the number of components, how many are asked for, and the components
/// of the query.
pub proof fn questions_say(query: Seq<u32>, k: usize, j: int)
    requires
        query.len() <= u32::MAX,
        k <= u32::MAX,
    ensures
        ({
            let b = wasm::knn_question(query, k);
            &&& b.len() == 8 + 4 * query.len()
            &&& le::u32_of(b.subrange(0, 4)) == query.len()
            &&& le::u32_of(b.subrange(4, 8)) == k
            &&& 0 <= j < query.len() ==> b.subrange(8 + 4 * j, 8 + 4 * j + 4) == le::bytes_of_u32(
                query[j],
            )
        }),
{
    let b = wasm::knn_question(query, k);
    assert(b.subrange(0, 4) =~= le::bytes_of_u32(query.len() as u32));
    assert(b.subrange(4, 8) =~= le::bytes_of_u32(k as u32));
    le::u32_round_trip(query.len() as u32);
    le::u32_round_trip(k as u32);
    if 0 <= j < query.len() {
        assert(b.subrange(8 + 4 * j, 8 + 4 * j + 4) =~= le::bytes_of_u32(query[j]));
    }
}

/// A question for many queries has the number of components, how many are asked for, the
/// number of queries, and the components of the queries one behind the other.
pub proof fn questions_for_many_say(queries: Seq<Seq<u32>>, k: usize, i: int, j: int)
    requires
        0 < queries.len() <= u32::MAX,
        queries[0].len() <= u32::MAX,
        k <= u32::MAX,
        vector_index::all_of_dim(queries, queries[0].len()),
        0 <= i < queries.len(),
        0 <= j < queries[0].len(),
    ensures
        ({
            let b = wasm::batch_question(queries, k);
            let at = 12 + 4 * (i * queries[0].len() + j);
            &&& b.len() == 12 + 4 * (queries.len() * queries[0].len())
            &&& le::u32_of(b.subrange(0, 4)) == queries[0].len()
            &&& le::u32_of(b.subrange(4, 8)) == k
            &&& le::u32_of(b.subrange(8, 12)) == queries.len()
            &&& b.subrange(at, at + 4) == le::bytes_of_u32(queries[i][j])
        }),
{
    let b = wasm::batch_question(queries, k);
    let dim = queries[0].len();
    vectors_are_flattened(queries, dim, i, j);
    floats::row_fits(dim, i, queries.len() as int);
    let x = i * dim + j;
    let flat = vector_index::flat(queries);
    assert(b.subrange(0, 4) =~= le::bytes_of_u32(dim as u32));
    assert(b.subrange(4, 8) =~= le::bytes_of_u32(k as u32));
    assert(b.subrange(8, 12) =~= le::bytes_of_u32(queries.len() as u32));
    le::u32_round_trip(dim as u32);
    le::u32_round_trip(k as u32);
    le::u32_round_trip(queries.len() as u32);
    assert(b.subrange(12 + 4 * x, 12 + 4 * x + 4) =~= le::bytes_of_u32(flat[x]));
}

/// An answer has the number of its results, and for each its row in eight bytes and its
/// distance in four; it is refused if it has another length.
pub proof fn answers_say(b: Seq<u8>, i: int)
    requires
        b.len() >= 4,
    ensures
        ({
            let n = le::u32_of(b.subrange(0, 4));
            let r = wasm::answer_of(b);
            &&& r is Ok <==> b.len() == 4 + 12 * n
            &&& r is Ok ==> r->Ok_0.len() == n
            &&& r is Ok && 0 <= i < n ==> r->Ok_0[i].row_id == le::u64_of(
                b.subrange(4 + 12 * i, 4 + 12 * i + 8),
            ) && r->Ok_0[i].distance == le::u32_of(
                b.subrange(4 + 12 * i + 8, 4 + 12 * i + 12),
            )
        }),
{
}

/// In an answer to many queries the results of each stand behind those of the one in
/// front, with their number first.
pub proof fn answers_to_many_say(b: Seq<u8>, k: nat, i: int)
    requires
        wasm::parts_at(b, k + 1) is Ok,
    ensures
        wasm::parts_at(b, 0) == Ok::<(Seq<Seq<VectorSearchResult>>, int), VectorIndexError>(
            (Seq::empty(), 4),
        ),
        wasm::parts_at(b, k) is Ok,
        ({
            let (before, at) = wasm::parts_at(b, k)->Ok_0;
            let (after, end) = wasm::parts_at(b, k + 1)->Ok_0;
            let n = le::u32_of(b.subrange(at, at + 4));
            &&& end == at + 4 + 12 * n
            &&& end <= b.len()
            &&& after.len() == before.len() + 1
            &&& after.drop_last() == before
            &&& after.last().len() == n
            &&& 0 <= i < n ==> after.last()[i].row_id == le::u64_of(
                b.subrange(at + 4 + 12 * i, at + 4 + 12 * i + 8),
            ) && after.last()[i].distance == le::u32_of(
                b.subrange(at + 4 + 12 * i + 8, at + 4 + 12 * i + 12),
            )
        }),
{
    let (before, at) = wasm::parts_at(b, k)->Ok_0;
    let (after, end) = wasm::parts_at(b, k + 1)->Ok_0;
    assert(after.drop_last() =~= before);
}

/// An answer to many queries is for as many as were asked, and has nothing behind it.
pub proof fn answers_to_many_are_whole(b: Seq<u8>, n: nat)
    requires
        wasm::batch_answer_of(b, n) is Ok,
    ensures
        b.len() >= 4,
        le::u32_of(b.subrange(0, 4)) == n,
        wasm::parts_at(b, n) == Ok::<(Seq<Seq<VectorSearchResult>>, int), VectorIndexError>(
            (wasm::batch_answer_of(b, n)->Ok_0, b.len() as int),
        ),
{
}

/// Only distances that are L2 are known, and an index with lists cannot be opened; one
/// with a module needs the module. Others are opened if their bytes can be read.
pub proof fn indexes_are_opened(
    algorithm: VectorIndexAlgorithm,
    metric: VectorDistanceMetric,
    bytes: Seq<u8>,
    has_module: bool,
    r: Result<VectorIndexRuntime, VectorIndexError>,
)
    requires
        runtime::is_opened(algorithm, metric, bytes, has_module, r),
    ensures
        r is Ok ==> metric == VectorDistanceMetric::L2 && algorithm != VectorIndexAlgorithm::Ivf,
        algorithm == VectorIndexAlgorithm::BruteForce && r is Ok ==> r->Ok_0 is BruteForce
            && brute_force::bruteforce_of(bytes) == Ok::<Vectors, VectorIndexError>(
            r->Ok_0->BruteForce_0@,
        ),
        algorithm == VectorIndexAlgorithm::Hnsw && r is Ok ==> r->Ok_0 is Hnsw
            && vector_index::hnsw_index::hnsw_of(bytes) == Ok::<
            vector_index::hnsw_index::Graph,
            VectorIndexError,
        >(r->Ok_0->Hnsw_0@),
        algorithm == VectorIndexAlgorithm::CustomWasm ==> (r is Ok <==> has_module && metric
            == VectorDistanceMetric::L2),
        algorithm == VectorIndexAlgorithm::BruteForce && metric == VectorDistanceMetric::L2
            && brute_force::bruteforce_of(bytes) is Ok ==> r is Ok,
        algorithm == VectorIndexAlgorithm::Hnsw && metric == VectorDistanceMetric::L2
            && vector_index::hnsw_index::hnsw_of(bytes) is Ok ==> r is Ok,
{
}

/// An index that is built without a graph holds the vectors: opened again, it finds what a
/// search of just these vectors finds.
pub proof fn built_indexes_hold_the_vectors<F: Fn(&[u32], &[u32]) -> u32>(
    f: F,
    vectors: Seq<Seq<u32>>,
    levels: Seq<usize>,
)
    requires
        vectors.len() <= u32::MAX,
        vectors.len() > 0 ==> vectors[0].len() <= u32::MAX,
        vectors.len() > 0 ==> 4 * (vectors.len() * vectors[0].len()) <= usize::MAX,
        construct::index_outcome(f, VectorIndexBuildAlgorithm::BruteForce, vectors, levels) is Ok,
    ensures
        ({
            let b = construct::index_outcome(
                f,
                VectorIndexBuildAlgorithm::BruteForce,
                vectors,
                levels,
            )->Ok_0;
            let v = brute_force::bruteforce_of(b);
            &&& v is Ok
            &&& v->Ok_0.num_vectors == vectors.len()
            &&& v->Ok_0.dimension == vectors[0].len()
            &&& forall|i: int|
                0 <= i < vectors.len() ==> #[trigger] floats::row_of(
                    v->Ok_0.values,
                    vectors[0].len(),
                    i,
                ) == vectors[i]
        }),
{
    brute_force::bruteforce_round_trip(vectors);
}

} // verus!
