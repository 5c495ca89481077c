//! Laws of measurements: files of vectors, numbers to measure with, and what is measured.
use crate::bench::blocks;
use crate::bench::disk;
use crate::bench::disk::BlockMeta;
use crate::bench::fill;
use crate::bench::pipeline;
use crate::bench::pipeline::{PipelineAlgorithm, PipelineError, RunRequest, VariantPlan};
use crate::bench::recall;
use crate::bench::vecs;
use crate::bench::vecs::VecsError;
use crate::floats;
use vstd::prelude::*;

verus! {

/// A cluster is chosen in any case: the one that was named, or the last one.
pub proof fn a_cluster_is_chosen(best: i32, k: usize, r: usize)
    requires
        k > 0,
        call_ensures(disk::chosen_cluster, (best, k), r),
    ensures
        r < k,
        0 <= best < k ==> r == best,
        !(0 <= best < k) ==> r + 1 == k,
{
}

/// Only capital letters of ASCII change when a text is made small: each becomes the letter
/// that stands as far behind `a` as it stands behind `A`.
pub proof fn letters_are_made_small(s: Seq<char>, i: int)
    requires
        0 <= i < s.len(),
    ensures
        pipeline::lowered(s).len() == s.len(),
        'A' <= s[i] <= 'Z' ==> pipeline::lowered(s)[i] as int - 'a' as int == s[i] as int
            - 'A' as int,
        !('A' <= s[i] <= 'Z') ==> pipeline::lowered(s)[i] == s[i],
        pipeline::lowered(pipeline::lowered(s)) == pipeline::lowered(s),
{
    let small = pipeline::lowered(s);
    assert forall|k: int| 0 <= k < s.len() implies pipeline::lowered(small)[k] == small[k] by {
        assert(small[k] == pipeline::lowered_char(s[k]));
    }
    assert(pipeline::lowered(small) =~= small);
}

/// What the names of algorithms stand for. Capital letters make no difference.
pub proof fn names_of_algorithms(value: &str, other: &str, a: Option<PipelineAlgorithm>, b: Option<PipelineAlgorithm>)
    requires
        call_ensures(pipeline::parse_algorithm, (value,), a),
        call_ensures(pipeline::parse_algorithm, (other,), b),
    ensures
        ({
            let small = pipeline::lowered(value@);
            &&& pipeline::lowered(value@) == pipeline::lowered(other@) ==> a == b
            &&& a == Some(PipelineAlgorithm::Brute) <==> small == "brute"@ || small
                == "bruteforce"@ || small == "brute-force"@
            &&& a == Some(PipelineAlgorithm::Hnsw) <==> small == "hnsw"@ || small
                == "hnsw-native"@
            &&& a == Some(PipelineAlgorithm::Wasm) <==> small == "wasm"@ || small == "custom"@
        }),
{
    reveal_strlit("brute");
    reveal_strlit("bruteforce");
    reveal_strlit("brute-force");
    reveal_strlit("hnsw");
    reveal_strlit("hnsw-native");
    reveal_strlit("wasm");
    reveal_strlit("custom");
    let small = pipeline::lowered(value@);
    assert(small == "brute"@ ==> small[0] == 'b');
    assert(small == "bruteforce"@ ==> small[0] == 'b');
    assert(small == "brute-force"@ ==> small[0] == 'b');
    assert(small == "hnsw"@ ==> small[0] == 'h');
    assert(small == "hnsw-native"@ ==> small[0] == 'h');
    assert(small == "wasm"@ ==> small[0] == 'w');
    assert(small == "custom"@ ==> small[0] == 'c');
}

/// A measurement runs if there are vectors and queries with as many components, batches
/// are not empty, its algorithm is known, only a module is compared, and a module that is
/// needed is there. Otherwise the first of these that does not hold is told.
pub proof fn measurements_run(
    base: &[Vec<u32>],
    queries: &[Vec<u32>],
    request: &RunRequest,
    r: Result<PipelineAlgorithm, PipelineError>,
)
    requires
        call_ensures(pipeline::check_run, (base, queries, request), r),
    ensures
        ({
            let named = pipeline::algorithm_of(request.algorithm@);
            let same = base@.len() > 0 && queries@.len() > 0 && base@[0]@.len() == queries@[0]@.len();
            let known = same && request.batch_size > 0 && named is Some;
            &&& r is Ok <==> known && (request.compare_native ==> named->0 is Wasm) && (named->0
                is Wasm ==> request.has_module)
            &&& r is Ok ==> named == Some(r->Ok_0)
            &&& r == Err::<PipelineAlgorithm, PipelineError>(PipelineError::NoVectors)
                <==> base@.len() == 0
            &&& r == Err::<PipelineAlgorithm, PipelineError>(PipelineError::NoQueries)
                <==> base@.len() > 0 && queries@.len() == 0
            &&& r is Err && r->Err_0 is DimMismatch <==> base@.len() > 0 && queries@.len() > 0
                && !same
            &&& r == Err::<PipelineAlgorithm, PipelineError>(PipelineError::ZeroBatch) <==> same
                && request.batch_size == 0
            &&& r == Err::<PipelineAlgorithm, PipelineError>(PipelineError::UnknownAlgorithm)
                <==> same && request.batch_size > 0 && named is None
            &&& r == Err::<PipelineAlgorithm, PipelineError>(PipelineError::NothingToCompare)
                <==> known && request.compare_native && !(named->0 is Wasm)
            &&& r == Err::<PipelineAlgorithm, PipelineError>(PipelineError::NoModule) <==> known
                && named->0 is Wasm && !request.has_module
        }),
{
}

/// A measurement without a graph is one that searches from end to end; only a module gets
/// several queries at once, and there has to be one.
pub proof fn variants_are_planned(
    algorithm: PipelineAlgorithm,
    has_module: bool,
    batch_size: usize,
    r: Result<VariantPlan, PipelineError>,
)
    requires
        call_ensures(pipeline::plan_variant, (algorithm, has_module, batch_size), r),
    ensures
        r is Err <==> algorithm is Wasm && !has_module,
        r is Err ==> r->Err_0 is NoModule,
        r is Ok ==> {
            let plan = r->Ok_0;
            &&& plan.graph <==> !(algorithm is Brute)
            &&& plan.batched <==> algorithm is Wasm && batch_size > 1
            &&& plan.algorithm is BruteForce <==> algorithm is Brute
            &&& plan.algorithm is Hnsw <==> algorithm is Hnsw
            &&& plan.algorithm is CustomWasm <==> algorithm is Wasm
        },
{
}

/// Different algorithms are called differently in reports.
pub proof fn labels_differ(a: PipelineAlgorithm, b: PipelineAlgorithm)
    ensures
        pipeline::label_of(PipelineAlgorithm::Brute) == "brute-force"@,
        pipeline::label_of(PipelineAlgorithm::Hnsw) == "native-hnsw"@,
        pipeline::label_of(PipelineAlgorithm::Wasm) == "wasm-hnsw"@,
        pipeline::label_of(a) == pipeline::label_of(b) ==> a == b,
{
    reveal_strlit("brute-force");
    reveal_strlit("native-hnsw");
    reveal_strlit("wasm-hnsw");
    let x = pipeline::label_of(a);
    let y = pipeline::label_of(b);
    assert("brute-force"@[0] == 'b' && "native-hnsw"@[0] == 'n' && "wasm-hnsw"@[0] == 'w');
    assert(x == y ==> x[0] == y[0]);
}

/// Numbers to measure with come of a state that is multiplied and added to, around the end
/// of 64 bits; each is a number from one up to two whose fraction are the lower 23 bits of
/// the upper half of the state, less one.
pub proof fn states_follow(state: u64, n: nat)
    ensures
        (fill::next_state(state) as int - (state * 6364136223846793005 + 1442695040888963407))
            % 0x1_0000_0000_0000_0000 == 0,
        fill::state_after(state, 0) == state,
        fill::state_after(state, n + 1) == fill::next_state(fill::state_after(state, n)),
        0x3f80_0000 <= fill::unit_pattern(state) < 0x4000_0000,
        fill::unit_pattern(state) as int - 0x3f80_0000 == (state as int / 0x1_0000_0000)
            % 0x80_0000,
{
    let x = state * 6364136223846793005 + 1442695040888963407;
    let m = 0x1_0000_0000_0000_0000int;
    vstd::arithmetic::div_mod::lemma_fundamental_div_mod(x, m);
    vstd::arithmetic::div_mod::lemma_mod_multiples_basic(-(x / m), m);
    assert(x % m - x == -(x / m) * m) by (nonlinear_arith)
        requires
            x == m * (x / m) + x % m,
    ;
}

/// Filling gives as many numbers as are asked for, and fewer are the first of more.
pub proof fn fillings_agree<M: Fn(u32, u32) -> u32>(
    n: usize,
    more: usize,
    state: u64,
    minus: &M,
    a: Vec<u32>,
    b: Vec<u32>,
)
    requires
        n <= more,
        call_ensures(fill::fill_f32::<M>, (n, state, minus), a),
        call_ensures(fill::fill_f32::<M>, (more, state, minus), b),
    ensures
        a@.len() == n,
        a@ == b@.take(n as int),
{
    assert(a@ =~= b@.take(n as int));
}

/// A file of vectors is read from its start on. A limit ends it, and so do bytes that are
/// too few for a number of components; the first vector goes in front of the others.
pub proof fn records_are_read(row: Seq<u32>, rest: Seq<u8>, limit: Option<nat>)
    requires
        0 < row.len() <= i32::MAX,
        limit != Some(0nat),
    ensures
        ({
            let b = vecs::record_bytes(row) + rest;
            let left = if limit is Some {
                Some((limit->0 - 1) as nat)
            } else {
                None
            };
            let others = vecs::records(rest, left);
            &&& vecs::records(b, Some(0)) == Ok::<Seq<Seq<u32>>, VecsError>(Seq::empty())
            &&& vecs::records(b, limit) is Ok <==> others is Ok
            &&& others is Ok ==> vecs::records(b, limit)->Ok_0 == seq![row] + others->Ok_0
            &&& others is Err ==> vecs::records(b, limit)->Err_0 == others->Err_0
        }),
{
    vecs::head_of_record(row, rest);
}

/// A number of components that is zero or too large is refused, and so are bytes that end
/// within a vector.
pub proof fn records_are_refused(b: Seq<u8>, limit: Option<nat>)
    requires
        limit != Some(0nat),
    ensures
        b.len() < 4 ==> vecs::records(b, limit) == Ok::<Seq<Seq<u32>>, VecsError>(Seq::empty()),
        b.len() >= 4 && (vecs::head(b) == 0 || vecs::head(b) > i32::MAX) ==> vecs::records(b, limit)
            == Err::<Seq<Seq<u32>>, VecsError>(VecsError::Dimension { got: vecs::head(b) }),
        b.len() >= 4 && 0 < vecs::head(b) <= i32::MAX && b.len() < 4 + 4 * vecs::head(b)
            ==> vecs::records(b, limit) == Err::<Seq<Seq<u32>>, VecsError>(VecsError::Truncated),
{
}

/// The number zero stands for no limit, and each other number for itself.
pub proof fn zero_is_no_limit(limit: usize)
    ensures
        vecs::limit_of(limit) is None <==> limit == 0,
        limit > 0 ==> vecs::limit_of(limit) == Some(limit as nat),
{
}

/// Of vectors that should have equally many components the first is read in any case, and
/// others up to the limit; one with another number of components is refused.
pub proof fn equal_vectors_are_read(row: Seq<u32>, next: Seq<u32>, rest: Seq<u8>, max_vectors: int)
    requires
        0 < row.len() <= vecs::MAX_DIM,
        next.len() <= vecs::MAX_DIM,
    ensures
        ({
            let one = vecs::record_bytes(row);
            let b = one + (vecs::record_bytes(next) + rest);
            let all = vecs::equal_vectors(b, max_vectors);
            let tail = vecs::equal_vectors(vecs::record_bytes(next) + rest, max_vectors - 1);
            let alone = Ok::<(u32, Seq<u32>), VecsError>((row.len() as u32, row));
            &&& vecs::equal_vectors(one, max_vectors) == alone
            &&& max_vectors <= 1 ==> all == alone
            &&& max_vectors > 1 && next.len() != row.len() ==> all == Err::<
                (u32, Seq<u32>),
                VecsError,
            >(VecsError::DimMismatch { expected: row.len() as u32, got: next.len() as u32 })
            &&& max_vectors > 1 && next.len() == row.len() ==> {
                &&& all is Ok <==> tail is Ok
                &&& tail is Ok ==> all->Ok_0 == (row.len() as u32, row + tail->Ok_0.1)
                &&& tail is Err ==> all->Err_0 == tail->Err_0
            }
        }),
{
    let one = vecs::record_bytes(row);
    let two = vecs::record_bytes(next) + rest;
    vecs::head_of_record(row, Seq::empty());
    assert(one + Seq::<u8>::empty() =~= one);
    vecs::head_of_record(row, two);
    vecs::head_of_record(next, rest);
    reveal_with_fuel(vecs::more_components, 2);
    assert(row + Seq::<u32>::empty() =~= row);
}

/// Vectors with too many components, or with none, are refused, and so are bytes without a
/// whole vector.
pub proof fn unequal_vectors_are_refused(b: Seq<u8>, max_vectors: int)
    ensures
        b.len() < 4 ==> vecs::equal_vectors(b, max_vectors) == Err::<(u32, Seq<u32>), VecsError>(
            VecsError::Truncated,
        ),
        b.len() >= 4 && (vecs::head(b) == 0 || vecs::head(b) > 10_000) ==> vecs::equal_vectors(
            b,
            max_vectors,
        ) == Err::<(u32, Seq<u32>), VecsError>(VecsError::Dimension { got: vecs::head(b) }),
        b.len() >= 4 && 0 < vecs::head(b) <= 10_000 && b.len() < 4 + 4 * vecs::head(b)
            ==> vecs::equal_vectors(b, max_vectors) == Err::<(u32, Seq<u32>), VecsError>(
            VecsError::Truncated,
        ),
{
}

/// A block starts at a multiple of its alignment, not in front of where there is room and
/// as near to it as can be; its centroids stand there, its vectors behind them, and it ends
/// behind the last of them.
pub proof fn blocks_are_placed(
    offset: u64,
    align: u64,
    dim: usize,
    center: u32,
    size: usize,
    counts: Vec<usize>,
    r: (BlockMeta, u64),
)
    requires
        align > 0,
        call_ensures(disk::place_block, (offset, align, dim, center, size, counts), r),
    ensures
        r.0.block_offset % align == 0,
        offset <= r.0.block_offset < offset + align,
        r.0.centroids_offset == r.0.block_offset,
        r.0.data_offset - r.0.block_offset == 4 * (counts@.len() * dim),
        r.1 - r.0.data_offset == 4 * (disk::vectors_before(counts@, counts@.len() as int) * dim),
        r.0.k == counts@.len(),
        r.0.center_scalar == center,
        r.0.block_size == size,
{
}

/// Counts of vectors add up cluster by cluster.
pub proof fn vectors_are_counted(counts: Seq<usize>, n: int)
    requires
        0 <= n < counts.len(),
    ensures
        disk::vectors_before(counts, 0) == 0,
        disk::vectors_before(counts, n + 1) - disk::vectors_before(counts, n) == counts[n],
{
}

/// The bytes of a cluster are four for each component of each vector of it, and the first
/// cluster starts where the vectors do.
pub proof fn clusters_are_found(meta: &BlockMeta, dim: usize, best: usize, r: (u64, usize))
    requires
        call_ensures(disk::cluster_span, (meta, dim, best), r),
    ensures
        r.1 == meta.cluster_counts@[best as int] * dim * 4,
        best == 0 ==> r.0 == meta.data_offset,
{
    assert(0 * dim * 4 == 0);
}

/// The blocks that are picked are those whose centers are nearest to the first component
/// of the query, or to zero without one: as many as are asked for, or all there are.
pub proof fn picked_blocks_are_near<G: Fn(u32, u32) -> u32>(
    query: &[u32],
    metas: &[BlockMeta],
    top_k: usize,
    gap: &G,
    r: Option<Vec<usize>>,
    i: int,
    p: usize,
)
    requires
        call_ensures(disk::pick_blocks::<G>, (query, metas, top_k, gap), r),
        r is Some,
        0 <= i < r->0@.len(),
    ensures
        ({
            let first = if query@.len() > 0 {
                query@[0]
            } else {
                0u32
            };
            let near = disk::level(
                floats::applied(*gap, metas@[r->0@[i] as int].center_scalar, first),
            );
            &&& r->0@.len() == (if top_k < metas@.len() {
                top_k as nat
            } else {
                metas@.len()
            })
            &&& r->0@[i] < metas@.len()
            &&& p < metas@.len() && !r->0@.contains(p) ==> near <= disk::level(
                floats::applied(*gap, metas@[p as int].center_scalar, first),
            )
        }),
{
    let keys = disk::center_gaps(query@, metas@, *gap).map_values(|x: u32| disk::level(x));
    assert(r->0@[i] < keys.len());
    if p < metas@.len() && !r->0@.contains(p) {
        assert(blocks::stands_before(keys, r->0@[i], p));
    }
}

/// Zeros of both signs stand at one place in the order of numbers, all others where the
/// order of numbers has them.
pub proof fn zeros_are_alike(x: u32)
    ensures
        disk::level(0) == disk::level(0x8000_0000),
        x != 0 && x != 0x8000_0000 ==> disk::level(x) == floats::order_key(x),
{
}

/// It does not matter for what lists have in common which is first, how often a number is
/// in them, and in which order.
pub proof fn common_numbers_are_counted(a: &[u32], b: &[u32], c: &[u32], x: usize, y: usize)
    requires
        call_ensures(recall::common_count, (a, b), x),
        call_ensures(recall::common_count, (b, c), y),
        a@.to_set() == c@.to_set(),
    ensures
        x == y,
{
    assert(a@.to_set().intersect(b@.to_set()) =~= b@.to_set().intersect(c@.to_set()));
}

/// A list without repetitions has the numbers of the list, each at one place.
pub proof fn numbers_are_kept_once(v: &[u32], r: Vec<u32>, x: u32, i: int, j: int)
    requires
        call_ensures(recall::distinct, (v,), r),
    ensures
        v@.contains(x) <==> r@.contains(x),
        0 <= i < j < r@.len() ==> r@[i] != r@[j],
{
    assert(v@.contains(x) <==> v@.to_set().contains(x));
    assert(r@.contains(x) <==> r@.to_set().contains(x));
}

} // verus!
