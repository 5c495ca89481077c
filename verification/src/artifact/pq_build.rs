//! Building an inverted-file index with product-quantised vectors.
use crate::artifact::pq;
use crate::artifact::pq::{
    check_pq_params, residual_samples, subspace_samples, PqParamsMismatch,
};
use crate::floats;
use crate::ivf_assign;
use crate::ivf_build::build_ivf_flat;
use crate::ivf_flat::IvfFlatIndex;
use crate::kmeans;
use crate::kmeans::{kmeans_l2, TooFewSamples};
use crate::training::{TrainingError, TrainingSet};
use rand::rngs::StdRng;
use vstd::prelude::*;

verus! {

/// How many entries a codebook has: as many as a code of one byte can name.
pub const CODEBOOK_ENTRIES: usize = 256;

proof fn parts_len(residuals: Seq<u32>, m: nat, d: nat, sub: int, n: nat)
    requires
        0 <= sub < m,
        n * (m * d) <= residuals.len(),
    ensures
        pq::parts_upto(residuals, m, d, sub, n).len() == n * d,
    decreases n,
{
    assert(0 * d == 0) by (nonlinear_arith);
    if n > 0 {
        floats::row_fits(m * d, n - 1, n as int);
        floats::row_fits(d, sub, m as int);
        floats::row_fits(d, n - 1, n as int);
        parts_len(residuals, m, d, sub, (n - 1) as nat);
    }
}

proof fn residuals_len<F: Fn(&[u32], &[u32]) -> u32, S: Fn(u32, u32) -> u32>(
    f: F,
    minus: S,
    sample: Seq<u32>,
    centroids: Seq<u32>,
    dim: nat,
    n: nat,
)
    requires
        n * dim <= sample.len(),
    ensures
        pq::residuals_upto(f, minus, sample, centroids, dim, n).len() == n * dim,
    decreases n,
{
    assert(0 * dim == 0) by (nonlinear_arith);
    if n > 0 {
        floats::row_fits(dim, n - 1, n as int);
        residuals_len(f, minus, sample, centroids, dim, (n - 1) as nat);
    }
}

/// Whether `books` are codebooks that can come of vectors: for each part of them,
/// the centroids of that part.
pub open spec fn are_codebooks<
    F: Fn(&[u32], &[u32]) -> u32,
    A: Fn(u32, u32) -> u32,
    M: Fn(u32, usize) -> u32,
>(
    f: F,
    plus: A,
    average: M,
    residuals: Seq<u32>,
    m: nat,
    d: nat,
    k: nat,
    iters: nat,
    books: Seq<Vec<u32>>,
) -> bool {
    &&& books.len() == m
    &&& forall|sub: int|
        0 <= sub < m ==> (#[trigger] books[sub])@.len() == k * d && kmeans::is_trained(
            f,
            plus,
            average,
            pq::parts_upto(residuals, m, d, sub, residuals.len() / (m * d)),
            d,
            k,
            iters,
            books[sub]@,
        )
}

/// Trains a codebook of `k` entries for each of the `m` parts of vectors.
pub fn train_pq_codebooks<
    F: Fn(&[u32], &[u32]) -> u32,
    A: Fn(u32, u32) -> u32,
    M: Fn(u32, usize) -> u32,
>(
    residuals: &[u32],
    m: usize,
    d: usize,
    k: usize,
    max_iters: usize,
    rng: &mut StdRng,
    f: &F,
    plus: &A,
    average: &M,
) -> (r: Result<Vec<Vec<u32>>, TooFewSamples>)
    requires
        floats::is_distance(*f),
        floats::is_operation(*plus),
        kmeans::is_average(*average),
        m * d > 0,
        m * d <= usize::MAX,
        k > 0,
    ensures
        r is Err <==> residuals@.len() / ((m * d) as nat) < k,
        r matches Ok(books) ==> are_codebooks(
            *f,
            *plus,
            *average,
            residuals@,
            m as nat,
            d as nat,
            k as nat,
            max_iters as nat,
            books@,
        ),
{
    let ghost n = residuals@.len() / ((m * d) as nat);
    proof {
        let total = residuals@.len() as int;
        let dim = m * d;
        assert(n * dim <= total) by (nonlinear_arith)
            requires
                n == total / dim,
                dim > 0,
        ;
        assert(m > 0 && d > 0) by (nonlinear_arith)
            requires
                m * d > 0,
                m >= 0,
                d >= 0,
        ;
    }
    let mut books: Vec<Vec<u32>> = Vec::new();
    let mut sub: usize = 0;
    while sub < m
        invariant
            floats::is_distance(*f),
            floats::is_operation(*plus),
            kmeans::is_average(*average),
            0 < m * d <= usize::MAX,
            m > 0,
            d > 0,
            k > 0,
            n == residuals@.len() / ((m * d) as nat),
            n * (m * d) <= residuals@.len(),
            sub <= m,
            books@.len() == sub,
            sub > 0 ==> n >= k,
            forall|s: int|
                0 <= s < sub ==> (#[trigger] books@[s])@.len() == k * d && kmeans::is_trained(
                    *f,
                    *plus,
                    *average,
                    pq::parts_upto(residuals@, m as nat, d as nat, s, n),
                    d as nat,
                    k as nat,
                    max_iters as nat,
                    books@[s]@,
                ),
        decreases m - sub,
    {
        let samples = subspace_samples(residuals, m, d, sub);
        proof {
            parts_len(residuals@, m as nat, d as nat, sub as int, n);
            assert((n * d) / (d as int) == n) by {
                vstd::arithmetic::div_mod::lemma_div_multiples_vanish(n as int, d as int);
                assert(n * d == d * n) by (nonlinear_arith);
            }
        }
        match kmeans_l2(samples.as_slice(), d, k, max_iters, rng, f, plus, average) {
            Err(e) => {
                return Err(e);
            },
            Ok(book) => {
                books.push(book);
            },
        }
        sub = sub + 1;
    }
    Ok(books)
}

/// An index, and the codebooks that its vectors are coded with.
#[derive(Debug)]
pub struct IvfPqParts {
    pub index: IvfFlatIndex,
    pub codebooks: Vec<Vec<u32>>,
}

/// Why no index can be built.
#[derive(Clone, Copy, Debug, PartialEq, Eq, Structural)]
pub enum IvfPqBuildError {
    Training(TrainingError),
    Params(PqParamsMismatch),
    /// The sample has fewer vectors than a codebook has entries.
    CodebookSample,
}

/// What keeps an index from being built.
pub open spec fn refusal(
    set: TrainingSet,
    nlist: nat,
    num_subspaces: u32,
    subspace_dim: u32,
) -> Option<IvfPqBuildError> {
    match set.readiness(nlist) {
        Err(e) => Some(IvfPqBuildError::Training(e)),
        Ok(_) => if num_subspaces * subspace_dim != set.spec_dim() {
            Some(
                IvfPqBuildError::Params(
                    PqParamsMismatch { num_subspaces, subspace_dim, dim: set.spec_dim() as usize },
                ),
            )
        } else if set.sampled() < CODEBOOK_ENTRIES {
            Some(IvfPqBuildError::CodebookSample)
        } else {
            None
        },
    }
}

/// What the codebooks are trained on: of each sampled vector, what its nearest
/// centroid leaves.
pub open spec fn sampled_residuals<F: Fn(&[u32], &[u32]) -> u32, S: Fn(u32, u32) -> u32>(
    f: F,
    minus: S,
    set: TrainingSet,
    centroids: Seq<u32>,
) -> Seq<u32> {
    pq::residuals_upto(
        f,
        minus,
        set.sample_view(),
        centroids,
        set.spec_dim(),
        set.sample_view().len() / set.spec_dim(),
    )
}

/// Builds an index with `nlist` lists, and codebooks for the `num_subspaces` parts
/// of what the centroids leave of vectors.
pub fn build_ivf_pq<
    F: Fn(&[u32], &[u32]) -> u32,
    A: Fn(u32, u32) -> u32,
    M: Fn(u32, usize) -> u32,
    S: Fn(u32, u32) -> u32,
>(
    set: &TrainingSet,
    nlist: usize,
    ivf_iters: usize,
    num_subspaces: u32,
    subspace_dim: u32,
    pq_iters: usize,
    rng: &mut StdRng,
    f: &F,
    plus: &A,
    average: &M,
    minus: &S,
) -> (r: Result<IvfPqParts, IvfPqBuildError>)
    requires
        floats::is_distance(*f),
        floats::is_operation(*plus),
        kmeans::is_average(*average),
        floats::is_operation(*minus),
        set.wf(),
        nlist < usize::MAX,
    ensures
        match refusal(*set, nlist as nat, num_subspaces, subspace_dim) {
            Some(e) => r is Err && r->Err_0 == e,
            None => {
                &&& r matches Ok(parts)
                &&& parts.index.dim == set.spec_dim()
                &&& parts.index.nlist == nlist
                &&& parts.index.searchable()
                &&& kmeans::is_trained(
                    *f,
                    *plus,
                    *average,
                    set.sample_view(),
                    set.spec_dim(),
                    nlist as nat,
                    ivf_iters as nat,
                    parts.index.centroids@,
                )
                &&& ivf_assign::is_sorted_into(
                    parts.index,
                    ivf_assign::lists_of(
                        *f,
                        parts.index.centroids@,
                        set.spec_dim(),
                        nlist as nat,
                        set.vectors_view(),
                        set.seen(),
                    ),
                    set.row_ids_view(),
                    set.vectors_view(),
                )
                &&& are_codebooks(
                    *f,
                    *plus,
                    *average,
                    sampled_residuals(*f, *minus, *set, parts.index.centroids@),
                    num_subspaces as nat,
                    subspace_dim as nat,
                    CODEBOOK_ENTRIES as nat,
                    pq_iters as nat,
                    parts.codebooks@,
                )
            },
        },
{
    let index = match build_ivf_flat(set, nlist, ivf_iters, rng, f, plus, average) {
        Err(e) => {
            return Err(IvfPqBuildError::Training(e));
        },
        Ok(index) => index,
    };
    let dim: usize = set.dim();
    if let Err(e) = check_pq_params(num_subspaces, subspace_dim, dim) {
        return Err(IvfPqBuildError::Params(e));
    }
    let ghost d = set.spec_dim();
    let ghost n = set.sampled();
    proof {
        assert((n * d) / d == n) by {
            vstd::arithmetic::div_mod::lemma_div_multiples_vanish(n as int, d as int);
            assert(n * d == d * n) by (nonlinear_arith);
        }
        assert(nlist * d >= d) by (nonlinear_arith)
            requires
                nlist >= 1,
                d >= 0,
        ;
        residuals_len(*f, *minus, set.sample_view(), index.centroids@, d, n);
    }
    let residuals = residual_samples(set.sample(), index.centroids.as_slice(), dim, f, minus);
    match train_pq_codebooks(
        residuals.as_slice(),
        num_subspaces as usize,
        subspace_dim as usize,
        CODEBOOK_ENTRIES,
        pq_iters,
        rng,
        f,
        plus,
        average,
    ) {
        Err(_) => Err(IvfPqBuildError::CodebookSample),
        Ok(codebooks) => Ok(IvfPqParts { index, codebooks }),
    }
}

} // verus!
