//! Building an inverted-file index from the vectors of a base file.
use crate::floats;
use crate::ivf_assign;
use crate::ivf_assign::assign_ivf_flat;
use crate::ivf_flat::IvfFlatIndex;
use crate::kmeans;
use crate::kmeans::kmeans_l2;
use crate::training::{TrainingError, TrainingSet};
use rand::rngs::StdRng;
use vstd::prelude::*;

verus! {

/// Builds an index with `nlist` lists: trains centroids on the sample, and sorts
/// all vectors into the lists of their nearest centroids.
pub fn build_ivf_flat<
    F: Fn(&[u32], &[u32]) -> u32,
    A: Fn(u32, u32) -> u32,
    M: Fn(u32, usize) -> u32,
>(
    set: &TrainingSet,
    nlist: usize,
    max_kmeans_iters: usize,
    rng: &mut StdRng,
    f: &F,
    plus: &A,
    m: &M,
) -> (r: Result<IvfFlatIndex, TrainingError>)
    requires
        floats::is_distance(*f),
        floats::is_operation(*plus),
        kmeans::is_average(*m),
        set.wf(),
        nlist < usize::MAX,
    ensures
        match set.readiness(nlist as nat) {
            Err(e) => r is Err && r->Err_0 == e,
            Ok(_) => {
                &&& r matches Ok(index)
                &&& index.dim == set.spec_dim()
                &&& index.nlist == nlist
                &&& index.searchable()
                &&& kmeans::is_trained(
                    *f,
                    *plus,
                    *m,
                    set.sample_view(),
                    set.spec_dim(),
                    nlist as nat,
                    max_kmeans_iters as nat,
                    index.centroids@,
                )
                &&& ivf_assign::is_sorted_into(
                    index,
                    ivf_assign::lists_of(
                        *f,
                        index.centroids@,
                        set.spec_dim(),
                        nlist as nat,
                        set.vectors_view(),
                        set.seen(),
                    ),
                    set.row_ids_view(),
                    set.vectors_view(),
                )
            },
        },
{
    match set.check(nlist) {
        Err(e) => {
            return Err(e);
        },
        Ok(_) => {},
    }
    let dim: usize = set.dim();
    let ghost d = set.spec_dim();
    let sample = set.sample();
    proof {
        assert((set.sampled() * d) / d == set.sampled()) by {
            vstd::arithmetic::div_mod::lemma_div_multiples_vanish(set.sampled() as int, d as int);
            assert(set.sampled() * d == d * set.sampled()) by (nonlinear_arith);
        }
    }
    match kmeans_l2(sample, dim, nlist, max_kmeans_iters, rng, f, plus, m) {
        Err(_) => Err(TrainingError::SampleTooSmall { have: sample.len() / dim, nlist }),
        Ok(centroids) => match assign_ivf_flat(
            centroids.as_slice(),
            dim,
            nlist,
            set.row_ids(),
            set.vectors(),
            f,
        ) {
            Err(_) => Err(TrainingError::NoVectors),
            Ok(index) => Ok(index),
        },
    }
}

} // verus!
