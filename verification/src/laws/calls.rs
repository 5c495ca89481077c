//! Laws of what a caller of an operation gets, whatever way the operation takes to it.
use crate::artifact::pq;
use crate::artifact::pq::PqParamsMismatch;
use crate::floats;
use crate::footer::GroupedColumnMetadata;
use crate::ivf_assign;
use crate::ivf_assign::VectorsLenMismatch;
use crate::ivf_flat;
use crate::ivf_flat::{IvfFlatIndex, SearchError, SearchResult};
use crate::kmeans;
use crate::kmeans::TooFewSamples;
use crate::laws::averages;
use crate::laws::codes;
use crate::laws::graph;
use crate::laws::lists;
use crate::laws::probing;
use crate::laws::selecting;
use crate::selection;
use crate::selection::Selection;
use crate::topk;
use crate::topk::{Candidate, TopK};
use crate::vector_index::hnsw;
use crate::vector_index::hnsw_link;
use crate::vector_index::VectorIndexError;
use vstd::prelude::*;

verus! {

/// What is left of a vector when another is taken away has as many components, and each
/// is the component of the vector without the one at the same place.
pub proof fn differences_of_vectors<S: Fn(u32, u32) -> u32>(
    v: &[u32],
    c: &[u32],
    minus: &S,
    r: Vec<u32>,
    i: int,
)
    requires
        call_ensures(pq::subtract::<S>, (v, c, minus), r),
        v@.len() == c@.len(),
        0 <= i < v@.len(),
    ensures
        r@.len() == v@.len(),
        r@[i] == floats::applied(*minus, v@[i], c@[i]),
{
    codes::components_are_taken_away(*minus, v@, c@, i);
}

/// The sums of lists have for each list and each component the sum of that component of
/// just the vectors in the list, added up in their order from zero on.
pub proof fn sums_of_lists<A: Fn(u32, u32) -> u32>(
    samples: &[u32],
    dim: usize,
    k: usize,
    of: &Vec<usize>,
    plus: &A,
    r: Vec<u32>,
    c: int,
    j: int,
    members: Seq<int>,
)
    requires
        call_ensures(kmeans::sum_lists::<A>, (samples, dim, k, of, plus), r),
        0 <= c < k,
        0 <= j < dim,
        lists::are_members(of@, c, of@.len(), members),
    ensures
        r@.len() == k * dim,
        r@[c * dim + j] == averages::components_at(samples@, dim as nat, j, members).fold_left(
            0u32,
            |sum: u32, x: u32| floats::applied(*plus, sum, x),
        ),
{
    let x = c * dim + j;
    floats::row_fits(dim as nat, c, k as int);
    vstd::arithmetic::div_mod::lemma_fundamental_div_mod_converse(x, dim as int, c, j);
    averages::sums_are_folds(*plus, samples@, dim as nat, of@, c, j, of@.len(), members);
}

/// The lists to search are as many as are asked for, but at least one and at most all;
/// no list that is left out has its centroid nearer to the query than one that is not,
/// by all components.
pub proof fn probes_are_nearest<F: Fn(&[u32], &[u32]) -> u32>(
    centroids: &[u32],
    dim: usize,
    nlist: usize,
    query: &[u32],
    nprobe: usize,
    f: &F,
    r: Vec<usize>,
)
    requires
        call_ensures(
            ivf_flat::select_probes::<F>,
            (centroids, dim, nlist, query, nprobe, f),
            r,
        ),
        0 < nlist <= u64::MAX,
    ensures
        r@.len() == (if nprobe == 0 {
            1
        } else if nprobe < nlist {
            nprobe as nat
        } else {
            nlist as nat
        }),
        r@.no_duplicates(),
        forall|i: int, d: int|
            0 <= i < r@.len() && 0 <= d < nlist && !r@.contains(d as usize) ==> floats::order_key(
                probing::distance_to(*f, query@, centroids@, dim as nat, #[trigger] r@[i] as int),
            ) <= floats::order_key(
                #[trigger] probing::distance_to(*f, query@, centroids@, dim as nat, d),
            ),
        forall|i: int, j: int|
            0 <= i < j < r@.len() ==> floats::order_key(
                probing::distance_to(*f, query@, centroids@, dim as nat, #[trigger] r@[i] as int),
            ) <= floats::order_key(
                probing::distance_to(*f, query@, centroids@, dim as nat, #[trigger] r@[j] as int),
            ),
{
    probing::nearest_lists_are_probed(
        *f,
        centroids@,
        dim as nat,
        nlist as nat,
        query@,
        nprobe as nat,
    );
    let found = ivf_flat::probed_lists(
        *f,
        centroids@,
        dim as nat,
        nlist as nat,
        query@,
        nprobe as nat,
    );
    assert forall|i: int, j: int| 0 <= i < r@.len() && 0 <= j < r@.len() && i != j implies r@[i]
        != r@[j] by {
        assert(r@[i] == found[i].id);
        assert(r@[j] == found[j].id);
        if i < j {
            assert(floats::order_key(found[i].distance) <= floats::order_key(found[j].distance));
        } else {
            assert(floats::order_key(found[j].distance) <= floats::order_key(found[i].distance));
        }
    }
    assert forall|i: int, d: int|
        0 <= i < r@.len() && 0 <= d < nlist && !r@.contains(d as usize) implies floats::order_key(
        probing::distance_to(*f, query@, centroids@, dim as nat, #[trigger] r@[i] as int),
    ) <= floats::order_key(
        #[trigger] probing::distance_to(*f, query@, centroids@, dim as nat, d),
    ) by {
        assert(r@[i] == found[i].id);
        assert forall|j: int| 0 <= j < found.len() implies (#[trigger] found[j]).id != d by {
            assert(r@[j] == found[j].id);
        }
    }
    assert forall|i: int, j: int| 0 <= i < j < r@.len() implies floats::order_key(
        probing::distance_to(*f, query@, centroids@, dim as nat, #[trigger] r@[i] as int),
    ) <= floats::order_key(
        probing::distance_to(*f, query@, centroids@, dim as nat, #[trigger] r@[j] as int),
    ) by {
        assert(r@[i] == found[i].id);
        assert(r@[j] == found[j].id);
    }
}

/// All rows that are asked for and are in the file are handed out: one of the groups is
/// the one that holds the row, and is handed out with the row counted from its start.
pub proof fn rows_are_handed_out<'a>(
    selection: &Selection,
    groups: &'a [GroupedColumnMetadata],
    r: Vec<(&'a GroupedColumnMetadata, Selection)>,
    i: int,
) -> (p: (int, int))
    requires
        call_ensures(selection::process_selection, (selection, groups), r),
        *selection is RowIndexes,
        0 <= i < selection->RowIndexes_0@.len(),
        selection->RowIndexes_0@[i] < selecting::rows_before(groups@, groups@.len() as int),
    ensures
        ({
            let row = selection->RowIndexes_0@[i];
            let start = selecting::rows_before(groups@, p.0);
            &&& 0 <= p.0 < groups@.len()
            &&& start <= row < start + groups@[p.0].row_count
            &&& 0 <= p.1 < r@.len()
            &&& *r@[p.1].0 == groups@[p.0]
            &&& r@[p.1].1 is RowIndexes
            &&& r@[p.1].1->RowIndexes_0@.contains((row - start) as u64)
        }),
{
    let rows = selection->RowIndexes_0@;
    selecting::every_row_is_read(rows, groups@, i);
    let parts = selection::selected_rows(rows, groups@);
    let p = choose|p: int|
        0 <= p < parts.len() && selecting::is_in_part(groups@, #[trigger] parts[p], rows[i]);
    assert(selection::is_part(r@[p], groups@, parts[p]));
    (parts[p].0, p)
}

/// Without a choice of rows all groups are handed out, each whole.
pub proof fn all_groups_are_handed_out<'a>(
    selection: &Selection,
    groups: &'a [GroupedColumnMetadata],
    r: Vec<(&'a GroupedColumnMetadata, Selection)>,
    i: int,
)
    requires
        call_ensures(selection::process_selection, (selection, groups), r),
        *selection is All,
        0 <= i < groups@.len(),
    ensures
        r@.len() == groups@.len(),
        *r@[i].0 == groups@[i],
        r@[i].1 is All,
{
}

/// A vector that has more neighbors than are allowed loses the farthest: as many are left
/// as are allowed, all of them neighbors before, and none that is lost is nearer to the
/// vector than one that is left. All other lists stay as they are.
pub proof fn farthest_neighbors_are_lost<F: Fn(&[u32], &[u32]) -> u32>(
    values: &[u32],
    dim: usize,
    nodes: &mut Vec<Vec<Vec<usize>>>,
    node: usize,
    level: usize,
    max: usize,
    f: &F,
    r: Result<(), VectorIndexError>,
    lost: usize,
    left: usize,
)
    requires
        call_ensures(
            hnsw_link::prune_connections::<F>,
            (values, dim, nodes, node, level, max, f),
            r,
        ),
        r is Ok,
        node < old(nodes)@.len(),
        level < old(nodes)@[node as int]@.len(),
        old(nodes)@[node as int]@[level as int]@.no_duplicates(),
        old(nodes)@[node as int]@[level as int]@.len() <= u64::MAX,
    ensures
        ({
            let before = hnsw::lists_of(old(nodes)@);
            let after = hnsw::lists_of(final(nodes)@);
            let was = before[node as int][level as int];
            let now = after[node as int][level as int];
            &&& after.len() == before.len()
            &&& forall|i: int, l: int|
                0 <= i < before.len() && 0 <= l < before[i].len() && (i != node || l != level)
                    ==> #[trigger] after[i][l] == before[i][l]
            &&& now.len() == (if was.len() < max {
                was.len()
            } else {
                max as nat
            })
            &&& now.no_duplicates()
            &&& now.contains(left) ==> was.contains(left)
            &&& now.contains(left) && was.contains(lost) && !now.contains(lost) ==> graph::apart(
                *f,
                values@,
                dim as nat,
                node as int,
                left as int,
            ) <= graph::apart(*f, values@, dim as nat, node as int, lost as int)
        }),
{
    let before = hnsw::lists_of(old(nodes)@);
    let was = before[node as int][level as int];
    assert(was == old(nodes)@[node as int]@[level as int]@);
    graph::dropped_neighbors_are_no_nearer(
        *f,
        values@,
        dim as nat,
        node as int,
        was,
        max as nat,
        lost,
        left,
    );
}

/// What a search gives are rows of the lists that are searched, each with its own distance
/// from the query, the nearest first; and no row of these lists that is left out is nearer.
pub proof fn searches_give_the_nearest<F: Fn(&[u32], &[u32]) -> u32>(
    index: &IvfFlatIndex,
    query: &[u32],
    k: usize,
    nprobe: usize,
    f: &F,
    r: Result<Vec<SearchResult>, SearchError>,
    i: int,
    p: int,
)
    requires
        call_ensures(ivf_flat::search_ivf_flat::<F>, (index, query, k, nprobe, f), r),
        index.searchable(),
        r is Ok,
        k > 0,
    ensures
        ({
            let found = r->Ok_0@;
            let other = probing::row_found(*f, *index, query@, p);
            &&& query@.len() == index.dim
            &&& found.len() <= k
            &&& 0 <= i < found.len() ==> exists|q: int|
                probing::is_probed(*f, *index, query@, nprobe as nat, q) && found[i]
                    == #[trigger] probing::row_found(*f, *index, query@, q)
            &&& 0 < i < found.len() ==> floats::order_key(found[i - 1].distance)
                <= floats::order_key(found[i].distance)
            &&& probing::is_probed(*f, *index, query@, nprobe as nat, p) && !found.contains(other)
                ==> found.len() == k && (0 <= i < found.len() ==> floats::order_key(
                found[i].distance,
            ) <= floats::order_key(other.distance))
        }),
{
    probing::searches_fail(*f, *index, query@, k as nat, nprobe as nat);
    probing::nearest_rows_are_found(*f, *index, query@, k as nat, nprobe as nat, i, p);
}

/// A query with another number of components than the index is refused, and so is a search
/// that meets a distance that is no number; no rows are found if none are asked for.
pub proof fn searches_are_refused<F: Fn(&[u32], &[u32]) -> u32>(
    index: &IvfFlatIndex,
    query: &[u32],
    k: usize,
    nprobe: usize,
    f: &F,
    r: Result<Vec<SearchResult>, SearchError>,
)
    requires
        call_ensures(ivf_flat::search_ivf_flat::<F>, (index, query, k, nprobe, f), r),
        index.searchable(),
    ensures
        query@.len() != index.dim ==> r is Err && r->Err_0 is QueryDim,
        query@.len() == index.dim && k == 0 ==> r is Ok && r->Ok_0@.len() == 0,
        query@.len() == index.dim && k > 0 ==> (r is Err <==> exists|p: int|
            probing::is_probed(*f, *index, query@, nprobe as nat, p) && floats::is_nan(
                #[trigger] probing::row_found(*f, *index, query@, p).distance,
            )),
{
    probing::searches_fail(*f, *index, query@, k as nat, nprobe as nat);
}

/// The lists that are searched are at least one and at most all.
pub proof fn some_lists_are_searched(nprobe: usize, nlist: usize, r: usize)
    requires
        call_ensures(ivf_flat::effective_nprobe, (nprobe, nlist), r),
        nlist > 0,
    ensures
        1 <= r <= nlist,
        1 <= nprobe <= nlist ==> r == nprobe,
        nprobe == 0 ==> r == 1,
        nprobe > nlist ==> r == nlist,
{
}

/// The nearest centroid is one that no other is nearer than, and of several the first.
pub proof fn nearest_centroids_are_found<F: Fn(&[u32], &[u32]) -> u32>(
    v: &[u32],
    centroids: &[u32],
    dim: usize,
    nlist: usize,
    limit: u32,
    f: &F,
    r: (usize, u32),
)
    requires
        call_ensures(
            ivf_assign::nearest_centroid::<F>,
            (v, centroids, dim, nlist, limit, f),
            r,
        ),
    ensures
        lists::is_nearest_row(*f, v@, centroids@, dim as nat, nlist as nat, limit, r.0 as int),
        r.1 == limit || r.1 == probing::distance_to(*f, v@, centroids@, dim as nat, r.0 as int),
        !floats::is_below(limit, r.1),
{
    lists::nearest_centroid_is_found(*f, v@, centroids@, dim as nat, nlist as nat, limit);
}

/// Vectors are sorted into the lists of their nearest centroids: each stands in the span of
/// its list with its row id and all its components.
pub proof fn vectors_are_assigned<F: Fn(&[u32], &[u32]) -> u32>(
    centroids: &[u32],
    dim: usize,
    nlist: usize,
    row_ids: &[u32],
    vectors: &[u32],
    f: &F,
    r: Result<IvfFlatIndex, VectorsLenMismatch>,
    i: int,
) -> (at: (int, int))
    requires
        call_ensures(
            ivf_assign::assign_ivf_flat::<F>,
            (centroids, dim, nlist, row_ids, vectors, f),
            r,
        ),
        0 < nlist < usize::MAX,
        vectors@.len() == row_ids@.len() * dim,
        0 <= i < row_ids@.len(),
    ensures
        r is Ok,
        ({
            let index = r->Ok_0;
            let (c, p) = at;
            &&& index.dim == dim
            &&& index.nlist == nlist
            &&& index.centroids@ == centroids@
            &&& 0 <= c < nlist
            &&& lists::is_nearest_row(
                *f,
                vectors@.subrange(i * dim, i * dim + dim),
                centroids@,
                dim as nat,
                nlist as nat,
                0x7f80_0000,
                c,
            )
            &&& index.list_offsets@[c] <= p < index.list_offsets@[c + 1]
            &&& index.row_ids@[p] == row_ids@[i]
            &&& forall|j: int|
                0 <= j < dim ==> index.vectors@[p * dim + j] == #[trigger] vectors@[i * dim + j]
        }),
{
    lists::vectors_are_with_their_nearest(*f, r->Ok_0, row_ids@, vectors@, i)
}

/// Entries of lists are counted list by list.
pub proof fn lists_are_counted(of: &Vec<usize>, nlist: usize, r: Vec<usize>, c: int, members: Seq<int>)
    requires
        call_ensures(ivf_assign::count_lists, (of, nlist), r),
        0 <= c < nlist,
        lists::are_members(of@, c, of@.len(), members),
    ensures
        r@.len() == nlist,
        r@[c] == members.len(),
{
    lists::entries_are_counted(of@, c, members);
}

/// A centroid becomes the average of the vectors in its list, component by component, and
/// the vector that is drawn for it if there are none.
pub proof fn centroids_are_moved<A: Fn(u32, u32) -> u32, M: Fn(u32, usize) -> u32>(
    samples: &[u32],
    dim: usize,
    k: usize,
    of: &Vec<usize>,
    draws: &Vec<usize>,
    plus: &A,
    m: &M,
    r: Vec<u32>,
    c: int,
    j: int,
    members: Seq<int>,
)
    requires
        call_ensures(
            kmeans::move_centroids::<A, M>,
            (samples, dim, k, of, draws, plus, m),
            r,
        ),
        0 <= c < k,
        0 <= j < dim,
        lists::are_members(of@, c, of@.len(), members),
        of@.len() <= usize::MAX,
    ensures
        r@.len() == k * dim,
        r@[c * dim + j] == (if members.len() == 0 {
            samples@[draws@[c] * dim + j]
        } else {
            kmeans::averaged(
                *m,
                averages::components_at(samples@, dim as nat, j, members).fold_left(
                    0u32,
                    |sum: u32, x: u32| floats::applied(*plus, sum, x),
                ),
                members.len() as usize,
            )
        }),
{
    averages::centroids_move_to_averages(
        *plus,
        *m,
        samples@,
        dim as nat,
        k as nat,
        of@,
        draws@,
        c,
        j,
        members,
    );
}

/// The code of each part of each vector is the number of the first nearest entry of the
/// part's codebook to what is left of the part without that of the centroid.
pub proof fn vectors_get_their_codes<F: Fn(&[u32], &[u32]) -> u32, S: Fn(u32, u32) -> u32>(
    vectors: &[u32],
    n: usize,
    centroid: &[u32],
    codebooks: &Vec<Vec<u32>>,
    d: usize,
    f: &F,
    minus: &S,
    r: Vec<u8>,
    j: int,
    sub: int,
    left: Seq<u32>,
)
    requires
        call_ensures(
            pq::encode_vectors::<F, S>,
            (vectors, n, centroid, codebooks, d, f, minus),
            r,
        ),
        d > 0,
        0 <= j < n,
        0 <= sub < codebooks@.len(),
        centroid@.len() == codebooks@.len() * d,
        n * (codebooks@.len() * d) <= vectors@.len(),
        codebooks@[sub]@.len() / (d as nat) <= 256,
        left.len() == d,
        forall|i: int|
            0 <= i < d ==> #[trigger] left[i] == floats::applied(
                *minus,
                vectors@[j * (codebooks@.len() * d) + sub * d + i],
                centroid@[sub * d + i],
            ),
    ensures
        r@.len() == n * codebooks@.len(),
        lists::is_nearest_row(
            *f,
            left,
            codebooks@[sub]@,
            d as nat,
            codebooks@[sub]@.len() / (d as nat),
            0x7f7f_ffff,
            r@[j * codebooks@.len() + sub] as int,
        ),
{
    codes::codes_are_nearest_entries(
        *f,
        *minus,
        vectors@,
        centroid@,
        codebooks@,
        d as nat,
        n as nat,
        j,
        sub,
        left,
    );
}

/// What is left of a sampled vector is the vector without its nearest centroid.
pub proof fn samples_are_left_over<F: Fn(&[u32], &[u32]) -> u32, S: Fn(u32, u32) -> u32>(
    sample: &[u32],
    centroids: &[u32],
    dim: usize,
    f: &F,
    minus: &S,
    r: Vec<u32>,
    i: int,
) -> (c: int)
    requires
        call_ensures(
            pq::residual_samples::<F, S>,
            (sample, centroids, dim, f, minus),
            r,
        ),
        dim > 0,
        centroids@.len() >= dim,
        0 <= i < sample@.len() / (dim as nat),
    ensures
        0 <= c < centroids@.len() / (dim as nat),
        lists::is_nearest_row(
            *f,
            sample@.subrange(i * dim, i * dim + dim),
            centroids@,
            dim as nat,
            centroids@.len() / (dim as nat),
            0x7f7f_ffff,
            c,
        ),
        forall|j: int|
            0 <= j < dim ==> #[trigger] r@[i * dim + j] == floats::applied(
                *minus,
                sample@[i * dim + j],
                centroids@[c * dim + j],
            ),
{
    let n = sample@.len() / (dim as nat);
    vstd::arithmetic::div_mod::lemma_fundamental_div_mod(sample@.len() as int, dim as int);
    assert(n * dim <= sample@.len()) by (nonlinear_arith)
        requires
            sample@.len() as int == dim as int * (sample@.len() as int / dim as int)
                + sample@.len() as int % dim as int,
            n == sample@.len() as int / dim as int,
            sample@.len() as int % dim as int >= 0,
    ;
    codes::samples_lose_their_centroids(*f, *minus, sample@, centroids@, dim as nat, n, i)
}

/// Vectors can be coded if their parts have all their components together.
pub proof fn parts_cover_vectors(
    num_subspaces: u32,
    subspace_dim: u32,
    dim: usize,
    r: Result<(), PqParamsMismatch>,
)
    requires
        call_ensures(pq::check_pq_params, (num_subspaces, subspace_dim, dim), r),
    ensures
        r is Ok <==> num_subspaces * subspace_dim == dim,
{
}

/// Training fails exactly if there are fewer vectors than lists, and else gives a centroid
/// for each list.
pub proof fn training_needs_vectors<
    F: Fn(&[u32], &[u32]) -> u32,
    A: Fn(u32, u32) -> u32,
    M: Fn(u32, usize) -> u32,
>(
    samples: &[u32],
    dim: usize,
    k: usize,
    max_iters: usize,
    rng: &mut rand::rngs::StdRng,
    f: &F,
    plus: &A,
    m: &M,
    r: Result<Vec<u32>, TooFewSamples>,
)
    requires
        dim > 0,
        call_ensures(
            kmeans::kmeans_l2::<F, A, M>,
            (samples, dim, k, max_iters, rng, f, plus, m),
            r,
        ),
    ensures
        r is Err <==> samples@.len() / (dim as nat) < k,
        r is Ok ==> r->Ok_0@.len() == k * dim,
{
}

/// What is offered is kept if there is room; else it takes the place of the last that is
/// kept if it is nearer, and otherwise nothing changes.
pub proof fn offers_are_kept(top: &mut TopK, x: Candidate) -> (p: int)
    requires
        call_ensures(TopK::offer, (top, x), ()),
    ensures
        ({
            let before = old(top)@;
            let after = final(top)@;
            let room = before.len() < old(top).limit();
            let nearer = before.len() > 0 && floats::order_key(x.distance) < floats::order_key(
                before.last().distance,
            );
            &&& final(top).limit() == old(top).limit()
            &&& room ==> 0 <= p <= before.len() && after == before.insert(p, x)
            &&& !room && nearer ==> 0 <= p < before.len() && after == before.drop_last().insert(
                p,
                x,
            )
            &&& !room && !nearer ==> after == before
            &&& topk::is_ranked(before) ==> topk::is_ranked(after)
        }),
{
    let before = old(top)@;
    if before.len() < old(top).limit() {
        topk::placed_is_insert(before, x)
    } else if before.len() > 0 && floats::order_key(x.distance) < floats::order_key(
        before.last().distance,
    ) {
        topk::placed_is_insert(before.drop_last(), x)
    } else {
        0
    }
}

/// In a ranking each is at least as near as those behind it, and of those at the same
/// distance the one with the smaller id is in front.
pub proof fn rankings_go_by_distance(s: Seq<Candidate>, i: int, j: int)
    requires
        topk::is_ranked(s),
        0 <= i < j < s.len(),
    ensures
        floats::order_key(s[i].distance) <= floats::order_key(s[j].distance),
        floats::order_key(s[i].distance) == floats::order_key(s[j].distance) ==> s[i].id <= s[j].id,
{
}

} // verus!
