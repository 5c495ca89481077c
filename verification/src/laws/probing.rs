//! Laws of searching the lists whose centroids are nearest to a query.
use crate::floats;
use crate::ivf_flat;
use crate::ivf_flat::{IvfFlatIndex, SearchError, SearchResult};
use crate::laws::ranking;
use crate::topk::Candidate;
use vstd::prelude::*;

verus! {

/// The distance of the query from vector `i`.
pub open spec fn distance_to<F: Fn(&[u32], &[u32]) -> u32>(
    f: F,
    query: Seq<u32>,
    vectors: Seq<u32>,
    dim: nat,
    i: int,
) -> u32 {
    floats::distance(f, query, vectors.subrange(i * dim, i * dim + dim))
}

/// As many lists are searched as are asked for, but at least one and at most all. Each
/// is searched once. They come in the order of the distances of their centroids from the
/// query, and at the same distance in that of their numbers; and no list that is not
/// searched is in front of one that is.
pub proof fn nearest_lists_are_probed<F: Fn(&[u32], &[u32]) -> u32>(
    f: F,
    centroids: Seq<u32>,
    dim: nat,
    nlist: nat,
    query: Seq<u32>,
    nprobe: nat,
)
    requires
        0 < nlist <= u64::MAX,
    ensures
        ({
            let lists = ivf_flat::probed_lists(f, centroids, dim, nlist, query, nprobe);
            &&& lists.len() == (if nprobe == 0 {
                1
            } else if nprobe < nlist {
                nprobe
            } else {
                nlist
            })
            &&& forall|i: int|
                0 <= i < lists.len() ==> (#[trigger] lists[i]).id < nlist && lists[i].distance
                    == distance_to(f, query, centroids, dim, lists[i].id as int)
            &&& forall|i: int, j: int|
                0 <= i < j < lists.len() ==> {
                    let a = floats::order_key((#[trigger] lists[i]).distance);
                    let b = floats::order_key((#[trigger] lists[j]).distance);
                    a < b || (a == b && lists[i].id < lists[j].id)
                }
            &&& forall|i: int, d: int|
                0 <= i < lists.len() && 0 <= d < nlist && (forall|j: int|
                    0 <= j < lists.len() ==> (#[trigger] lists[j]).id != d) ==> {
                    let a = floats::order_key((#[trigger] lists[i]).distance);
                    let b = floats::order_key(
                        #[trigger] distance_to(f, query, centroids, dim, d),
                    );
                    a < b || (a == b && lists[i].id < d)
                }
        }),
{
    let all = ivf_flat::centroid_candidates(f, centroids, dim, nlist, query);
    let lists = ivf_flat::probed_lists(f, centroids, dim, nlist, query, nprobe);
    let places = ranking::nearest_are_kept(all, ivf_flat::probe_count(nprobe, nlist));
    assert(ranking::ids_grow(all));
    assert forall|i: int| 0 <= i < lists.len() implies (#[trigger] lists[i]).id < nlist
        && lists[i].distance == distance_to(f, query, centroids, dim, lists[i].id as int) by {
        assert(lists[i] == all[places[i]]);
    }
    assert forall|i: int, j: int| 0 <= i < j < lists.len() implies {
        let a = floats::order_key((#[trigger] lists[i]).distance);
        let b = floats::order_key((#[trigger] lists[j]).distance);
        a < b || (a == b && lists[i].id < lists[j].id)
    } by {
        assert(lists[i] == all[places[i]]);
        assert(lists[j] == all[places[j]]);
        assert(places[i] != places[j]);
    }
    assert forall|i: int, d: int|
        0 <= i < lists.len() && 0 <= d < nlist && (forall|j: int|
            0 <= j < lists.len() ==> (#[trigger] lists[j]).id != d) implies {
        let a = floats::order_key((#[trigger] lists[i]).distance);
        let b = floats::order_key(#[trigger] distance_to(f, query, centroids, dim, d));
        a < b || (a == b && lists[i].id < d)
    } by {
        assert(lists[i] == all[places[i]]);
        if places.contains(d) {
            let j = choose|j: int| 0 <= j < places.len() && places[j] == d;
            assert(lists[j] == all[d]);
        }
        assert(all[d].distance == distance_to(f, query, centroids, dim, d));
    }
}

/// Whether row `p` of an index is in a list that is searched.
pub open spec fn is_probed<F: Fn(&[u32], &[u32]) -> u32>(
    f: F,
    index: IvfFlatIndex,
    query: Seq<u32>,
    nprobe: nat,
    p: int,
) -> bool {
    let lists = ivf_flat::probed_lists(
        f,
        index.centroids@,
        index.dim as nat,
        index.nlist as nat,
        query,
        nprobe,
    );
    exists|i: int|
        0 <= i < lists.len() && index.list_offsets@[(#[trigger] lists[i]).id as int] <= p
            < index.list_offsets@[lists[i].id + 1]
}

/// Row `p` of an index as it is found.
pub open spec fn row_found<F: Fn(&[u32], &[u32]) -> u32>(
    f: F,
    index: IvfFlatIndex,
    query: Seq<u32>,
    p: int,
) -> SearchResult {
    SearchResult {
        row_id: index.row_ids@[p],
        distance: distance_to(f, query, index.vectors@, index.dim as nat, p),
    }
}

proof fn row_in_list<F: Fn(&[u32], &[u32]) -> u32>(
    f: F,
    index: IvfFlatIndex,
    query: Seq<u32>,
    c: int,
    q: int,
)
    requires
        index.searchable(),
        0 <= c < index.nlist,
        0 <= q < index.list_rows(c).len(),
    ensures
        ({
            let p = index.list_offsets@[c] + q;
            let x = index.list_candidate(f, query, c, q);
            &&& index.list_offsets@[c] <= p < index.list_offsets@[c + 1]
            &&& x.id == index.row_ids@[p]
            &&& x.distance == row_found(f, index, query, p).distance
        }),
{
    let dim = index.dim as int;
    let (a, b) = index.list_span(c);
    assert(index.list_offsets@[c + 1] <= index.row_ids@.len());
    let p = a + q;
    index.list_bounds(c);
    floats::row_fits(index.dim as nat, q, b - a);
    floats::row_fits(index.dim as nat, p, index.row_ids@.len() as int);
    assert(p * dim == a * dim + q * dim) by (nonlinear_arith)
        requires
            p == a + q,
    ;
    assert(0 <= a * dim) by (nonlinear_arith)
        requires
            0 <= a,
            0 <= dim,
    ;
    assert(a * dim + (b - a) * dim == b * dim) by (nonlinear_arith);
    assert(b * dim <= index.row_ids@.len() * dim) by (nonlinear_arith)
        requires
            b <= index.row_ids@.len(),
            0 <= dim,
    ;
    assert(floats::row_of(index.list_vectors(c), index.dim as nat, q)
        =~= index.vectors@.subrange(p * dim, p * dim + dim));
}

proof fn scanned_are_rows<F: Fn(&[u32], &[u32]) -> u32>(
    f: F,
    index: IvfFlatIndex,
    query: Seq<u32>,
    probes: Seq<Candidate>,
    s: int,
) -> (at: (int, int))
    requires
        index.searchable(),
        forall|i: int| 0 <= i < probes.len() ==> (#[trigger] probes[i]).id < index.nlist,
        0 <= s < ivf_flat::scanned(f, index, query, probes).len(),
    ensures
        ({
            let x = ivf_flat::scanned(f, index, query, probes)[s];
            let (i, p) = at;
            &&& 0 <= i < probes.len()
            &&& index.list_offsets@[probes[i].id as int] <= p < index.list_offsets@[probes[i].id
                + 1]
            &&& x.id == index.row_ids@[p]
            &&& x.distance == row_found(f, index, query, p).distance
        }),
    decreases probes.len(),
{
    let front = ivf_flat::scanned(f, index, query, probes.drop_last());
    if s < front.len() {
        scanned_are_rows(f, index, query, probes.drop_last(), s)
    } else {
        let i = probes.len() - 1;
        let c = probes[i].id as int;
        let q = s - front.len();
        row_in_list(f, index, query, c, q);
        (i, index.list_offsets@[c] + q)
    }
}

proof fn rows_are_scanned<F: Fn(&[u32], &[u32]) -> u32>(
    f: F,
    index: IvfFlatIndex,
    query: Seq<u32>,
    probes: Seq<Candidate>,
    i: int,
    p: int,
) -> (s: int)
    requires
        index.searchable(),
        0 <= i < probes.len(),
        probes[i].id < index.nlist,
        index.list_offsets@[probes[i].id as int] <= p < index.list_offsets@[probes[i].id + 1],
    ensures
        0 <= s < ivf_flat::scanned(f, index, query, probes).len(),
        ivf_flat::scanned(f, index, query, probes)[s].id == index.row_ids@[p],
        ivf_flat::scanned(f, index, query, probes)[s].distance == row_found(
            f,
            index,
            query,
            p,
        ).distance,
    decreases probes.len(),
{
    let front = ivf_flat::scanned(f, index, query, probes.drop_last());
    if i == probes.len() - 1 {
        let c = probes[i].id as int;
        let q = p - index.list_offsets@[c];
        assert(index.list_offsets@[c + 1] <= index.row_ids@.len());
        row_in_list(f, index, query, c, q);
        front.len() + q
    } else {
        rows_are_scanned(f, index, query, probes.drop_last(), i, p)
    }
}

/// A search gives rows of the lists that are searched, with their own distances from the
/// query, nearest first, and no more than are asked for. No row of these lists that is
/// not given is nearer than one that is, and if fewer rows are given than are asked for,
/// all rows of these lists are.
pub proof fn nearest_rows_are_found<F: Fn(&[u32], &[u32]) -> u32>(
    f: F,
    index: IvfFlatIndex,
    query: Seq<u32>,
    k: nat,
    nprobe: nat,
    r: int,
    p: int,
)
    requires
        index.searchable(),
        query.len() == index.dim,
        k > 0,
        ivf_flat::search_outcome(f, index, query, k, nprobe) is Ok,
    ensures
        ({
            let found = ivf_flat::search_outcome(f, index, query, k, nprobe)->Ok_0;
            &&& found.len() <= k
            &&& 0 <= r < found.len() ==> exists|q: int|
                is_probed(f, index, query, nprobe, q) && found[r] == #[trigger] row_found(
                    f,
                    index,
                    query,
                    q,
                )
            &&& 0 < r < found.len() ==> floats::order_key(found[r - 1].distance)
                <= floats::order_key(found[r].distance)
            &&& is_probed(f, index, query, nprobe, p) && !found.contains(
                row_found(f, index, query, p),
            ) ==> found.len() == k && (0 <= r < found.len() ==> floats::order_key(
                found[r].distance,
            ) <= floats::order_key(row_found(f, index, query, p).distance))
        }),
{
    let probes = ivf_flat::probed_lists(
        f,
        index.centroids@,
        index.dim as nat,
        index.nlist as nat,
        query,
        nprobe,
    );
    nearest_lists_are_probed(
        f,
        index.centroids@,
        index.dim as nat,
        index.nlist as nat,
        query,
        nprobe,
    );
    let all = ivf_flat::scanned(f, index, query, probes);
    let found = ivf_flat::search_outcome(f, index, query, k, nprobe)->Ok_0;
    let places = ranking::nearest_are_kept(all, k);
    if 0 <= r < found.len() {
        let (i, q) = scanned_are_rows(f, index, query, probes, places[r]);
        assert(index.list_offsets@[probes[i].id as int] <= q);
        assert(is_probed(f, index, query, nprobe, q));
        assert(found[r] == row_found(f, index, query, q));
        if r > 0 {
            assert(found[r - 1].distance == all[places[r - 1]].distance);
        }
    }
    let row = row_found(f, index, query, p);
    if is_probed(f, index, query, nprobe, p) && !found.contains(row) {
        let i = choose|i: int|
            0 <= i < probes.len() && index.list_offsets@[(#[trigger] probes[i]).id as int] <= p
                < index.list_offsets@[probes[i].id + 1];
        let s = rows_are_scanned(f, index, query, probes, i, p);
        if places.contains(s) {
            let j = choose|j: int| 0 <= j < places.len() && places[j] == s;
            assert(found[j] == row);
        }
        if 0 <= r < found.len() {
            assert(found[r].distance == all[places[r]].distance);
        }
    }
}

/// A search fails if the query has another number of components than the index, and
/// otherwise, if rows are asked for, exactly if some row of a list that is searched is at
/// a distance that is no number.
pub proof fn searches_fail<F: Fn(&[u32], &[u32]) -> u32>(
    f: F,
    index: IvfFlatIndex,
    query: Seq<u32>,
    k: nat,
    nprobe: nat,
)
    requires
        index.searchable(),
    ensures
        ({
            let outcome = ivf_flat::search_outcome(f, index, query, k, nprobe);
            &&& query.len() != index.dim ==> outcome is Err && outcome->Err_0 is QueryDim
            &&& query.len() == index.dim && k == 0 ==> outcome == Ok::<
                Seq<SearchResult>,
                SearchError,
            >(Seq::empty())
            &&& query.len() == index.dim && k > 0 ==> (outcome is Err <==> exists|p: int|
                is_probed(f, index, query, nprobe, p) && floats::is_nan(
                    #[trigger] row_found(f, index, query, p).distance,
                ))
        }),
{
    let probes = ivf_flat::probed_lists(
        f,
        index.centroids@,
        index.dim as nat,
        index.nlist as nat,
        query,
        nprobe,
    );
    if query.len() == index.dim && k > 0 {
        nearest_lists_are_probed(
            f,
            index.centroids@,
            index.dim as nat,
            index.nlist as nat,
            query,
            nprobe,
        );
        let all = ivf_flat::scanned(f, index, query, probes);
        if ivf_flat::has_nan(all) {
            let s = choose|s: int|
                0 <= s < all.len() && floats::is_nan(#[trigger] all[s].distance);
            let (i, p) = scanned_are_rows(f, index, query, probes, s);
            assert(index.list_offsets@[probes[i].id as int] <= p);
            assert(is_probed(f, index, query, nprobe, p));
            assert(floats::is_nan(row_found(f, index, query, p).distance));
        }
        assert forall|p: int|
            is_probed(f, index, query, nprobe, p) && floats::is_nan(
                #[trigger] row_found(f, index, query, p).distance,
            ) implies ivf_flat::has_nan(all) by {
            let i = choose|i: int|
                0 <= i < probes.len() && index.list_offsets@[(#[trigger] probes[i]).id as int] <= p
                    < index.list_offsets@[probes[i].id + 1];
            let s = rows_are_scanned(f, index, query, probes, i, p);
            assert(floats::is_nan(all[s].distance));
        }
    }
}

} // verus!
