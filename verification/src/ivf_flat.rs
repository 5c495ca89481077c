//! The inverted-file index with whole vectors in its lists.
use crate::floats;
use crate::num::product;
use crate::topk;
use crate::topk::{Candidate, TopK};
use vstd::prelude::*;

verus! {

/// How an index is built.
#[derive(Clone, Copy, Debug, PartialEq, Eq, Structural)]
pub struct IvfFlatBuildOptions {
    pub nlist: usize,
    pub train_sample: usize,
    pub seed: u64,
    pub max_kmeans_iters: usize,
}

impl Default for IvfFlatBuildOptions {
    fn default() -> (r: Self)
        ensures
            r.nlist == 1024,
            r.train_sample == 200_000,
            r.seed == 1,
            r.max_kmeans_iters == 20,
    {
        IvfFlatBuildOptions { nlist: 1024, train_sample: 200_000, seed: 1, max_kmeans_iters: 20 }
    }
}

/// The index: `nlist` centroids of `dim` components; where each list starts in
/// the row ids, and where the last one ends; the row ids, list behind list; the
/// vectors in the order of the row ids. Components are bit patterns.
#[derive(Clone, Debug)]
pub struct IvfFlatIndex {
    pub dim: usize,
    pub nlist: usize,
    pub centroids: Vec<u32>,
    pub list_offsets: Vec<u64>,
    pub row_ids: Vec<u32>,
    pub vectors: Vec<u32>,
}

/// A row that a search found, with the bit pattern of its distance.
#[derive(Clone, Copy, Debug, PartialEq, Eq, Structural)]
pub struct SearchResult {
    pub row_id: u32,
    pub distance: u32,
}

/// Why a search gave no result.
#[derive(Clone, Copy, Debug, PartialEq, Eq, Structural)]
pub enum SearchError {
    /// The query has `got` components, the index `expected`.
    QueryDim { expected: usize, got: usize },
    /// There are not `nlist` centroids.
    CentroidsLen,
    /// The distance of some vector is no number.
    NanDistance,
}

/// How many lists are searched: at least one, at most all.
pub open spec fn probe_count(nprobe: nat, nlist: nat) -> nat {
    let n = if nprobe < nlist {
        nprobe
    } else {
        nlist
    };
    if n < 1 {
        1
    } else {
        n
    }
}

/// How many lists are searched.
pub fn effective_nprobe(nprobe: usize, nlist: usize) -> (r: usize)
    ensures
        r == probe_count(nprobe as nat, nlist as nat),
{
    let n: usize = if nprobe < nlist {
        nprobe
    } else {
        nlist
    };
    if n < 1 {
        1
    } else {
        n
    }
}

/// Each centroid as a candidate: its number, and its distance to the query.
pub open spec fn centroid_candidates<F: Fn(&[u32], &[u32]) -> u32>(
    f: F,
    centroids: Seq<u32>,
    dim: nat,
    nlist: nat,
    query: Seq<u32>,
) -> Seq<Candidate> {
    Seq::new(
        nlist,
        |c: int|
            Candidate {
                distance: floats::distance(f, query, floats::row_of(centroids, dim, c)),
                id: c as u64,
            },
    )
}

/// The lists to search, those with the nearest centroids first.
pub open spec fn probed_lists<F: Fn(&[u32], &[u32]) -> u32>(
    f: F,
    centroids: Seq<u32>,
    dim: nat,
    nlist: nat,
    query: Seq<u32>,
    nprobe: nat,
) -> Seq<Candidate> {
    topk::nearest(
        centroid_candidates(f, centroids, dim, nlist, query),
        probe_count(nprobe, nlist),
    )
}

/// Finds the lists to search: those whose centroids are nearest to the query, in
/// the order of their distance.
pub fn select_probes<F: Fn(&[u32], &[u32]) -> u32>(
    centroids: &[u32],
    dim: usize,
    nlist: usize,
    query: &[u32],
    nprobe: usize,
    f: &F,
) -> (r: Vec<usize>)
    requires
        floats::is_distance(*f),
        nlist * dim <= centroids@.len(),
    ensures
        r@.len() == probed_lists(
            *f,
            centroids@,
            dim as nat,
            nlist as nat,
            query@,
            nprobe as nat,
        ).len(),
        forall|i: int|
            0 <= i < r@.len() ==> (#[trigger] r@[i]) < nlist && r@[i] == probed_lists(
                *f,
                centroids@,
                dim as nat,
                nlist as nat,
                query@,
                nprobe as nat,
            )[i].id,
{
    let keep: usize = effective_nprobe(nprobe, nlist);
    let mut top = TopK::new(keep);
    let ghost all = centroid_candidates(*f, centroids@, dim as nat, nlist as nat, query@);
    let mut cid: usize = 0;
    assert(all.take(0) =~= Seq::<Candidate>::empty());
    while cid < nlist
        invariant
            floats::is_distance(*f),
            nlist * dim <= centroids@.len(),
            cid <= nlist,
            all == centroid_candidates(*f, centroids@, dim as nat, nlist as nat, query@),
            top.limit() == keep,
            top@ == topk::nearest(all.take(cid as int), keep as nat),
        decreases nlist - cid,
    {
        let c = floats::row(centroids, dim, cid, nlist);
        let distance: u32 = floats::measure(f, query, c);
        top.offer(Candidate { distance, id: cid as u64 });
        proof {
            let next = all.take(cid + 1);
            assert(next.drop_last() =~= all.take(cid as int));
            assert(next.last() == all[cid as int]);
        }
        cid = cid + 1;
    }
    assert(all.take(cid as int) =~= all);
    let ranked = top.into_ranked();
    let mut out: Vec<usize> = Vec::new();
    let mut i: usize = 0;
    while i < ranked.len()
        invariant
            i <= ranked@.len(),
            all == centroid_candidates(*f, centroids@, dim as nat, nlist as nat, query@),
            ranked@ == topk::nearest(all, keep as nat),
            out@.len() == i,
            forall|j: int|
                0 <= j < i ==> (#[trigger] out@[j]) < nlist && out@[j] == ranked@[j].id,
        decreases ranked@.len() - i,
    {
        proof {
            nearest_are_candidates(all, keep as nat, i as int);
        }
        out.push(ranked[i].id as usize);
        i = i + 1;
    }
    out
}

/// The vectors of a posting list as candidates, in their order.
pub open spec fn posting_candidates<F: Fn(&[u32], &[u32]) -> u32>(
    f: F,
    query: Seq<u32>,
    dim: nat,
    rows: Seq<u32>,
    vectors: Seq<u32>,
) -> Seq<Candidate> {
    Seq::new(
        rows.len(),
        |p: int|
            Candidate {
                distance: floats::distance(f, query, floats::row_of(vectors, dim, p)),
                id: rows[p] as u64,
            },
    )
}

/// Whether some candidate's distance is no number.
pub open spec fn has_nan(s: Seq<Candidate>) -> bool {
    exists|i: int| 0 <= i < s.len() && floats::is_nan(#[trigger] s[i].distance)
}

/// Offers the vectors of a posting list. Stops at the first whose distance is no
/// number.
pub fn scan_posting<F: Fn(&[u32], &[u32]) -> u32>(
    top: &mut TopK,
    query: &[u32],
    dim: usize,
    rows: &[u32],
    vectors: &[u32],
    f: &F,
) -> (r: Result<(), SearchError>)
    requires
        floats::is_distance(*f),
        rows@.len() * dim <= vectors@.len(),
    ensures
        final(top).limit() == old(top).limit(),
        match r {
            Ok(_) => {
                &&& !has_nan(posting_candidates(*f, query@, dim as nat, rows@, vectors@))
                &&& final(top)@ == topk::offered_all(
                    old(top)@,
                    posting_candidates(*f, query@, dim as nat, rows@, vectors@),
                    old(top).limit(),
                )
            },
            Err(e) => {
                &&& e == SearchError::NanDistance
                &&& has_nan(posting_candidates(*f, query@, dim as nat, rows@, vectors@))
            },
        },
{
    let ghost all = posting_candidates(*f, query@, dim as nat, rows@, vectors@);
    let n: usize = rows.len();
    let mut pos: usize = 0;
    while pos < n
        invariant
            floats::is_distance(*f),
            n == rows@.len(),
            n * dim <= vectors@.len(),
            pos <= n,
            all == posting_candidates(*f, query@, dim as nat, rows@, vectors@),
            top.limit() == old(top).limit(),
            !has_nan(all.take(pos as int)),
            top@ == topk::offered_all(old(top)@, all.take(pos as int), top.limit()),
        decreases n - pos,
    {
        let v = floats::row(vectors, dim, pos, n);
        let distance: u32 = floats::measure(f, query, v);
        if floats::nan(distance) {
            assert(floats::is_nan(all[pos as int].distance));
            return Err(SearchError::NanDistance);
        }
        top.offer(Candidate { distance, id: rows[pos] as u64 });
        proof {
            let next = all.take(pos + 1);
            assert(next.drop_last() =~= all.take(pos as int));
            assert(next.last() == all[pos as int]);
            assert forall|i: int| 0 <= i < next.len() implies !floats::is_nan(
                #[trigger] next[i].distance,
            ) by {
                if i < pos {
                    assert(next[i] == all.take(pos as int)[i]);
                }
            }
        }
        pos = pos + 1;
    }
    assert(all.take(pos as int) =~= all);
    Ok(())
}

/// Candidates as rows found.
pub open spec fn as_results(s: Seq<Candidate>) -> Seq<SearchResult> {
    Seq::new(
        s.len(),
        |i: int| SearchResult { row_id: s[i].id as u32, distance: s[i].distance },
    )
}

/// Turns candidates into rows found.
pub fn results_of(ranked: &Vec<Candidate>) -> (r: Vec<SearchResult>)
    ensures
        r@ == as_results(ranked@),
{
    let mut out: Vec<SearchResult> = Vec::new();
    let mut i: usize = 0;
    while i < ranked.len()
        invariant
            i <= ranked@.len(),
            out@ =~= as_results(ranked@).take(i as int),
        decreases ranked@.len() - i,
    {
        out.push(SearchResult { row_id: ranked[i].id as u32, distance: ranked[i].distance });
        i = i + 1;
    }
    out
}

impl IvfFlatIndex {
    /// Whether the parts of the index fit together: the centroids and vectors
    /// have their number of components, and no list ends behind the last row.
    pub open spec fn searchable(self) -> bool {
        &&& self.nlist > 0
        &&& self.centroids@.len() == self.nlist * self.dim
        &&& self.list_offsets@.len() == self.nlist + 1
        &&& self.vectors@.len() == self.row_ids@.len() * self.dim
        &&& forall|c: int|
            0 <= c < self.nlist ==> #[trigger] self.list_offsets@[c + 1] <= self.row_ids@.len()
    }

    /// Where list `c` starts, and where it ends if that is behind it.
    pub open spec fn list_span(self, c: int) -> (int, int) {
        let start = self.list_offsets@[c] as int;
        let end = self.list_offsets@[c + 1] as int;
        if start < end {
            (start, end)
        } else {
            (0, 0)
        }
    }

    /// The row ids of list `c`.
    pub open spec fn list_rows(self, c: int) -> Seq<u32> {
        self.row_ids@.subrange(self.list_span(c).0, self.list_span(c).1)
    }

    /// The vectors of list `c`.
    pub open spec fn list_vectors(self, c: int) -> Seq<u32> {
        self.vectors@.subrange(self.list_span(c).0 * self.dim, self.list_span(c).1 * self.dim)
    }

    /// Tells whether the parts of the index fit together.
    pub fn is_searchable(&self) -> (r: bool)
        ensures
            r == self.searchable(),
    {
        if self.nlist == 0 || self.list_offsets.len() == 0 || self.list_offsets.len() - 1
            != self.nlist {
            return false;
        }
        if self.centroids.len() as u128 != product(self.nlist, self.dim) {
            return false;
        }
        if self.vectors.len() as u128 != product(self.row_ids.len(), self.dim) {
            return false;
        }
        let mut c: usize = 0;
        while c < self.nlist
            invariant
                c <= self.nlist,
                self.nlist < usize::MAX,
                self.list_offsets@.len() == self.nlist + 1,
                forall|d: int|
                    0 <= d < c ==> #[trigger] self.list_offsets@[d + 1] <= self.row_ids@.len(),
            decreases self.nlist - c,
        {
            if self.list_offsets[c + 1] > self.row_ids.len() as u64 {
                assert(self.list_offsets@[c as int + 1] > self.row_ids@.len());
                return false;
            }
            c = c + 1;
        }
        true
    }
}

/// The candidates of the lists in `probes`, list behind list.
pub open spec fn scanned<F: Fn(&[u32], &[u32]) -> u32>(
    f: F,
    index: IvfFlatIndex,
    query: Seq<u32>,
    probes: Seq<Candidate>,
) -> Seq<Candidate>
    decreases probes.len(),
{
    if probes.len() == 0 {
        Seq::empty()
    } else {
        scanned(f, index, query, probes.drop_last()) + posting_candidates(
            f,
            query,
            index.dim as nat,
            index.list_rows(probes.last().id as int),
            index.list_vectors(probes.last().id as int),
        )
    }
}

/// The outcome of a search, given the candidates that were scanned.
pub open spec fn ranked_outcome(candidates: Seq<Candidate>, k: nat) -> Result<
    Seq<SearchResult>,
    SearchError,
> {
    if has_nan(candidates) {
        Err(SearchError::NanDistance)
    } else {
        Ok(as_results(topk::nearest(candidates, k)))
    }
}

/// What a search of the index gives.
pub open spec fn search_outcome<F: Fn(&[u32], &[u32]) -> u32>(
    f: F,
    index: IvfFlatIndex,
    query: Seq<u32>,
    k: nat,
    nprobe: nat,
) -> Result<Seq<SearchResult>, SearchError> {
    if query.len() != index.dim {
        Err(SearchError::QueryDim { expected: index.dim, got: query.len() as usize })
    } else if k == 0 {
        Ok(Seq::empty())
    } else {
        let probes = probed_lists(
            f,
            index.centroids@,
            index.dim as nat,
            index.nlist as nat,
            query,
            nprobe,
        );
        ranked_outcome(scanned(f, index, query, probes), k)
    }
}

/// Whether `r` is the outcome `o`.
pub open spec fn is_outcome(
    r: Result<Vec<SearchResult>, SearchError>,
    o: Result<Seq<SearchResult>, SearchError>,
) -> bool {
    match r {
        Ok(v) => o == Ok::<Seq<SearchResult>, SearchError>(v@),
        Err(e) => o == Err::<Seq<SearchResult>, SearchError>(e),
    }
}

/// Finds the `k` rows nearest to the query among those of the `nprobe` lists
/// whose centroids are nearest to it. `f` computes distances.
pub fn search_ivf_flat<F: Fn(&[u32], &[u32]) -> u32>(
    index: &IvfFlatIndex,
    query: &[u32],
    k: usize,
    nprobe: usize,
    f: &F,
) -> (r: Result<Vec<SearchResult>, SearchError>)
    requires
        floats::is_distance(*f),
        index.searchable(),
    ensures
        is_outcome(r, search_outcome(*f, *index, query@, k as nat, nprobe as nat)),
{
    if query.len() != index.dim {
        return Err(SearchError::QueryDim { expected: index.dim, got: query.len() });
    }
    if k == 0 {
        return Ok(Vec::new());
    }
    let lists = select_probes(index.centroids.as_slice(), index.dim, index.nlist, query, nprobe, f);
    let ghost probes = probed_lists(
        *f,
        index.centroids@,
        index.dim as nat,
        index.nlist as nat,
        query@,
        nprobe as nat,
    );
    let mut top = TopK::new(k);
    let mut i: usize = 0;
    assert(probes.take(0) =~= Seq::<Candidate>::empty());
    while i < lists.len()
        invariant
            floats::is_distance(*f),
            index.searchable(),
            i <= lists@.len(),
            query@.len() == index.dim,
            k > 0,
            probes == probed_lists(
                *f,
                index.centroids@,
                index.dim as nat,
                index.nlist as nat,
                query@,
                nprobe as nat,
            ),
            lists@.len() == probes.len(),
            forall|j: int|
                0 <= j < lists@.len() ==> (#[trigger] lists@[j]) < index.nlist && lists@[j]
                    == probes[j].id,
            top.limit() == k,
            !has_nan(scanned(*f, *index, query@, probes.take(i as int))),
            top@ == topk::nearest(
                scanned(*f, *index, query@, probes.take(i as int)),
                k as nat,
            ),
        ensures
            i == lists@.len(),
        decreases lists@.len() - i,
    {
        let cid: usize = lists[i];
        let ghost so_far = scanned(*f, *index, query@, probes.take(i as int));
        proof {
            let next = probes.take(i + 1);
            assert(next.drop_last() =~= probes.take(i as int));
            assert(next.last() == probes[i as int]);
        }
        let (rows, vectors) = index.list(cid);
        let ghost more = posting_candidates(
            *f,
            query@,
            index.dim as nat,
            index.list_rows(cid as int),
            index.list_vectors(cid as int),
        );
        match scan_posting(&mut top, query, index.dim, rows, vectors, f) {
            Ok(_) => {
                proof {
                    topk::nearest_in_parts(so_far, more, k as nat);
                    nan_in_parts(so_far, more);
                }
            },
            Err(e) => {
                proof {
                    nan_in_parts(so_far, more);
                    nan_stays(*f, *index, query@, probes, i + 1);
                }
                return Err(e);
            },
        }
        i = i + 1;
    }
    assert(probes.take(i as int) =~= probes);
    let ranked = top.into_ranked();
    Ok(results_of(&ranked))
}

/// A distance that is no number in one of two parts is one in the whole.
pub proof fn nan_in_parts(a: Seq<Candidate>, b: Seq<Candidate>)
    ensures
        has_nan(a + b) == (has_nan(a) || has_nan(b)),
{
    let c = a + b;
    assert(has_nan(c) ==> has_nan(a) || has_nan(b)) by {
        if has_nan(c) {
            let i = choose|i: int| 0 <= i < c.len() && floats::is_nan(#[trigger] c[i].distance);
            if i < a.len() {
                assert(floats::is_nan(a[i].distance));
            } else {
                assert(floats::is_nan(b[i - a.len()].distance));
            }
        }
    }
    if has_nan(a) {
        let i = choose|i: int| 0 <= i < a.len() && floats::is_nan(#[trigger] a[i].distance);
        assert(floats::is_nan(c[i].distance));
    }
    if has_nan(b) {
        let i = choose|i: int| 0 <= i < b.len() && floats::is_nan(#[trigger] b[i].distance);
        assert(c[a.len() + i] == b[i]);
        assert(floats::is_nan(c[a.len() + i].distance));
    }
}

proof fn nan_stays<F: Fn(&[u32], &[u32]) -> u32>(
    f: F,
    index: IvfFlatIndex,
    query: Seq<u32>,
    probes: Seq<Candidate>,
    n: int,
)
    requires
        0 <= n <= probes.len(),
        has_nan(scanned(f, index, query, probes.take(n))),
    ensures
        has_nan(scanned(f, index, query, probes)),
    decreases probes.len() - n,
{
    if n == probes.len() {
        assert(probes.take(n) =~= probes);
    } else {
        let next = probes.take(n + 1);
        assert(next.drop_last() =~= probes.take(n));
        nan_in_parts(
            scanned(f, index, query, probes.take(n)),
            posting_candidates(
                f,
                query,
                index.dim as nat,
                index.list_rows(next.last().id as int),
                index.list_vectors(next.last().id as int),
            ),
        );
        nan_stays(f, index, query, probes, n + 1);
    }
}

impl IvfFlatIndex {
    /// A list has no more rows and vectors than there are.
    pub proof fn list_bounds(self, c: int)
        requires
            self.searchable(),
            0 <= c < self.nlist,
        ensures
            self.list_rows(c).len() <= self.row_ids@.len(),
            self.list_vectors(c).len() <= self.vectors@.len(),
            self.list_vectors(c).len() == self.list_rows(c).len() * self.dim,
    {
        assert(self.list_offsets@[c + 1] <= self.row_ids@.len());
        let (a, b) = self.list_span(c);
        span_fits(a, b, self.row_ids@.len() as int, self.dim as int);
    }

    /// The row ids and the vectors of one list.
    pub fn list(&self, c: usize) -> (r: (&[u32], &[u32]))
        requires
            self.searchable(),
            c < self.nlist,
        ensures
            r.0@ == self.list_rows(c as int),
            r.1@ == self.list_vectors(c as int),
            r.1@.len() == r.0@.len() * self.dim,
    {
        assert(self.list_offsets@[c as int + 1] <= self.row_ids@.len());
        let rows_len: usize = self.row_ids.len();
        let vectors_len: usize = self.vectors.len();
        let end: usize = self.list_offsets[c + 1] as usize;
        let (start, end): (usize, usize) = if self.list_offsets[c] < self.list_offsets[c + 1] {
            (self.list_offsets[c] as usize, end)
        } else {
            (0, 0)
        };
        proof {
            span_fits(start as int, end as int, self.row_ids@.len() as int, self.dim as int);
        }
        let rows = &self.row_ids.as_slice()[start..end];
        let vectors = &self.vectors.as_slice()[start * self.dim..end * self.dim];
        (rows, vectors)
    }
}

proof fn span_fits(a: int, b: int, n: int, dim: int)
    requires
        0 <= a <= b <= n,
        0 <= dim,
    ensures
        0 <= a * dim <= b * dim <= n * dim,
        b * dim - a * dim == (b - a) * dim,
{
    assert(0 <= a * dim <= b * dim <= n * dim) by (nonlinear_arith)
        requires
            0 <= a <= b <= n,
            0 <= dim,
    ;
    assert(b * dim - a * dim == (b - a) * dim) by (nonlinear_arith);
}

/// What is kept is among the candidates.
pub proof fn nearest_are_candidates(all: Seq<Candidate>, k: nat, i: int)
    requires
        0 <= i < topk::nearest(all, k).len(),
    ensures
        exists|j: int| 0 <= j < all.len() && #[trigger] all[j] == topk::nearest(all, k)[i],
{
    broadcast use vstd::seq_lib::group_to_multiset_ensures;

    topk::nearest_is_nearest(all, k);
    let kept = topk::nearest(all, k);
    assert(kept.contains(kept[i]));
    assert(kept.to_multiset().count(kept[i]) > 0);
    assert(all.to_multiset().count(kept[i]) > 0);
    assert(all.contains(kept[i]));
}

/// No list is searched twice.
pub proof fn probes_differ<F: Fn(&[u32], &[u32]) -> u32>(
    f: F,
    centroids: Seq<u32>,
    dim: nat,
    nlist: nat,
    query: Seq<u32>,
    nprobe: nat,
    i: int,
    j: int,
)
    requires
        nlist <= u64::MAX,
        0 <= i < j < probed_lists(f, centroids, dim, nlist, query, nprobe).len(),
    ensures
        ({
            let lists = probed_lists(f, centroids, dim, nlist, query, nprobe);
            &&& lists[i].id != lists[j].id
            &&& lists[i].id < nlist
            &&& lists[j].id < nlist
        }),
{
    broadcast use vstd::seq_lib::group_to_multiset_ensures;

    let all = centroid_candidates(f, centroids, dim, nlist, query);
    let k = probe_count(nprobe, nlist);
    let kept = topk::nearest(all, k);
    topk::nearest_is_nearest(all, k);
    assert forall|a: int, b: int| 0 <= a < all.len() && 0 <= b < all.len() && a != b implies all[a]
        != all[b] by {
        assert(all[a].id == a && all[b].id == b);
    }
    all.lemma_multiset_has_no_duplicates();
    assert forall|x: Candidate| kept.to_multiset().contains(x) implies kept.to_multiset().count(x)
        == 1 by {
        assert(all.to_multiset().count(x) >= kept.to_multiset().count(x));
        assert(all.to_multiset().contains(x));
    }
    kept.lemma_multiset_has_no_duplicates_conv();
    nearest_are_candidates(all, k, i);
    nearest_are_candidates(all, k, j);
    let a = choose|a: int| 0 <= a < all.len() && #[trigger] all[a] == kept[i];
    let b = choose|b: int| 0 <= b < all.len() && #[trigger] all[b] == kept[j];
    assert(kept[i] != kept[j]);
    assert(a != b);
}

/// If as many lists are searched as there are, each is.
proof fn all_are_probed<F: Fn(&[u32], &[u32]) -> u32>(
    f: F,
    index: IvfFlatIndex,
    query: Seq<u32>,
    nprobe: nat,
    c: int,
) -> (i: int)
    requires
        index.nlist <= nprobe,
        0 <= c < index.nlist,
    ensures
        ({
            let probes = probed_lists(
                f,
                index.centroids@,
                index.dim as nat,
                index.nlist as nat,
                query,
                nprobe,
            );
            0 <= i < probes.len() && probes[i].id == c
        }),
{
    let all = centroid_candidates(f, index.centroids@, index.dim as nat, index.nlist as nat, query);
    assert(all[c].id == c);
    assert(all.contains(all[c]));
    topk::kept_or_as_near(all, index.nlist as nat, all[c]);
    let probes = topk::nearest(all, index.nlist as nat);
    choose|i: int| 0 <= i < probes.len() && probes[i] == all[c]
}

proof fn probed_is_scanned<F: Fn(&[u32], &[u32]) -> u32>(
    f: F,
    index: IvfFlatIndex,
    query: Seq<u32>,
    probes: Seq<Candidate>,
    i: int,
    p: int,
)
    requires
        0 <= i < probes.len(),
        0 <= p < index.list_rows(probes[i].id as int).len(),
    ensures
        scanned(f, index, query, probes).contains(
            index.list_candidate(f, query, probes[i].id as int, p),
        ),
    decreases probes.len(),
{
    let front = scanned(f, index, query, probes.drop_last());
    let last = posting_candidates(
        f,
        query,
        index.dim as nat,
        index.list_rows(probes.last().id as int),
        index.list_vectors(probes.last().id as int),
    );
    let x = index.list_candidate(f, query, probes[i].id as int, p);
    if i == probes.len() - 1 {
        assert((front + last)[front.len() + p] == x);
    } else {
        probed_is_scanned(f, index, query, probes.drop_last(), i, p);
        let q = choose|q: int| 0 <= q < front.len() && front[q] == x;
        assert((front + last)[q] == x);
    }
}

impl IvfFlatIndex {
    /// Row `p` of list `c` as a candidate.
    pub open spec fn list_candidate<F: Fn(&[u32], &[u32]) -> u32>(
        self,
        f: F,
        query: Seq<u32>,
        c: int,
        p: int,
    ) -> Candidate {
        posting_candidates(
            f,
            query,
            self.dim as nat,
            self.list_rows(c),
            self.list_vectors(c),
        )[p]
    }
}

/// A search of all lists is exact: each row of each list is found, or all rows that
/// are found are as near; and if fewer than `k` rows are found, it is.
pub proof fn full_search_is_exact<F: Fn(&[u32], &[u32]) -> u32>(
    f: F,
    index: IvfFlatIndex,
    query: Seq<u32>,
    k: nat,
    nprobe: nat,
    c: int,
    p: int,
)
    requires
        index.nlist <= nprobe,
        0 <= c < index.nlist,
        0 <= p < index.list_rows(c).len(),
        search_outcome(f, index, query, k, nprobe) is Ok,
    ensures
        ({
            let found = search_outcome(f, index, query, k, nprobe)->Ok_0;
            let x = index.list_candidate(f, query, c, p);
            let row = SearchResult { row_id: x.id as u32, distance: x.distance };
            &&& found.contains(row) || forall|i: int|
                0 <= i < found.len() ==> floats::order_key(#[trigger] found[i].distance)
                    <= floats::order_key(x.distance)
            &&& found.len() < k ==> found.contains(row)
        }),
{
    let found = search_outcome(f, index, query, k, nprobe)->Ok_0;
    let x = index.list_candidate(f, query, c, p);
    let row = SearchResult { row_id: x.id as u32, distance: x.distance };
    if k > 0 {
        let probes = probed_lists(
            f,
            index.centroids@,
            index.dim as nat,
            index.nlist as nat,
            query,
            nprobe,
        );
        let i = all_are_probed(f, index, query, nprobe, c);
        probed_is_scanned(f, index, query, probes, i, p);
        let all = scanned(f, index, query, probes);
        topk::kept_or_as_near(all, k, x);
        let kept = topk::nearest(all, k);
        if kept.contains(x) {
            let q = choose|q: int| 0 <= q < kept.len() && kept[q] == x;
            assert(found[q] == row);
        } else {
            assert forall|i: int| 0 <= i < found.len() implies floats::order_key(
                #[trigger] found[i].distance,
            ) <= floats::order_key(x.distance) by {
                assert(found[i].distance == kept[i].distance);
            }
        }
    }
}

} // verus!
