//! Searching an artifact again and again with decoded posting lists that are kept.
use crate::artifact::ivf_flat::{read_centroids_f32, ChunkType, IvfFlatArtifact};
use crate::artifact::search;
use crate::artifact::search::{
    ArtifactSearchError, IvfFlatArtifactSearcher, IvfFlatSearchStageStats,
};
use crate::floats;
use crate::ivf_flat;
use crate::ivf_flat::{SearchError, SearchResult};
use crate::topk;
use vstd::prelude::*;

verus! {

impl IvfFlatArtifactSearcher {
    /// Whether the searcher was opened with the artifact that has these bytes: its
    /// centroids are those of the artifact, and each list that it keeps is a list of
    /// the artifact.
    pub open spec fn searches(self, file: Seq<u8>, wide: Seq<u32>) -> bool {
        &&& search::centroids(self.artifact.footer, file) == Ok::<Seq<u32>, ArtifactSearchError>(
            self.centroids@,
        )
        &&& forall|c: u32|
            (#[trigger] self.cached(c)) matches Some(list) ==> search::posting_list(
                self.artifact.footer,
                file,
                wide,
                c,
            ) == Ok::<(Seq<u32>, Seq<u32>), ArtifactSearchError>(list)
    }

    /// How many of the first `n` lists the searcher keeps.
    pub open spec fn kept_among(self, lists: Seq<topk::Candidate>, n: nat) -> nat
        decreases n,
    {
        if n == 0 {
            0
        } else {
            self.kept_among(lists, (n - 1) as nat) + (if self.cached(lists[n - 1].id as u32)
                is Some {
                1nat
            } else {
                0
            })
        }
    }

    /// Whether `after` keeps the lists that this searcher keeps and the first `n` of
    /// `lists`, and no others; if none are to be kept, nothing has changed.
    pub open spec fn keeps_also(
        self,
        lists: Seq<topk::Candidate>,
        n: int,
        after: IvfFlatArtifactSearcher,
    ) -> bool {
        &&& forall|c: u32|
            self.cached(c) is Some ==> #[trigger] after.cached(c) == self.cached(c)
        &&& forall|c: u32|
            (#[trigger] after.cached(c)) is Some ==> self.cached(c) is Some || (
            self.posting_cache_enabled && exists|i: int|
                0 <= i < n && #[trigger] lists[i].id == c)
        &&& self.posting_cache_enabled ==> forall|i: int|
            0 <= i < n ==> after.cached((#[trigger] lists[i]).id as u32) is Some
        &&& !self.posting_cache_enabled ==> after.posting_cache@ == self.posting_cache@
    }

    /// The lists that are searched: none if nothing is to be found.
    pub open spec fn lists_for<F: Fn(&[u32], &[u32]) -> u32>(
        self,
        f: F,
        query: Seq<u32>,
        k: nat,
        nprobe: nat,
    ) -> Seq<topk::Candidate> {
        if k == 0 {
            Seq::empty()
        } else {
            ivf_flat::probed_lists(
                f,
                self.centroids@,
                self.artifact.footer.dim as nat,
                self.artifact.footer.nlist as nat,
                query,
                nprobe,
            )
        }
    }

    /// A searcher that keeps lists has all lists of a search at hand when the search
    /// is repeated.
    pub proof fn repeated_search_finds_all_kept(
        self,
        lists: Seq<topk::Candidate>,
        after: IvfFlatArtifactSearcher,
    )
        requires
            self.posting_cache_enabled,
            self.keeps_also(lists, lists.len() as int, after),
        ensures
            after.kept_among(lists, lists.len()) == lists.len(),
    {
        after.all_kept(lists, lists.len());
    }

    proof fn all_kept(self, lists: Seq<topk::Candidate>, n: nat)
        requires
            n <= lists.len(),
            forall|i: int|
                0 <= i < n ==> self.cached((#[trigger] lists[i]).id as u32) is Some,
        ensures
            self.kept_among(lists, n) == n,
        decreases n,
    {
        if n > 0 {
            self.all_kept(lists, (n - 1) as nat);
            assert(self.cached(lists[n - 1].id as u32) is Some);
        }
    }

    /// Finds the `k` rows nearest to the query among those of the `nprobe` lists
    /// whose centroids are nearest to it, in the artifact with these bytes. Lists
    /// that are kept are not decoded again. Counts the lists that were kept and
    /// those that were not.
    pub fn search_profiled<F: Fn(&[u32], &[u32]) -> u32>(
        &mut self,
        file: &[u8],
        wide: &[u32],
        query: &[u32],
        k: usize,
        nprobe: usize,
        stats: &mut IvfFlatSearchStageStats,
        f: &F,
    ) -> (r: Result<Vec<SearchResult>, ArtifactSearchError>)
        requires
            floats::is_distance(*f),
            wide@.len() == 0x1_0000,
            old(self).artifact.footer.nlist > 0,
            old(self).wf(),
            old(self).searches(file@, wide@),
            old(stats).posting_cache_hits + old(self).artifact.footer.nlist <= u64::MAX,
            old(stats).posting_cache_misses + old(self).artifact.footer.nlist <= u64::MAX,
        ensures
            final(self).wf(),
            final(self).searches(file@, wide@),
            final(self).artifact == old(self).artifact,
            final(self).centroids == old(self).centroids,
            final(self).posting_cache_enabled == old(self).posting_cache_enabled,
            ({
                let outcome = search::search_outcome(
                    *f,
                    old(self).artifact.footer,
                    file@,
                    wide@,
                    query@,
                    k as nat,
                    nprobe as nat,
                );
                match r {
                    Ok(v) => outcome == Ok::<Seq<SearchResult>, ArtifactSearchError>(v@),
                    Err(e) => outcome == Err::<Seq<SearchResult>, ArtifactSearchError>(e),
                }
            }),
            r is Ok ==> ({
                let lists = old(self).lists_for(*f, query@, k as nat, nprobe as nat);
                let kept = if old(self).posting_cache_enabled {
                    old(self).kept_among(lists, lists.len())
                } else {
                    0
                };
                &&& old(self).keeps_also(lists, lists.len() as int, *final(self))
                &&& final(stats).posting_cache_hits == old(stats).posting_cache_hits + kept
                &&& final(stats).posting_cache_misses == old(stats).posting_cache_misses
                    + lists.len() - kept
            }),
            final(stats).same_times(*old(stats)),
            forall|c: u32|
                old(self).cached(c) is Some ==> #[trigger] final(self).cached(c) == old(
                    self,
                ).cached(c),
    {
        let ghost footer = self.artifact.footer;
        let ghost probes = ivf_flat::probed_lists(
            *f,
            self.centroids@,
            footer.dim as nat,
            footer.nlist as nat,
            query@,
            nprobe as nat,
        );
        let mut run = match self.begin(query, k, nprobe, f) {
            Err(e) => {
                return Err(ArtifactSearchError::Search(e));
            },
            Ok(run) => run,
        };
        let ghost mut all = Seq::<topk::Candidate>::empty();
        let ghost lists = run.lists@;
        let ghost want = if k == 0 {
            Seq::empty()
        } else {
            probes
        };
        proof {
            assert(want.take(0) =~= Seq::<topk::Candidate>::empty());
            topk::nearest_is_nearest(
                ivf_flat::centroid_candidates(
                    *f,
                    self.centroids@,
                    footer.dim as nat,
                    footer.nlist as nat,
                    query@,
                ),
                ivf_flat::probe_count(nprobe as nat, footer.nlist as nat),
            );
        }
        while run.done < run.lists.len()
            invariant
                floats::is_distance(*f),
                wide@.len() == 0x1_0000,
                self.wf(),
                self.searches(file@, wide@),
                self.artifact == old(self).artifact,
                self.centroids == old(self).centroids,
                self.posting_cache_enabled == old(self).posting_cache_enabled,
                footer == self.artifact.footer,
                run.done <= lists.len(),
                run.lists@ == lists,
                lists.len() == want.len(),
                want.len() <= footer.nlist,
                forall|i: int| 0 <= i < want.len() ==> #[trigger] lists[i] == want[i].id,
                run.top.limit() == k,
                query@.len() == footer.dim,
                k > 0 ==> want == probes,
                k == 0 ==> want.len() == 0,
                probes == ivf_flat::probed_lists(
                    *f,
                    self.centroids@,
                    footer.dim as nat,
                    footer.nlist as nat,
                    query@,
                    nprobe as nat,
                ),
                k > 0 ==> self.centroids@.len() == footer.nlist * footer.dim,
                search::scanned(
                    *f,
                    footer,
                    file@,
                    wide@,
                    query@,
                    want.take(run.done as int),
                ) == Ok::<Seq<topk::Candidate>, ArtifactSearchError>(all),
                run.top@ == topk::nearest(all, k as nat),
                old(stats).posting_cache_hits + footer.nlist <= u64::MAX,
                old(stats).posting_cache_misses + footer.nlist <= u64::MAX,
                want == old(self).lists_for(*f, query@, k as nat, nprobe as nat),
                old(self).keeps_also(want, run.done as int, *self),
                old(self).kept_among(want, run.done as nat) <= run.done,
                stats.same_times(*old(stats)),
                stats.posting_cache_hits == old(stats).posting_cache_hits + (if old(
                    self,
                ).posting_cache_enabled {
                    old(self).kept_among(want, run.done as nat)
                } else {
                    0
                }),
                stats.posting_cache_misses == old(stats).posting_cache_misses + run.done - (if old(
                    self,
                ).posting_cache_enabled {
                    old(self).kept_among(want, run.done as nat)
                } else {
                    0
                }),
            decreases lists.len() - run.done,
        {
            let ghost i = run.done as int;
            let c: u32 = run.lists[run.done] as u32;
            proof {
                let next = want.take(i + 1);
                assert(next.drop_last() =~= want.take(i));
                assert(next.last() == want[i]);
                search::list_lengths(footer, file@, wide@, c);
                assert(lists[i] == want[i].id);
                assert(want[i].id == c) by {
                    ivf_flat::nearest_are_candidates(
                        ivf_flat::centroid_candidates(
                            *f,
                            self.centroids@,
                            footer.dim as nat,
                            footer.nlist as nat,
                            query@,
                        ),
                        ivf_flat::probe_count(nprobe as nat, footer.nlist as nat),
                        i,
                    );
                }
                assert(self.posting_cache_enabled ==> (self.cached(c) is Some <==> old(
                    self,
                ).cached(c) is Some)) by {
                    if self.cached(c) is Some && old(self).cached(c) is None {
                        let j = choose|j: int| 0 <= j < i && #[trigger] want[j].id == c;
                        ivf_flat::probes_differ(
                            *f,
                            self.centroids@,
                            footer.dim as nat,
                            footer.nlist as nat,
                            query@,
                            nprobe as nat,
                            j,
                            i,
                        );
                    }
                }
            }
            let read: Option<(Vec<u32>, Vec<u32>)> = if self.needs_read(c) {
                match self.artifact.posting_list(file, wide, c) {
                    Err(e) => {
                        proof {
                            search::stop_stays(*f, footer, file@, wide@, query@, want, i + 1, e);
                        }
                        return Err(e);
                    },
                    Ok(list) => Some(list),
                }
            } else {
                None
            };
            let ghost before = *self;
            let ghost top = run.top@;
            let ghost list = search::posting_list(footer, file@, wide@, c)->Ok_0;
            let ghost more = ivf_flat::posting_candidates(
                *f,
                query@,
                footer.dim as nat,
                list.0,
                list.1,
            );
            let scanned = self.scan(&mut run, query, read, stats, f);
            proof {
                assert forall|x: u32|
                    (#[trigger] self.cached(x)) matches Some(l) implies search::posting_list(
                    footer,
                    file@,
                    wide@,
                    x,
                ) == Ok::<(Seq<u32>, Seq<u32>), ArtifactSearchError>(self.cached(x)->0) by {
                    if x != c {
                        assert(self.cached(x) == before.cached(x));
                    } else {
                        assert(before.cached(c) is Some ==> search::posting_list(
                            footer,
                            file@,
                            wide@,
                            c,
                        ) == Ok::<(Seq<u32>, Seq<u32>), ArtifactSearchError>(
                            before.cached(c)->0,
                        ));
                    }
                }
            }
            proof {
                assert(old(self).keeps_also(want, i + 1, *self)) by {
                    assert forall|x: u32| (#[trigger] self.cached(x)) is Some implies old(
                        self,
                    ).cached(x) is Some || (self.posting_cache_enabled && exists|q: int|
                        0 <= q < i + 1 && #[trigger] want[q].id == x) by {
                        if x == c {
                            assert(want[i].id == x);
                        } else {
                            assert(before.cached(x) is Some);
                        }
                    }
                    assert forall|x: u32| old(self).cached(x) is Some implies #[trigger] self.cached(
                        x,
                    ) == old(self).cached(x) by {
                        assert(before.cached(x) == old(self).cached(x));
                    }
                    if self.posting_cache_enabled {
                        assert forall|q: int| 0 <= q < i + 1 implies self.cached(
                            (#[trigger] want[q]).id as u32,
                        ) is Some by {
                            if q < i {
                                assert(before.cached(want[q].id as u32) is Some);
                            }
                        }
                    }
                }
            }
            match scanned {
                Err(e) => {
                    proof {
                        search::stop_stays(
                            *f,
                            footer,
                            file@,
                            wide@,
                            query@,
                            want,
                            i + 1,
                            ArtifactSearchError::Search(SearchError::NanDistance),
                        );
                    }
                    return Err(ArtifactSearchError::Search(e));
                },
                Ok(_) => {
                    proof {
                        topk::nearest_in_parts(all, more, k as nat);
                        all = all + more;
                    }
                },
            }
        }
        proof {
            assert(want.take(run.done as int) =~= want);
            if k == 0 {
                assert(ivf_flat::as_results(run.top@) =~= Seq::empty());
            }
        }
        Ok(run.finish())
    }

    /// Opens the artifact with these bytes: reads its centroids.
    pub fn open_bytes(
        artifact: IvfFlatArtifact,
        file: &[u8],
        posting_cache_enabled: bool,
    ) -> (r: Result<Self, ArtifactSearchError>)
        ensures
            match search::centroids(artifact.footer, file@) {
                Err(e) => r is Err && r->Err_0 == e,
                Ok(_) => {
                    &&& r matches Ok(s)
                    &&& s.wf()
                    &&& s.artifact == artifact
                    &&& s.posting_cache_enabled == posting_cache_enabled
                    &&& forall|wide: Seq<u32>| #[trigger] s.searches(file@, wide)
                },
            },
    {
        let centroids: Vec<u32> = match artifact.find_bytes(file, ChunkType::Centroids, None) {
            Err(e) => {
                return Err(e);
            },
            Ok((_, bytes)) => match read_centroids_f32(bytes) {
                Err(e) => {
                    return Err(ArtifactSearchError::Chunk(e));
                },
                Ok(c) => c,
            },
        };
        Ok(Self::open_with_options(artifact, centroids, posting_cache_enabled))
    }

    /// Finds the `k` rows nearest to the query among those of the `nprobe` lists
    /// whose centroids are nearest to it, in the artifact with these bytes.
    pub fn search<F: Fn(&[u32], &[u32]) -> u32>(
        &mut self,
        file: &[u8],
        wide: &[u32],
        query: &[u32],
        k: usize,
        nprobe: usize,
        f: &F,
    ) -> (r: Result<Vec<SearchResult>, ArtifactSearchError>)
        requires
            floats::is_distance(*f),
            wide@.len() == 0x1_0000,
            old(self).artifact.footer.nlist > 0,
            old(self).wf(),
            old(self).searches(file@, wide@),
        ensures
            final(self).wf(),
            final(self).searches(file@, wide@),
            final(self).artifact == old(self).artifact,
            final(self).centroids == old(self).centroids,
            final(self).posting_cache_enabled == old(self).posting_cache_enabled,
            ({
                let outcome = search::search_outcome(
                    *f,
                    old(self).artifact.footer,
                    file@,
                    wide@,
                    query@,
                    k as nat,
                    nprobe as nat,
                );
                match r {
                    Ok(v) => outcome == Ok::<Seq<SearchResult>, ArtifactSearchError>(v@),
                    Err(e) => outcome == Err::<Seq<SearchResult>, ArtifactSearchError>(e),
                }
            }),
            r is Ok ==> ({
                let lists = old(self).lists_for(*f, query@, k as nat, nprobe as nat);
                old(self).keeps_also(lists, lists.len() as int, *final(self))
            }),
            forall|c: u32|
                old(self).cached(c) is Some ==> #[trigger] final(self).cached(c) == old(
                    self,
                ).cached(c),
    {
        let mut stats = IvfFlatSearchStageStats::default();
        self.search_profiled(file, wide, query, k, nprobe, &mut stats, f)
    }
}

} // verus!
