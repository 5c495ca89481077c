//! Searching an artifact of an inverted-file index.
use crate::artifact::ivf_flat::{
    read_centroids_f32, ChunkDesc, ChunkError, ChunkType, IvfFlatArtifact,
    IvfFlatArtifactFooter,
};
use crate::artifact::ivf_flat as layout;
use crate::artifact::posting;
use crate::floats;
use crate::ivf_flat;
use crate::ivf_flat::{
    results_of, scan_posting, select_probes, IvfFlatIndex, SearchError, SearchResult,
};
use crate::le;
use crate::num::product;
use crate::topk;
use crate::topk::{Candidate, TopK};
use std::collections::HashMap;
use vstd::prelude::*;

verus! {

broadcast use crate::le::sizes;

/// Why a search of an artifact gave no result.
#[derive(Clone, Copy, Debug, PartialEq, Eq, Structural)]
pub enum ArtifactSearchError {
    Search(SearchError),
    Chunk(ChunkError),
    /// A chunk ends behind the end of the artifact.
    Truncated,
}

/// The bytes of a chunk.
pub open spec fn chunk_bytes(file: Seq<u8>, desc: ChunkDesc) -> Option<Seq<u8>> {
    if desc.offset + desc.len <= file.len() {
        Some(file.subrange(desc.offset as int, desc.offset + desc.len))
    } else {
        None
    }
}

/// The bytes of the first chunk of this type and list.
pub open spec fn found_bytes(
    footer: IvfFlatArtifactFooter,
    file: Seq<u8>,
    chunk_type: ChunkType,
    list_id: Option<u32>,
) -> Result<(ChunkDesc, Seq<u8>), ArtifactSearchError> {
    match layout::chunk_place(footer.chunks@, chunk_type, list_id) {
        None => Err(ArtifactSearchError::Chunk(ChunkError::NotFound { chunk_type, list_id })),
        Some(i) => match chunk_bytes(file, footer.chunks@[i]) {
            None => Err(ArtifactSearchError::Truncated),
            Some(b) => Ok((footer.chunks@[i], b)),
        },
    }
}

/// The posting list of list `c`.
pub open spec fn posting_list(
    footer: IvfFlatArtifactFooter,
    file: Seq<u8>,
    wide: Seq<u32>,
    c: u32,
) -> Result<(Seq<u32>, Seq<u32>), ArtifactSearchError> {
    match found_bytes(footer, file, ChunkType::PostingList, Some(c)) {
        Err(e) => Err(e),
        Ok((desc, b)) => match posting::posting_of(desc.codec, b, footer.dim as nat, wide) {
            Err(e) => Err(ArtifactSearchError::Chunk(ChunkError::Posting(e))),
            Ok(list) => Ok(list),
        },
    }
}

/// The centroids.
pub open spec fn centroids(footer: IvfFlatArtifactFooter, file: Seq<u8>) -> Result<
    Seq<u32>,
    ArtifactSearchError,
> {
    match found_bytes(footer, file, ChunkType::Centroids, None) {
        Err(e) => Err(e),
        Ok((desc, b)) => if b.len() % 4 != 0 {
            Err(ArtifactSearchError::Chunk(ChunkError::NotAligned))
        } else {
            Ok(le::u32s_of(b))
        },
    }
}

/// The candidates of the lists in `probes`, list behind list, or what stops the
/// scan first.
pub open spec fn scanned<F: Fn(&[u32], &[u32]) -> u32>(
    f: F,
    footer: IvfFlatArtifactFooter,
    file: Seq<u8>,
    wide: Seq<u32>,
    query: Seq<u32>,
    probes: Seq<Candidate>,
) -> Result<Seq<Candidate>, ArtifactSearchError>
    decreases probes.len(),
{
    if probes.len() == 0 {
        Ok(Seq::empty())
    } else {
        match scanned(f, footer, file, wide, query, probes.drop_last()) {
            Err(e) => Err(e),
            Ok(so_far) => match posting_list(footer, file, wide, probes.last().id as u32) {
                Err(e) => Err(e),
                Ok((rows, vectors)) => {
                    let more = ivf_flat::posting_candidates(
                        f,
                        query,
                        footer.dim as nat,
                        rows,
                        vectors,
                    );
                    if ivf_flat::has_nan(more) {
                        Err(ArtifactSearchError::Search(SearchError::NanDistance))
                    } else {
                        Ok(so_far + more)
                    }
                },
            },
        }
    }
}

/// What a search of the artifact gives.
pub open spec fn search_outcome<F: Fn(&[u32], &[u32]) -> u32>(
    f: F,
    footer: IvfFlatArtifactFooter,
    file: Seq<u8>,
    wide: Seq<u32>,
    query: Seq<u32>,
    k: nat,
    nprobe: nat,
) -> Result<Seq<SearchResult>, ArtifactSearchError> {
    let dim = footer.dim as nat;
    let nlist = footer.nlist as nat;
    if query.len() != dim {
        Err(
            ArtifactSearchError::Search(
                SearchError::QueryDim { expected: dim as usize, got: query.len() as usize },
            ),
        )
    } else if k == 0 {
        Ok(Seq::empty())
    } else {
        match centroids(footer, file) {
            Err(e) => Err(e),
            Ok(c) => if c.len() != nlist * dim {
                Err(ArtifactSearchError::Search(SearchError::CentroidsLen))
            } else {
                let probes = ivf_flat::probed_lists(f, c, dim, nlist, query, nprobe);
                match scanned(f, footer, file, wide, query, probes) {
                    Err(e) => Err(e),
                    Ok(all) => Ok(ivf_flat::as_results(topk::nearest(all, k))),
                }
            },
        }
    }
}

impl IvfFlatArtifact {
    /// The bytes of the first chunk of this type and list, from all bytes of the
    /// artifact.
    pub fn find_bytes<'a>(
        &self,
        file: &'a [u8],
        chunk_type: ChunkType,
        list_id: Option<u32>,
    ) -> (r: Result<(ChunkDesc, &'a [u8]), ArtifactSearchError>)
        ensures
            match r {
                Ok((desc, b)) => found_bytes(self.footer, file@, chunk_type, list_id) == Ok::<
                    (ChunkDesc, Seq<u8>),
                    ArtifactSearchError,
                >((desc, b@)),
                Err(e) => found_bytes(self.footer, file@, chunk_type, list_id) == Err::<
                    (ChunkDesc, Seq<u8>),
                    ArtifactSearchError,
                >(e),
            },
    {
        match self.find_chunk(chunk_type, list_id) {
            Err(e) => Err(ArtifactSearchError::Chunk(e)),
            Ok(desc) => {
                let len: u64 = file.len() as u64;
                if desc.offset > len || desc.len > len - desc.offset {
                    return Err(ArtifactSearchError::Truncated);
                }
                let start: usize = desc.offset as usize;
                let end: usize = (desc.offset + desc.len) as usize;
                Ok((desc, &file[start..end]))
            },
        }
    }

    /// The posting list of list `c`, from all bytes of the artifact.
    pub fn posting_list(&self, file: &[u8], wide: &[u32], c: u32) -> (r: Result<
        (Vec<u32>, Vec<u32>),
        ArtifactSearchError,
    >)
        requires
            wide@.len() == 0x1_0000,
        ensures
            match r {
                Ok((rows, vectors)) => posting_list(self.footer, file@, wide@, c) == Ok::<
                    (Seq<u32>, Seq<u32>),
                    ArtifactSearchError,
                >((rows@, vectors@)),
                Err(e) => posting_list(self.footer, file@, wide@, c) == Err::<
                    (Seq<u32>, Seq<u32>),
                    ArtifactSearchError,
                >(e),
            },
    {
        match self.find_bytes(file, ChunkType::PostingList, Some(c)) {
            Err(e) => Err(e),
            Ok((desc, bytes)) => match self.read_posting_list(&desc, bytes, wide) {
                Ok(list) => Ok(list),
                Err(e) => Err(ArtifactSearchError::Chunk(e)),
            },
        }
    }
}

/// Finds the `k` rows nearest to the query among those of the `nprobe` lists
/// whose centroids are nearest to it, in the artifact with these bytes. `f`
/// computes distances; `wide` has the 32-bit pattern of each 16-bit one.
pub fn search_ivf_flat_artifact_native<F: Fn(&[u32], &[u32]) -> u32>(
    artifact: &IvfFlatArtifact,
    file: &[u8],
    wide: &[u32],
    query: &[u32],
    k: usize,
    nprobe: usize,
    f: &F,
) -> (r: Result<Vec<SearchResult>, ArtifactSearchError>)
    requires
        floats::is_distance(*f),
        wide@.len() == 0x1_0000,
        artifact.footer.nlist > 0,
    ensures
        match r {
            Ok(v) => search_outcome(
                *f,
                artifact.footer,
                file@,
                wide@,
                query@,
                k as nat,
                nprobe as nat,
            ) == Ok::<Seq<SearchResult>, ArtifactSearchError>(v@),
            Err(e) => search_outcome(
                *f,
                artifact.footer,
                file@,
                wide@,
                query@,
                k as nat,
                nprobe as nat,
            ) == Err::<Seq<SearchResult>, ArtifactSearchError>(e),
        },
{
    let dim: usize = artifact.footer.dim as usize;
    let nlist: usize = artifact.footer.nlist as usize;
    if query.len() != dim {
        return Err(
            ArtifactSearchError::Search(
                SearchError::QueryDim { expected: dim, got: query.len() },
            ),
        );
    }
    if k == 0 {
        return Ok(Vec::new());
    }
    let centroids: Vec<u32> = match artifact.find_bytes(file, ChunkType::Centroids, None) {
        Err(e) => {
            return Err(e);
        },
        Ok((desc, bytes)) => match read_centroids_f32(bytes) {
            Err(e) => {
                return Err(ArtifactSearchError::Chunk(e));
            },
            Ok(c) => c,
        },
    };
    if centroids.len() as u128 != product(nlist, dim) {
        return Err(ArtifactSearchError::Search(SearchError::CentroidsLen));
    }
    let lists = select_probes(centroids.as_slice(), dim, nlist, query, nprobe, f);
    let ghost probes = ivf_flat::probed_lists(
        *f,
        centroids@,
        dim as nat,
        nlist as nat,
        query@,
        nprobe as nat,
    );
    let ghost footer = artifact.footer;
    let mut top = TopK::new(k);
    let mut i: usize = 0;
    let ghost mut all = Seq::<Candidate>::empty();
    assert(probes.take(0) =~= Seq::<Candidate>::empty());
    while i < lists.len()
        invariant
            floats::is_distance(*f),
            wide@.len() == 0x1_0000,
            i <= lists@.len(),
            footer == artifact.footer,
            dim == footer.dim,
            nlist == footer.nlist,
            query@.len() == dim,
            k > 0,
            super::search::centroids(footer, file@) == Ok::<Seq<u32>, ArtifactSearchError>(
                centroids@,
            ),
            centroids@.len() == nlist * dim,
            probes == ivf_flat::probed_lists(
                *f,
                centroids@,
                dim as nat,
                nlist as nat,
                query@,
                nprobe as nat,
            ),
            lists@.len() == probes.len(),
            forall|j: int|
                0 <= j < lists@.len() ==> (#[trigger] lists@[j]) < nlist && lists@[j]
                    == probes[j].id,
            top.limit() == k,
            scanned(*f, footer, file@, wide@, query@, probes.take(i as int)) == Ok::<
                Seq<Candidate>,
                ArtifactSearchError,
            >(all),
            top@ == topk::nearest(all, k as nat),
        decreases lists@.len() - i,
    {
        let cid: usize = lists[i];
        proof {
            let next = probes.take(i + 1);
            assert(next.drop_last() =~= probes.take(i as int));
            assert(next.last() == probes[i as int]);
        }
        match artifact.posting_list(file, wide, cid as u32) {
            Err(e) => {
                proof {
                    stop_stays(*f, footer, file@, wide@, query@, probes, i + 1, e);
                }
                return Err(e);
            },
            Ok((rows, vectors)) => {
                let ghost more = ivf_flat::posting_candidates(
                    *f,
                    query@,
                    dim as nat,
                    rows@,
                    vectors@,
                );
                proof {
                    list_lengths(footer, file@, wide@, cid as u32);
                }
                match scan_posting(
                    &mut top,
                    query,
                    dim,
                    rows.as_slice(),
                    vectors.as_slice(),
                    f,
                ) {
                    Err(e) => {
                        proof {
                            stop_stays(
                                *f,
                                footer,
                                file@,
                                wide@,
                                query@,
                                probes,
                                i + 1,
                                ArtifactSearchError::Search(SearchError::NanDistance),
                            );
                        }
                        return Err(ArtifactSearchError::Search(e));
                    },
                    Ok(_) => {
                        proof {
                            topk::nearest_in_parts(all, more, k as nat);
                            all = all + more;
                        }
                    },
                }
            },
        }
        i = i + 1;
    }
    assert(probes.take(i as int) =~= probes);
    let ranked = top.into_ranked();
    Ok(results_of(&ranked))
}

/// What stops the scan of some lists stops that of more.
pub proof fn stop_stays<F: Fn(&[u32], &[u32]) -> u32>(
    f: F,
    footer: IvfFlatArtifactFooter,
    file: Seq<u8>,
    wide: Seq<u32>,
    query: Seq<u32>,
    probes: Seq<Candidate>,
    n: int,
    e: ArtifactSearchError,
)
    requires
        0 <= n <= probes.len(),
        scanned(f, footer, file, wide, query, probes.take(n)) == Err::<
            Seq<Candidate>,
            ArtifactSearchError,
        >(e),
    ensures
        scanned(f, footer, file, wide, query, probes) == Err::<
            Seq<Candidate>,
            ArtifactSearchError,
        >(e),
    decreases probes.len() - n,
{
    if n == probes.len() {
        assert(probes.take(n) =~= probes);
    } else {
        assert(probes.take(n + 1).drop_last() =~= probes.take(n));
        stop_stays(f, footer, file, wide, query, probes, n + 1, e);
    }
}

/// A posting list has `dim` components for each row.
pub proof fn list_lengths(footer: IvfFlatArtifactFooter, file: Seq<u8>, wide: Seq<u32>, c: u32)
    ensures
        posting_list(footer, file, wide, c) matches Ok((rows, vectors)) ==> vectors.len()
            == rows.len() * footer.dim,
{
    match found_bytes(footer, file, ChunkType::PostingList, Some(c)) {
        Ok((desc, b)) => {
            posting::posting_lengths(desc.codec, b, footer.dim as nat, wide);
        },
        Err(_) => {},
    }
}

/// What `layout` says of its chunks: two in front, then one for each list, each
/// where its description says.
spec fn layout_inv(
    index: IvfFlatIndex,
    codec: posting::PostingCodec,
    narrowed: spec_fn(u32) -> u16,
    n: nat,
) -> bool {
    let l = layout::layout_upto(index, codec, narrowed, n);
    &&& l.bytes.len() >= 20
    &&& l.bytes.take(20) == crate::artifact::frame::open_header(layout::IVF_FLAT_GENERATION)
    &&& l.chunks.len() == n + 2
    &&& layout::is_chunk(l.chunks[0], ChunkType::Centroids, None)
    &&& chunk_holds(l, 0, le::bytes_of_u32s(index.centroids@))
    &&& layout::is_chunk(l.chunks[1], ChunkType::ListOffsets, None)
    &&& chunk_holds(l, 1, le::bytes_of_u64s(index.list_offsets@))
    &&& forall|c: int|
        0 <= c < n ==> #[trigger] list_stored(index, codec, narrowed, l, c)
}

/// Whether list `c` is stored in the chunk behind the two in front.
spec fn list_stored(
    index: IvfFlatIndex,
    codec: posting::PostingCodec,
    narrowed: spec_fn(u32) -> u16,
    l: layout::Layout,
    c: int,
) -> bool {
    &&& layout::is_chunk(l.chunks[c + 2], ChunkType::PostingList, Some(c as u32))
    &&& l.chunks[c + 2].codec == codec
    &&& chunk_holds(l, c + 2, layout::list_chunk(index, codec, narrowed, c))
}

/// Whether chunk `i` lies where its description says, and holds `b`.
spec fn chunk_holds(l: layout::Layout, i: int, b: Seq<u8>) -> bool {
    &&& 20 <= l.chunks[i].offset
    &&& l.chunks[i].offset + l.chunks[i].len <= l.bytes.len()
    &&& l.bytes.subrange(l.chunks[i].offset as int, l.chunks[i].offset + l.chunks[i].len) == b
}

proof fn chunk_still_holds(l: layout::Layout, m: layout::Layout, i: int, b: Seq<u8>)
    requires
        chunk_holds(l, i, b),
        m.chunks[i] == l.chunks[i],
        l.bytes.len() <= m.bytes.len(),
        m.bytes.take(l.bytes.len() as int) == l.bytes,
    ensures
        chunk_holds(m, i, b),
{
    let at = l.chunks[i].offset as int;
    let to = at + l.chunks[i].len;
    assert forall|j: int| at <= j < to implies #[trigger] m.bytes[j] == l.bytes[j] by {
        assert(m.bytes.take(l.bytes.len() as int)[j] == m.bytes[j]);
    }
    assert(m.bytes.subrange(at, to) =~= l.bytes.subrange(at, to));
}

proof fn layout_grows(
    index: IvfFlatIndex,
    codec: posting::PostingCodec,
    narrowed: spec_fn(u32) -> u16,
    n: nat,
)
    requires
        n > 0,
    ensures
        layout::layout_upto(index, codec, narrowed, (n - 1) as nat).bytes.len()
            <= layout::layout_upto(index, codec, narrowed, n).bytes.len(),
{
}

proof fn layout_has_inv(
    index: IvfFlatIndex,
    codec: posting::PostingCodec,
    narrowed: spec_fn(u32) -> u16,
    n: nat,
)
    requires
        layout::layout_upto(index, codec, narrowed, n).bytes.len() <= u64::MAX,
    ensures
        layout_inv(index, codec, narrowed, n),
    decreases n,
{
    let m = layout::layout_upto(index, codec, narrowed, n);
    if n == 0 {
        let h = crate::artifact::frame::open_header(layout::IVF_FLAT_GENERATION);
        let a = le::bytes_of_u32s(index.centroids@);
        let b = le::bytes_of_u64s(index.list_offsets@);
        assert(h.len() == 20);
        assert(m.bytes =~= h + a + b);
        assert(m.bytes.take(20) =~= h);
        assert(m.chunks[0].offset == 20 && m.chunks[0].len == a.len());
        assert(m.chunks[1].offset == 20 + a.len() && m.chunks[1].len == b.len());
        assert(m.bytes.subrange(20, 20 + a.len() as int) =~= a);
        assert(m.bytes.subrange(20 + a.len() as int, 20 + a.len() as int + b.len()) =~= b);
    } else {
        let l = layout::layout_upto(index, codec, narrowed, (n - 1) as nat);
        layout_grows(index, codec, narrowed, n);
        layout_has_inv(index, codec, narrowed, (n - 1) as nat);
        let b = layout::list_chunk(index, codec, narrowed, n - 1);
        assert(m.bytes =~= l.bytes + b);
        assert(m.bytes.take(l.bytes.len() as int) =~= l.bytes);
        assert(m.bytes.take(20) =~= l.bytes.take(20));
        chunk_still_holds(l, m, 0, le::bytes_of_u32s(index.centroids@));
        chunk_still_holds(l, m, 1, le::bytes_of_u64s(index.list_offsets@));
        assert forall|c: int| 0 <= c < n implies #[trigger] list_stored(
            index,
            codec,
            narrowed,
            m,
            c,
        ) by {
            if c < n - 1 {
                assert(list_stored(index, codec, narrowed, l, c));
                assert(m.chunks[c + 2] == l.chunks[c + 2]);
                chunk_still_holds(l, m, c + 2, layout::list_chunk(index, codec, narrowed, c));
            } else {
                assert(m.chunks[c + 2].offset == l.bytes.len() && m.chunks[c + 2].len == b.len());
                assert(m.bytes.subrange(l.bytes.len() as int, l.bytes.len() as int + b.len()) =~= b);
            }
        }
    }
}

/// Whether `footer` describes the artifact of `index`.
pub open spec fn describes(
    footer: IvfFlatArtifactFooter,
    index: IvfFlatIndex,
    codec: posting::PostingCodec,
    narrowed: spec_fn(u32) -> u16,
) -> bool {
    &&& footer.dim == index.dim
    &&& footer.nlist == index.nlist
    &&& footer.chunks@ == layout::layout_of(index, codec, narrowed).chunks
}

/// An artifact gives back the index that was stored in it: the centroids, and
/// for every list its row ids, and its vectors as far as the codec keeps them.
pub proof fn artifact_round_trip(
    footer: IvfFlatArtifactFooter,
    index: IvfFlatIndex,
    codec: posting::PostingCodec,
    narrowed: spec_fn(u32) -> u16,
    wide: Seq<u32>,
    text: Seq<u8>,
    c: u32,
)
    requires
        index.searchable(),
        index.row_ids@.len() <= u32::MAX,
        describes(footer, index, codec, narrowed),
        layout::layout_of(index, codec, narrowed).bytes.len() <= u64::MAX,
        c < index.nlist,
    ensures
        ({
            let file = crate::artifact::frame::sealed(
                layout::layout_of(index, codec, narrowed).bytes,
                text,
            );
            &&& centroids(footer, file) == Ok::<Seq<u32>, ArtifactSearchError>(index.centroids@)
            &&& posting_list(footer, file, wide, c) == Ok::<
                (Seq<u32>, Seq<u32>),
                ArtifactSearchError,
            >(
                (
                    index.list_rows(c as int),
                    posting::stored_components(
                        codec,
                        index.list_vectors(c as int),
                        narrowed,
                        wide,
                    ),
                ),
            )
        }),
{
    let l = layout::layout_of(index, codec, narrowed);
    let file = crate::artifact::frame::sealed(l.bytes, text);
    layout_has_inv(index, codec, narrowed, index.nlist as nat);
    index.list_bounds(c as int);
    let place = layout::chunk_place(l.chunks, ChunkType::Centroids, None);
    layout::chunk_place_is_first(l.chunks, ChunkType::Centroids, None);
    assert(layout::is_chunk(l.chunks[0], ChunkType::Centroids, None));
    assert(place == Some(0int));
    let d = l.chunks[0];
    crate::artifact::frame::sealed_keeps_chunks(
        l.bytes,
        text,
        d.offset as int,
        d.offset + d.len,
    );
    le::u32s_round_trip(index.centroids@);
    let place = layout::chunk_place(l.chunks, ChunkType::PostingList, Some(c));
    layout::chunk_place_is_first(l.chunks, ChunkType::PostingList, Some(c));
    assert(list_stored(index, codec, narrowed, l, c as int));
    assert(place == Some(c as int + 2)) by {
        let i = place->0;
        if i >= 2 && i != c as int + 2 {
            assert(list_stored(index, codec, narrowed, l, i - 2));
        }
    }
    let e = l.chunks[c as int + 2];
    crate::artifact::frame::sealed_keeps_chunks(
        l.bytes,
        text,
        e.offset as int,
        e.offset + e.len,
    );
    posting::posting_round_trip(
        codec,
        index.list_rows(c as int),
        index.list_vectors(c as int),
        index.dim as nat,
        narrowed,
        wide,
    );
}

/// An artifact has no list but those of the index that was stored in it.
pub proof fn no_other_lists(
    footer: IvfFlatArtifactFooter,
    index: IvfFlatIndex,
    codec: posting::PostingCodec,
    narrowed: spec_fn(u32) -> u16,
    file: Seq<u8>,
    wide: Seq<u32>,
    c: u32,
)
    requires
        index.nlist <= u32::MAX,
        describes(footer, index, codec, narrowed),
        layout::layout_of(index, codec, narrowed).bytes.len() <= u64::MAX,
        c >= index.nlist,
    ensures
        posting_list(footer, file, wide, c) == Err::<(Seq<u32>, Seq<u32>), ArtifactSearchError>(
            ArtifactSearchError::Chunk(
                ChunkError::NotFound { chunk_type: ChunkType::PostingList, list_id: Some(c) },
            ),
        ),
{
    let l = layout::layout_of(index, codec, narrowed);
    layout_has_inv(index, codec, narrowed, index.nlist as nat);
    layout::chunk_place_is_first(l.chunks, ChunkType::PostingList, Some(c));
    let place = layout::chunk_place(l.chunks, ChunkType::PostingList, Some(c));
    if place is Some {
        let i = place->0;
        if i >= 2 {
            assert(list_stored(index, codec, narrowed, l, i - 2));
        }
    }
}

proof fn scans_agree<F: Fn(&[u32], &[u32]) -> u32>(
    f: F,
    footer: IvfFlatArtifactFooter,
    index: IvfFlatIndex,
    codec: posting::PostingCodec,
    narrowed: spec_fn(u32) -> u16,
    wide: Seq<u32>,
    text: Seq<u8>,
    query: Seq<u32>,
    probes: Seq<Candidate>,
)
    requires
        index.searchable(),
        index.row_ids@.len() <= u32::MAX,
        describes(footer, index, codec, narrowed),
        layout::layout_of(index, codec, narrowed).bytes.len() <= u64::MAX,
        !codec.is_half(),
        forall|i: int| 0 <= i < probes.len() ==> (#[trigger] probes[i]).id < index.nlist,
    ensures
        ({
            let file = crate::artifact::frame::sealed(
                layout::layout_of(index, codec, narrowed).bytes,
                text,
            );
            let all = ivf_flat::scanned(f, index, query, probes);
            match scanned(f, footer, file, wide, query, probes) {
                Ok(found) => found == all && !ivf_flat::has_nan(all),
                Err(e) => e == ArtifactSearchError::Search(SearchError::NanDistance)
                    && ivf_flat::has_nan(all),
            }
        }),
    decreases probes.len(),
{
    if probes.len() > 0 {
        let front = probes.drop_last();
        let c = probes.last().id;
        assert(probes[probes.len() - 1].id < index.nlist);
        scans_agree(f, footer, index, codec, narrowed, wide, text, query, front);
        artifact_round_trip(footer, index, codec, narrowed, wide, text, c as u32);
        ivf_flat::nan_in_parts(
            ivf_flat::scanned(f, index, query, front),
            ivf_flat::posting_candidates(
                f,
                query,
                index.dim as nat,
                index.list_rows(c as int),
                index.list_vectors(c as int),
            ),
        );
    }
}

/// If the codec keeps all components, a search of an artifact gives what a search
/// of the index gives that was stored in it.
pub proof fn artifact_search_is_index_search<F: Fn(&[u32], &[u32]) -> u32>(
    f: F,
    footer: IvfFlatArtifactFooter,
    index: IvfFlatIndex,
    codec: posting::PostingCodec,
    narrowed: spec_fn(u32) -> u16,
    wide: Seq<u32>,
    text: Seq<u8>,
    query: Seq<u32>,
    k: nat,
    nprobe: nat,
)
    requires
        index.searchable(),
        index.row_ids@.len() <= u32::MAX,
        describes(footer, index, codec, narrowed),
        layout::layout_of(index, codec, narrowed).bytes.len() <= u64::MAX,
        !codec.is_half(),
    ensures
        ({
            let file = crate::artifact::frame::sealed(
                layout::layout_of(index, codec, narrowed).bytes,
                text,
            );
            search_outcome(f, footer, file, wide, query, k, nprobe) == (
            match ivf_flat::search_outcome(f, index, query, k, nprobe) {
                Ok(s) => Ok::<Seq<SearchResult>, ArtifactSearchError>(s),
                Err(e) => Err(ArtifactSearchError::Search(e)),
            })
        }),
{
    artifact_round_trip(footer, index, codec, narrowed, wide, text, 0);
    let all = ivf_flat::centroid_candidates(
        f,
        index.centroids@,
        index.dim as nat,
        index.nlist as nat,
        query,
    );
    let keep = ivf_flat::probe_count(nprobe, index.nlist as nat);
    let probes = topk::nearest(all, keep);
    assert forall|i: int| 0 <= i < probes.len() implies (#[trigger] probes[i]).id
        < index.nlist by {
        ivf_flat::nearest_are_candidates(all, keep, i);
    }
    scans_agree(f, footer, index, codec, narrowed, wide, text, query, probes);
}

/// How long the stages of a search took, and how often a posting list was at
/// hand.
#[derive(Clone, Copy, Debug, PartialEq, Eq, Structural)]
pub struct IvfFlatSearchStageStats {
    pub centroid_ns: u64,
    pub posting_decode_ns: u64,
    pub dist_ns: u64,
    pub heap_ns: u64,
    pub posting_cache_hits: u64,
    pub posting_cache_misses: u64,
}

impl IvfFlatSearchStageStats {
    /// Whether the times are the same.
    pub open spec fn same_times(self, o: IvfFlatSearchStageStats) -> bool {
        &&& self.centroid_ns == o.centroid_ns
        &&& self.posting_decode_ns == o.posting_decode_ns
        &&& self.dist_ns == o.dist_ns
        &&& self.heap_ns == o.heap_ns
    }
}

impl Default for IvfFlatSearchStageStats {
    fn default() -> (r: Self)
        ensures
            r.centroid_ns == 0,
            r.posting_decode_ns == 0,
            r.dist_ns == 0,
            r.heap_ns == 0,
            r.posting_cache_hits == 0,
            r.posting_cache_misses == 0,
    {
        IvfFlatSearchStageStats {
            centroid_ns: 0,
            posting_decode_ns: 0,
            dist_ns: 0,
            heap_ns: 0,
            posting_cache_hits: 0,
            posting_cache_misses: 0,
        }
    }
}

/// Searches an artifact again and again, and keeps the posting lists that it has
/// decoded if it is to.
pub struct IvfFlatArtifactSearcher {
    pub artifact: IvfFlatArtifact,
    pub centroids: Vec<u32>,
    pub posting_cache: HashMap<u32, (Vec<u32>, Vec<u32>)>,
    pub posting_cache_enabled: bool,
}

/// A search under way: the lists to scan, how many have been scanned, and the
/// nearest rows so far.
pub struct SearchRun {
    pub lists: Vec<usize>,
    pub done: usize,
    pub top: TopK,
}

impl SearchRun {
    /// The list to scan next.
    pub fn next_list(&self) -> (r: Option<u32>)
        ensures
            r == (if self.done < self.lists@.len() {
                Some(self.lists@[self.done as int] as u32)
            } else {
                None
            }),
    {
        if self.done < self.lists.len() {
            Some(self.lists[self.done] as u32)
        } else {
            None
        }
    }

    /// The nearest rows, in their order.
    pub fn finish(self) -> (r: Vec<SearchResult>)
        ensures
            r@ == ivf_flat::as_results(self.top@),
    {
        let ranked = self.top.into_ranked();
        results_of(&ranked)
    }
}

impl IvfFlatArtifactSearcher {
    /// What the cache has for a list.
    pub open spec fn cached(self, c: u32) -> Option<(Seq<u32>, Seq<u32>)> {
        if self.posting_cache@.contains_key(c) {
            Some((self.posting_cache@[c].0@, self.posting_cache@[c].1@))
        } else {
            None
        }
    }

    /// Whether the lists in the cache have as many vectors as rows.
    pub open spec fn wf(self) -> bool {
        forall|c: u32| #[trigger]
            self.posting_cache@.contains_key(c) ==> self.posting_cache@[c].1@.len()
                == self.posting_cache@[c].0@.len() * self.artifact.footer.dim
    }

    pub fn open_with_options(
        artifact: IvfFlatArtifact,
        centroids: Vec<u32>,
        posting_cache_enabled: bool,
    ) -> (r: Self)
        ensures
            r.wf(),
            r.artifact == artifact,
            r.centroids == centroids,
            r.posting_cache_enabled == posting_cache_enabled,
            r.posting_cache@ == Map::<u32, (Vec<u32>, Vec<u32>)>::empty(),
    {
        broadcast use vstd::std_specs::hash::group_hash_axioms;

        IvfFlatArtifactSearcher {
            artifact,
            centroids,
            posting_cache: HashMap::new(),
            posting_cache_enabled,
        }
    }

    /// Keeps decoded posting lists.
    pub fn open(artifact: IvfFlatArtifact, centroids: Vec<u32>) -> (r: Self)
        ensures
            r.wf(),
            r.artifact == artifact,
            r.centroids == centroids,
            r.posting_cache_enabled,
            r.posting_cache@ == Map::<u32, (Vec<u32>, Vec<u32>)>::empty(),
    {
        Self::open_with_options(artifact, centroids, true)
    }

    pub fn artifact(&self) -> (r: &IvfFlatArtifact)
        ensures
            *r == self.artifact,
    {
        &self.artifact
    }

    /// Forgets all posting lists.
    pub fn clear_posting_cache(&mut self)
        ensures
            final(self).wf(),
            final(self).artifact == old(self).artifact,
            final(self).centroids == old(self).centroids,
            final(self).posting_cache_enabled == old(self).posting_cache_enabled,
            final(self).posting_cache@ == Map::<u32, (Vec<u32>, Vec<u32>)>::empty(),
    {
        self.posting_cache.clear();
    }

    /// Starts a search: finds the lists to scan. With `k` of 0 there are none.
    pub fn begin<F: Fn(&[u32], &[u32]) -> u32>(
        &self,
        query: &[u32],
        k: usize,
        nprobe: usize,
        f: &F,
    ) -> (r: Result<SearchRun, SearchError>)
        requires
            floats::is_distance(*f),
            self.artifact.footer.nlist > 0,
        ensures
            match r {
                Err(e) => e == (if query@.len() != self.artifact.footer.dim {
                    SearchError::QueryDim {
                        expected: self.artifact.footer.dim as usize,
                        got: query@.len() as usize,
                    }
                } else {
                    SearchError::CentroidsLen
                }),
                Ok(run) => run.done == 0 && run.top.limit() == k && run.top@ == topk::nearest(
                    Seq::empty(),
                    k as nat,
                ),
            },
            r is Ok <==> query@.len() == self.artifact.footer.dim && (k == 0
                || self.centroids@.len() == self.artifact.footer.nlist * self.artifact.footer.dim),
            r matches Ok(run) ==> k == 0 ==> run.lists@.len() == 0,
            r matches Ok(run) ==> k > 0 ==> {
                let probes = ivf_flat::probed_lists(
                    *f,
                    self.centroids@,
                    self.artifact.footer.dim as nat,
                    self.artifact.footer.nlist as nat,
                    query@,
                    nprobe as nat,
                );
                &&& run.lists@.len() == probes.len()
                &&& forall|i: int|
                    0 <= i < probes.len() ==> #[trigger] run.lists@[i] == probes[i].id
                        && run.lists@[i] < self.artifact.footer.nlist
            },
    {
        let dim: usize = self.artifact.footer.dim as usize;
        let nlist: usize = self.artifact.footer.nlist as usize;
        if query.len() != dim {
            return Err(SearchError::QueryDim { expected: dim, got: query.len() });
        }
        if k == 0 {
            return Ok(SearchRun { lists: Vec::new(), done: 0, top: TopK::new(0) });
        }
        if self.centroids.len() as u128 != product(nlist, dim) {
            return Err(SearchError::CentroidsLen);
        }
        let lists = select_probes(self.centroids.as_slice(), dim, nlist, query, nprobe, f);
        Ok(SearchRun { lists, done: 0, top: TopK::new(k) })
    }

    /// Whether the posting list has to be read before `scan` can be called for
    /// it.
    pub fn needs_read(&self, list_id: u32) -> (r: bool)
        ensures
            r == !(self.posting_cache_enabled && self.cached(list_id) is Some),
    {
        broadcast use vstd::std_specs::hash::group_hash_axioms;

        !(self.posting_cache_enabled && self.posting_cache.contains_key(&list_id))
    }

    /// Scans the next list of a search. `read` is the posting list as read and
    /// decoded if it had to be; it is kept if lists are to be kept.
    pub fn scan<F: Fn(&[u32], &[u32]) -> u32>(
        &mut self,
        run: &mut SearchRun,
        query: &[u32],
        read: Option<(Vec<u32>, Vec<u32>)>,
        stats: &mut IvfFlatSearchStageStats,
        f: &F,
    ) -> (r: Result<(), SearchError>)
        requires
            floats::is_distance(*f),
            old(self).wf(),
            old(run).done < old(run).lists@.len(),
            old(stats).posting_cache_hits < u64::MAX,
            old(stats).posting_cache_misses < u64::MAX,
            read is None ==> old(self).posting_cache_enabled && old(self).cached(
                old(run).lists@[old(run).done as int] as u32,
            ) is Some,
            read matches Some(list) ==> list.1@.len() == list.0@.len()
                * old(self).artifact.footer.dim,
        ensures
            final(self).wf(),
            final(self).artifact == old(self).artifact,
            final(self).centroids == old(self).centroids,
            final(self).posting_cache_enabled == old(self).posting_cache_enabled,
            ({
                let c = old(run).lists@[old(run).done as int] as u32;
                let hit = old(self).posting_cache_enabled && old(self).cached(c) is Some;
                let list = if hit {
                    old(self).cached(c)->0
                } else {
                    ((read->0).0@, (read->0).1@)
                };
                let more = ivf_flat::posting_candidates(
                    *f,
                    query@,
                    old(self).artifact.footer.dim as nat,
                    list.0,
                    list.1,
                );
                &&& final(self).posting_cache@ == (if hit || !old(self).posting_cache_enabled {
                    old(self).posting_cache@
                } else {
                    old(self).posting_cache@.insert(c, read->0)
                })
                &&& *final(stats) == (IvfFlatSearchStageStats {
                    posting_cache_hits: (old(stats).posting_cache_hits + (if hit {
                        1int
                    } else {
                        0
                    })) as u64,
                    posting_cache_misses: (old(stats).posting_cache_misses + (if hit {
                        0int
                    } else {
                        1
                    })) as u64,
                    ..*old(stats)
                })
                &&& final(run).lists == old(run).lists
                &&& final(run).top.limit() == old(run).top.limit()
                &&& match r {
                    Ok(_) => !ivf_flat::has_nan(more) && final(run).done == old(run).done + 1
                        && final(run).top@ == topk::offered_all(
                        old(run).top@,
                        more,
                        old(run).top.limit(),
                    ),
                    Err(e) => ivf_flat::has_nan(more) && e == SearchError::NanDistance,
                }
            }),
    {
        broadcast use vstd::std_specs::hash::group_hash_axioms;

        let total: usize = run.lists.len();
        let next: usize = run.done + 1;
        let c: u32 = run.lists[run.done] as u32;
        let dim: usize = self.artifact.footer.dim as usize;
        if self.posting_cache_enabled {
            if self.posting_cache.contains_key(&c) {
                stats.posting_cache_hits = stats.posting_cache_hits + 1;
            } else {
                stats.posting_cache_misses = stats.posting_cache_misses + 1;
                if let Some(list) = read {
                    self.posting_cache.insert(c, list);
                }
            }
            if let Some(list) = self.posting_cache.get(&c) {
                match scan_posting(
                    &mut run.top,
                    query,
                    dim,
                    list.0.as_slice(),
                    list.1.as_slice(),
                    f,
                ) {
                    Ok(_) => {},
                    Err(e) => {
                        return Err(e);
                    },
                }
            }
        } else {
            stats.posting_cache_misses = stats.posting_cache_misses + 1;
            if let Some(list) = read {
                match scan_posting(
                    &mut run.top,
                    query,
                    dim,
                    list.0.as_slice(),
                    list.1.as_slice(),
                    f,
                ) {
                    Ok(_) => {},
                    Err(e) => {
                        return Err(e);
                    },
                }
            }
        }
        run.done = next;
        Ok(())
    }
}

} // verus!
