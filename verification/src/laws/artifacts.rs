//! Laws of artifacts: what stands where, and what is read of it.
use crate::artifact::frame;
use crate::artifact::frame::ArtifactError;
use crate::artifact::ivf_flat;
use crate::artifact::ivf_flat::{
    ChunkDesc,
    ChunkError,
    IvfFlatArtifact,
    IvfFlatArtifactBuildOptions,
    Layout,
};
use crate::artifact::ivf_pq;
use crate::artifact::kernel;
use crate::artifact::kernel::FetchStats;
use crate::artifact::kernel_host;
use crate::artifact::kernel_host::{
    BatchCall,
    ChunkSource,
    HostError,
    HostState,
    WasmIvfFlatKernel,
};
use crate::artifact::posting;
use crate::artifact::posting::{PostingCodec, PostingError};
use crate::artifact::pq;
use crate::floats;
use crate::ivf_file;
use crate::ivf_flat::{IvfFlatIndex, SearchResult};
use crate::le;
use vstd::prelude::*;

verus! {

broadcast use crate::le::sizes;

/// Whether a part of `bytes` is `part`.
pub open spec fn stands_at(bytes: Seq<u8>, offset: u64, len: u64, part: Seq<u8>) -> bool {
    &&& offset + len <= bytes.len()
    &&& bytes.subrange(offset as int, offset + len) == part
}

proof fn still_stands(bytes: Seq<u8>, more: Seq<u8>, offset: u64, len: u64, part: Seq<u8>)
    requires
        stands_at(bytes, offset, len, part),
    ensures
        stands_at(bytes + more, offset, len, part),
{
    assert((bytes + more).subrange(offset as int, offset + len) =~= bytes.subrange(
        offset as int,
        offset + len,
    ));
}

/// The row ids of a list: those from where it starts to where the next one does.
pub open spec fn rows_of_list(index: IvfFlatIndex, c: int) -> Seq<u32> {
    let from = index.list_offsets@[c] as int;
    let to = index.list_offsets@[c + 1] as int;
    if from < to {
        index.row_ids@.subrange(from, to)
    } else {
        Seq::empty()
    }
}

/// The components of the vectors of a list.
pub open spec fn vectors_of_list(index: IvfFlatIndex, c: int) -> Seq<u32> {
    let from = index.list_offsets@[c] as int;
    let to = index.list_offsets@[c + 1] as int;
    if from < to {
        index.vectors@.subrange(from * index.dim, to * index.dim)
    } else {
        Seq::empty()
    }
}

proof fn parts_of_list(index: IvfFlatIndex, c: int)
    ensures
        index.list_rows(c) == rows_of_list(index, c),
        index.list_vectors(c) == vectors_of_list(index, c),
{
    let from = index.list_offsets@[c] as int;
    let to = index.list_offsets@[c + 1] as int;
    if from >= to {
        assert(0 * index.dim == 0);
        assert(index.row_ids@.subrange(0, 0) =~= Seq::<u32>::empty());
        assert(index.vectors@.subrange(0, 0) =~= Seq::<u32>::empty());
    }
}

/// What the chunks of an artifact with vectors in its lists are.
pub open spec fn flat_chunks(
    index: IvfFlatIndex,
    codec: PostingCodec,
    narrowed: spec_fn(u32) -> u16,
    bytes: Seq<u8>,
    chunks: Seq<ChunkDesc>,
) -> bool {
    &&& chunks[0].chunk_type is Centroids
    &&& chunks[0].list_id is None
    &&& chunks[0].offset == 20
    &&& chunks[0].raw_len == 4 * index.centroids@.len()
    &&& stands_at(bytes, chunks[0].offset, chunks[0].len, le::bytes_of_u32s(index.centroids@))
    &&& chunks[1].chunk_type is ListOffsets
    &&& chunks[1].list_id is None
    &&& chunks[1].offset == chunks[0].offset + chunks[0].len
    &&& chunks[1].raw_len == 8 * index.list_offsets@.len()
    &&& stands_at(bytes, chunks[1].offset, chunks[1].len, le::bytes_of_u64s(index.list_offsets@))
    &&& chunks.last().offset + chunks.last().len == bytes.len()
    &&& forall|i: int|
        2 <= i < chunks.len() ==> #[trigger] flat_list(index, codec, narrowed, bytes, chunks, i)
}

/// What the chunk of a list of vectors is: behind the one in front of it, with the row ids
/// of the list and its vectors.
pub open spec fn flat_list(
    index: IvfFlatIndex,
    codec: PostingCodec,
    narrowed: spec_fn(u32) -> u16,
    bytes: Seq<u8>,
    chunks: Seq<ChunkDesc>,
    i: int,
) -> bool {
    let c = i - 2;
    let rows = rows_of_list(index, c);
    let vectors = vectors_of_list(index, c);
    &&& chunks[i].chunk_type is PostingList
    &&& chunks[i].list_id == Some(c as u32)
    &&& chunks[i].codec == codec
    &&& chunks[i].offset == chunks[i - 1].offset + chunks[i - 1].len
    &&& chunks[i].raw_len == (4 + 4 * rows.len() + 4 * vectors.len()) as u64
    &&& stands_at(
        bytes,
        chunks[i].offset,
        chunks[i].len,
        posting::posting_bytes(codec, rows, vectors, narrowed),
    )
}

proof fn flat_layouts(
    index: IvfFlatIndex,
    codec: PostingCodec,
    narrowed: spec_fn(u32) -> u16,
    n: nat,
)
    requires
        ivf_flat::layout_upto(index, codec, narrowed, n).bytes.len() <= u64::MAX,
        4 * index.centroids@.len() <= u64::MAX,
        8 * index.list_offsets@.len() <= u64::MAX,
    ensures
        ({
            let l = ivf_flat::layout_upto(index, codec, narrowed, n);
            &&& l.chunks.len() == n + 2
            &&& l.bytes.len() >= 20
            &&& l.bytes.take(20) == frame::open_header(0x31)
            &&& flat_chunks(index, codec, narrowed, l.bytes, l.chunks)
        }),
    decreases n,
{
    let l = ivf_flat::layout_upto(index, codec, narrowed, n);
    if n == 0 {
        let head = frame::open_header(0x31);
        let a = le::bytes_of_u32s(index.centroids@);
        let b = le::bytes_of_u64s(index.list_offsets@);
        assert(head.len() == 20);
        assert(l.bytes == head + a + b);
        assert(l.bytes.take(20) =~= head);
        let m = (20 + a.len()) as int;
        assert(l.bytes.subrange(20, m) =~= a);
        assert(l.bytes.subrange(m, m + b.len()) =~= b);
    } else {
        let k = ivf_flat::layout_upto(index, codec, narrowed, (n - 1) as nat);
        flat_layouts(index, codec, narrowed, (n - 1) as nat);
        let chunk = ivf_flat::list_chunk(index, codec, narrowed, n - 1);
        assert(l.bytes == k.bytes + chunk);
        assert(l.bytes.take(20) =~= k.bytes.take(20));
        assert(l.chunks.drop_last() =~= k.chunks);
        still_stands(
            k.bytes,
            chunk,
            k.chunks[0].offset,
            k.chunks[0].len,
            le::bytes_of_u32s(index.centroids@),
        );
        still_stands(
            k.bytes,
            chunk,
            k.chunks[1].offset,
            k.chunks[1].len,
            le::bytes_of_u64s(index.list_offsets@),
        );
        let at = k.bytes.len() as int;
        assert(l.bytes.subrange(at, at + chunk.len()) =~= chunk);
        assert forall|i: int| 2 <= i < l.chunks.len() implies #[trigger] flat_list(
            index,
            codec,
            narrowed,
            l.bytes,
            l.chunks,
            i,
        ) by {
            if i < k.chunks.len() {
                assert(flat_list(index, codec, narrowed, k.bytes, k.chunks, i));
                assert(l.chunks[i] == k.chunks[i]);
                assert(l.chunks[i - 1] == k.chunks[i - 1]);
                let c = i - 2;
                still_stands(
                    k.bytes,
                    chunk,
                    k.chunks[i].offset,
                    k.chunks[i].len,
                    posting::posting_bytes(
                        codec,
                        rows_of_list(index, c),
                        vectors_of_list(index, c),
                        narrowed,
                    ),
                );
            } else {
                parts_of_list(index, n - 1);
                assert(l.chunks[i - 1] == k.chunks.last());
            }
        }
    }
}

/// An artifact holds its index: behind the header the centroids, then where the lists
/// start, then each list with its row ids and vectors, one chunk behind the other, each
/// described as it stands.
pub proof fn flat_artifacts_hold<N: Fn(u32) -> u16>(
    index: &IvfFlatIndex,
    options: &IvfFlatArtifactBuildOptions,
    narrow: &N,
    r: (Vec<u8>, Vec<ChunkDesc>),
)
    requires
        call_ensures(
            ivf_flat::write_ivf_flat_artifact::<N>,
            (index, options, narrow),
            r,
        ),
        r.0@.len() <= u64::MAX,
        4 * index.centroids@.len() <= u64::MAX,
        8 * index.list_offsets@.len() <= u64::MAX,
    ensures
        r.1@.len() == index.nlist + 2,
        r.0@.take(20) == frame::open_header(0x31),
        flat_chunks(
            *index,
            options.posting_codec,
            |x: u32| floats::narrowed(*narrow, x),
            r.0@,
            r.1@,
        ),
{
    let narrowed = |x: u32| floats::narrowed(*narrow, x);
    let l = ivf_flat::layout_of(*index, options.posting_codec, narrowed);
    assert((Layout { bytes: r.0@, chunks: r.1@ }) == l);
    flat_layouts(*index, options.posting_codec, narrowed, index.nlist as nat);
}

/// What the chunk of a list of codes is: behind the one in front of it, with the row ids of
/// the list and the codes of its vectors, for which the centroid of the list is taken away.
pub open spec fn code_list<F: Fn(&[u32], &[u32]) -> u32, S: Fn(u32, u32) -> u32>(
    f: F,
    minus: S,
    index: IvfFlatIndex,
    codebooks: Seq<Vec<u32>>,
    d: nat,
    bytes: Seq<u8>,
    chunks: Seq<ivf_pq::ChunkDesc>,
    i: int,
) -> bool {
    let c = i - 2;
    let n = index.dim as int;
    let rows = rows_of_list(index, c);
    let vectors = vectors_of_list(index, c);
    &&& chunks[i].chunk_type is PostingList
    &&& chunks[i].list_id == Some(c as u32)
    &&& chunks[i].offset == chunks[i - 1].offset + chunks[i - 1].len
    &&& chunks[i].raw_len == (4 * vectors.len()) as u64
    &&& stands_at(
        bytes,
        chunks[i].offset,
        chunks[i].len,
        pq::pq_posting_bytes(
            rows,
            pq::codes_upto(
                f,
                minus,
                vectors,
                index.centroids@.subrange(c * n, c * n + n),
                codebooks,
                d,
                rows.len(),
            ),
        ),
    )
}

/// What the chunks of an artifact with codes in its lists are.
pub open spec fn code_chunks<F: Fn(&[u32], &[u32]) -> u32, S: Fn(u32, u32) -> u32>(
    f: F,
    minus: S,
    index: IvfFlatIndex,
    codebooks: Seq<Vec<u32>>,
    d: nat,
    bytes: Seq<u8>,
    chunks: Seq<ivf_pq::ChunkDesc>,
) -> bool {
    &&& chunks[0].chunk_type is Codebooks
    &&& chunks[0].list_id is None
    &&& chunks[0].offset == 20
    &&& chunks[0].raw_len == chunks[0].len
    &&& stands_at(
        bytes,
        chunks[0].offset,
        chunks[0].len,
        le::bytes_of_u32s(ivf_pq::flattened(codebooks)),
    )
    &&& chunks[1].chunk_type is Centroids
    &&& chunks[1].list_id is None
    &&& chunks[1].offset == chunks[0].offset + chunks[0].len
    &&& chunks[1].raw_len == chunks[1].len
    &&& stands_at(bytes, chunks[1].offset, chunks[1].len, le::bytes_of_u32s(index.centroids@))
    &&& chunks.last().offset + chunks.last().len == bytes.len()
    &&& forall|i: int|
        2 <= i < chunks.len() ==> #[trigger] code_list(
            f,
            minus,
            index,
            codebooks,
            d,
            bytes,
            chunks,
            i,
        )
}

proof fn code_layouts<F: Fn(&[u32], &[u32]) -> u32, S: Fn(u32, u32) -> u32>(
    f: F,
    minus: S,
    index: IvfFlatIndex,
    codebooks: Seq<Vec<u32>>,
    d: nat,
    n: nat,
)
    requires
        ivf_pq::layout_upto(f, minus, index, codebooks, d, n).bytes.len() <= u64::MAX,
    ensures
        ({
            let l = ivf_pq::layout_upto(f, minus, index, codebooks, d, n);
            &&& l.chunks.len() == n + 2
            &&& l.bytes.len() >= 20
            &&& l.bytes.take(20) == frame::open_header(0x32)
            &&& code_chunks(f, minus, index, codebooks, d, l.bytes, l.chunks)
        }),
    decreases n,
{
    let l = ivf_pq::layout_upto(f, minus, index, codebooks, d, n);
    let books = le::bytes_of_u32s(ivf_pq::flattened(codebooks));
    let centroids = le::bytes_of_u32s(index.centroids@);
    if n == 0 {
        let head = frame::open_header(0x32);
        assert(head.len() == 20);
        assert(l.bytes == head + books + centroids);
        assert(l.bytes.take(20) =~= head);
        let m = (20 + books.len()) as int;
        assert(l.bytes.subrange(20, m) =~= books);
        assert(l.bytes.subrange(m, m + centroids.len()) =~= centroids);
    } else {
        let k = ivf_pq::layout_upto(f, minus, index, codebooks, d, (n - 1) as nat);
        let chunk = pq::pq_posting_bytes(
            index.list_rows(n - 1),
            ivf_pq::list_codes(f, minus, index, codebooks, d, n - 1),
        );
        assert(l.bytes == k.bytes + chunk);
        code_layouts(f, minus, index, codebooks, d, (n - 1) as nat);
        assert(l.bytes.take(20) =~= k.bytes.take(20));
        assert(l.chunks.drop_last() =~= k.chunks);
        still_stands(k.bytes, chunk, k.chunks[0].offset, k.chunks[0].len, books);
        still_stands(k.bytes, chunk, k.chunks[1].offset, k.chunks[1].len, centroids);
        let at = k.bytes.len() as int;
        assert(l.bytes.subrange(at, at + chunk.len()) =~= chunk);
        assert forall|i: int| 2 <= i < l.chunks.len() implies #[trigger] code_list(
            f,
            minus,
            index,
            codebooks,
            d,
            l.bytes,
            l.chunks,
            i,
        ) by {
            let c = i - 2;
            parts_of_list(index, c);
            if i < k.chunks.len() {
                assert(code_list(f, minus, index, codebooks, d, k.bytes, k.chunks, i));
                assert(l.chunks[i] == k.chunks[i]);
                assert(l.chunks[i - 1] == k.chunks[i - 1]);
                still_stands(
                    k.bytes,
                    chunk,
                    k.chunks[i].offset,
                    k.chunks[i].len,
                    pq::pq_posting_bytes(
                        index.list_rows(c),
                        ivf_pq::list_codes(f, minus, index, codebooks, d, c),
                    ),
                );
            } else {
                assert(l.chunks[i - 1] == k.chunks.last());
            }
        }
    }
}

/// An artifact with codes holds its index: behind the header all codebooks, then the
/// centroids, then each list with its row ids and codes, one chunk behind the other, each
/// described as it stands.
pub proof fn code_artifacts_hold<F: Fn(&[u32], &[u32]) -> u32, S: Fn(u32, u32) -> u32>(
    index: &IvfFlatIndex,
    codebooks: &Vec<Vec<u32>>,
    d: usize,
    f: &F,
    minus: &S,
    r: (Vec<u8>, Vec<ivf_pq::ChunkDesc>),
)
    requires
        call_ensures(
            ivf_pq::write_ivf_pq_content::<F, S>,
            (index, codebooks, d, f, minus),
            r,
        ),
        r.0@.len() <= u64::MAX,
    ensures
        r.1@.len() == index.nlist + 2,
        r.0@.take(20) == frame::open_header(0x32),
        code_chunks(*f, *minus, *index, codebooks@, d as nat, r.0@, r.1@),
{
    let l = ivf_pq::layout_upto(
        *f,
        *minus,
        *index,
        codebooks@,
        d as nat,
        index.nlist as nat,
    );
    assert((ivf_pq::Layout { bytes: r.0@, chunks: r.1@ }) == l);
    code_layouts(*f, *minus, *index, codebooks@, d as nat, index.nlist as nat);
}

/// Codebooks stand one behind the other.
pub proof fn codebooks_stand_in_a_row(codebooks: Seq<Vec<u32>>, book: Vec<u32>)
    ensures
        ivf_pq::flattened(Seq::empty()).len() == 0,
        ivf_pq::flattened(codebooks.push(book)) == ivf_pq::flattened(codebooks) + book@,
{
    assert(codebooks.push(book).drop_last() =~= codebooks);
}

/// A chunk has the length that is described, and zero if that is too long; a number without
/// a chunk is refused.
pub proof fn chunks_have_lengths(
    artifact: &IvfFlatArtifact,
    id: u32,
    desc: Result<ChunkDesc, ChunkError>,
    len: Result<u32, ChunkError>,
)
    requires
        call_ensures(IvfFlatArtifact::chunk_by_index, (artifact, id), desc),
        call_ensures(IvfFlatArtifact::chunk_len_by_index, (artifact, id), len),
    ensures
        desc is Ok <==> id < artifact.footer.chunks@.len(),
        len is Ok <==> desc is Ok,
        desc is Err ==> desc->Err_0 == ChunkError::IdOutOfRange(id) && len->Err_0 == desc->Err_0,
        desc is Ok ==> desc->Ok_0 == artifact.footer.chunks@[id as int],
        desc is Ok && desc->Ok_0.len <= u32::MAX ==> len->Ok_0 == desc->Ok_0.len,
        desc is Ok && desc->Ok_0.len > u32::MAX ==> len->Ok_0 == 0,
{
}

/// The same holds of artifacts with codes.
pub proof fn chunks_of_codes_have_lengths(
    artifact: &ivf_pq::IvfPqArtifact,
    id: u32,
    desc: Result<ivf_pq::ChunkDesc, ivf_pq::ChunkError>,
    len: Result<u32, ivf_pq::ChunkError>,
)
    requires
        call_ensures(ivf_pq::IvfPqArtifact::chunk_by_index, (artifact, id), desc),
        call_ensures(ivf_pq::IvfPqArtifact::chunk_len_by_index, (artifact, id), len),
    ensures
        desc is Ok <==> id < artifact.footer.chunks@.len(),
        len is Ok <==> desc is Ok,
        desc is Err ==> desc->Err_0 == ivf_pq::ChunkError::IdOutOfRange(id) && len->Err_0
            == desc->Err_0,
        desc is Ok ==> desc->Ok_0 == artifact.footer.chunks@[id as int],
        desc is Ok && desc->Ok_0.len <= u32::MAX ==> len->Ok_0 == desc->Ok_0.len,
        desc is Ok && desc->Ok_0.len > u32::MAX ==> len->Ok_0 == 0,
{
}

/// Where the footer of an artifact starts is read if the header is whole, starts as it
/// should, has version one, and says so.
pub proof fn headers_are_read(generation: u8, head: &[u8], r: Result<u64, ArtifactError>)
    requires
        call_ensures(frame::read_footer_offset, (generation, head), r),
    ensures
        ({
            let b = head@;
            let magic = b.len() >= 8 && b.subrange(0, 8) == seq![
                0x46u8,
                0x33,
                0x56,
                0x49,
                0x44,
                0x58,
                generation,
                0x00,
            ];
            let version = magic && b.len() >= 12 && ivf_file::u32_at(b, 8) == 1;
            &&& r is Ok <==> version && b.len() >= 20 && ivf_file::u64_at(b, 12) != 0
            &&& r is Ok ==> r->Ok_0 == ivf_file::u64_at(b, 12)
            &&& r is Err && r->Err_0 is MagicMismatch <==> b.len() >= 8 && !magic
            &&& r is Err && r->Err_0 is UnsupportedVersion <==> magic && b.len() >= 12 && !version
            &&& r is Err && r->Err_0 is NoFooter <==> version && b.len() >= 20
                && ivf_file::u64_at(b, 12) == 0
        }),
{
    assert(frame::artifact_magic(generation) =~= seq![
        0x46u8,
        0x33,
        0x56,
        0x49,
        0x44,
        0x58,
        generation,
        0x00,
    ]);
}

/// The text of a footer is read if the footer lies in the artifact, starts as it should,
/// has version one, and is whole: it is what stands behind the sixteen bytes in front.
pub proof fn footers_are_read(generation: u8, bytes: &[u8], r: Result<Vec<u8>, ArtifactError>, at: u64)
    requires
        call_ensures(frame::read_footer_text, (generation, bytes), r),
        frame::footer_offset_of(generation, bytes@) == Ok::<u64, ArtifactError>(at),
        at + 16 <= bytes@.len(),
    ensures
        ({
            let b = bytes@.skip(at as int);
            let len = ivf_file::u32_at(b, 12) as int;
            let magic = b.subrange(0, 8) == seq![
                0x46u8,
                0x33,
                0x56,
                0x49,
                0x44,
                0x58,
                0x46,
                0x00,
            ];
            &&& r is Ok <==> magic && ivf_file::u32_at(b, 8) == 1 && b.len() >= 16 + len
            &&& r is Ok ==> r->Ok_0@ == b.subrange(16, 16 + len)
            &&& r is Err && r->Err_0 is FooterMagicMismatch <==> !magic
            &&& r is Err && r->Err_0 is Truncated <==> magic && ivf_file::u32_at(b, 8) == 1
                && b.len() < 16 + len
        }),
{
    assert(frame::footer_magic() =~= seq![0x46u8, 0x33, 0x56, 0x49, 0x44, 0x58, 0x46, 0x00]);
}

/// A list that is stored without differences is read if it is as long as its count says:
/// its row ids stand behind the count, and its components behind them.
pub proof fn raw_lists_are_read(
    codec: PostingCodec,
    bytes: &[u8],
    dim: u32,
    wide: &[u32],
    r: Result<(Vec<u32>, Vec<u32>), PostingError>,
    i: int,
    j: int,
)
    requires
        !codec.is_delta(),
        call_ensures(posting::decode_posting_list, (codec, bytes, dim, wide), r),
    ensures
        ({
            let count = le::u32_of(bytes@.subrange(0, 4)) as int;
            let size = if codec.is_half() {
                2int
            } else {
                4
            };
            let at = 4 + 4 * count;
            &&& r is Err && r->Err_0 is TooSmall <==> bytes@.len() < 4
            &&& r is Ok <==> bytes@.len() >= 4 && bytes@.len() == at + count * dim * size
            &&& r is Ok ==> r->Ok_0.0@.len() == count && r->Ok_0.1@.len() == count * dim
            &&& r is Ok && 0 <= i < count ==> r->Ok_0.0@[i] == le::u32_of(
                bytes@.subrange(4 + 4 * i, 4 + 4 * i + 4),
            )
            &&& r is Ok && 0 <= j < count * dim && !codec.is_half() ==> r->Ok_0.1@[j]
                == le::u32_of(bytes@.subrange(at + 4 * j, at + 4 * j + 4))
            &&& r is Ok && 0 <= j < count * dim && codec.is_half() ==> r->Ok_0.1@[j]
                == wide@[le::u16_of(bytes@.subrange(at + 2 * j, at + 2 * j + 2)) as int]
        }),
{
    let count = le::u32_of(bytes@.subrange(0, 4)) as int;
    posting::posting_lengths(codec, bytes@, dim as nat, wide@);
    let at = 4 + 4 * count;
    assert(0 <= count * dim) by (nonlinear_arith)
        requires
            count >= 0,
            dim >= 0,
    ;
    assert(0 <= count * dim * (codec.component_size() as int)) by (nonlinear_arith)
        requires
            count * dim >= 0,
            codec.component_size() >= 0,
    ;
    if r is Ok {
        let ids = bytes@.subrange(4, at);
        let rest = bytes@.skip(at);
        if 0 <= i < count {
            assert(ids.subrange(4 * i, 4 * i + 4) =~= bytes@.subrange(4 + 4 * i, 4 + 4 * i + 4));
        }
        if 0 <= j < count * dim {
            if codec.is_half() {
                assert(rest.subrange(2 * j, 2 * j + 2) =~= bytes@.subrange(
                    at + 2 * j,
                    at + 2 * j + 2,
                ));
            } else {
                assert(rest.subrange(4 * j, 4 * j + 4) =~= bytes@.subrange(
                    at + 4 * j,
                    at + 4 * j + 4,
                ));
            }
        }
    }
}

/// A component that is stored in two bytes becomes what these two bytes stand for; one that
/// is stored in four stays what it is.
pub proof fn components_are_kept(
    codec: PostingCodec,
    v: Seq<u32>,
    narrowed: spec_fn(u32) -> u16,
    wide: Seq<u32>,
    i: int,
)
    requires
        0 <= i < v.len(),
    ensures
        posting::stored_components(codec, v, narrowed, wide).len() == v.len(),
        posting::stored_components(codec, v, narrowed, wide)[i] == (if codec.is_half() {
            wide[narrowed(v[i]) as int]
        } else {
            v[i]
        }),
{
}

/// A chunk that is kept is handed out from what is kept; others from the file, if there is
/// an artifact and its file is open. What is kept does not change.
pub proof fn chunks_are_requested(
    host: &mut HostState,
    id: u32,
    r: Result<ChunkSource, HostError>,
)
    requires
        old(host).stats.cache_hits < u64::MAX,
        call_ensures(HostState::request_chunk, (host, id), r),
    ensures
        ({
            let kept = old(host).cache@.contains_key(id);
            &&& r == Ok::<ChunkSource, HostError>(ChunkSource::Cache) <==> kept
            &&& r == Ok::<ChunkSource, HostError>(ChunkSource::File) <==> !kept && old(host).has_artifact && old(host).has_file
            &&& r is Err && r->Err_0 is NoArtifact <==> !kept && !old(host).has_artifact
            &&& r is Err && r->Err_0 is NoFile <==> !kept && old(host).has_artifact && !old(host).has_file
            &&& final(host).cache@ == old(host).cache@
            &&& final(host).stats.cache_hits - old(host).stats.cache_hits == (if kept {
                1int
            } else {
                0
            })
            &&& final(host).stats.chunks_fetched == old(host).stats.chunks_fetched
        }),
{
}

/// A chunk that comes from the file is counted with its bytes, and kept if chunks are kept,
/// next to the others.
pub proof fn chunks_are_fetched(host: &mut HostState, id: u32, bytes: &[u8], ns: u64, other: u32)
    requires
        old(host).stats.fetch_time_ns + ns <= u64::MAX,
        old(host).stats.chunks_fetched < u64::MAX,
        old(host).stats.compressed_bytes_in + bytes@.len() <= u64::MAX,
        old(host).stats.raw_bytes_decoded + old(host).raw_len(id) <= u64::MAX,
        call_ensures(HostState::fetched, (host, id, bytes, ns), ()),
    ensures
        final(host).stats.chunks_fetched - old(host).stats.chunks_fetched == 1,
        final(host).stats.fetch_time_ns - old(host).stats.fetch_time_ns == ns,
        final(host).stats.compressed_bytes_in - old(host).stats.compressed_bytes_in == bytes@.len(),
        id < old(host).raw_lens@.len() ==> final(host).stats.raw_bytes_decoded - old(host).stats.raw_bytes_decoded == old(host).raw_lens@[id as int],
        id >= old(host).raw_lens@.len() ==> final(host).stats.raw_bytes_decoded == old(host).stats.raw_bytes_decoded,
        final(host).stats.cache_hits == old(host).stats.cache_hits,
        old(host).cache_enabled ==> final(host).cache@.contains_key(id) && final(host).cache@[id]@ == bytes@,
        !old(host).cache_enabled ==> final(host).cache@ == old(host).cache@,
        other != id ==> (final(host).cache@.contains_key(other) <==> old(host).cache@.contains_key(other)),
        other != id && old(host).cache@.contains_key(other) ==> final(host).cache@[other] == old(host).cache@[other],
{
    if old(host).cache_enabled {
        assert(final(host).cache@.dom().contains(other) <==> old(host).cache@.dom().insert(
            id,
        ).contains(other));
        assert(final(host).cache@.dom().contains(id));
    }
}

/// The length of a chunk that is handed to a module is zero where it has none.
pub proof fn lengths_are_told(host: &mut HostState, id: u32, r: u32)
    requires
        old(host).stats.cache_hits < u64::MAX,
        call_ensures(HostState::chunk_len, (host, id), r),
    ensures
        old(host).cache@.contains_key(id) && old(host).cache@[id]@.len() <= u32::MAX ==> r == old(host).cache@[id]@.len(),
        old(host).cache@.contains_key(id) && old(host).cache@[id]@.len() > u32::MAX ==> r == 0,
        !old(host).cache@.contains_key(id) && id < old(host).lens@.len() ==> r == old(host).lens@[id as int],
        !old(host).cache@.contains_key(id) && id >= old(host).lens@.len() ==> r == 0,
{
}

/// With a new artifact nothing is kept, and chunks have the lengths that are described.
pub proof fn artifacts_are_taken(host: &mut HostState, chunks: &Vec<ChunkDesc>, open: bool, i: int)
    requires
        call_ensures(HostState::set_artifact, (host, chunks, open), ()),
        0 <= i < chunks@.len(),
    ensures
        final(host).has_artifact,
        final(host).has_file == open,
        final(host).cache@.dom().is_empty(),
        final(host).lens@.len() == chunks@.len(),
        final(host).raw_lens@.len() == chunks@.len(),
        final(host).raw_lens@[i] == chunks@[i].raw_len,
        chunks@[i].len <= u32::MAX ==> final(host).lens@[i] == chunks@[i].len,
        chunks@[i].len > u32::MAX ==> final(host).lens@[i] == 0,
{
}

/// Settings are handed over as numbers: what is on is one, and what is off is zero.
pub proof fn settings_are_numbers(kernel: &WasmIvfFlatKernel, r: (u32, u32, u32))
    requires
        call_ensures(WasmIvfFlatKernel::settings, (kernel,), r),
    ensures
        r.0 == kernel.decoded_cache_budget_bytes,
        r.1 == 1 <==> kernel.profile_stages,
        r.1 == 0 <==> !kernel.profile_stages,
        r.2 == 1 <==> kernel.use_host_dist,
        r.2 == 0 <==> !kernel.use_host_dist,
{
}

/// A chunk is copied whole, or not at all.
pub proof fn chunks_are_copied_whole(len: usize, room: u32, r: u32)
    requires
        call_ensures(kernel_host::copy_len, (len, room), r),
    ensures
        r <= room,
        len <= room ==> r == len,
        len > room ==> r == 0,
{
}

/// Distances are written only if the query, the vectors and the distances lie in the memory
/// at multiples of four, none of them at zero, and there are vectors with components.
pub proof fn calls_are_checked(call: &BatchCall, len: usize, r: bool)
    requires
        call_ensures(BatchCall::check, (call, len), r),
    ensures
        r ==> call.query_ptr > 0 && call.query_ptr % 4 == 0 && call.query_ptr + 4 * call.dim <= len,
        r ==> call.vectors_ptr > 0 && call.vectors_ptr % 4 == 0 && call.vectors_ptr + 4 * (
        call.count * call.dim) <= len,
        r ==> call.out_ptr > 0 && call.out_ptr % 4 == 0 && call.out_ptr + 4 * call.count <= len,
        r ==> call.count > 0 && call.dim > 0,
        call.query_ptr > 0 && call.query_ptr % 4 == 0 && call.query_ptr + 4 * call.dim <= len
            && call.vectors_ptr > 0 && call.vectors_ptr % 4 == 0 && call.vectors_ptr + 4 * (
        call.count * call.dim) <= len && call.out_ptr > 0 && call.out_ptr % 4 == 0 && call.out_ptr
            + 4 * call.count <= len && call.count > 0 && call.dim > 0 ==> r,
{
}

/// The first 64 chunks that are asked for are remembered in their order, and no more; and
/// so are those that had to be read.
pub proof fn first_chunks_are_remembered(stats: &mut FetchStats, id: u32, miss: bool)
    requires
        call_ensures(FetchStats::note_chunk, (stats, id, miss), ()),
    ensures
        ({
            let asked = old(stats).fetched_chunk_ids_sample@;
            let missed = old(stats).cache_miss_chunk_ids_sample@;
            &&& final(stats).fetched_chunk_ids_sample@ == (if asked.len() < 64 {
                asked.push(id)
            } else {
                asked
            })
            &&& final(stats).cache_miss_chunk_ids_sample@ == (if miss && missed.len() < 64 {
                missed.push(id)
            } else {
                missed
            })
            &&& final(stats).cache_hits == old(stats).cache_hits
            &&& final(stats).chunks_fetched == old(stats).chunks_fetched
        }),
{
}

/// The time of a copy is added to that of all copies, and the time with all around it to
/// that of all transfers.
pub proof fn copies_are_timed(stats: &mut FetchStats, copy_ns: u64, total_ns: u64)
    requires
        old(stats).host_copy_time_ns + copy_ns <= u64::MAX,
        old(stats).transfer_time_ns + total_ns <= u64::MAX,
        call_ensures(FetchStats::note_copy, (stats, copy_ns, total_ns), ()),
    ensures
        final(stats).host_copy_time_ns - old(stats).host_copy_time_ns == copy_ns,
        final(stats).transfer_time_ns - old(stats).transfer_time_ns == total_ns,
        final(stats).fetch_time_ns == old(stats).fetch_time_ns,
        final(stats).chunks_fetched == old(stats).chunks_fetched,
        final(stats).compressed_bytes_in == old(stats).compressed_bytes_in,
{
}

/// The results of one query are those of the first batch, and none without a batch.
pub proof fn one_query_has_the_first_results(batches: Vec<Vec<SearchResult>>, r: Vec<SearchResult>)
    requires
        call_ensures(kernel::first_results, (batches,), r),
    ensures
        batches@.len() == 0 ==> r@.len() == 0,
        batches@.len() > 0 ==> r@ == batches@[0]@,
{
}

} // verus!
