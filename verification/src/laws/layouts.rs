//! Laws of what stands where in the bytes of indexes and artifacts.
use crate::artifact::frame;
use crate::artifact::ivf_flat;
use crate::artifact::ivf_flat::{ChunkType, Layout};
use crate::artifact::posting;
use crate::artifact::posting::PostingCodec;
use crate::artifact::pq;
use crate::artifact::search::IvfFlatArtifactSearcher;
use crate::ivf_file;
use crate::ivf_file::IvfFlatFile;
use crate::le;
use crate::topk::Candidate;
use crate::uleb128;
use crate::uleb128::Uleb128Error;
use crate::vector;
use crate::vector_index::hnsw_build::Build;
use crate::vector_index::hnsw_file;
use vstd::prelude::*;

verus! {

broadcast use crate::le::sizes;

/// The header of an index file: `F3IVFF1` and a zero, the version, the numbers of
/// components and of lists, the number of the column, the checksums of the schema and of
/// the data, and how many numbers each of the four parts has.
#[verifier::rlimit(60)]
pub proof fn index_file_headers(
    index: IvfFlatFile,
    schema_checksum: u64,
    data_checksum: u64,
    leaf: nat,
)
    ensures
        ({
            let h = ivf_file::ivf_flat_header(index, schema_checksum, data_checksum, leaf);
            &&& h.len() == 72
            &&& h.subrange(0, 8) == seq![0x46u8, 0x33, 0x49, 0x56, 0x46, 0x46, 0x31, 0x00]
            &&& h.subrange(8, 12) == le::bytes_of_u32(1)
            &&& h.subrange(12, 16) == le::bytes_of_u32(index.dim as u32)
            &&& h.subrange(16, 20) == le::bytes_of_u32(index.nlist as u32)
            &&& h.subrange(20, 24) == le::bytes_of_u32(leaf as u32)
            &&& h.subrange(24, 32) == le::bytes_of_u64(schema_checksum)
            &&& h.subrange(32, 40) == le::bytes_of_u64(data_checksum)
            &&& h.subrange(40, 48) == le::bytes_of_u64(index.centroids.len() as u64)
            &&& h.subrange(48, 56) == le::bytes_of_u64(index.list_offsets.len() as u64)
            &&& h.subrange(56, 64) == le::bytes_of_u64(index.row_ids.len() as u64)
            &&& h.subrange(64, 72) == le::bytes_of_u64(index.vectors.len() as u64)
        }),
{
    let h = ivf_file::ivf_flat_header(index, schema_checksum, data_checksum, leaf);
    let magic = ivf_file::ivf_flat_magic();
    assert(h.len() == 72);
    assert(h.subrange(0, 8) =~= magic);
    assert(magic =~= seq![0x46u8, 0x33, 0x49, 0x56, 0x46, 0x46, 0x31, 0x00]);
    assert(h.subrange(8, 12) =~= le::bytes_of_u32(1));
    assert(h.subrange(12, 16) =~= le::bytes_of_u32(index.dim as u32));
    assert(h.subrange(16, 20) =~= le::bytes_of_u32(index.nlist as u32));
    assert(h.subrange(20, 24) =~= le::bytes_of_u32(leaf as u32));
    assert(h.subrange(24, 32) =~= le::bytes_of_u64(schema_checksum));
    assert(h.subrange(32, 40) =~= le::bytes_of_u64(data_checksum));
    assert(h.subrange(40, 48) =~= le::bytes_of_u64(index.centroids.len() as u64));
    assert(h.subrange(48, 56) =~= le::bytes_of_u64(index.list_offsets.len() as u64));
    assert(h.subrange(56, 64) =~= le::bytes_of_u64(index.row_ids.len() as u64));
    assert(h.subrange(64, 72) =~= le::bytes_of_u64(index.vectors.len() as u64));
}

/// The parts of an index file follow its header: the centroids, where the lists start, the
/// row ids, and the vectors.
pub proof fn parts_of_an_index_file(
    index: IvfFlatFile,
    schema_checksum: u64,
    data_checksum: u64,
    leaf: nat,
)
    ensures
        ({
            let b = ivf_file::ivf_flat_file_bytes(index, schema_checksum, data_checksum, leaf);
            let a = 72 + 4 * index.centroids.len();
            let c = a + 8 * index.list_offsets.len();
            let d = c + 4 * index.row_ids.len();
            let e = d + 4 * index.vectors.len();
            &&& b.len() == e
            &&& b.subrange(0, 72) == ivf_file::ivf_flat_header(
                index,
                schema_checksum,
                data_checksum,
                leaf,
            )
            &&& b.subrange(72, a as int) == le::bytes_of_u32s(index.centroids)
            &&& b.subrange(a as int, c as int) == le::bytes_of_u64s(index.list_offsets)
            &&& b.subrange(c as int, d as int) == le::bytes_of_u32s(index.row_ids)
            &&& b.subrange(d as int, e as int) == le::bytes_of_u32s(index.vectors)
        }),
{
    let b = ivf_file::ivf_flat_file_bytes(index, schema_checksum, data_checksum, leaf);
    let h = ivf_file::ivf_flat_header(index, schema_checksum, data_checksum, leaf);
    index_file_headers(index, schema_checksum, data_checksum, leaf);
    let a = 72 + 4 * index.centroids.len();
    let c = a + 8 * index.list_offsets.len();
    let d = c + 4 * index.row_ids.len();
    let e = d + 4 * index.vectors.len();
    assert(b.subrange(0, 72) =~= h);
    assert(b.subrange(72, a as int) =~= le::bytes_of_u32s(index.centroids));
    assert(b.subrange(a as int, c as int) =~= le::bytes_of_u64s(index.list_offsets));
    assert(b.subrange(c as int, d as int) =~= le::bytes_of_u32s(index.row_ids));
    assert(b.subrange(d as int, e as int) =~= le::bytes_of_u32s(index.vectors));
}

/// Two of the four codecs store differences of row ids, and two store components in two
/// bytes.
pub proof fn codecs_differ()
    ensures
        !PostingCodec::Raw.is_delta() && !PostingCodec::Raw.is_half(),
        PostingCodec::RowIdDeltaVarintV1.is_delta() && !PostingCodec::RowIdDeltaVarintV1.is_half(),
        !PostingCodec::RawF16.is_delta() && PostingCodec::RawF16.is_half(),
        PostingCodec::RowIdDeltaVarintV1F16.is_delta()
            && PostingCodec::RowIdDeltaVarintV1F16.is_half(),
        PostingCodec::Raw.component_size() == 4,
        PostingCodec::RawF16.component_size() == 2,
        PostingCodec::Raw.header_size() == 4,
        PostingCodec::RowIdDeltaVarintV1.header_size() == 8,
{
}

/// A posting list starts with its count. Row ids follow, four bytes each, or the first of
/// them and the differences of the others; then come the components, four bytes each or
/// the two bytes that each is narrowed to.
pub proof fn parts_of_a_posting_list(
    codec: PostingCodec,
    rows: Seq<u32>,
    vectors: Seq<u32>,
    narrowed: spec_fn(u32) -> u16,
    i: int,
    j: int,
)
    requires
        0 <= i < rows.len(),
        0 <= j < vectors.len(),
    ensures
        ({
            let b = posting::posting_bytes(codec, rows, vectors, narrowed);
            let at = if codec.is_delta() {
                8 + posting::delta_bytes(rows).len()
            } else {
                4 + 4 * rows.len()
            };
            &&& b.subrange(0, 4) == le::bytes_of_u32(rows.len() as u32)
            &&& !codec.is_delta() ==> b.subrange(4 + 4 * i, 4 + 4 * i + 4) == le::bytes_of_u32(
                rows[i],
            )
            &&& codec.is_delta() ==> b.subrange(4, 8) == le::bytes_of_u32(rows[0]) && b.subrange(
                8,
                at as int,
            ) == posting::delta_bytes(rows)
            &&& !codec.is_half() ==> b.len() == at + 4 * vectors.len() && b.subrange(
                at + 4 * j,
                at + 4 * j + 4,
            ) == le::bytes_of_u32(vectors[j])
            &&& codec.is_half() ==> b.len() == at + 2 * vectors.len() && b.subrange(
                at + 2 * j,
                at + 2 * j + 2,
            ) == le::bytes_of_u16(narrowed(vectors[j]))
        }),
{
    let b = posting::posting_bytes(codec, rows, vectors, narrowed);
    assert(b.subrange(0, 4) =~= le::bytes_of_u32(rows.len() as u32));
    let at = if codec.is_delta() {
        8 + posting::delta_bytes(rows).len()
    } else {
        4 + 4 * rows.len()
    };
    if codec.is_delta() {
        assert(b.subrange(4, 8) =~= le::bytes_of_u32(rows[0]));
        assert(b.subrange(8, at as int) =~= posting::delta_bytes(rows));
    } else {
        assert(b.subrange(4 + 4 * i, 4 + 4 * i + 4) =~= le::bytes_of_u32(rows[i]));
    }
    if codec.is_half() {
        assert(b.subrange(at + 2 * j, at + 2 * j + 2) =~= le::bytes_of_u16(narrowed(vectors[j])));
    } else {
        assert(b.subrange(at + 4 * j, at + 4 * j + 4) =~= le::bytes_of_u32(vectors[j]));
    }
}

/// The differences of row ids stand one behind the other; each is what has to be added to
/// a row id to get the next one, around the end of 32 bits.
pub proof fn differences_stand_in_a_row(rows: Seq<u32>)
    requires
        rows.len() >= 2,
    ensures
        exists|d: u32|
            (rows[0] + d) % 0x1_0000_0000 == rows[1] && posting::delta_bytes(rows)
                == #[trigger] uleb128::uleb128_bytes(d) + posting::delta_bytes(rows.skip(1)),
        posting::delta_bytes(rows.take(1)).len() == 0,
{
    let d = posting::wrapping_difference(rows[1], rows[0]);
    assert((rows[0] + d) % 0x1_0000_0000 == rows[1]);
    assert(posting::delta_bytes(rows) == uleb128::uleb128_bytes(d) + posting::delta_bytes(
        rows.skip(1),
    ));
}

/// Row ids that are read from differences start with the first; each is the one in front
/// of it and the difference, around the end of 32 bits.
pub proof fn differences_are_added_up(s: Seq<u8>, first: u32, count: nat, d: u32, used: nat)
    requires
        count >= 2,
        uleb128::uleb128_front(s) == Ok::<(u32, nat), Uleb128Error>((d, used)),
        posting::rows_from(s, first, count) is Ok,
    ensures
        ({
            let (rows, n) = posting::rows_from(s, first, count)->Ok_0;
            let next = ((first + d) % 0x1_0000_0000) as u32;
            let rest = posting::rows_from(s.skip(used as int), next, (count - 1) as nat);
            &&& rows.len() == count
            &&& rows[0] == first
            &&& rows[1] == next
            &&& rest is Ok
            &&& rows.skip(1) == rest->Ok_0.0
            &&& n == used + rest->Ok_0.1
        }),
{
    posting::delta_rows_bound(s, first, (count - 1) as nat);
    let (rows, n) = posting::rows_from(s, first, count)->Ok_0;
    let next = ((first + d) % 0x1_0000_0000) as u32;
    let rest = posting::rows_from(s.skip(used as int), next, (count - 1) as nat);
    assert(rows.skip(1) =~= rest->Ok_0.0);
}

/// A list of codes starts with its count; with rows, the first row id, the differences of
/// the others, and the codes follow.
pub proof fn parts_of_a_code_list(rows: Seq<u32>, codes: Seq<u8>)
    ensures
        ({
            let b = pq::pq_posting_bytes(rows, codes);
            &&& rows.len() == 0 ==> b == le::bytes_of_u32(0)
            &&& rows.len() > 0 ==> {
                let at = (8 + posting::delta_bytes(rows).len()) as int;
                &&& b.len() == at + codes.len()
                &&& b.subrange(0, 4) == le::bytes_of_u32(rows.len() as u32)
                &&& b.subrange(4, 8) == le::bytes_of_u32(rows[0])
                &&& b.subrange(8, at) == posting::delta_bytes(rows)
                &&& b.skip(at) == codes
            }
        }),
{
    let b = pq::pq_posting_bytes(rows, codes);
    if rows.len() > 0 {
        let at = (8 + posting::delta_bytes(rows).len()) as int;
        assert(b.subrange(0, 4) =~= le::bytes_of_u32(rows.len() as u32));
        assert(b.subrange(4, 8) =~= le::bytes_of_u32(rows[0]));
        assert(b.subrange(8, at) =~= posting::delta_bytes(rows));
        assert(b.skip(at) =~= codes);
    }
}

/// An artifact starts with `F3VIDX`, a digit and a zero, its version, and where its footer
/// starts; the footer with `F3VIDXF` and a zero, its version, the length of its text, and
/// the text.
pub proof fn frames_of_artifacts(generation: u8, body: Seq<u8>, text: Seq<u8>)
    requires
        20 <= body.len() <= u64::MAX,
        body.take(20) == frame::open_header(generation),
    ensures
        ({
            let b = frame::sealed(body, text);
            let at = body.len() as int;
            &&& b.len() == at + 16 + text.len()
            &&& b.subrange(0, 8) == seq![
                0x46u8,
                0x33,
                0x56,
                0x49,
                0x44,
                0x58,
                generation,
                0x00,
            ]
            &&& b.subrange(8, 12) == le::bytes_of_u32(1)
            &&& b.subrange(12, 20) == le::bytes_of_u64(at as u64)
            &&& b.subrange(20, at) == body.subrange(20, at)
            &&& b.subrange(at, at + 8) == seq![
                0x46u8,
                0x33,
                0x56,
                0x49,
                0x44,
                0x58,
                0x46,
                0x00,
            ]
            &&& b.subrange(at + 8, at + 12) == le::bytes_of_u32(1)
            &&& b.subrange(at + 12, at + 16) == le::bytes_of_u32(text.len() as u32)
            &&& b.skip(at + 16) == text
        }),
{
    let b = frame::sealed(body, text);
    let at = body.len() as int;
    let h = frame::open_header(generation);
    assert(h.subrange(0, 8) =~= frame::artifact_magic(generation));
    assert(h.subrange(8, 12) =~= le::bytes_of_u32(1));
    assert(b.subrange(0, 8) =~= body.take(20).subrange(0, 8));
    assert(b.subrange(8, 12) =~= body.take(20).subrange(8, 12));
    assert(frame::artifact_magic(generation) =~= seq![
        0x46u8,
        0x33,
        0x56,
        0x49,
        0x44,
        0x58,
        generation,
        0x00,
    ]);
    assert(b.subrange(12, 20) =~= le::bytes_of_u64(at as u64));
    assert(b.subrange(20, at) =~= body.subrange(20, at));
    assert(b.subrange(at, at + 8) =~= frame::footer_magic());
    assert(frame::footer_magic() =~= seq![0x46u8, 0x33, 0x56, 0x49, 0x44, 0x58, 0x46, 0x00]);
    assert(b.subrange(at + 8, at + 12) =~= le::bytes_of_u32(1));
    assert(b.subrange(at + 12, at + 16) =~= le::bytes_of_u32(text.len() as u32));
    assert(b.skip(at + 16) =~= text);
}

/// A chunk goes behind all others, and is described by its kind, its list, where it starts,
/// its length, its length once decoded, and its codec.
pub proof fn chunks_are_described(
    layout: Layout,
    chunk_type: ChunkType,
    list_id: Option<u32>,
    chunk: Seq<u8>,
    raw_len: nat,
    codec: PostingCodec,
)
    requires
        layout.bytes.len() + chunk.len() <= u64::MAX,
        raw_len <= u64::MAX,
    ensures
        ({
            let r = ivf_flat::with_chunk(layout, chunk_type, list_id, chunk, raw_len, codec);
            let d = r.chunks.last();
            &&& r.chunks.len() == layout.chunks.len() + 1
            &&& r.chunks.drop_last() == layout.chunks
            &&& d.chunk_type == chunk_type
            &&& d.list_id == list_id
            &&& d.raw_len == raw_len
            &&& d.codec == codec
            &&& d.offset + d.len == r.bytes.len()
            &&& r.bytes.subrange(d.offset as int, d.offset + d.len) == chunk
            &&& r.bytes.take(d.offset as int) == layout.bytes
        }),
{
    let r = ivf_flat::with_chunk(layout, chunk_type, list_id, chunk, raw_len, codec);
    let d = r.chunks.last();
    assert(r.chunks.drop_last() =~= layout.chunks);
    assert(r.bytes.subrange(d.offset as int, d.offset + d.len) =~= chunk);
    assert(r.bytes.take(d.offset as int) =~= layout.bytes);
}

/// A graph starts with the numbers of vectors and of components, how many neighbors are
/// kept, how many vectors a search keeps, where it starts, and how many levels there are;
/// the components follow, and then the lists.
pub proof fn parts_of_a_graph(b: Build)
    ensures
        ({
            let s = hnsw_file::hnsw_bytes(b);
            let at = (24 + 4 * b.values.len()) as int;
            &&& s.subrange(0, 4) == le::bytes_of_u32(b.nodes.len() as u32)
            &&& s.subrange(4, 8) == le::bytes_of_u32(b.dimension as u32)
            &&& s.subrange(8, 12) == le::bytes_of_u32(b.m as u32)
            &&& s.subrange(12, 16) == le::bytes_of_u32(b.ef_search as u32)
            &&& s.subrange(16, 20) == le::bytes_of_u32(b.entry_point as u32)
            &&& s.subrange(20, 24) == le::bytes_of_u32(b.level_count as u32)
            &&& s.subrange(24, at) == le::bytes_of_u32s(b.values)
            &&& s.skip(at) == hnsw_file::nodes_bytes(b.nodes, b.level_count)
        }),
{
    let s = hnsw_file::hnsw_bytes(b);
    let at = (24 + 4 * b.values.len()) as int;
    assert(s.subrange(0, 4) =~= le::bytes_of_u32(b.nodes.len() as u32));
    assert(s.subrange(4, 8) =~= le::bytes_of_u32(b.dimension as u32));
    assert(s.subrange(8, 12) =~= le::bytes_of_u32(b.m as u32));
    assert(s.subrange(12, 16) =~= le::bytes_of_u32(b.ef_search as u32));
    assert(s.subrange(16, 20) =~= le::bytes_of_u32(b.entry_point as u32));
    assert(s.subrange(20, 24) =~= le::bytes_of_u32(b.level_count as u32));
    assert(s.subrange(24, at) =~= le::bytes_of_u32s(b.values));
    assert(s.skip(at) =~= hnsw_file::nodes_bytes(b.nodes, b.level_count));
}

/// The lists of a vector start with how many there are; each list with how many neighbors
/// it has, four bytes for each neighbor, and a zero stands for each level without a list.
pub proof fn lists_of_a_graph(
    lists: Seq<Seq<usize>>,
    list: Seq<usize>,
    nodes: Seq<Seq<Seq<usize>>>,
    levels: nat,
    j: int,
)
    requires
        lists.len() <= levels,
    ensures
        hnsw_file::nodes_bytes(Seq::empty(), levels).len() == 0,
        hnsw_file::nodes_bytes(nodes.push(lists), levels) == hnsw_file::nodes_bytes(nodes, levels)
            + hnsw_file::node_bytes(lists, levels),
        hnsw_file::node_bytes(lists, levels) == le::bytes_of_u32(lists.len() as u32)
            + hnsw_file::lists_bytes(lists) + hnsw_file::filling((levels - lists.len()) as nat),
        hnsw_file::lists_bytes(Seq::empty()).len() == 0,
        hnsw_file::lists_bytes(lists.push(list)) == hnsw_file::lists_bytes(lists)
            + hnsw_file::list_bytes(list),
        hnsw_file::list_bytes(list).subrange(0, 4) == le::bytes_of_u32(list.len() as u32),
        0 <= j < list.len() ==> hnsw_file::list_bytes(list).subrange(4 + 4 * j, 4 + 4 * j + 4)
            == le::bytes_of_u32(list[j] as u32),
        hnsw_file::filling(levels).len() == 4 * levels,
{
    assert(nodes.push(lists).drop_last() =~= nodes);
    assert(lists.push(list).drop_last() =~= lists);
    let b = hnsw_file::list_bytes(list);
    assert(b.subrange(0, 4) =~= le::bytes_of_u32(list.len() as u32));
    if 0 <= j < list.len() {
        assert(b.subrange(4 + 4 * j, 4 + 4 * j + 4) =~= le::bytes_of_u32(list[j] as u32));
    }
    fillings_are_zeros(levels, 0);
}

/// A filling consists of zeros.
pub proof fn fillings_are_zeros(k: nat, i: int)
    ensures
        hnsw_file::filling(k).len() == 4 * k,
        0 <= i < 4 * k ==> hnsw_file::filling(k)[i] == 0,
    decreases k,
{
    reveal(le::bytes_of_u32);
    if k > 0 {
        fillings_are_zeros((k - 1) as nat, i);
    }
}

/// The small index of a block starts with `MIVF`, the version, and the numbers of
/// components and of centroids; the centroids follow, and then the runs of each bucket.
pub proof fn parts_of_a_small_index(b: vector::MicroBlob)
    ensures
        ({
            let s = vector::blob_bytes(b);
            let at = (16 + 4 * b.centroids.len()) as int;
            &&& s.subrange(0, 4) == seq![0x4du8, 0x49, 0x56, 0x46]
            &&& s.subrange(4, 8) == le::bytes_of_u32(1)
            &&& s.subrange(8, 12) == le::bytes_of_u32(b.dim)
            &&& s.subrange(12, 16) == le::bytes_of_u32(b.k)
            &&& s.subrange(16, at) == le::bytes_of_u32s(b.centroids)
            &&& s.skip(at) == vector::bucket_bytes(b.bucket_spans)
        }),
{
    let s = vector::blob_bytes(b);
    let at = (16 + 4 * b.centroids.len()) as int;
    assert(s.subrange(0, 4) =~= vector::magic_bytes());
    assert(vector::magic_bytes() =~= seq![0x4du8, 0x49, 0x56, 0x46]);
    assert(s.subrange(4, 8) =~= le::bytes_of_u32(1));
    assert(s.subrange(8, 12) =~= le::bytes_of_u32(b.dim));
    assert(s.subrange(12, 16) =~= le::bytes_of_u32(b.k));
    assert(s.subrange(16, at) =~= le::bytes_of_u32s(b.centroids));
    assert(s.skip(at) =~= vector::bucket_bytes(b.bucket_spans));
}

/// A bucket has how many runs it has in front of them; of each run where it starts stands
/// in front of how long it is.
pub proof fn buckets_of_a_small_index(
    buckets: Seq<Seq<(u32, u32)>>,
    spans: Seq<(u32, u32)>,
    span: (u32, u32),
)
    ensures
        vector::bucket_bytes(Seq::empty()).len() == 0,
        vector::bucket_bytes(buckets.push(spans)) == vector::bucket_bytes(buckets)
            + le::bytes_of_u32(spans.len() as u32) + vector::span_bytes(spans),
        vector::span_bytes(Seq::empty()).len() == 0,
        vector::span_bytes(spans.push(span)) == vector::span_bytes(spans) + le::bytes_of_u32(span.0)
            + le::bytes_of_u32(span.1),
{
    assert(buckets.push(spans).drop_last() =~= buckets);
    assert(spans.push(span).drop_last() =~= spans);
}

/// Lists that are kept are counted one by one.
pub proof fn kept_lists_are_counted(s: IvfFlatArtifactSearcher, lists: Seq<Candidate>, n: nat)
    ensures
        s.kept_among(lists, 0) == 0,
        s.kept_among(lists, n + 1) - s.kept_among(lists, n) == (if s.cached(
            lists[n as int].id as u32,
        ) is Some {
            1int
        } else {
            0
        }),
{
}

} // verus!
