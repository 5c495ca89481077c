//! Laws of single steps: taking units, keeping lists, asking indexes.
use crate::artifact::search::{
    ArtifactSearchError,
    IvfFlatArtifactSearcher,
    IvfFlatSearchStageStats,
};
use crate::buffers;
use crate::chunk_decoder::NoDictColDecoder;
use crate::dict_decoder;
use crate::dict_decoder::{
    DictUnits,
    IncorrectIndexType,
    IndexMissing,
    IndexWidth,
    DictColDecoder,
};
use crate::encoder::VectorColEncoder;
use crate::file_format::{
    MicroIndex,
    MicroIndexNode,
    VectorBlock,
    VectorBlockNode,
};
use crate::footer::RowGroupMetadata;
use crate::ivf_flat::SearchResult;
use crate::row_groups::RowGroupsTable;
use crate::vector_encoder;
use crate::vector_index;
use crate::vector_index::runtime::{KnnBatchStep, KnnStep, VectorIndexRuntime};
use crate::vector_index::wasm::WasmVectorIndex;
use crate::vector_index::{VectorDistanceMetric, VectorIndexError};
use bytes::Bytes;
use vstd::prelude::*;

verus! {

/// A searcher that keeps lists and one that does not find the same, whatever has been kept
/// before.
pub proof fn kept_lists_change_no_result<F: Fn(&[u32], &[u32]) -> u32>(
    one: &mut IvfFlatArtifactSearcher,
    other: &mut IvfFlatArtifactSearcher,
    file: &[u8],
    wide: &[u32],
    query: &[u32],
    k: usize,
    nprobe: usize,
    f: &F,
    a: Result<Vec<SearchResult>, ArtifactSearchError>,
    b: Result<Vec<SearchResult>, ArtifactSearchError>,
)
    requires
        old(one).artifact == old(other).artifact,
        call_ensures(
            IvfFlatArtifactSearcher::search::<F>,
            (one, file, wide, query, k, nprobe, f),
            a,
        ),
        call_ensures(
            IvfFlatArtifactSearcher::search::<F>,
            (other, file, wide, query, k, nprobe, f),
            b,
        ),
    ensures
        a is Ok <==> b is Ok,
        a is Ok ==> a->Ok_0@ == b->Ok_0@,
        a is Err ==> a->Err_0 == b->Err_0,
{
}

/// Each list that is searched is had from what is kept, or it is not; both are counted, and
/// without keeping nothing is had.
pub proof fn lists_that_are_had_are_counted<F: Fn(&[u32], &[u32]) -> u32>(
    searcher: &mut IvfFlatArtifactSearcher,
    file: &[u8],
    wide: &[u32],
    query: &[u32],
    k: usize,
    nprobe: usize,
    stats: &mut IvfFlatSearchStageStats,
    f: &F,
    r: Result<Vec<SearchResult>, ArtifactSearchError>,
    c: u32,
)
    requires
        call_ensures(
            IvfFlatArtifactSearcher::search_profiled::<F>,
            (searcher, file, wide, query, k, nprobe, stats, f),
            r,
        ),
        r is Ok,
    ensures
        ({
            let lists = old(searcher).lists_for(*f, query@, k as nat, nprobe as nat);
            let hits = final(stats).posting_cache_hits - old(stats).posting_cache_hits;
            let misses = final(stats).posting_cache_misses - old(stats).posting_cache_misses;
            &&& hits + misses == lists.len()
            &&& !old(searcher).posting_cache_enabled ==> hits == 0
            &&& k == 0 ==> hits == 0 && misses == 0
            &&& old(searcher).cached(c) is Some ==> final(searcher).cached(c) == old(searcher).cached(c)
            &&& !old(searcher).posting_cache_enabled ==> (final(searcher).cached(c) is Some
                <==> old(searcher).cached(c) is Some)
        }),
{
}

/// The next unit of a chunk is handed out with its bytes, which are the first that are left;
/// nothing is handed out once all units have been.
pub proof fn units_are_handed_out(d: &mut NoDictColDecoder, r: Option<Bytes>)
    requires
        old(d).valid(),
        call_ensures(NoDictColDecoder::decode_batch, (d,), r),
    ensures
        r is None <==> old(d).taken == old(d).units@.len(),
        r is None ==> final(d).taken == old(d).taken,
        r is Some ==> {
            let size = old(d).units@[old(d).taken as int].size_ as int;
            &&& final(d).taken == old(d).taken + 1
            &&& buffers::shared_bytes(r->0) == old(d).bytes().take(size)
            &&& final(d).bytes() == old(d).bytes().skip(size)
        },
        final(d).units == old(d).units,
{
    if r is Some {
        let size = old(d).units@[old(d).taken as int].size_ as int;
        crate::chunk_decoder::unit_sizes_grow(
            old(d).units@,
            old(d).taken + 1,
            old(d).units@.len() as int,
        );
        assert(old(d).unit_data(old(d).taken as int) =~= old(d).bytes().take(size));
    }
}

/// Units of a chunk with its own dictionary are handed out in twos, the values in front and
/// which of them the rows hold behind; one alone is refused.
pub proof fn dictionaries_come_with_indexes(
    d: &mut DictColDecoder,
    r: Result<Option<DictUnits>, IndexMissing>,
)
    requires
        old(d).chunk.valid(),
        call_ensures(DictColDecoder::decode_batch, (d,), r),
    ensures
        ({
            let at = old(d).chunk.taken as int;
            let left = old(d).chunk.units@.len() - at;
            &&& r is Err <==> left == 1
            &&& r == Ok::<Option<DictUnits>, IndexMissing>(None) <==> left == 0
            &&& left >= 2 ==> {
                let u = r->Ok_0->0;
                &&& buffers::shared_bytes(u.dict) == old(d).chunk.unit_data(at)
                &&& buffers::shared_bytes(u.indices) == old(d).chunk.unit_data(at + 1)
                &&& u.dict_rows == old(d).chunk.units@[at].num_rows
                &&& u.index_rows == old(d).chunk.units@[at + 1].num_rows
                &&& final(d).chunk.taken == at + 2
            }
        }),
{
}

/// A row holds the value that its index points to, and nothing without an index; indexes of
/// another width than the dictionary asks for are refused.
pub proof fn rows_hold_values(
    dict_len: u64,
    width: IndexWidth,
    indices: &Vec<Option<u64>>,
    r: Result<Vec<Option<usize>>, IncorrectIndexType>,
    i: int,
)
    requires
        call_ensures(dict_decoder::dict_index_to_data, (dict_len, width, indices), r),
        0 <= i < indices@.len(),
    ensures
        r is Ok <==> width == dict_decoder::width_of(dict_len),
        r is Ok ==> r->Ok_0@.len() == indices@.len(),
        r is Ok ==> (r->Ok_0@[i] is Some <==> indices@[i] is Some),
        r is Ok && indices@[i] is Some ==> r->Ok_0@[i]->0 == indices@[i]->0,
{
}

/// What is stored of a block of vectors is what is known of it.
pub proof fn blocks_are_known(node: VectorBlockNode, r: VectorBlock)
    requires
        call_ensures(VectorBlock::from_fb, (node,), r),
    ensures
        r.offset == node.offset,
        r.size == node.size,
        r.row_start == node.row_start,
        r.row_count == node.row_count,
        r.align == node.align,
        node.micro_index is None ==> r.micro_index.wasm_size == 0 && r.micro_index.aux_size == 0
            && r.micro_index.wasm_offset == 0 && r.micro_index.aux_offset == 0,
        node.micro_index is Some ==> r.micro_index.aux_offset == node.micro_index->0.aux_offset
            && r.micro_index.aux_size == node.micro_index->0.aux_size && r.micro_index.wasm_offset
            == node.micro_index->0.wasm_offset && r.micro_index.wasm_size
            == node.micro_index->0.wasm_size,
{
}

/// And so it is with the index of a block.
pub proof fn indexes_of_blocks_are_known(node: MicroIndexNode, r: MicroIndex)
    requires
        call_ensures(MicroIndex::from_fb, (node,), r),
    ensures
        r.wasm_offset == node.wasm_offset,
        r.wasm_size == node.wasm_size,
        r.abi_major == node.abi_major,
        r.abi_minor == node.abi_minor,
        r.aux_offset == node.aux_offset,
        r.aux_size == node.aux_size,
        node.reserved is Some ==> r.reserved@ == node.reserved->0@,
        node.reserved is None ==> r.reserved@.len() == 0,
{
}

/// A row group is noted behind the others in each list.
pub proof fn row_groups_are_added(
    table: &mut RowGroupsTable,
    row_count: u32,
    offset: u64,
    size: u32,
    metadata: RowGroupMetadata,
)
    requires
        call_ensures(RowGroupsTable::add_meta, (table, row_count, offset, size, metadata), ()),
    ensures
        final(table)@.row_counts == old(table)@.row_counts.push(row_count),
        final(table)@.offsets == old(table)@.offsets.push(offset),
        final(table)@.sizes == old(table)@.sizes.push(size),
        final(table)@.metadata == old(table)@.metadata.push(metadata),
        final(table)@.indirect == old(table)@.indirect,
{
}

/// With indexes, rows that are taken in wait for their chunk, behind those that wait already;
/// without, none does.
pub proof fn rows_wait_for_their_chunk(e: &mut VectorColEncoder, values: &[u32], valid: &[bool])
    requires
        call_ensures(VectorColEncoder::take_in, (e, values, valid), ()),
    ensures
        old(e).enable_micro_index ==> final(e).pending_rows - old(e).pending_rows == valid@.len(),
        old(e).enable_micro_index ==> final(e).pending_vectors@ == old(e).pending_vectors@
            + vector_encoder::row_components(values@, valid@, old(e).dim as nat, valid@.len()),
        !old(e).enable_micro_index ==> final(e).pending_rows == old(e).pending_rows,
        !old(e).enable_micro_index ==> final(e).pending_vectors == old(e).pending_vectors,
        final(e).column_index == old(e).column_index,
        final(e).dim == old(e).dim,
{
}

/// The items of lists are those from the start of the first list to the end of the last.
pub proof fn items_of_lists(offsets: &[i64], offset: usize, len: usize, r: (usize, usize))
    requires
        offset + len < offsets@.len(),
        call_ensures(vector_encoder::extract_items, (offsets, offset, len), r),
    ensures
        r.0 == offsets@[offset as int],
        r.0 + r.1 == offsets@[offset + len],
{
}

/// An index in a module is asked with a question, if distances are squared ones; another
/// index answers itself.
pub proof fn modules_are_asked<F: Fn(&[u32], &[u32]) -> u32>(
    index: &VectorIndexRuntime,
    query: &[u32],
    k: usize,
    f: &F,
    r: Result<KnnStep, VectorIndexError>,
)
    requires
        call_ensures(VectorIndexRuntime::knn_l2::<F>, (index, query, k, f), r),
    ensures
        *index is CustomWasm && index->CustomWasm_0.metric == VectorDistanceMetric::L2 <==> r is Ok
            && r->Ok_0 is Ask,
        *index is CustomWasm && index->CustomWasm_0.metric != VectorDistanceMetric::L2 ==> r is Err
            && r->Err_0 is UnsupportedMetric,
        !(*index is CustomWasm) && r is Ok ==> r->Ok_0 is Found && index.outcome(
            *f,
            query@,
            k as nat,
        ) == Ok::<Seq<vector_index::VectorSearchResult>, VectorIndexError>(r->Ok_0->Found_0@),
{
}

/// Many queries are answered as each of them is alone, in their order.
pub proof fn queries_are_answered_alike<F: Fn(&[u32], &[u32]) -> u32>(
    index: &VectorIndexRuntime,
    queries: &[Vec<u32>],
    query: &[u32],
    k: usize,
    f: &F,
    all: Result<KnnBatchStep, VectorIndexError>,
    one: Result<KnnStep, VectorIndexError>,
    j: int,
)
    requires
        !(*index is CustomWasm),
        0 <= j < queries@.len(),
        queries@[j]@ == query@,
        call_ensures(VectorIndexRuntime::knn_l2_batch::<F>, (index, queries, k, f), all),
        call_ensures(VectorIndexRuntime::knn_l2::<F>, (index, query, k, f), one),
        all is Ok,
    ensures
        all->Ok_0 is Found,
        all->Ok_0->Found_0@.len() == queries@.len(),
        one is Ok,
        one->Ok_0 is Found,
        all->Ok_0->Found_0@[j]@ == one->Ok_0->Found_0@,
{
    assert(index.outcome(*f, queries@[j]@, k as nat) == Ok::<
        Seq<vector_index::VectorSearchResult>,
        VectorIndexError,
    >(all->Ok_0->Found_0@[j]@));
}

/// A module is opened only for squared distances.
pub proof fn modules_measure_squares(
    metric: VectorDistanceMetric,
    r: Result<WasmVectorIndex, VectorIndexError>,
)
    requires
        call_ensures(WasmVectorIndex::new, (metric,), r),
    ensures
        r is Ok <==> metric == VectorDistanceMetric::L2,
        r is Ok ==> r->Ok_0.metric == metric,
        r is Err ==> r->Err_0 is UnsupportedMetric,
{
}

} // verus!
