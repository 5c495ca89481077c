//! What the metadata of a file tells of its parts.
use crate::file_format::{CompressionType, POSTSCRIPT_SIZE};
use crate::footer::{GroupedColumnMetadata, MetadataSection};
use crate::postscript::PostScript;
use crate::tables::{ChunkTable, ColumnMetadataTable};
use crate::vector_index::VectorIndexDescriptor;
use vstd::prelude::*;

verus! {

/// The chunks of a column, which have to be there.
pub open spec fn chunks(c: ColumnMetadataTable) -> Seq<ChunkTable> {
    (c.column_chunks->0)@
}

/// The largest of the first `n` chunks, and of `least`.
pub open spec fn largest_chunk(c: Seq<ChunkTable>, n: nat, least: u32) -> u32
    decreases n,
{
    if n == 0 {
        least
    } else {
        let best = largest_chunk(c, (n - 1) as nat, least);
        if c[n - 1].size_ > best {
            c[n - 1].size_
        } else {
            best
        }
    }
}

/// The largest chunk of the first `n` columns, and of `least`.
pub open spec fn largest_in_columns(c: Seq<ColumnMetadataTable>, n: nat, least: u32) -> u32
    decreases n,
{
    if n == 0 {
        least
    } else {
        largest_chunk(
            chunks(c[n - 1]),
            chunks(c[n - 1]).len(),
            largest_in_columns(c, (n - 1) as nat, least),
        )
    }
}

/// The largest chunk of the first `n` row groups.
pub open spec fn largest_in_groups(g: Seq<GroupedColumnMetadata>, n: nat) -> u32
    decreases n,
{
    if n == 0 {
        0
    } else {
        largest_in_columns(
            g[n - 1].column_metadatas@,
            g[n - 1].column_metadatas@.len(),
            largest_in_groups(g, (n - 1) as nat),
        )
    }
}

/// Whether the chunks of all columns are there.
pub open spec fn all_known(g: Seq<GroupedColumnMetadata>) -> bool {
    forall|i: int, c: int|
        0 <= i < g.len() && 0 <= c < g[i].column_metadatas@.len() ==> (
        #[trigger] g[i].column_metadatas@[c]).column_chunks is Some
}

/// The size of the largest chunk of a file.
pub fn get_max_chunk_size(groups: &[GroupedColumnMetadata]) -> (r: usize)
    requires
        all_known(groups@),
    ensures
        r == largest_in_groups(groups@, groups@.len()),
{
    let mut max: u32 = 0;
    let mut g: usize = 0;
    while g < groups.len()
        invariant
            g <= groups@.len(),
            all_known(groups@),
            max == largest_in_groups(groups@, g as nat),
        decreases groups@.len() - g,
    {
        let columns = &groups[g].column_metadatas;
        let ghost before = max;
        let mut c: usize = 0;
        while c < columns.len()
            invariant
                g < groups@.len(),
                all_known(groups@),
                columns@ == groups@[g as int].column_metadatas@,
                c <= columns@.len(),
                max == largest_in_columns(columns@, c as nat, before),
            decreases columns@.len() - c,
        {
            assert(groups@[g as int].column_metadatas@[c as int].column_chunks is Some);
            let ghost least = max;
            if let Some(list) = &columns[c].column_chunks {
                let mut k: usize = 0;
                while k < list.len()
                    invariant
                        k <= list@.len(),
                        max == largest_chunk(list@, k as nat, least),
                    decreases list@.len() - k,
                {
                    if list[k].size_ > max {
                        max = list[k].size_;
                    }
                    k = k + 1;
                }
            }
            c = c + 1;
        }
        g = g + 1;
    }
    max as usize
}

/// The bytes of the first `n` chunks.
pub open spec fn bytes_of_chunks(c: Seq<ChunkTable>, n: nat) -> nat
    decreases n,
{
    if n == 0 {
        0
    } else {
        bytes_of_chunks(c, (n - 1) as nat) + c[n - 1].size_ as nat
    }
}

/// The bytes of a column in the first `n` row groups.
pub open spec fn bytes_of_column(g: Seq<GroupedColumnMetadata>, col: int, n: nat) -> nat
    decreases n,
{
    if n == 0 {
        0
    } else {
        let list = chunks(g[n - 1].column_metadatas@[col]);
        bytes_of_column(g, col, (n - 1) as nat) + bytes_of_chunks(list, list.len())
    }
}

/// How many chunks a column has in the first `n` row groups.
pub open spec fn count_of_column(g: Seq<GroupedColumnMetadata>, col: int, n: nat) -> nat
    decreases n,
{
    if n == 0 {
        0
    } else {
        count_of_column(g, col, (n - 1) as nat) + chunks(g[n - 1].column_metadatas@[col]).len()
    }
}

proof fn column_grows(g: Seq<GroupedColumnMetadata>, col: int, i: nat, j: nat)
    requires
        i <= j,
    ensures
        bytes_of_column(g, col, i) <= bytes_of_column(g, col, j),
        count_of_column(g, col, i) <= count_of_column(g, col, j),
    decreases j - i,
{
    if i < j {
        column_grows(g, col, i, (j - 1) as nat);
    }
}

/// The bytes of the first chunks are no more than those of more chunks.
pub proof fn chunk_bytes_grow(c: Seq<ChunkTable>, i: nat, j: nat)
    requires
        i <= j,
    ensures
        bytes_of_chunks(c, i) <= bytes_of_chunks(c, j),
    decreases j - i,
{
    if i < j {
        chunk_bytes_grow(c, i, (j - 1) as nat);
    }
}

/// Whether a column is in all row groups, with its chunks.
pub open spec fn column_known(g: Seq<GroupedColumnMetadata>, col: int) -> bool {
    forall|i: int|
        0 <= i < g.len() ==> col < (#[trigger] g[i]).column_metadatas@.len()
            && g[i].column_metadatas@[col].column_chunks is Some
}

/// The average size of the chunks of a column, which has to have some.
pub fn get_avg_io_unit_size(groups: &[GroupedColumnMetadata], col_idx: usize) -> (r: usize)
    requires
        column_known(groups@, col_idx as int),
        count_of_column(groups@, col_idx as int, groups@.len()) > 0,
        bytes_of_column(groups@, col_idx as int, groups@.len()) <= usize::MAX,
        count_of_column(groups@, col_idx as int, groups@.len()) <= usize::MAX,
    ensures
        r == bytes_of_column(groups@, col_idx as int, groups@.len()) / count_of_column(
            groups@,
            col_idx as int,
            groups@.len(),
        ),
{
    let mut total: usize = 0;
    let mut count: usize = 0;
    let mut g: usize = 0;
    while g < groups.len()
        invariant
            g <= groups@.len(),
            column_known(groups@, col_idx as int),
            bytes_of_column(groups@, col_idx as int, groups@.len()) <= usize::MAX,
            count_of_column(groups@, col_idx as int, groups@.len()) <= usize::MAX,
            total == bytes_of_column(groups@, col_idx as int, g as nat),
            count == count_of_column(groups@, col_idx as int, g as nat),
        decreases groups@.len() - g,
    {
        assert(groups@[g as int].column_metadatas@[col_idx as int].column_chunks is Some);
        proof {
            column_grows(groups@, col_idx as int, g as nat + 1, groups@.len());
        }
        let ghost before = total;
        if let Some(list) = &groups[g].column_metadatas[col_idx].column_chunks {
            let mut k: usize = 0;
            while k < list.len()
                invariant
                    k <= list@.len(),
                    before + bytes_of_chunks(list@, list@.len()) <= usize::MAX,
                    total == before + bytes_of_chunks(list@, k as nat),
                decreases list@.len() - k,
            {
                proof {
                    chunk_bytes_grow(list@, k as nat + 1, list@.len());
                }
                total = total + list[k].size_ as usize;
                k = k + 1;
            }
            count = count + list.len();
        }
        g = g + 1;
    }
    total / count
}

/// Where the metadata of a file is: its start, and its size. The postscript stands
/// behind it.
pub open spec fn metadata_span(file_size: u64, p: PostScript) -> (int, int) {
    (file_size - POSTSCRIPT_SIZE - p.metadata_size, p.metadata_size as int)
}

/// The metadata of a file is compressed.
#[derive(Clone, Copy, Debug, PartialEq, Eq, Structural)]
pub struct CompressedMetadata;

/// Tells where the metadata of a file is, if it is not compressed.
pub fn get_metadata_span(file_size: u64, p: &PostScript) -> (r: Result<
    (u64, u32),
    CompressedMetadata,
>)
    requires
        file_size >= POSTSCRIPT_SIZE + p.metadata_size,
    ensures
        p.compression.is_uncompressed() ==> r is Ok && (r->Ok_0).0 == metadata_span(
            file_size,
            *p,
        ).0 && (r->Ok_0).1 == metadata_span(file_size, *p).1,
        !p.compression.is_uncompressed() ==> r is Err,
{
    if p.compression != CompressionType::uncompressed() {
        return Err(CompressedMetadata);
    }
    Ok((file_size - POSTSCRIPT_SIZE - p.metadata_size as u64, p.metadata_size))
}

/// Tells which bytes of a file a section takes, if it is there and not compressed.
pub fn read_metadata_section(section: Option<&MetadataSection>) -> (r: Result<
    Option<(u64, u32)>,
    CompressedMetadata,
>)
    ensures
        match section {
            None => r == Ok::<Option<(u64, u32)>, CompressedMetadata>(None),
            Some(s) => if s.compression_type.is_uncompressed() {
                r == Ok::<Option<(u64, u32)>, CompressedMetadata>(Some((s.offset, s.size)))
            } else {
                r is Err
            },
        },
{
    match section {
        None => Ok(None),
        Some(s) => {
            if s.compression_type != CompressionType::uncompressed() {
                return Err(CompressedMetadata);
            }
            Ok(Some((s.offset, s.size)))
        },
    }
}

/// The place of the first index with an id.
pub open spec fn index_place(indexes: Seq<VectorIndexDescriptor>, id: u32, n: nat) -> Option<int>
    decreases n,
{
    if n == 0 {
        None
    } else {
        match index_place(indexes, id, (n - 1) as nat) {
            Some(i) => Some(i),
            None => if indexes[n - 1].index_id == id {
                Some(n - 1)
            } else {
                None
            },
        }
    }
}

/// Finds the first index with an id.
pub fn find_vector_index(indexes: &Vec<VectorIndexDescriptor>, index_id: u32) -> (r: Option<usize>)
    ensures
        match index_place(indexes@, index_id, indexes@.len()) {
            Some(i) => r is Some && r->0 == i,
            None => r is None,
        },
        r matches Some(i) ==> i < indexes@.len() && indexes@[i as int].index_id == index_id,
        r is None ==> forall|j: int|
            0 <= j < indexes@.len() ==> (#[trigger] indexes@[j]).index_id != index_id,
{
    let mut i: usize = 0;
    while i < indexes.len()
        invariant
            i <= indexes@.len(),
            index_place(indexes@, index_id, i as nat) is None,
            forall|j: int| 0 <= j < i ==> (#[trigger] indexes@[j]).index_id != index_id,
        decreases indexes@.len() - i,
    {
        if indexes[i].index_id == index_id {
            proof {
                place_stays(indexes@, index_id, i as nat + 1, indexes@.len());
            }
            return Some(i);
        }
        i = i + 1;
    }
    None
}

proof fn place_stays(indexes: Seq<VectorIndexDescriptor>, id: u32, i: nat, n: nat)
    requires
        i <= n,
        index_place(indexes, id, i) is Some,
    ensures
        index_place(indexes, id, n) == index_place(indexes, id, i),
    decreases n,
{
    if i < n {
        place_stays(indexes, id, i, (n - 1) as nat);
    }
}

/// Where the bytes of an index are: nothing if there is no such index, or if its
/// section is missing.
pub fn load_vector_index_blob(indexes: &Vec<VectorIndexDescriptor>, index_id: u32) -> (r: Result<
    Option<(u64, u32)>,
    CompressedMetadata,
>)
    ensures
        is_section_of(
            match index_place(indexes@, index_id, indexes@.len()) {
                Some(i) => indexes@[i].data_section,
                None => None,
            },
            r,
        ),
{
    match find_vector_index(indexes, index_id) {
        Some(i) => read_metadata_section(indexes[i].data_section()),
        None => read_metadata_section(None),
    }
}

/// Where the module of an index is: nothing if there is no such index, or if it
/// has no module.
pub fn load_vector_index_wasm(indexes: &Vec<VectorIndexDescriptor>, index_id: u32) -> (r: Result<
    Option<(u64, u32)>,
    CompressedMetadata,
>)
    ensures
        is_section_of(
            match index_place(indexes@, index_id, indexes@.len()) {
                Some(i) => indexes@[i].wasm_section,
                None => None,
            },
            r,
        ),
{
    match find_vector_index(indexes, index_id) {
        Some(i) => read_metadata_section(indexes[i].wasm_section()),
        None => read_metadata_section(None),
    }
}

/// Why an index cannot be searched.
#[derive(Clone, Copy, Debug, PartialEq, Eq, Structural)]
pub enum IndexLoadError {
    /// There is no index with this id.
    NotFound(u32),
    /// Its bytes are missing.
    BlobMissing(u32),
    Compressed,
}

/// What has to be read before an index can be searched.
#[derive(Clone, Copy, Debug, PartialEq, Eq, Structural)]
pub enum IndexLoad {
    /// Nothing: it has been read before.
    Cached,
    /// Index `index`: its bytes, and those of its module.
    Read { index: usize, blob_offset: u64, blob_size: u32, wasm: WasmSpan },
}

/// Where a module is, if there is one.
#[derive(Clone, Copy, Debug, PartialEq, Eq, Structural)]
pub enum WasmSpan {
    Absent,
    At { offset: u64, size: u32 },
}

/// What has to be read before an index can be searched; `cached` tells whether it
/// has been read before.
pub open spec fn index_load(indexes: Seq<VectorIndexDescriptor>, id: u32, cached: bool) -> Result<
    IndexLoad,
    IndexLoadError,
> {
    match index_place(indexes, id, indexes.len()) {
        None => Err(IndexLoadError::NotFound(id)),
        Some(i) => if cached {
            Ok(IndexLoad::Cached)
        } else {
            match indexes[i].data_section {
                None => Err(IndexLoadError::BlobMissing(id)),
                Some(d) => if !d.compression_type.is_uncompressed() {
                    Err(IndexLoadError::Compressed)
                } else {
                    match indexes[i].wasm_section {
                        None => Ok(
                            IndexLoad::Read {
                                index: i as usize,
                                blob_offset: d.offset,
                                blob_size: d.size,
                                wasm: WasmSpan::Absent,
                            },
                        ),
                        Some(w) => if !w.compression_type.is_uncompressed() {
                            Err(IndexLoadError::Compressed)
                        } else {
                            Ok(
                                IndexLoad::Read {
                                    index: i as usize,
                                    blob_offset: d.offset,
                                    blob_size: d.size,
                                    wasm: WasmSpan::At { offset: w.offset, size: w.size },
                                },
                            )
                        },
                    }
                },
            }
        },
    }
}

/// Tells what has to be read before an index can be searched.
pub fn vector_knn_l2(indexes: &Vec<VectorIndexDescriptor>, index_id: u32, cached: bool) -> (r: Result<
    IndexLoad,
    IndexLoadError,
>)
    ensures
        r == index_load(indexes@, index_id, cached),
{
    let index: usize = match find_vector_index(indexes, index_id) {
        None => {
            return Err(IndexLoadError::NotFound(index_id));
        },
        Some(i) => i,
    };
    if cached {
        return Ok(IndexLoad::Cached);
    }
    let (blob_offset, blob_size) = match load_vector_index_blob(indexes, index_id) {
        Err(_) => {
            return Err(IndexLoadError::Compressed);
        },
        Ok(None) => {
            return Err(IndexLoadError::BlobMissing(index_id));
        },
        Ok(Some(span)) => span,
    };
    match load_vector_index_wasm(indexes, index_id) {
        Err(_) => Err(IndexLoadError::Compressed),
        Ok(None) => Ok(IndexLoad::Read { index, blob_offset, blob_size, wasm: WasmSpan::Absent }),
        Ok(Some((offset, size))) => Ok(
            IndexLoad::Read {
                index,
                blob_offset,
                blob_size,
                wasm: WasmSpan::At { offset, size },
            },
        ),
    }
}

/// Whether `r` tells where a section is.
pub open spec fn is_section_of(
    section: Option<MetadataSection>,
    r: Result<Option<(u64, u32)>, CompressedMetadata>,
) -> bool {
    match section {
        None => r == Ok::<Option<(u64, u32)>, CompressedMetadata>(None),
        Some(s) => if s.compression_type.is_uncompressed() {
            r == Ok::<Option<(u64, u32)>, CompressedMetadata>(Some((s.offset, s.size)))
        } else {
            r is Err
        },
    }
}

} // verus!
