//! Writing a file: what stands where, and what is noted of it.
use crate::buffers::shared_slice;
use crate::checksum;
use crate::checksum::{create_checksum, Checksum};
use crate::encoded_chunk;
use crate::encoded_chunk::EncodedColumnChunk;
use crate::file_format::{CompressionType, MicroIndex, VectorBlock};
use crate::footer;
use crate::footer::{Chunk, ColumnMetadata, EncUnit, MetadataSection, RowGroupMetadata};
use crate::le;
use crate::row_groups::RowGroupsTable;
use vstd::prelude::*;

verus! {

/// A file that is being written. Bytes are collected until they are taken.
pub struct FileWriteState {
    /// The bytes that have not been taken yet.
    pub out: Vec<u8>,
    /// How many bytes have been taken.
    pub taken: u64,
    pub data_checksum: Checksum,
    pub row_groups_table: RowGroupsTable,
    pub num_rows_in_file: u32,
    pub num_physical_columns: usize,
    pub enable_io_unit_checksum: bool,
    /// Whether blocks of vectors are noted.
    pub enable_micro_index: bool,
    pub column_metadatas_in_cur_row_group: Vec<ColumnMetadata>,
    pub start_offset_of_cur_row_group: u64,
    pub num_rows_in_cur_row_group: u32,
    pub rows_written_in_cur_row_group: Vec<u64>,
}

impl FileWriteState {
    /// Where the next byte will stand.
    pub open spec fn spec_position(self) -> int {
        self.taken + self.out@.len()
    }

    /// What holds of a file that is being written all along.
    pub open spec fn valid(self) -> bool {
        &&& self.spec_position() <= u64::MAX
        &&& self.start_offset_of_cur_row_group <= self.spec_position()
        &&& self.column_metadatas_in_cur_row_group@.len() == self.num_physical_columns
        &&& self.rows_written_in_cur_row_group@.len() == self.num_physical_columns
        &&& self.row_groups_table@.aligned()
    }

    /// Whether `after` is the file with `bytes` written, and nothing else changed.
    pub open spec fn wrote(self, after: FileWriteState, bytes: Seq<u8>) -> bool {
        &&& after.out@ == self.out@ + bytes
        &&& after.data_checksum@ == self.data_checksum@ + bytes
        &&& after.taken == self.taken
        &&& self.same_notes(after)
        &&& after.column_metadatas_in_cur_row_group == self.column_metadatas_in_cur_row_group
        &&& after.rows_written_in_cur_row_group == self.rows_written_in_cur_row_group
    }

    /// Whether nothing has been noted in between but of columns.
    pub open spec fn same_notes(self, after: FileWriteState) -> bool {
        &&& after.row_groups_table == self.row_groups_table
        &&& after.num_rows_in_file == self.num_rows_in_file
        &&& after.num_physical_columns == self.num_physical_columns
        &&& after.enable_io_unit_checksum == self.enable_io_unit_checksum
        &&& after.enable_micro_index == self.enable_micro_index
        &&& after.start_offset_of_cur_row_group == self.start_offset_of_cur_row_group
        &&& after.num_rows_in_cur_row_group == self.num_rows_in_cur_row_group
    }

    /// Whether `after` is the file with the rows of a batch counted.
    pub open spec fn counted(self, num_rows: u32, after: FileWriteState) -> bool {
        &&& after.num_rows_in_file == self.num_rows_in_file + num_rows
        &&& after.num_rows_in_cur_row_group == self.num_rows_in_cur_row_group + num_rows
        &&& after.out == self.out
        &&& after.taken == self.taken
        &&& after.data_checksum == self.data_checksum
        &&& after.row_groups_table == self.row_groups_table
        &&& after.num_physical_columns == self.num_physical_columns
        &&& after.enable_io_unit_checksum == self.enable_io_unit_checksum
        &&& after.enable_micro_index == self.enable_micro_index
        &&& after.start_offset_of_cur_row_group == self.start_offset_of_cur_row_group
        &&& after.column_metadatas_in_cur_row_group == self.column_metadatas_in_cur_row_group
        &&& after.rows_written_in_cur_row_group == self.rows_written_in_cur_row_group
    }

    /// Whether `after` is the file with its row group noted and another started.
    pub open spec fn ended(self, after: FileWriteState) -> bool {
        let old_groups = self.row_groups_table@;
        let groups = after.row_groups_table@;
        &&& after.out == self.out
        &&& after.taken == self.taken
        &&& after.data_checksum == self.data_checksum
        &&& after.num_rows_in_file == self.num_rows_in_file
        &&& after.num_physical_columns == self.num_physical_columns
        &&& after.enable_io_unit_checksum == self.enable_io_unit_checksum
        &&& after.enable_micro_index == self.enable_micro_index
        &&& groups.row_counts == old_groups.row_counts.push(self.num_rows_in_cur_row_group)
        &&& groups.offsets == old_groups.offsets.push(self.start_offset_of_cur_row_group)
        &&& groups.sizes == old_groups.sizes.push(
            (self.spec_position() - self.start_offset_of_cur_row_group) as u32,
        )
        &&& groups.indirect == old_groups.indirect
        &&& groups.metadata == old_groups.metadata.push(
            (RowGroupMetadata { col_metadatas: self.column_metadatas_in_cur_row_group }),
        )
        &&& after.num_rows_in_cur_row_group == 0
        &&& after.start_offset_of_cur_row_group == self.spec_position()
        &&& forall|i: int|
            0 <= i < after.num_physical_columns ==> is_unknown(
                #[trigger] after.column_metadatas_in_cur_row_group@[i],
            )
        &&& after.rows_written_in_cur_row_group@ == Seq::new(
            self.num_physical_columns as nat,
            |i: int| 0u64,
        )
    }

    /// Whether `after` is the file with its bytes taken.
    pub open spec fn emptied(self, after: FileWriteState) -> bool {
        &&& after.out@.len() == 0
        &&& after.taken == self.spec_position()
        &&& after.data_checksum == self.data_checksum
        &&& self.same_notes(after)
        &&& after.column_metadatas_in_cur_row_group == self.column_metadatas_in_cur_row_group
        &&& after.rows_written_in_cur_row_group == self.rows_written_in_cur_row_group
    }

    /// Whether `after` is the file with a chunk written: behind its units its index
    /// if it has one and indexes are written, and both noted.
    pub open spec fn flushed(self, chunk: EncodedColumnChunk, after: FileWriteState) -> bool {
        let c = chunk.column_index as int;
        let at = self.spec_position();
        let bytes = encoded_chunk::unit_bytes(chunk.encunits@) + (if self.enable_micro_index {
            aux_bytes(chunk)
        } else {
            Seq::empty()
        });
        let old_columns = self.column_metadatas_in_cur_row_group@;
        let columns = after.column_metadatas_in_cur_row_group@;
        let rows = self.rows_written_in_cur_row_group@;
        &&& self.same_notes(after)
        &&& after.taken == self.taken
        &&& after.out@ == self.out@ + bytes
        &&& after.data_checksum@ == self.data_checksum@ + bytes
        &&& columns.len() == old_columns.len()
        &&& forall|i: int|
            0 <= i < columns.len() && i != c ==> #[trigger] columns[i] == old_columns[i]
        &&& footer::chunks_of(columns[c].column_chunks@) == footer::chunks_of(
            old_columns[c].column_chunks@,
        ).push(chunk_note(chunk, at, self.enable_io_unit_checksum))
        &&& if self.enable_micro_index {
            &&& columns[c].vector_blocks@.len() == old_columns[c].vector_blocks@.len() + 1
            &&& columns[c].vector_blocks@.drop_last() == old_columns[c].vector_blocks@
            &&& is_block_note(columns[c].vector_blocks@.last(), chunk, at, rows[c])
            &&& after.rows_written_in_cur_row_group@ == rows.update(
                c,
                (rows[c] + chunk.num_rows) as u64,
            )
        } else {
            &&& columns[c].vector_blocks == old_columns[c].vector_blocks
            &&& after.rows_written_in_cur_row_group@ == rows
        }
    }
}

/// What is noted of a chunk that stands at `at`.
pub open spec fn chunk_note(chunk: EncodedColumnChunk, at: int, with_checksum: bool) -> footer::ChunkView {
    let bytes = encoded_chunk::unit_bytes(chunk.encunits@);
    footer::ChunkView {
        offset: at as u64,
        size: bytes.len() as u32,
        num_rows: chunk.num_rows as u64,
        encoding: chunk.dict_encoding@,
        units: encoded_chunk::unit_metas(chunk.encunits@),
        checksum: if with_checksum {
            Some(checksum::xxh64_of(bytes))
        } else {
            None
        },
    }
}

/// The bytes of the index of a chunk.
pub open spec fn aux_bytes(chunk: EncodedColumnChunk) -> Seq<u8> {
    match chunk.micro_index_aux {
        Some(aux) => aux.bytes@,
        None => Seq::empty(),
    }
}

/// Whether `b` is what is noted of the block of vectors that a chunk at `at` is,
/// when `row_start` rows stand in front of it.
pub open spec fn is_block_note(b: VectorBlock, chunk: EncodedColumnChunk, at: int, row_start: u64) -> bool {
    let size = encoded_chunk::unit_bytes(chunk.encunits@).len();
    &&& b.offset == at as u64
    &&& b.size == size as u32
    &&& b.row_start == row_start
    &&& b.row_count == (chunk.num_rows as u64) as u32
    &&& b.align == 4096
    &&& b.micro_index.wasm_offset == 0
    &&& b.micro_index.wasm_size == 0
    &&& b.micro_index.abi_major == 0
    &&& b.micro_index.abi_minor == 0
    &&& match chunk.micro_index_aux {
        Some(aux) => {
            &&& b.micro_index.aux_offset == (at + size) as u64
            &&& b.micro_index.aux_size == aux.bytes@.len() as u32
            &&& b.micro_index.reserved@ == aux.reserved@
        },
        None => {
            &&& b.micro_index.aux_offset == 0
            &&& b.micro_index.aux_size == 0
            &&& b.micro_index.reserved@.len() == 0
        },
    }
}

/// Columns of which nothing is known.
fn no_columns(n: usize) -> (r: Vec<ColumnMetadata>)
    ensures
        r@.len() == n,
        forall|i: int| 0 <= i < n ==> is_unknown(#[trigger] r@[i]),
{
    let mut columns: Vec<ColumnMetadata> = Vec::new();
    let mut i: usize = 0;
    while i < n
        invariant
            i <= n,
            columns@.len() == i,
            forall|j: int| 0 <= j < i ==> is_unknown(#[trigger] columns@[j]),
        decreases n - i,
    {
        columns.push(ColumnMetadata::default());
        i = i + 1;
    }
    columns
}

/// Whether nothing is known of a column.
pub open spec fn is_unknown(c: ColumnMetadata) -> bool {
    c.column_chunks@.len() == 0 && c.vector_blocks@.len() == 0 && c.io_hint_bytes == 0
}

impl FileWriteState {
    /// An empty file.
    pub fn new(
        num_physical_columns: usize,
        enable_io_unit_checksum: bool,
        enable_micro_index: bool,
    ) -> (r: Self)
        ensures
            r.valid(),
            r.spec_position() == 0,
            r.data_checksum@ == Seq::<u8>::empty(),
            r.row_groups_table@ == crate::row_groups::Groups::nothing(),
            r.num_rows_in_file == 0,
            r.num_physical_columns == num_physical_columns,
            r.enable_io_unit_checksum == enable_io_unit_checksum,
            r.enable_micro_index == enable_micro_index,
            r.start_offset_of_cur_row_group == 0,
            r.num_rows_in_cur_row_group == 0,
            forall|i: int|
                0 <= i < num_physical_columns ==> is_unknown(
                    #[trigger] r.column_metadatas_in_cur_row_group@[i],
                ),
            r.rows_written_in_cur_row_group@ == Seq::new(
                num_physical_columns as nat,
                |i: int| 0u64,
            ),
    {
        let rows_written: Vec<u64> = vec![0u64; num_physical_columns];
        assert(rows_written@ =~= Seq::new(num_physical_columns as nat, |i: int| 0u64));
        FileWriteState {
            out: Vec::new(),
            taken: 0,
            data_checksum: create_checksum(),
            row_groups_table: RowGroupsTable::default(),
            num_rows_in_file: 0,
            num_physical_columns,
            enable_io_unit_checksum,
            enable_micro_index,
            column_metadatas_in_cur_row_group: no_columns(num_physical_columns),
            start_offset_of_cur_row_group: 0,
            num_rows_in_cur_row_group: 0,
            rows_written_in_cur_row_group: rows_written,
        }
    }

    /// Where the next byte will stand.
    pub fn stream_position(&self) -> (r: u64)
        requires
            self.spec_position() <= u64::MAX,
        ensures
            r == self.spec_position(),
    {
        self.taken + self.out.len() as u64
    }

    /// Takes the bytes that have not been taken yet.
    pub fn take_bytes(&mut self) -> (r: Vec<u8>)
        requires
            old(self).valid(),
        ensures
            r@ == old(self).out@,
            final(self).valid(),
            old(self).emptied(*final(self)),
    {
        let n: u64 = self.out.len() as u64;
        let mut bytes: Vec<u8> = Vec::new();
        std::mem::swap(&mut bytes, &mut self.out);
        self.taken = self.taken + n;
        bytes
    }

    /// Writes bytes that count for the checksum of the data.
    pub fn write_and_update_file_level_checksum(&mut self, buf: &[u8])
        ensures
            old(self).wrote(*final(self), buf@),
    {
        le::put_bytes(&mut self.out, buf);
        self.data_checksum.update(buf);
    }

    /// Writes a chunk, and returns what is to be noted of it.
    pub fn flush_chunk_and_get_metadata(&mut self, chunk: EncodedColumnChunk) -> (r: Chunk)
        requires
            old(self).spec_position() + encoded_chunk::unit_bytes(chunk.encunits@).len()
                <= u64::MAX,
        ensures
            old(self).wrote(*final(self), encoded_chunk::unit_bytes(chunk.encunits@)),
            r@ == chunk_note(chunk, old(self).spec_position(), old(self).enable_io_unit_checksum),
    {
        let offset: u64 = self.stream_position();
        let ghost units = chunk.encunits@;
        let mut unit_checksum = create_checksum();
        let mut metas: Vec<EncUnit> = Vec::new();
        assert(units.take(0) =~= Seq::empty());
        assert(self.out@ =~= old(self).out@ + encoded_chunk::unit_bytes(units.take(0)));
        assert(self.data_checksum@ =~= old(self).data_checksum@ + encoded_chunk::unit_bytes(
            units.take(0),
        ));
        for unit in it: chunk.encunits
            invariant
                it.seq() == units,
                old(self).wrote(*self, encoded_chunk::unit_bytes(units.take(it.index() as int))),
                unit_checksum@ == encoded_chunk::unit_bytes(units.take(it.index() as int)),
                metas@.len() == it.index(),
                footer::units_of(metas@) =~= encoded_chunk::unit_metas(
                    units.take(it.index() as int),
                ),
        {
            let buf = unit.bytes();
            let slice = shared_slice(&buf);
            let size: u32 = #[verifier::truncate]
            (slice.len() as u32);
            let ghost k = it.index() as int;
            self.write_and_update_file_level_checksum(slice);
            unit_checksum.update(slice);
            let ghost before = metas@;
            metas.push(unit.into_meta(size));
            proof {
                let next = units.take(k + 1);
                assert(next.drop_last() =~= units.take(k));
                assert(next.last() == unit);
                let bytes = encoded_chunk::unit_bytes(units.take(k));
                assert(old(self).out@ + bytes + slice@ =~= old(self).out@ + (bytes + slice@));
                assert(old(self).data_checksum@ + bytes + slice@ =~= old(self).data_checksum@ + (
                bytes + slice@));
                assert(footer::units_of(metas@) =~= footer::units_of(before).push(
                    unit.spec_meta(),
                ));
                assert(encoded_chunk::unit_metas(next) =~= encoded_chunk::unit_metas(
                    units.take(k),
                ).push(unit.spec_meta()));
            }
        }
        assert(units.take(units.len() as int) =~= units);
        let size: u32 = #[verifier::truncate]
        ((self.stream_position() - offset) as u32);
        let sum: Option<u64> = if self.enable_io_unit_checksum {
            Some(unit_checksum.finalize())
        } else {
            None
        };
        Chunk::new(offset, size, chunk.num_rows as u64, chunk.dict_encoding, metas, sum)
    }
}

impl FileWriteState {
    /// Writes a chunk, behind it its index if it has one and indexes are written,
    /// and notes both.
    pub fn flush_chunk(&mut self, chunk: EncodedColumnChunk)
        requires
            old(self).valid(),
            chunk.column_index < old(self).num_physical_columns,
            old(self).spec_position() + encoded_chunk::unit_bytes(chunk.encunits@).len()
                + aux_bytes(chunk).len() <= u64::MAX,
            old(self).rows_written_in_cur_row_group@[chunk.column_index as int] + chunk.num_rows
                <= u64::MAX,
        ensures
            final(self).valid(),
            old(self).flushed(chunk, *final(self)),
    {
        let column: usize = chunk.column_index as usize;
        let num_rows: u64 = chunk.num_rows as u64;
        let mut chunk = chunk;
        let ghost whole = chunk;
        let mut aux = None;
        std::mem::swap(&mut aux, &mut chunk.micro_index_aux);
        let ghost bytes = encoded_chunk::unit_bytes(chunk.encunits@);
        let offset: u64 = self.stream_position();
        let meta = self.flush_chunk_and_get_metadata(chunk);
        assert(meta@ == chunk_note(whole, offset as int, self.enable_io_unit_checksum));
        if self.enable_micro_index {
            let mut micro_index = MicroIndex::none();
            if let Some(a) = aux {
                let aux_offset: u64 = self.stream_position();
                self.write_and_update_file_level_checksum(a.bytes.as_slice());
                let aux_size: u32 = #[verifier::truncate]
                ((self.stream_position() - aux_offset) as u32);
                micro_index.aux_offset = aux_offset;
                micro_index.aux_size = aux_size;
                micro_index.reserved = a.reserved;
                assert(self.out@ =~= old(self).out@ + (bytes + a.bytes@));
                assert(self.data_checksum@ =~= old(self).data_checksum@ + (bytes + a.bytes@));
            } else {
                assert(bytes + Seq::<u8>::empty() =~= bytes);
            }
            let row_start: u64 = self.rows_written_in_cur_row_group[column];
            self.rows_written_in_cur_row_group.set(column, row_start + num_rows);
            let block = VectorBlock {
                offset: meta.offset(),
                size: meta.size,
                row_start,
                row_count: #[verifier::truncate]
                (num_rows as u32),
                align: 4096,
                micro_index,
            };
            assert(is_block_note(block, whole, offset as int, row_start));
            self.column_metadatas_in_cur_row_group[column].add_vector_block(block, 0);
            proof {
                let before = old(self).column_metadatas_in_cur_row_group@[column as int];
                let after = self.column_metadatas_in_cur_row_group@[column as int];
                assert(after.vector_blocks@.drop_last() =~= before.vector_blocks@);
            }
        } else {
            assert(bytes + Seq::<u8>::empty() =~= bytes);
        }
        let ghost chunks = self.column_metadatas_in_cur_row_group@[column as int].column_chunks@;
        self.column_metadatas_in_cur_row_group[column].add_chunk(meta);
        proof {
            let now = self.column_metadatas_in_cur_row_group@[column as int].column_chunks@;
            assert(footer::chunks_of(now) =~= footer::chunks_of(chunks).push(meta@));
        }
    }

    /// Notes the row group that has been written, and starts another.
    pub fn finish_row_group(&mut self)
        requires
            old(self).valid(),
        ensures
            final(self).valid(),
            old(self).ended(*final(self)),
    {
        let position: u64 = self.stream_position();
        let mut columns: Vec<ColumnMetadata> = no_columns(self.num_physical_columns);
        std::mem::swap(&mut columns, &mut self.column_metadatas_in_cur_row_group);
        let size: u32 = #[verifier::truncate]
        ((position - self.start_offset_of_cur_row_group) as u32);
        self.row_groups_table.add_meta(
            self.num_rows_in_cur_row_group,
            self.start_offset_of_cur_row_group,
            size,
            RowGroupMetadata::new(columns),
        );
        self.num_rows_in_cur_row_group = 0;
        self.start_offset_of_cur_row_group = position;
        self.rows_written_in_cur_row_group = vec![0u64; self.num_physical_columns];
        assert(self.rows_written_in_cur_row_group@ =~= Seq::new(
            self.num_physical_columns as nat,
            |i: int| 0u64,
        ));
    }

    /// Counts the rows of a batch. Tells whether the row group has enough rows now.
    pub fn count_rows(&mut self, num_rows: u32, row_group_size: u64) -> (r: bool)
        requires
            old(self).valid(),
            old(self).num_rows_in_file + num_rows <= u32::MAX,
            old(self).num_rows_in_cur_row_group + num_rows <= u32::MAX,
        ensures
            final(self).valid(),
            old(self).counted(num_rows, *final(self)),
            r == (final(self).num_rows_in_cur_row_group >= row_group_size),
    {
        self.num_rows_in_file = self.num_rows_in_file + num_rows;
        self.num_rows_in_cur_row_group = self.num_rows_in_cur_row_group + num_rows;
        self.num_rows_in_cur_row_group as u64 >= row_group_size
    }

    /// Writes a part of the metadata, and returns where it is.
    pub fn write_section(&mut self, bytes: &[u8]) -> (r: MetadataSection)
        requires
            old(self).valid(),
            old(self).spec_position() + bytes@.len() <= u64::MAX,
        ensures
            final(self).valid(),
            old(self).wrote(*final(self), bytes@),
            r.offset == old(self).spec_position(),
            r.size == bytes@.len() as u32,
            r.compression_type.is_uncompressed(),
    {
        let offset: u64 = self.stream_position();
        self.write_and_update_file_level_checksum(bytes);
        let size: u32 = #[verifier::truncate]
        ((self.stream_position() - offset) as u32);
        MetadataSection { offset, size, compression_type: CompressionType::uncompressed() }
    }
}

} // verus!
