//! Laws of writing a file: what is written, and what is noted of it.
use crate::encoded_chunk;
use crate::encoded_chunk::EncodedColumnChunk;
use crate::footer;
use crate::footer::MetadataSection;
use crate::writer;
use crate::writer::FileWriteState;
use vstd::prelude::*;

verus! {

/// What is written goes behind what has been written, and counts for the checksum of the
/// data; nothing is noted of it.
pub proof fn bytes_are_appended(file: &mut FileWriteState, buf: &[u8])
    requires
        call_ensures(
            FileWriteState::write_and_update_file_level_checksum,
            (file, buf),
            (),
        ),
    ensures
        final(file).out@ == old(file).out@ + buf@,
        final(file).data_checksum@ == old(file).data_checksum@ + buf@,
        final(file).taken == old(file).taken,
        final(file).spec_position() == old(file).spec_position() + buf@.len(),
        final(file).num_rows_in_file == old(file).num_rows_in_file,
        final(file).num_rows_in_cur_row_group == old(file).num_rows_in_cur_row_group,
        final(file).row_groups_table == old(file).row_groups_table,
        final(file).start_offset_of_cur_row_group == old(file).start_offset_of_cur_row_group,
        final(file).column_metadatas_in_cur_row_group == old(file).column_metadatas_in_cur_row_group,
{
}

/// Bytes that are taken are those that were written and not taken before; where the next
/// byte stands does not change, nor what counts for the checksum.
pub proof fn bytes_are_taken(file: &mut FileWriteState, r: Vec<u8>)
    requires
        old(file).valid(),
        call_ensures(FileWriteState::take_bytes, (file,), r),
    ensures
        r@ == old(file).out@,
        final(file).out@.len() == 0,
        final(file).spec_position() == old(file).spec_position(),
        final(file).taken == old(file).taken + r@.len(),
        final(file).data_checksum == old(file).data_checksum,
        final(file).num_rows_in_file == old(file).num_rows_in_file,
        final(file).row_groups_table == old(file).row_groups_table,
{
}

/// Rows are counted for the file and for its row group, which has enough rows once it has
/// as many as it should.
pub proof fn rows_are_counted(file: &mut FileWriteState, num_rows: u32, row_group_size: u64, r: bool)
    requires
        call_ensures(FileWriteState::count_rows, (file, num_rows, row_group_size), r),
    ensures
        final(file).num_rows_in_file - old(file).num_rows_in_file == num_rows,
        final(file).num_rows_in_cur_row_group - old(file).num_rows_in_cur_row_group == num_rows,
        r <==> final(file).num_rows_in_cur_row_group >= row_group_size,
        final(file).out == old(file).out,
        final(file).spec_position() == old(file).spec_position(),
        final(file).row_groups_table == old(file).row_groups_table,
        final(file).column_metadatas_in_cur_row_group == old(file).column_metadatas_in_cur_row_group,
{
}

/// A row group that ends is noted behind the others, with its rows, where it starts, how
/// many bytes it has, and its columns; the next one starts where it ends, with nothing.
pub proof fn row_groups_end(file: &mut FileWriteState, i: int)
    requires
        old(file).valid(),
        old(file).spec_position() - old(file).start_offset_of_cur_row_group <= u32::MAX,
        call_ensures(FileWriteState::finish_row_group, (file,), ()),
        0 <= i < old(file).num_physical_columns,
    ensures
        ({
            let before = old(file).row_groups_table@;
            let after = final(file).row_groups_table@;
            &&& after.row_counts == before.row_counts.push(old(file).num_rows_in_cur_row_group)
            &&& after.offsets == before.offsets.push(old(file).start_offset_of_cur_row_group)
            &&& after.sizes.drop_last() == before.sizes
            &&& after.sizes.len() == before.sizes.len() + 1
            &&& old(file).start_offset_of_cur_row_group + after.sizes.last() == final(file).start_offset_of_cur_row_group
            &&& after.metadata.last().col_metadatas == old(file).column_metadatas_in_cur_row_group
            &&& after.metadata.drop_last() == before.metadata
            &&& final(file).start_offset_of_cur_row_group == old(file).spec_position()
            &&& final(file).spec_position() == old(file).spec_position()
            &&& final(file).out == old(file).out
            &&& final(file).num_rows_in_cur_row_group == 0
            &&& final(file).num_rows_in_file == old(file).num_rows_in_file
            &&& final(file).column_metadatas_in_cur_row_group@[i].column_chunks@.len() == 0
            &&& final(file).column_metadatas_in_cur_row_group@[i].vector_blocks@.len() == 0
            &&& final(file).rows_written_in_cur_row_group@[i] == 0
        }),
{
    let before = old(file).row_groups_table@;
    let after = final(file).row_groups_table@;
    assert(after.sizes.drop_last() =~= before.sizes);
    assert(after.metadata.drop_last() =~= before.metadata);
    assert(writer::is_unknown(final(file).column_metadatas_in_cur_row_group@[i]));
}

/// A chunk is noted in its column and in no other, behind those of the column before. What
/// is noted says where the bytes of its units stand in the file, and how many rows it has.
pub proof fn chunks_are_noted(file: &mut FileWriteState, chunk: EncodedColumnChunk, other: int)
    requires
        old(file).valid(),
        chunk.column_index < old(file).num_physical_columns,
        old(file).spec_position() + encoded_chunk::unit_bytes(chunk.encunits@).len() <= u64::MAX,
        encoded_chunk::unit_bytes(chunk.encunits@).len() <= u32::MAX,
        chunk.num_rows <= u64::MAX,
        call_ensures(FileWriteState::flush_chunk, (file, chunk), ()),
    ensures
        ({
            let c = chunk.column_index as int;
            let before = old(file).column_metadatas_in_cur_row_group@;
            let after = final(file).column_metadatas_in_cur_row_group@;
            let was = footer::chunks_of(before[c].column_chunks@);
            let noted = footer::chunks_of(after[c].column_chunks@);
            let note = noted.last();
            let from = note.offset - old(file).taken;
            &&& noted.len() == was.len() + 1
            &&& noted.drop_last() == was
            &&& note.num_rows == chunk.num_rows
            &&& note.offset == old(file).spec_position()
            &&& final(file).out@.subrange(from, from + note.size) == encoded_chunk::unit_bytes(
                chunk.encunits@,
            )
            &&& note.encoding == chunk.dict_encoding@
            &&& note.checksum is Some <==> old(file).enable_io_unit_checksum
            &&& final(file).out@.take(old(file).out@.len() as int) == old(file).out@
            &&& 0 <= other < after.len() && other != c ==> after[other] == before[other]
        }),
{
    let c = chunk.column_index as int;
    let before = old(file).column_metadatas_in_cur_row_group@;
    let after = final(file).column_metadatas_in_cur_row_group@;
    let bytes = encoded_chunk::unit_bytes(chunk.encunits@);
    let was = footer::chunks_of(before[c].column_chunks@);
    let noted = footer::chunks_of(after[c].column_chunks@);
    let note = noted.last();
    let from = note.offset - old(file).taken;
    assert(noted.drop_last() =~= was);
    assert(from == old(file).out@.len());
    assert(final(file).out@.subrange(from, from + note.size) =~= bytes);
    assert(final(file).out@.take(old(file).out@.len() as int) =~= old(file).out@);
}

/// With indexes, a block of vectors is noted too: its rows stand behind those that the
/// column has in the row group, its bytes are those of the units, and the bytes of its
/// index stand behind them. Without indexes, no block is noted and no index written.
pub proof fn blocks_are_noted(file: &mut FileWriteState, chunk: EncodedColumnChunk)
    requires
        old(file).valid(),
        chunk.column_index < old(file).num_physical_columns,
        old(file).spec_position() + encoded_chunk::unit_bytes(chunk.encunits@).len()
            + writer::aux_bytes(chunk).len() <= u64::MAX,
        encoded_chunk::unit_bytes(chunk.encunits@).len() <= u32::MAX,
        writer::aux_bytes(chunk).len() <= u32::MAX,
        chunk.num_rows <= u32::MAX,
        old(file).rows_written_in_cur_row_group@[chunk.column_index as int] + chunk.num_rows
            <= u64::MAX,
        call_ensures(FileWriteState::flush_chunk, (file, chunk), ()),
    ensures
        ({
            let c = chunk.column_index as int;
            let before = old(file).column_metadatas_in_cur_row_group@[c].vector_blocks@;
            let after = final(file).column_metadatas_in_cur_row_group@[c].vector_blocks@;
            let b = after.last();
            let bytes = encoded_chunk::unit_bytes(chunk.encunits@);
            &&& !old(file).enable_micro_index ==> {
                &&& after == before
                &&& final(file).out@ == old(file).out@ + bytes
                &&& final(file).rows_written_in_cur_row_group@ == old(file).rows_written_in_cur_row_group@
            }
            &&& old(file).enable_micro_index ==> {
                &&& after.len() == before.len() + 1
                &&& after.drop_last() == before
                &&& b.row_start == old(file).rows_written_in_cur_row_group@[c]
                &&& b.row_start + b.row_count == final(file).rows_written_in_cur_row_group@[c]
                &&& b.row_count == chunk.num_rows
                &&& b.offset == old(file).spec_position()
                &&& b.size == bytes.len()
                &&& b.align == 4096
                &&& chunk.micro_index_aux is Some ==> {
                    let from = b.micro_index.aux_offset - old(file).taken;
                    &&& b.micro_index.aux_offset == b.offset + b.size
                    &&& from + b.micro_index.aux_size == final(file).out@.len()
                    &&& final(file).out@.skip(from) == chunk.micro_index_aux->0.bytes@
                    &&& b.micro_index.reserved@ == chunk.micro_index_aux->0.reserved@
                }
                &&& chunk.micro_index_aux is None ==> {
                    &&& b.micro_index.aux_size == 0
                    &&& final(file).out@.len() == old(file).out@.len() + bytes.len()
                }
            }
        }),
{
    let c = chunk.column_index as int;
    let bytes = encoded_chunk::unit_bytes(chunk.encunits@);
    let after = final(file).column_metadatas_in_cur_row_group@[c].vector_blocks@;
    if old(file).enable_micro_index {
        if chunk.micro_index_aux is Some {
            let from = after.last().micro_index.aux_offset - old(file).taken;
            assert(from == old(file).out@.len() + bytes.len());
            assert(final(file).out@.skip(from) =~= chunk.micro_index_aux->0.bytes@);
        }
    } else {
        assert(final(file).out@ =~= old(file).out@ + bytes);
    }
}

/// A part of the metadata stands where its section says, uncompressed.
pub proof fn sections_are_written(file: &mut FileWriteState, bytes: &[u8], r: MetadataSection)
    requires
        old(file).valid(),
        bytes@.len() <= u32::MAX,
        call_ensures(FileWriteState::write_section, (file, bytes), r),
    ensures
        r.offset == old(file).spec_position(),
        r.offset + r.size == final(file).spec_position(),
        final(file).out@.skip(r.offset - old(file).taken) == bytes@,
        final(file).out@.take(r.offset - old(file).taken) == old(file).out@,
{
    let at = r.offset - old(file).taken;
    assert(final(file).out@.skip(at) =~= bytes@);
    assert(final(file).out@.take(at) =~= old(file).out@);
}

} // verus!
