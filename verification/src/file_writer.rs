//! Writing a file: its columns, and what is written once all rows are there.
use crate::checksum;
use crate::checksum::create_checksum;
use crate::encoded_chunk;
use crate::encoded_chunk::EncodedColumnChunk;
use crate::encoder;
use crate::encoder::{create_logical_encoder, LogicalColEncoder, LogicalId, LogicalTree};
use crate::file_footer;
use crate::file_footer::{
    footer_node, FooterNode, OptionalMetadataSections, SharedDictionaryNode,
};
use crate::file_format::{CompressionType, POSTSCRIPT_SIZE};
use crate::footer;
use crate::footer::{MetadataSection, RowGroupMetadata};
use crate::postscript;
use crate::postscript::{write_postscript, PostScript};
use crate::reader;
use crate::row_groups;
use crate::schema;
use crate::schema::{ColumnIndexSequence, DataType, Schema};
use crate::tables;
use crate::tables::ChunkTable;
use crate::vector_index::{VectorIndexConfig, VectorIndexDescriptor};
use crate::writer;
use crate::writer::FileWriteState;
use crate::writer_finish;
use crate::writer_finish::dictionary_positions;
use vstd::prelude::*;

verus! {

/// A file that is being written.
pub struct FileWriter {
    pub schema: Schema,
    pub column_encoders: Vec<LogicalColEncoder>,
    pub logical_tree: LogicalTree,
    pub state: FileWriteState,
    pub row_group_size: u64,
}

/// There are more bytes than can be counted.
#[derive(Clone, Copy, Debug, PartialEq, Eq, Structural)]
pub struct FileTooLarge;

impl FileWriter {
    /// What holds of a file that is being written all along.
    pub open spec fn valid(self) -> bool {
        &&& self.state.valid()
        &&& self.state.row_groups_table@.indirect.len() == 0
        &&& self.state.num_physical_columns == encoder::all_columns_of(
            self.column_encoders@,
        ).len()
    }

    /// Starts a file with these columns, which have to be ones that can be stored.
    /// Each column gets the next physical columns.
    pub fn try_new(
        schema: Schema,
        row_group_size: u64,
        enable_io_unit_checksum: bool,
        enable_micro_index: bool,
        pushdown: bool,
    ) -> (r: Self)
        requires
            schema::all_storable(schema.fields@),
            encoder::total_written_width(schema.fields@, pushdown) <= u32::MAX,
        ensures
            r.valid(),
            r.schema == schema,
            encoder::all_encode(
                r.column_encoders@,
                schema.fields@,
                enable_micro_index,
                pushdown,
            ),
            encoder::all_columns_of(r.column_encoders@) == encoder::consecutive(
                0,
                encoder::total_written_width(schema.fields@, pushdown),
            ),
            r.logical_tree.id == LogicalId::Struct,
            encoder::are_trees_of(r.logical_tree.children@, schema.fields@, pushdown),
            r.state.spec_position() == 0,
            r.state.data_checksum@ == Seq::<u8>::empty(),
            r.state.row_groups_table@ == row_groups::Groups::nothing(),
            r.state.num_physical_columns == encoder::total_written_width(schema.fields@, pushdown),
            r.state.enable_io_unit_checksum == enable_io_unit_checksum,
            r.state.enable_micro_index == enable_micro_index,
            r.state.num_rows_in_file == 0,
            r.state.num_rows_in_cur_row_group == 0,
            r.state.start_offset_of_cur_row_group == 0,
            forall|i: int|
                0 <= i < r.state.num_physical_columns ==> writer::is_unknown(
                    #[trigger] r.state.column_metadatas_in_cur_row_group@[i],
                ),
            r.state.rows_written_in_cur_row_group@ == Seq::new(
                r.state.num_physical_columns as nat,
                |i: int| 0u64,
            ),
            r.row_group_size == row_group_size,
    {
        let mut column_idx = ColumnIndexSequence::default();
        let mut encoders: Vec<LogicalColEncoder> = Vec::new();
        let mut trees: Vec<LogicalTree> = Vec::new();
        let fields = &schema.fields;
        let mut i: usize = 0;
        assert(fields@.take(0) =~= Seq::empty());
        assert(encoder::all_columns_of(encoders@) =~= encoder::consecutive(0, 0));
        while i < fields.len()
            invariant
                i <= fields@.len(),
                schema::all_storable(fields@),
                encoder::total_written_width(fields@, pushdown) <= u32::MAX,
                column_idx.next == encoder::total_written_width(fields@.take(i as int), pushdown),
                encoders@.len() == i,
                trees@.len() == i,
                encoder::all_encode(
                    encoders@,
                    fields@.take(i as int),
                    enable_micro_index,
                    pushdown,
                ),
                encoder::are_trees_of(trees@, fields@.take(i as int), pushdown),
                encoder::all_columns_of(encoders@) == encoder::consecutive(
                    0,
                    encoder::total_written_width(fields@.take(i as int), pushdown),
                ),
            decreases fields@.len() - i,
        {
            let ghost now = encoder::total_written_width(fields@.take(i as int), pushdown);
            let ghost e0 = encoders@;
            let ghost t0 = trees@;
            proof {
                let next = fields@.take(i + 1);
                assert(next.drop_last() =~= fields@.take(i as int));
                assert(next.last() == fields@[i as int]);
                encoder::written_width_grows(fields@, i + 1, pushdown);
                schema::each_storable(fields@, i as int);
            }
            let (e, t) = create_logical_encoder(
                &fields[i],
                &mut column_idx,
                enable_micro_index,
                pushdown,
            );
            encoders.push(e);
            trees.push(t);
            proof {
                assert(encoders@.drop_last() =~= e0);
                assert(trees@.drop_last() =~= t0);
                let w = encoder::written_width(fields@[i as int], pushdown);
                assert(encoder::consecutive(0, now) + encoder::consecutive(now as int, w)
                    =~= encoder::consecutive(0, now + w));
            }
            i = i + 1;
        }
        assert(fields@.take(i as int) =~= fields@);
        let num_physical_columns: usize = column_idx.get_current_index() as usize;
        FileWriter {
            schema,
            column_encoders: encoders,
            logical_tree: LogicalTree::new(LogicalId::Struct, trees),
            state: FileWriteState::new(
                num_physical_columns,
                enable_io_unit_checksum,
                enable_micro_index,
            ),
            row_group_size,
        }
    }
}

/// The bytes of chunks, one behind the other.
pub open spec fn chunks_bytes(chunks: Seq<EncodedColumnChunk>) -> Seq<u8>
    decreases chunks.len(),
{
    if chunks.len() == 0 {
        Seq::empty()
    } else {
        chunks_bytes(chunks.drop_last()) + encoded_chunk::unit_bytes(chunks.last().encunits@)
    }
}

/// What is noted of chunks that stand one behind the other from `at` on.
pub open spec fn chunk_notes(
    chunks: Seq<EncodedColumnChunk>,
    at: int,
    with_checksum: bool,
) -> Seq<footer::ChunkView> {
    Seq::new(
        chunks.len(),
        |i: int|
            writer::chunk_note(chunks[i], at + chunks_bytes(chunks.take(i)).len(), with_checksum),
    )
}

/// The chunks of all dictionaries, one dictionary behind the other.
pub open spec fn all_chunks(dicts: Seq<Vec<EncodedColumnChunk>>) -> Seq<EncodedColumnChunk>
    decreases dicts.len(),
{
    if dicts.len() == 0 {
        Seq::empty()
    } else {
        all_chunks(dicts.drop_last()) + dicts.last()@
    }
}

/// How many chunks each dictionary has.
pub open spec fn chunk_counts(dicts: Seq<Vec<EncodedColumnChunk>>) -> Seq<usize> {
    dicts.map_values(|d: Vec<EncodedColumnChunk>| d.len())
}

proof fn chunks_bytes_join(a: Seq<EncodedColumnChunk>, b: Seq<EncodedColumnChunk>)
    ensures
        chunks_bytes(a + b) == chunks_bytes(a) + chunks_bytes(b),
    decreases b.len(),
{
    if b.len() == 0 {
        assert(a + b =~= a);
        assert(chunks_bytes(a) + chunks_bytes(b) =~= chunks_bytes(a));
    } else {
        chunks_bytes_join(a, b.drop_last());
        assert((a + b).drop_last() =~= a + b.drop_last());
        assert(chunks_bytes(a + b) =~= chunks_bytes(a) + chunks_bytes(b));
    }
}

proof fn chunks_bytes_grow(chunks: Seq<EncodedColumnChunk>, n: int)
    requires
        0 <= n <= chunks.len(),
    ensures
        chunks_bytes(chunks.take(n)).len() <= chunks_bytes(chunks).len(),
{
    chunks_bytes_join(chunks.take(n), chunks.skip(n));
    assert(chunks.take(n) + chunks.skip(n) =~= chunks);
}

proof fn all_chunks_grow(dicts: Seq<Vec<EncodedColumnChunk>>, n: int)
    requires
        0 <= n <= dicts.len(),
    ensures
        chunks_bytes(all_chunks(dicts.take(n))).len() <= chunks_bytes(all_chunks(dicts)).len(),
    decreases dicts.len() - n,
{
    if n == dicts.len() {
        assert(dicts.take(n) =~= dicts);
    } else {
        assert(dicts.take(n + 1).drop_last() =~= dicts.take(n));
        chunks_bytes_join(all_chunks(dicts.take(n)), dicts[n]@);
        all_chunks_grow(dicts, n + 1);
    }
}

impl FileWriteState {
    /// Writes the chunks of dictionaries, and returns what is to be noted of them.
    pub fn flush_dictionaries(&mut self, dicts: Vec<Vec<EncodedColumnChunk>>) -> (r: Vec<
        ChunkTable,
    >)
        requires
            old(self).spec_position() + chunks_bytes(all_chunks(dicts@)).len() <= u64::MAX,
        ensures
            old(self).wrote(*final(self), chunks_bytes(all_chunks(dicts@))),
            r@.map_values(|c: ChunkTable| c.meaning()) == chunk_notes(
                all_chunks(dicts@),
                old(self).spec_position(),
                old(self).enable_io_unit_checksum,
            ),
            forall|i: int| 0 <= i < r@.len() ==> (#[trigger] r@[i]).complete(),
    {
        let ghost all = dicts@;
        let ghost at = self.spec_position();
        let ghost with_checksum = self.enable_io_unit_checksum;
        let mut tables: Vec<ChunkTable> = Vec::new();
        assert(all.take(0) =~= Seq::empty());
        assert(self.out@ =~= old(self).out@ + chunks_bytes(all_chunks(all.take(0))));
        assert(self.data_checksum@ =~= old(self).data_checksum@ + chunks_bytes(
            all_chunks(all.take(0)),
        ));
        for dict in it: dicts
            invariant
                it.seq() == all,
                at == old(self).spec_position(),
                with_checksum == old(self).enable_io_unit_checksum,
                at + chunks_bytes(all_chunks(all)).len() <= u64::MAX,
                old(self).wrote(*self, chunks_bytes(all_chunks(all.take(it.index() as int)))),
                tables@.len() == all_chunks(all.take(it.index() as int)).len(),
                forall|i: int|
                    0 <= i < tables@.len() ==> (#[trigger] tables@[i]).complete()
                        && tables@[i].meaning() == chunk_notes(
                        all_chunks(all.take(it.index() as int)),
                        at,
                        with_checksum,
                    )[i],
        {
            let ghost d = it.index() as int;
            let ghost front = all_chunks(all.take(d));
            let ghost items = dict@;
            let ghost before = tables@;
            proof {
                all_chunks_grow(all, d + 1);
                assert(all.take(d + 1).drop_last() =~= all.take(d));
                assert(all_chunks(all.take(d + 1)) == front + items);
                assert(front + items.take(0) =~= front);
            }
            for chunk in inner: dict
                invariant
                    inner.seq() == items,
                    at == old(self).spec_position(),
                    with_checksum == old(self).enable_io_unit_checksum,
                    at + chunks_bytes(front + items).len() <= u64::MAX,
                    old(self).wrote(
                        *self,
                        chunks_bytes(front + items.take(inner.index() as int)),
                    ),
                    tables@.len() == front.len() + inner.index(),
                    forall|i: int|
                        0 <= i < tables@.len() ==> (#[trigger] tables@[i]).complete()
                            && tables@[i].meaning() == chunk_notes(
                            front + items.take(inner.index() as int),
                            at,
                            with_checksum,
                        )[i],
            {
                let ghost k = inner.index() as int;
                let ghost done = front + items.take(k);
                let ghost next = front + items.take(k + 1);
                proof {
                    assert(next.drop_last() =~= done);
                    assert(next.last() == chunk);
                    chunks_bytes_grow(front + items, front.len() + k + 1);
                    assert((front + items).take(front.len() + k + 1) =~= next);
                }
                let meta = self.flush_chunk_and_get_metadata(chunk);
                let ghost was = tables@;
                tables.push(meta.to_fb());
                proof {
                    assert(old(self).out@ + chunks_bytes(done) + encoded_chunk::unit_bytes(
                        chunk.encunits@,
                    ) =~= old(self).out@ + chunks_bytes(next));
                    assert(old(self).data_checksum@ + chunks_bytes(done)
                        + encoded_chunk::unit_bytes(chunk.encunits@) =~= old(self).data_checksum@
                        + chunks_bytes(next));
                    assert forall|i: int| 0 <= i < tables@.len() implies (
                    #[trigger] tables@[i]).complete() && tables@[i].meaning() == chunk_notes(
                        next,
                        at,
                        with_checksum,
                    )[i] by {
                        assert(next.take(i) =~= (if i < done.len() {
                            done.take(i)
                        } else {
                            done
                        }));
                        if i < done.len() {
                            assert(tables@[i] == was[i]);
                            assert(next[i] == done[i]);
                        }
                    }
                }
            }
            assert(items.take(items.len() as int) =~= items);
        }
        assert(all.take(all.len() as int) =~= all);
        assert(tables@.map_values(|c: ChunkTable| c.meaning()) =~= chunk_notes(
            all_chunks(all),
            at,
            with_checksum,
        ));
        tables
    }

    /// Writes modules one behind the other, and returns where they are.
    pub fn write_modules(&mut self, modules: &Vec<Vec<u8>>) -> (r: Vec<MetadataSection>)
        requires
            old(self).valid(),
            old(self).spec_position() + row_groups::joined(
                row_groups::parts_of(modules@),
            ).len() <= u64::MAX,
        ensures
            final(self).valid(),
            old(self).wrote(*final(self), row_groups::joined(row_groups::parts_of(modules@))),
            r@ == row_groups::sections_of(
                row_groups::parts_of(modules@),
                old(self).spec_position(),
            ),
    {
        let ghost parts = row_groups::parts_of(modules@);
        let ghost at = self.spec_position();
        let mut sections: Vec<MetadataSection> = Vec::new();
        let mut i: usize = 0;
        assert(parts.take(0) =~= Seq::empty());
        assert(self.out@ =~= old(self).out@ + row_groups::joined(parts.take(0)));
        assert(self.data_checksum@ =~= old(self).data_checksum@ + row_groups::joined(
            parts.take(0),
        ));
        while i < modules.len()
            invariant
                i <= modules@.len(),
                parts == row_groups::parts_of(modules@),
                at == old(self).spec_position(),
                at + row_groups::joined(parts).len() <= u64::MAX,
                self.valid(),
                old(self).wrote(*self, row_groups::joined(parts.take(i as int))),
                sections@.len() == i,
                forall|j: int|
                    0 <= j < i ==> #[trigger] sections@[j] == row_groups::section_of(parts, at, j),
            decreases modules@.len() - i,
        {
            proof {
                row_groups::joined_grows(parts, i as int);
                assert(parts[i as int] == modules@[i as int]@);
            }
            let ghost done = row_groups::joined(parts.take(i as int));
            sections.push(self.write_section(modules[i].as_slice()));
            proof {
                assert(old(self).out@ + done + parts[i as int] =~= old(self).out@ + (done
                    + parts[i as int]));
                assert(old(self).data_checksum@ + done + parts[i as int] =~= old(
                    self,
                ).data_checksum@ + (done + parts[i as int]));
            }
            i = i + 1;
        }
        assert(parts.take(i as int) =~= parts);
        assert(sections@ =~= row_groups::sections_of(parts, at));
        sections
    }

    /// Writes a part of the metadata, if so many bytes can be counted.
    fn try_write_section(&mut self, bytes: &[u8]) -> (r: Result<MetadataSection, FileTooLarge>)
        requires
            old(self).valid(),
        ensures
            final(self).valid(),
            r is Err <==> old(self).spec_position() + bytes@.len() > u64::MAX,
            r is Err ==> *final(self) == *old(self),
            r matches Ok(s) ==> old(self).wrote(*final(self), bytes@) && s
                == writer_finish::section_at(old(self).spec_position(), bytes@.len()),
    {
        let at: u64 = self.stream_position();
        if bytes.len() as u64 > u64::MAX - at {
            return Err(FileTooLarge);
        }
        Ok(self.write_section(bytes))
    }
}

/// The bytes that chunks take at most, with their indexes.
pub open spec fn most_bytes(chunks: Seq<EncodedColumnChunk>) -> nat
    decreases chunks.len(),
{
    if chunks.len() == 0 {
        0
    } else {
        most_bytes(chunks.drop_last()) + encoded_chunk::unit_bytes(chunks.last().encunits@).len()
            + writer::aux_bytes(chunks.last()).len()
    }
}

/// The rows of chunks.
pub open spec fn rows_of(chunks: Seq<EncodedColumnChunk>) -> nat
    decreases chunks.len(),
{
    if chunks.len() == 0 {
        0
    } else {
        rows_of(chunks.drop_last()) + chunks.last().num_rows as nat
    }
}

/// Whether `after` is the file with chunks written, one after the other.
pub open spec fn all_flushed(
    before: FileWriteState,
    chunks: Seq<EncodedColumnChunk>,
    after: FileWriteState,
) -> bool
    decreases chunks.len(),
{
    if chunks.len() == 0 {
        after == before
    } else {
        exists|mid: FileWriteState|
            all_flushed(before, chunks.drop_last(), mid) && #[trigger] mid.flushed(
                chunks.last(),
                after,
            )
    }
}

/// Whether no column has more than `n` rows in the row group.
pub open spec fn rows_within(s: FileWriteState, n: int) -> bool {
    forall|i: int|
        0 <= i < s.rows_written_in_cur_row_group@.len()
            ==> #[trigger] s.rows_written_in_cur_row_group@[i] <= n
}

proof fn sums_grow(chunks: Seq<EncodedColumnChunk>, n: int)
    requires
        0 <= n <= chunks.len(),
    ensures
        most_bytes(chunks.take(n)) <= most_bytes(chunks),
        rows_of(chunks.take(n)) <= rows_of(chunks),
    decreases chunks.len() - n,
{
    if n == chunks.len() {
        assert(chunks.take(n) =~= chunks);
    } else {
        assert(chunks.take(n + 1).drop_last() =~= chunks.take(n));
        sums_grow(chunks, n + 1);
    }
}

impl FileWriteState {
    /// Writes chunks, one after the other, and notes them. No column may have more
    /// than `rows` rows yet.
    pub fn flush_chunks(&mut self, chunks: Vec<EncodedColumnChunk>)
        requires
            old(self).valid(),
            forall|i: int|
                0 <= i < chunks@.len() ==> (#[trigger] chunks@[i]).column_index < old(
                    self,
                ).num_physical_columns,
            old(self).spec_position() + most_bytes(chunks@) <= u64::MAX,
            rows_of(chunks@) <= u64::MAX,
            rows_within(*old(self), u64::MAX - rows_of(chunks@)),
        ensures
            final(self).valid(),
            all_flushed(*old(self), chunks@, *final(self)),
    {
        let ghost all = chunks@;
        let ghost start = self.spec_position();
        let ghost room = u64::MAX - rows_of(all);
        assert(all.take(0) =~= Seq::empty());
        for chunk in it: chunks
            invariant
                it.seq() == all,
                start == old(self).spec_position(),
                room == u64::MAX - rows_of(all),
                self.valid(),
                self.num_physical_columns == old(self).num_physical_columns,
                forall|i: int|
                    0 <= i < all.len() ==> (#[trigger] all[i]).column_index < old(
                        self,
                    ).num_physical_columns,
                start + most_bytes(all) <= u64::MAX,
                self.spec_position() <= start + most_bytes(all.take(it.index() as int)),
                rows_within(*self, room + rows_of(all.take(it.index() as int))),
                all_flushed(*old(self), all.take(it.index() as int), *self),
        {
            let ghost k = it.index() as int;
            let ghost mid = *self;
            proof {
                let next = all.take(k + 1);
                assert(next.drop_last() =~= all.take(k));
                assert(next.last() == chunk);
                sums_grow(all, k + 1);
                assert(all[k].column_index < old(self).num_physical_columns);
                let c = chunk.column_index as int;
                assert(self.rows_written_in_cur_row_group@[c] <= room + rows_of(all.take(k)));
            }
            self.flush_chunk(chunk);
            proof {
                assert(all_flushed(*old(self), all.take(k + 1).drop_last(), mid));
                assert(mid.flushed(all.take(k + 1).last(), *self));
                assert forall|i: int| 0 <= i < self.rows_written_in_cur_row_group@.len() implies
                    #[trigger] self.rows_written_in_cur_row_group@[i] <= room + rows_of(
                    all.take(k + 1),
                ) by {
                    assert(mid.rows_written_in_cur_row_group@[i] <= room + rows_of(all.take(k)));
                }
            }
        }
        assert(all.take(all.len() as int) =~= all);
    }
}

impl FileWriter {
    /// Writes the chunks that came of a batch, and counts its rows. Tells whether
    /// the row group has enough rows: then what is pending has to be written, and
    /// the row group finished.
    pub fn write_batch(&mut self, chunks: Vec<EncodedColumnChunk>, num_rows: u32) -> (r: bool)
        requires
            old(self).valid(),
            forall|i: int|
                0 <= i < chunks@.len() ==> (#[trigger] chunks@[i]).column_index < old(
                    self,
                ).state.num_physical_columns,
            old(self).state.spec_position() + most_bytes(chunks@) <= u64::MAX,
            rows_of(chunks@) <= u64::MAX,
            rows_within(old(self).state, u64::MAX - rows_of(chunks@)),
            old(self).state.num_rows_in_file + num_rows <= u32::MAX,
            old(self).state.num_rows_in_cur_row_group + num_rows <= u32::MAX,
        ensures
            final(self).valid(),
            final(self).schema == old(self).schema,
            final(self).column_encoders == old(self).column_encoders,
            final(self).logical_tree == old(self).logical_tree,
            final(self).row_group_size == old(self).row_group_size,
            exists|mid: FileWriteState|
                #[trigger] all_flushed(old(self).state, chunks@, mid) && mid.counted(
                    num_rows,
                    final(self).state,
                ),
            r == (old(self).state.num_rows_in_cur_row_group + num_rows >= old(
                self,
            ).row_group_size),
    {
        let ghost begin = self.state;
        self.state.flush_chunks(chunks);
        let ghost mid = self.state;
        proof {
            flushed_keeps(begin, chunks@, mid);
        }
        let size: u64 = self.row_group_size;
        self.state.count_rows(num_rows, size)
    }
}

impl FileWriter {
    /// Writes the chunks that the encoders still held.
    pub fn flush_pending_chunks(&mut self, pending: Vec<EncodedColumnChunk>)
        requires
            old(self).valid(),
            forall|i: int|
                0 <= i < pending@.len() ==> (#[trigger] pending@[i]).column_index < old(
                    self,
                ).state.num_physical_columns,
            old(self).state.spec_position() + most_bytes(pending@) <= u64::MAX,
            rows_of(pending@) <= u64::MAX,
            rows_within(old(self).state, u64::MAX - rows_of(pending@)),
        ensures
            final(self).valid(),
            final(self).schema == old(self).schema,
            final(self).column_encoders == old(self).column_encoders,
            final(self).logical_tree == old(self).logical_tree,
            final(self).row_group_size == old(self).row_group_size,
            all_flushed(old(self).state, pending@, final(self).state),
    {
        let ghost begin = self.state;
        self.state.flush_chunks(pending);
        proof {
            flushed_keeps(begin, pending@, self.state);
        }
    }

    /// Ends a row group: writes what the encoders still held, and notes the group.
    pub fn end_row_group(&mut self, pending: Vec<EncodedColumnChunk>)
        requires
            old(self).valid(),
            forall|i: int|
                0 <= i < pending@.len() ==> (#[trigger] pending@[i]).column_index < old(
                    self,
                ).state.num_physical_columns,
            old(self).state.spec_position() + most_bytes(pending@) <= u64::MAX,
            rows_of(pending@) <= u64::MAX,
            rows_within(old(self).state, u64::MAX - rows_of(pending@)),
        ensures
            final(self).valid(),
            final(self).schema == old(self).schema,
            final(self).column_encoders == old(self).column_encoders,
            final(self).logical_tree == old(self).logical_tree,
            final(self).row_group_size == old(self).row_group_size,
            exists|mid: FileWriteState|
                #[trigger] all_flushed(old(self).state, pending@, mid) && mid.ended(
                    final(self).state,
                ),
    {
        self.flush_pending_chunks(pending);
        self.state.finish_row_group();
    }
}

/// Writing chunks changes nothing that is noted of the row group but its columns.
pub proof fn flushed_keeps(before: FileWriteState, chunks: Seq<EncodedColumnChunk>, after: FileWriteState)
    requires
        all_flushed(before, chunks, after),
    ensures
        before.same_notes(after),
        after.taken == before.taken,
        after.spec_position() <= before.spec_position() + most_bytes(chunks),
    decreases chunks.len(),
{
    if chunks.len() > 0 {
        let mid = choose|mid: FileWriteState|
            all_flushed(before, chunks.drop_last(), mid) && #[trigger] mid.flushed(
                chunks.last(),
                after,
            );
        flushed_keeps(before, chunks.drop_last(), mid);
    }
}

/// What is written once all rows are there.
pub struct FinishParts {
    /// The chunks that the encoders still held.
    pub pending: Vec<EncodedColumnChunk>,
    /// The chunks of each dictionary of the file.
    pub dicts: Vec<Vec<EncodedColumnChunk>>,
    /// The dictionary that each was merged with.
    pub merge_peers: Vec<Option<usize>>,
    /// The types of the values of each dictionary.
    pub dict_types: Vec<DataType>,
    /// The modules that decode the file.
    pub modules: Vec<Vec<u8>>,
    /// The module that searches blocks of vectors.
    pub micro_module: Option<Vec<u8>>,
    pub vector_indexes: Vec<VectorIndexConfig>,
    /// The schema as a message.
    pub schema_message: Vec<u8>,
}

/// The modules that are written: the one that searches blocks comes last, and only
/// if blocks are noted.
pub open spec fn modules_of(parts: FinishParts, enable_micro_index: bool) -> Seq<Seq<u8>> {
    let modules = row_groups::parts_of(parts.modules@);
    match parts.micro_module {
        Some(m) => if enable_micro_index {
            modules.push(m@)
        } else {
            modules
        },
        None => modules,
    }
}

/// The bytes that are written before the metadata starts.
pub open spec fn last_data(parts: FinishParts, enable_micro_index: bool) -> Seq<u8> {
    chunks_bytes(all_chunks(parts.dicts@)) + row_groups::joined(
        modules_of(parts, enable_micro_index),
    ) + writer_finish::configs_bytes(parts.vector_indexes@)
}

/// A file of which all data has been written, but not the table of the modules.
pub struct Finishing {
    pub state: FileWriteState,
    pub logical_tree: LogicalTree,
    pub schema_message: Vec<u8>,
    pub dictionaries: SharedDictionaryNode,
    /// Where the modules are.
    pub module_sections: Vec<MetadataSection>,
    pub indexes: Vec<VectorIndexDescriptor>,
}

/// Whether `node` says which chunks the dictionaries are made of, if the chunks
/// stand at `at`.
pub open spec fn is_dictionary_node(
    node: SharedDictionaryNode,
    parts: FinishParts,
    at: int,
    with_checksum: bool,
) -> bool {
    &&& node.chunks@.map_values(|c: ChunkTable| c.meaning()) == chunk_notes(
        all_chunks(parts.dicts@),
        at,
        with_checksum,
    )
    &&& node.positions@.len() == parts.dicts@.len()
    &&& forall|i: int|
        0 <= i < node.positions@.len() ==> (#[trigger] node.positions@[i])@
            == writer_finish::dictionary_chunks(
            chunk_counts(parts.dicts@),
            parts.merge_peers@,
            i,
        )
    &&& node.data_types == parts.dict_types
}

/// Whether `after` are the row groups of `before` with the module at `section`
/// noted in all blocks of vectors, if there is one.
pub open spec fn with_micro_module(
    before: Seq<RowGroupMetadata>,
    after: Seq<RowGroupMetadata>,
    section: Option<MetadataSection>,
) -> bool {
    match section {
        None => after == before,
        Some(s) => {
            &&& after.len() == before.len()
            &&& forall|g: int|
                0 <= g < before.len() ==> row_groups::columns_with_module(
                    before[g].col_metadatas@,
                    (#[trigger] after[g]).col_metadatas@,
                    before[g].col_metadatas@.len() as int,
                    s.offset,
                    s.size,
                    (0, 1),
                )
        },
    }
}

/// The module that searches blocks, if it is written.
pub open spec fn micro_section(parts: FinishParts, enable_micro_index: bool, at: int) -> Option<
    MetadataSection,
> {
    let modules = modules_of(parts, enable_micro_index);
    if enable_micro_index && parts.micro_module is Some {
        Some(row_groups::section_of(modules, at, modules.len() - 1))
    } else {
        None
    }
}

/// Whether `r` is the file `s`, whose columns have all been written, with its row
/// group ended and with what comes before the metadata written behind it: the
/// dictionaries, the modules and the vector indexes.
pub open spec fn is_finishing(s: FileWriteState, parts: FinishParts, r: Finishing) -> bool {
    let micro = s.enable_micro_index;
    let at = s.spec_position();
    let dicts = chunks_bytes(all_chunks(parts.dicts@));
    let modules = modules_of(parts, micro);
    let modules_at = at + dicts.len();
    let indexes_at = modules_at + row_groups::joined(modules).len();
    let before = s.row_groups_table@;
    let after = r.state.row_groups_table@;
    let columns = s.column_metadatas_in_cur_row_group;
    &&& r.schema_message == parts.schema_message
    &&& r.state.out@ == s.out@ + last_data(parts, micro)
    &&& r.state.data_checksum@ == s.data_checksum@ + last_data(parts, micro)
    &&& r.state.taken == s.taken
    &&& r.state.num_rows_in_file == s.num_rows_in_file
    &&& is_dictionary_node(r.dictionaries, parts, at, s.enable_io_unit_checksum)
    &&& r.module_sections@ == row_groups::sections_of(modules, modules_at)
    &&& r.indexes@.len() == parts.vector_indexes@.len()
    &&& forall|i: int|
        0 <= i < r.indexes@.len() ==> (#[trigger] r.indexes@[i])@
            == parts.vector_indexes@[i].descriptor(
            Some(
                writer_finish::data_section_of(
                    parts.vector_indexes@[i],
                    writer_finish::config_at(parts.vector_indexes@, indexes_at, i),
                ),
            ),
            writer_finish::wasm_section_of(
                parts.vector_indexes@[i],
                writer_finish::config_at(parts.vector_indexes@, indexes_at, i),
            ),
        )
    &&& after.row_counts == before.row_counts.push(s.num_rows_in_cur_row_group)
    &&& after.offsets == before.offsets.push(s.start_offset_of_cur_row_group)
    &&& after.sizes == before.sizes.push((at - s.start_offset_of_cur_row_group) as u32)
    &&& after.indirect == before.indirect
    &&& with_micro_module(
        before.metadata.push((RowGroupMetadata { col_metadatas: columns })),
        after.metadata,
        micro_section(parts, micro, modules_at),
    )
}

impl FileWriter {
    /// Writes what the encoders still held, ends the last row group, and writes what
    /// comes before the metadata: the dictionaries, the modules and the vector
    /// indexes.
    pub fn finish(self, parts: FinishParts) -> (r: Finishing)
        requires
            self.valid(),
            forall|i: int|
                0 <= i < parts.pending@.len() ==> (#[trigger] parts.pending@[i]).column_index
                    < self.state.num_physical_columns,
            self.state.spec_position() + most_bytes(parts.pending@) + last_data(
                parts,
                self.state.enable_micro_index,
            ).len() <= u64::MAX,
            rows_of(parts.pending@) <= u64::MAX,
            rows_within(self.state, u64::MAX - rows_of(parts.pending@)),
            writer_finish::chunks_before(
                chunk_counts(parts.dicts@),
                parts.dicts@.len() as int,
            ) <= u32::MAX,
            forall|i: int|
                0 <= i < parts.merge_peers@.len() && i < parts.dicts@.len() ==> ((
                #[trigger] parts.merge_peers@[i]) matches Some(p) ==> p < parts.dicts@.len()),
        ensures
            r.state.valid(),
            r.state.row_groups_table@.indirect.len() == 0,
            r.logical_tree == self.logical_tree,
            exists|mid: FileWriteState|
                #[trigger] all_flushed(self.state, parts.pending@, mid) && is_finishing(
                    mid,
                    parts,
                    r,
                ),
    {
        let mut state = self.state;
        let ghost parts0 = parts;
        state.flush_chunks(parts.pending);
        let ghost begin = state;
        proof {
            flushed_keeps(self.state, parts.pending@, begin);
        }
        let ghost micro = state.enable_micro_index;
        let ghost dict_bytes = chunks_bytes(all_chunks(parts.dicts@));
        let ghost all_modules = modules_of(parts, micro);
        state.finish_row_group();
        let ghost groups = begin.row_groups_table@.metadata.push(
            RowGroupMetadata { col_metadatas: begin.column_metadatas_in_cur_row_group },
        );
        assert(state.row_groups_table@.metadata =~= groups);
        let mut counts: Vec<usize> = Vec::new();
        let mut i: usize = 0;
        while i < parts.dicts.len()
            invariant
                i <= parts.dicts@.len(),
                counts@.len() == i,
                forall|j: int| 0 <= j < i ==> #[trigger] counts@[j] == parts.dicts@[j]@.len(),
            decreases parts.dicts@.len() - i,
        {
            counts.push(parts.dicts[i].len());
            i = i + 1;
        }
        assert(counts@ =~= chunk_counts(parts.dicts@));
        let positions = dictionary_positions(&counts, &parts.merge_peers);
        let ghost s1 = state;
        let chunks = state.flush_dictionaries(parts.dicts);
        let dictionaries = SharedDictionaryNode { chunks, positions, data_types: parts.dict_types };
        let ghost s2 = state;
        let mut modules = parts.modules;
        let mut has_micro = false;
        if state.enable_micro_index {
            if let Some(m) = parts.micro_module {
                modules.push(m);
                has_micro = true;
            }
        }
        assert(row_groups::parts_of(modules@) =~= all_modules);
        let module_sections = state.write_modules(&modules);
        let ghost s3 = state;
        if has_micro {
            let s = module_sections[module_sections.len() - 1];
            state.row_groups_table.apply_micro_index_offset(s.offset, s.size, (0, 1));
        }
        let ghost s4 = state;
        let indexes = state.write_vector_indexes(parts.vector_indexes);
        proof {
            let joined = row_groups::joined(all_modules);
            let configs = writer_finish::configs_bytes(parts0.vector_indexes@);
            assert(state.out@ =~= begin.out@ + last_data(parts0, micro));
            assert(state.data_checksum@ =~= begin.data_checksum@ + last_data(parts0, micro));
        }
        let r = Finishing {
            state,
            logical_tree: self.logical_tree,
            schema_message: parts.schema_message,
            dictionaries,
            module_sections,
            indexes,
        };
        assert(all_flushed(self.state, parts0.pending@, begin));
        assert(is_finishing(begin, parts0, r));
        r
    }
}

/// A file of which all but the metadata has been written.
pub struct MetadataReady {
    pub state: FileWriteState,
    pub logical_tree: LogicalTree,
    pub schema_message: Vec<u8>,
    pub dictionaries: SharedDictionaryNode,
    pub sections: OptionalMetadataSections,
    pub indexes: Vec<VectorIndexDescriptor>,
}

impl Finishing {
    /// Writes the table of the modules, which tells where they are.
    pub fn write_modules_table(self, table: &[u8]) -> (r: Result<MetadataReady, FileTooLarge>)
        requires
            self.state.valid(),
        ensures
            r is Err <==> self.state.spec_position() + table@.len() > u64::MAX,
            r matches Ok(f) ==> {
                &&& f.state.valid()
                &&& self.state.wrote(f.state, table@)
                &&& f.logical_tree == self.logical_tree
                &&& f.schema_message == self.schema_message
                &&& f.dictionaries == self.dictionaries
                &&& f.indexes == self.indexes
                &&& f.sections.names@.len() == 1
                &&& f.sections.names@[0]@ == "WASMBinaries"@
                &&& f.sections.offsets@ == seq![self.state.spec_position() as u64]
                &&& f.sections.sizes@ == seq![table@.len() as u32]
                &&& f.sections.compression_types@ == seq![CompressionType { code: 0 }]
            },
    {
        let mut state = self.state;
        let section = match state.try_write_section(table) {
            Err(e) => {
                return Err(e);
            },
            Ok(s) => s,
        };
        let mut names: Vec<String> = Vec::new();
        names.push("WASMBinaries".to_owned());
        let sections = OptionalMetadataSections {
            names,
            offsets: vec![section.offset],
            sizes: vec![section.size],
            compression_types: vec![section.compression_type],
        };
        assert(sections.offsets@ =~= seq![self.state.spec_position() as u64]);
        assert(sections.sizes@ =~= seq![table@.len() as u32]);
        assert(sections.compression_types@ =~= seq![CompressionType { code: 0 }]);
        Ok(
            MetadataReady {
                state,
                logical_tree: self.logical_tree,
                schema_message: self.schema_message,
                dictionaries: self.dictionaries,
                sections,
                indexes: self.indexes,
            },
        )
    }
}

/// A file of which all but the footer has been written.
pub struct FooterReady {
    pub state: FileWriteState,
    /// Where the metadata starts.
    pub metadata_start: u64,
    /// What the footer says.
    pub node: FooterNode,
    pub schema_checksum: u64,
}

/// How many bytes columns take; nothing if they cannot be counted.
fn count_columns(groups: &Vec<Vec<Vec<u8>>>) -> (r: Option<u64>)
    ensures
        match r {
            Some(n) => n == row_groups::all_joined(row_groups::group_parts(groups@)).len(),
            None => row_groups::all_joined(row_groups::group_parts(groups@)).len() > u64::MAX,
        },
{
    let ghost all = row_groups::group_parts(groups@);
    let mut total: u64 = 0;
    let mut g: usize = 0;
    assert(all.take(0) =~= Seq::empty());
    while g < groups.len()
        invariant
            g <= groups@.len(),
            all == row_groups::group_parts(groups@),
            total == row_groups::all_joined(all.take(g as int)).len(),
        decreases groups@.len() - g,
    {
        let columns = &groups[g];
        let ghost parts = all[g as int];
        let ghost before = total;
        proof {
            row_groups::all_joined_grows(all, g as int);
            assert(parts == row_groups::parts_of(columns@));
            assert(parts.take(0) =~= Seq::empty());
        }
        let mut c: usize = 0;
        while c < columns.len()
            invariant
                c <= columns@.len(),
                g < groups@.len(),
                all == row_groups::group_parts(groups@),
                parts == all[g as int],
                parts == row_groups::parts_of(columns@),
                before == row_groups::all_joined(all.take(g as int)).len(),
                total == before + row_groups::joined(parts.take(c as int)).len(),
                row_groups::all_joined(all.take(g + 1)).len() == before + row_groups::joined(
                    parts,
                ).len(),
                row_groups::all_joined(all.take(g + 1)).len() <= row_groups::all_joined(all).len(),
            decreases columns@.len() - c,
        {
            proof {
                row_groups::joined_grows(parts, c as int);
                assert(parts[c as int] == columns@[c as int]@);
            }
            match total.checked_add(columns[c].len() as u64) {
                None => {
                    return None;
                },
                Some(t) => {
                    total = t;
                },
            }
            c = c + 1;
        }
        assert(parts.take(c as int) =~= parts);
        g = g + 1;
    }
    assert(all.take(g as int) =~= all);
    Some(total)
}

/// Whether the row groups say where these columns are, if they stand at `start`.
pub open spec fn sections_say(
    groups: row_groups::Groups,
    columns: Seq<Seq<Seq<u8>>>,
    start: int,
) -> bool {
    &&& groups.indirect.len() == columns.len()
    &&& forall|g: int|
        0 <= g < columns.len() ==> (#[trigger] groups.indirect[g]).col_metadatas@
            == row_groups::sections_of(columns[g], row_groups::group_start(columns, start, g))
}

impl MetadataReady {
    /// Writes the metadata of the columns, given as bytes for each row group and
    /// column, and puts the footer together.
    pub fn write_columns(self, columns: &Vec<Vec<Vec<u8>>>) -> (r: Result<
        FooterReady,
        FileTooLarge,
    >)
        requires
            self.state.valid(),
            self.state.row_groups_table@.indirect.len() == 0,
        ensures
            r is Err <==> self.state.spec_position() + row_groups::all_joined(
                row_groups::group_parts(columns@),
            ).len() > u64::MAX,
            r matches Ok(f) ==> {
                let bytes = row_groups::all_joined(row_groups::group_parts(columns@));
                let table = f.state.row_groups_table@;
                &&& f.state.valid()
                &&& f.metadata_start == self.state.spec_position()
                &&& f.state.out@ == self.state.out@ + bytes
                &&& f.state.data_checksum@ == self.state.data_checksum@ + bytes
                &&& f.state.taken == self.state.taken
                &&& table.row_counts == self.state.row_groups_table@.row_counts
                &&& table.offsets == self.state.row_groups_table@.offsets
                &&& table.sizes == self.state.row_groups_table@.sizes
                &&& table.metadata == self.state.row_groups_table@.metadata
                &&& sections_say(
                    table,
                    row_groups::group_parts(columns@),
                    self.state.spec_position(),
                )
                &&& file_footer::is_footer_of(
                    f.node,
                    self.schema_message@,
                    self.logical_tree,
                    table,
                    self.dictionaries,
                    self.sections,
                    self.indexes@,
                )
                &&& f.schema_checksum == checksum::xxh64_of(self.schema_message@)
            },
    {
        let mut state = self.state;
        let start: u64 = state.stream_position();
        match count_columns(columns) {
            None => {
                return Err(FileTooLarge);
            },
            Some(n) => {
                if n > u64::MAX - start {
                    return Err(FileTooLarge);
                }
            },
        }
        let bytes = state.row_groups_table.to_indirect_and_flush(start, columns);
        let ghost table = state.row_groups_table@;
        proof {
            assert forall|g: int| 0 <= g < columns@.len() implies (
            #[trigger] table.indirect[g]).col_metadatas@ == row_groups::sections_of(
                row_groups::group_parts(columns@)[g],
                row_groups::group_start(row_groups::group_parts(columns@), start as int, g),
            ) by {
                assert(table.indirect[0 + g] == table.indirect[g]);
            }
        }
        state.write_and_update_file_level_checksum(bytes.as_slice());
        let mut schema_checksum = create_checksum();
        schema_checksum.update(self.schema_message.as_slice());
        assert(schema_checksum@ =~= self.schema_message@);
        let schema_checksum: u64 = schema_checksum.finalize();
        let node = footer_node(
            self.schema_message,
            &self.logical_tree,
            &state.row_groups_table,
            self.dictionaries,
            self.sections,
            &self.indexes,
        );
        Ok(FooterReady { state, metadata_start: start, node, schema_checksum })
    }
}

impl FooterReady {
    /// Writes the footer and the postscript. Returns all bytes that have not been
    /// taken before.
    pub fn write_footer(self, footer: &[u8]) -> (r: Result<(Vec<u8>, PostScript), FileTooLarge>)
        requires
            self.state.valid(),
            self.metadata_start <= self.state.spec_position(),
        ensures
            r is Err <==> self.state.spec_position() + footer@.len() > u64::MAX,
            r matches Ok(f) ==> {
                &&& f.0@ == self.state.out@ + footer@ + postscript::postscript_bytes(f.1)
                &&& f.1.metadata_size == (self.state.spec_position() + footer@.len()
                    - self.metadata_start) as u32
                &&& f.1.footer_size == footer@.len() as u32
                &&& f.1.compression.is_uncompressed()
                &&& f.1.checksum_type.is_xx_hash()
                &&& f.1.data_checksum == checksum::xxh64_of(self.state.data_checksum@ + footer@)
                &&& f.1.schema_checksum == self.schema_checksum
                &&& f.1.major_version == crate::file_format::MAJOR_VERSION
                &&& f.1.minor_version == crate::file_format::MINOR_VERSION
            },
    {
        let mut state = self.state;
        if let Err(e) = state.try_write_section(footer) {
            return Err(e);
        }
        let footer_size: u32 = #[verifier::truncate]
        (footer.len() as u32);
        let p = state.postscript(self.metadata_start, footer_size, self.schema_checksum);
        let mut bytes = state.take_bytes();
        let mut tail = write_postscript(&p);
        bytes.append(&mut tail);
        assert(bytes@ =~= self.state.out@ + footer@ + postscript::postscript_bytes(p));
        Ok((bytes, p))
    }
}

/// A file that was finished step by step gives back what was written: `before` are
/// the bytes that were taken earlier, `m` the file when its metadata was about to
/// be written, `f` when its footer was, and `end` the bytes that came last. The end
/// of the file gives the postscript, which gives the footer; and the sections that
/// the footer speaks of give the metadata of each column.
pub proof fn finished_file_is_found(
    before: Seq<u8>,
    m: MetadataReady,
    columns: Seq<Vec<Vec<u8>>>,
    f: FooterReady,
    footer: Seq<u8>,
    end: Seq<u8>,
    p: PostScript,
    g: int,
    c: int,
)
    requires
        before.len() == m.state.taken,
        f.state.out@ == m.state.out@ + row_groups::all_joined(row_groups::group_parts(columns)),
        f.metadata_start == m.state.spec_position(),
        sections_say(
            f.state.row_groups_table@,
            row_groups::group_parts(columns),
            m.state.spec_position(),
        ),
        end == f.state.out@ + footer + postscript::postscript_bytes(p),
        p.metadata_size == row_groups::all_joined(row_groups::group_parts(columns)).len()
            + footer.len(),
        p.footer_size == footer.len(),
        before.len() + end.len() <= u64::MAX,
        0 <= g < columns.len(),
        0 <= c < columns[g]@.len(),
        columns[g]@[c]@.len() <= u32::MAX,
    ensures
        ({
            let file = before + end;
            let n = file.len() as int;
            let (start, size) = reader::metadata_span(n as u64, p);
            let metadata = file.subrange(start, start + size);
            let s = f.state.row_groups_table@.indirect[g].col_metadatas@[c];
            let span = file_footer::span_of(s, start);
            &&& postscript::postscript_of(file.subrange(n - POSTSCRIPT_SIZE, n)) == Ok::<
                PostScript,
                postscript::MagicMismatch,
            >(p)
            &&& start == f.metadata_start
            &&& metadata.skip(p.metadata_size - p.footer_size) == footer
            &&& 0 <= span.0 <= span.1 <= metadata.len()
            &&& metadata.subrange(span.0, span.1) == columns[g]@[c]@
        }),
{
    let parts = row_groups::group_parts(columns);
    let data = before + m.state.out@;
    let file = before + end;
    assert(file =~= file_footer::file_of(data, parts, footer, p));
    assert(parts[g][c] == columns[g]@[c]@);
    file_footer::file_gives_parts(data, parts, footer, p, g, c);
    assert(f.state.row_groups_table@.indirect[g].col_metadatas@ == row_groups::sections_of(
        parts[g],
        row_groups::group_start(parts, data.len() as int, g),
    ));
}

} // verus!
