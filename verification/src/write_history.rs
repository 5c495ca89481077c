//! What holds of a file whatever is written to it, and in which order: no byte that
//! was written changes, each chunk is where it was noted, and the checksum covers
//! all bytes.
use crate::checksum;
use crate::encoded_chunk;
use crate::encoded_chunk::EncodedColumnChunk;
use crate::file_format;
use crate::file_format::POSTSCRIPT_SIZE;
use crate::file_writer;
use crate::file_writer::{FinishParts, Finishing, FooterReady, MetadataReady};
use crate::footer;
use crate::footer::{ColumnMetadata, RowGroupMetadata};
use crate::postscript;
use crate::postscript::PostScript;
use crate::row_groups;
use crate::writer;
use crate::writer::FileWriteState;
use vstd::prelude::*;

verus! {

/// What is done to a file that is being written.
pub enum Step {
    /// Chunks are written, and the rows of a batch are counted.
    Batch(Seq<EncodedColumnChunk>, u32),
    /// Chunks are written, and the row group is ended.
    End(Seq<EncodedColumnChunk>),
    /// The bytes are taken.
    Take,
}

/// Whether a step leads from `a` to `b`.
pub open spec fn follows(a: FileWriteState, step: Step, b: FileWriteState) -> bool {
    match step {
        Step::Batch(chunks, num_rows) => exists|mid: FileWriteState|
            #[trigger] file_writer::all_flushed(a, chunks, mid) && mid.counted(num_rows, b),
        Step::End(chunks) => exists|mid: FileWriteState|
            #[trigger] file_writer::all_flushed(a, chunks, mid) && mid.ended(b),
        Step::Take => a.emptied(b),
    }
}

/// Whether the steps lead from each state to the next.
pub open spec fn is_history(states: Seq<FileWriteState>, steps: Seq<Step>) -> bool {
    &&& states.len() == steps.len() + 1
    &&& forall|i: int|
        0 <= i < steps.len() ==> follows(states[i], #[trigger] steps[i], states[i + 1])
}

/// Whether nothing has been written to a file.
pub open spec fn is_new(s: FileWriteState) -> bool {
    &&& s.spec_position() == 0
    &&& s.data_checksum@ == Seq::<u8>::empty()
    &&& s.row_groups_table@ == row_groups::Groups::nothing()
    &&& s.num_rows_in_file == 0
    &&& s.num_rows_in_cur_row_group == 0
}

/// The bytes that the first `n` steps took.
pub open spec fn taken_bytes(states: Seq<FileWriteState>, steps: Seq<Step>, n: nat) -> Seq<u8>
    decreases n,
{
    if n == 0 {
        Seq::empty()
    } else {
        let front = taken_bytes(states, steps, (n - 1) as nat);
        match steps[n - 1] {
            Step::Take => front + states[n - 1].out@,
            _ => front,
        }
    }
}

/// The chunks that a step writes.
pub open spec fn chunks_of(step: Step) -> Seq<EncodedColumnChunk> {
    match step {
        Step::Batch(chunks, _) => chunks,
        Step::End(chunks) => chunks,
        Step::Take => Seq::empty(),
    }
}

/// The bytes of chunks, one behind the other, each with its index behind it if
/// indexes are written.
pub open spec fn flushed_bytes(chunks: Seq<EncodedColumnChunk>, with_index: bool) -> Seq<u8>
    decreases chunks.len(),
{
    if chunks.len() == 0 {
        Seq::empty()
    } else {
        flushed_bytes(chunks.drop_last(), with_index) + (encoded_chunk::unit_bytes(
            chunks.last().encunits@,
        ) + (if with_index {
            writer::aux_bytes(chunks.last())
        } else {
            Seq::empty()
        }))
    }
}

/// Where chunk `k` of those that are written next will stand.
pub open spec fn chunk_at(s: FileWriteState, chunks: Seq<EncodedColumnChunk>, k: int) -> int {
    s.spec_position() + flushed_bytes(chunks.take(k), s.enable_micro_index).len()
}

/// Whether `s` has taken and collected all bytes that its checksum covers, if
/// `before` are the bytes that were taken.
pub open spec fn accounts_for(s: FileWriteState, before: Seq<u8>) -> bool {
    &&& before.len() == s.taken
    &&& s.data_checksum@ == before + s.out@
}

/// Whether a chunk is noted among the chunks of a column of columns.
pub open spec fn in_columns(
    columns: Seq<ColumnMetadata>,
    c: int,
    note: footer::ChunkView,
) -> bool {
    0 <= c < columns.len() && footer::chunks_of(columns[c].column_chunks@).contains(note)
}

/// Whether a chunk of column `c` is noted in row group `g`.
pub open spec fn noted(s: FileWriteState, g: int, c: int, note: footer::ChunkView) -> bool {
    let groups = s.row_groups_table@.metadata;
    if g < groups.len() {
        0 <= g && in_columns(groups[g].col_metadatas@, c, note)
    } else {
        g == groups.len() && in_columns(s.column_metadatas_in_cur_row_group@, c, note)
    }
}

/// Whether `b` still has all bytes of `a`, where they were, and all that was noted.
pub open spec fn keeps(a: FileWriteState, b: FileWriteState) -> bool {
    &&& a.data_checksum@.len() <= b.data_checksum@.len()
    &&& b.data_checksum@.take(a.data_checksum@.len() as int) == a.data_checksum@
    &&& forall|g: int, c: int, note: footer::ChunkView|
        #[trigger] noted(a, g, c, note) ==> noted(b, g, c, note)
}

/// What a file keeps it keeps for good.
pub proof fn keeps_for_good(a: FileWriteState, b: FileWriteState, c: FileWriteState)
    requires
        keeps(a, b),
        keeps(b, c),
    ensures
        keeps(a, c),
{
    let n = a.data_checksum@.len() as int;
    let m = b.data_checksum@.len() as int;
    assert(c.data_checksum@.take(n) =~= c.data_checksum@.take(m).take(n));
}

proof fn nothing_lost(a: FileWriteState)
    ensures
        keeps(a, a),
{
    assert(a.data_checksum@.take(a.data_checksum@.len() as int) =~= a.data_checksum@);
}

/// Writing a chunk keeps all bytes and notes, and notes the chunk.
proof fn flush_keeps(a: FileWriteState, chunk: EncodedColumnChunk, b: FileWriteState)
    requires
        a.flushed(chunk, b),
        0 <= chunk.column_index < a.column_metadatas_in_cur_row_group@.len(),
    ensures
        keeps(a, b),
        noted(
            b,
            a.row_groups_table@.metadata.len() as int,
            chunk.column_index as int,
            writer::chunk_note(chunk, a.spec_position(), a.enable_io_unit_checksum),
        ),
{
    let at = chunk.column_index as int;
    let note = writer::chunk_note(chunk, a.spec_position(), a.enable_io_unit_checksum);
    let was = a.column_metadatas_in_cur_row_group@;
    let now = b.column_metadatas_in_cur_row_group@;
    assert(b.data_checksum@.take(a.data_checksum@.len() as int) =~= a.data_checksum@);
    let list = footer::chunks_of(was[at].column_chunks@);
    assert(list.push(note)[list.len() as int] == note);
    assert forall|g: int, c: int, n: footer::ChunkView| #[trigger] noted(a, g, c, n) implies noted(
        b,
        g,
        c,
        n,
    ) by {
        if g == a.row_groups_table@.metadata.len() {
            if c == at {
                let k = choose|k: int| 0 <= k < list.len() && list[k] == n;
                assert(list.push(note)[k] == n);
            } else {
                assert(now[c] == was[c]);
            }
        }
    }
}

/// Whether chunks belong to columns that there are.
pub open spec fn in_range(s: FileWriteState, chunks: Seq<EncodedColumnChunk>) -> bool {
    forall|k: int|
        0 <= k < chunks.len() ==> (#[trigger] chunks[k]).column_index
            < s.column_metadatas_in_cur_row_group@.len()
}

/// Writing chunks keeps all bytes and notes.
proof fn flushes_keep(a: FileWriteState, chunks: Seq<EncodedColumnChunk>, b: FileWriteState)
    requires
        file_writer::all_flushed(a, chunks, b),
        in_range(a, chunks),
    ensures
        keeps(a, b),
        b.out@ == a.out@ + flushed_bytes(chunks, a.enable_micro_index),
        b.data_checksum@ == a.data_checksum@ + flushed_bytes(chunks, a.enable_micro_index),
        a.same_notes(b),
        b.taken == a.taken,
        b.column_metadatas_in_cur_row_group@.len() == a.column_metadatas_in_cur_row_group@.len(),
    decreases chunks.len(),
{
    if chunks.len() == 0 {
        nothing_lost(a);
        assert(a.out@ + Seq::<u8>::empty() =~= a.out@);
        assert(a.data_checksum@ + Seq::<u8>::empty() =~= a.data_checksum@);
    } else {
        let front = chunks.drop_last();
        let mid = choose|mid: FileWriteState|
            file_writer::all_flushed(a, front, mid) && #[trigger] mid.flushed(chunks.last(), b);
        assert forall|k: int| 0 <= k < front.len() implies (#[trigger] front[k]).column_index
            < a.column_metadatas_in_cur_row_group@.len() by {
            assert(chunks[k] == front[k]);
        }
        flushes_keep(a, front, mid);
        assert(chunks[chunks.len() - 1] == chunks.last());
        flush_keeps(mid, chunks.last(), b);
        keeps_for_good(a, mid, b);
        assert(b.out@ =~= a.out@ + flushed_bytes(chunks, a.enable_micro_index));
        assert(b.data_checksum@ =~= a.data_checksum@ + flushed_bytes(
            chunks,
            a.enable_micro_index,
        ));
    }
}

/// Each of the chunks that were written is noted, and its bytes are where it is
/// noted.
proof fn flushed_chunk_is_kept(
    a: FileWriteState,
    chunks: Seq<EncodedColumnChunk>,
    b: FileWriteState,
    k: int,
)
    requires
        file_writer::all_flushed(a, chunks, b),
        in_range(a, chunks),
        0 <= k < chunks.len(),
        a.data_checksum@.len() == a.spec_position(),
    ensures
        ({
            let at = chunk_at(a, chunks, k);
            let bytes = encoded_chunk::unit_bytes(chunks[k].encunits@);
            &&& noted(
                b,
                a.row_groups_table@.metadata.len() as int,
                chunks[k].column_index as int,
                writer::chunk_note(chunks[k], at, a.enable_io_unit_checksum),
            )
            &&& 0 <= at
            &&& at + bytes.len() <= b.data_checksum@.len()
            &&& b.data_checksum@.subrange(at, at + bytes.len()) == bytes
        }),
    decreases chunks.len(),
{
    let front = chunks.drop_last();
    let mid = choose|mid: FileWriteState|
        file_writer::all_flushed(a, front, mid) && #[trigger] mid.flushed(chunks.last(), b);
    assert forall|i: int| 0 <= i < front.len() implies (#[trigger] front[i]).column_index
        < a.column_metadatas_in_cur_row_group@.len() by {
        assert(chunks[i] == front[i]);
    }
    flushes_keep(a, front, mid);
    assert(chunks[chunks.len() - 1] == chunks.last());
    flush_keeps(mid, chunks.last(), b);
    let at = chunk_at(a, chunks, k);
    let bytes = encoded_chunk::unit_bytes(chunks[k].encunits@);
    if k < front.len() {
        flushed_chunk_is_kept(a, front, mid, k);
        assert(front.take(k) =~= chunks.take(k));
        assert(b.data_checksum@.subrange(at, at + bytes.len()) =~= mid.data_checksum@.subrange(
            at,
            at + bytes.len(),
        ));
    } else {
        assert(chunks.take(k) =~= front);
        assert(b.data_checksum@.subrange(at, at + bytes.len()) =~= bytes);
    }
}

/// Whether all chunks of the steps belong to columns that there are.
pub open spec fn steps_in_range(states: Seq<FileWriteState>, steps: Seq<Step>) -> bool {
    &&& forall|i: int| 0 <= i < steps.len() ==> in_range(states[i], chunks_of(#[trigger] steps[i]))
    &&& forall|i: int| 0 <= i < states.len() ==> (#[trigger] states[i]).valid()
}

/// A step keeps all bytes and notes, and those that it writes are covered by the
/// checksum.
proof fn step_keeps(a: FileWriteState, step: Step, b: FileWriteState, before: Seq<u8>)
    requires
        a.valid(),
        follows(a, step, b),
        in_range(a, chunks_of(step)),
        accounts_for(a, before),
    ensures
        keeps(a, b),
        accounts_for(
            b,
            match step {
                Step::Take => before + a.out@,
                _ => before,
            },
        ),
{
    match step {
        Step::Batch(chunks, num_rows) => {
            let mid = choose|mid: FileWriteState|
                #[trigger] file_writer::all_flushed(a, chunks, mid) && mid.counted(num_rows, b);
            flushes_keep(a, chunks, mid);
            assert(keeps(mid, b)) by {
                nothing_lost(mid);
            }
            keeps_for_good(a, mid, b);
            assert(b.data_checksum@ =~= before + b.out@);
        },
        Step::End(chunks) => {
            let mid = choose|mid: FileWriteState|
                #[trigger] file_writer::all_flushed(a, chunks, mid) && mid.ended(b);
            flushes_keep(a, chunks, mid);
            end_keeps(mid, b);
            keeps_for_good(a, mid, b);
            assert(b.data_checksum@ =~= before + b.out@);
        },
        Step::Take => {
            nothing_lost(a);
            assert(keeps(a, b));
            assert(b.data_checksum@ =~= before + a.out@ + b.out@);
        },
    }
}

/// Ending a row group keeps all notes.
proof fn end_keeps(a: FileWriteState, b: FileWriteState)
    requires
        a.ended(b),
    ensures
        keeps(a, b),
{
    nothing_lost(a);
    let was = a.row_groups_table@.metadata;
    let now = b.row_groups_table@.metadata;
    assert forall|g: int, c: int, n: footer::ChunkView| #[trigger] noted(a, g, c, n) implies noted(
        b,
        g,
        c,
        n,
    ) by {
        if g < was.len() {
            assert(now[g] == was[g]);
        }
    }
}

/// The bytes that were taken, and behind them those that were not, are the bytes
/// that the checksum of the data covers. They are in the file for good, each where
/// it was written, and so is all that was noted.
pub proof fn written_is_kept(states: Seq<FileWriteState>, steps: Seq<Step>, i: int, n: int)
    requires
        is_history(states, steps),
        steps_in_range(states, steps),
        is_new(states[0]),
        0 <= i <= n <= steps.len(),
    ensures
        accounts_for(states[n], taken_bytes(states, steps, n as nat)),
        keeps(states[i], states[n]),
    decreases n,
{
    if n == 0 {
        nothing_lost(states[0]);
        assert(states[0].data_checksum@ =~= Seq::<u8>::empty() + states[0].out@);
    } else {
        written_is_kept(
            states,
            steps,
            if i < n {
                i
            } else {
                n - 1
            },
            n - 1,
        );
        assert(follows(states[n - 1], steps[n - 1], states[n - 1 + 1]));
        assert(in_range(states[n - 1], chunks_of(steps[n - 1])));
        step_keeps(
            states[n - 1],
            steps[n - 1],
            states[n],
            taken_bytes(states, steps, (n - 1) as nat),
        );
        if i < n {
            keeps_for_good(states[i], states[n - 1], states[n]);
        } else {
            nothing_lost(states[n]);
        }
    }
}

/// The rows of row groups together.
pub open spec fn total_rows(counts: Seq<u32>) -> nat
    decreases counts.len(),
{
    if counts.len() == 0 {
        0
    } else {
        total_rows(counts.drop_last()) + counts.last() as nat
    }
}

/// The rows of the row groups add up to the rows of the file, those of the row
/// group that is being written among them.
pub proof fn rows_add_up(states: Seq<FileWriteState>, steps: Seq<Step>, n: int)
    requires
        is_history(states, steps),
        is_new(states[0]),
        0 <= n <= steps.len(),
    ensures
        total_rows(states[n].row_groups_table@.row_counts) + states[n].num_rows_in_cur_row_group
            == states[n].num_rows_in_file,
    decreases n,
{
    if n > 0 {
        rows_add_up(states, steps, n - 1);
        let a = states[n - 1];
        let b = states[n];
        assert(follows(states[n - 1], steps[n - 1], states[n - 1 + 1]));
        match steps[n - 1] {
            Step::Batch(chunks, num_rows) => {
                let mid = choose|mid: FileWriteState|
                    #[trigger] file_writer::all_flushed(a, chunks, mid) && mid.counted(num_rows, b);
                file_writer::flushed_keeps(a, chunks, mid);
            },
            Step::End(chunks) => {
                let mid = choose|mid: FileWriteState|
                    #[trigger] file_writer::all_flushed(a, chunks, mid) && mid.ended(b);
                file_writer::flushed_keeps(a, chunks, mid);
                let counts = mid.row_groups_table@.row_counts;
                assert(b.row_groups_table@.row_counts.drop_last() =~= counts);
            },
            Step::Take => {},
        }
    }
}

/// Each chunk that was written is noted in its row group and column, and is found
/// where it is noted, whatever has been written and taken since and whatever will
/// be: `rest` are the bytes that come behind.
pub proof fn written_chunk_is_found(
    states: Seq<FileWriteState>,
    steps: Seq<Step>,
    i: int,
    k: int,
    n: int,
    rest: Seq<u8>,
)
    requires
        is_history(states, steps),
        steps_in_range(states, steps),
        is_new(states[0]),
        0 <= i < n <= steps.len(),
        0 <= k < chunks_of(steps[i]).len(),
        encoded_chunk::unit_bytes(chunks_of(steps[i])[k].encunits@).len() <= u32::MAX,
    ensures
        ({
            let chunk = chunks_of(steps[i])[k];
            let note = writer::chunk_note(
                chunk,
                chunk_at(states[i], chunks_of(steps[i]), k),
                states[i].enable_io_unit_checksum,
            );
            let file = taken_bytes(states, steps, n as nat) + states[n].out@ + rest;
            &&& noted(
                states[n],
                states[i].row_groups_table@.metadata.len() as int,
                chunk.column_index as int,
                note,
            )
            &&& note.offset + note.size <= file.len()
            &&& file.subrange(note.offset as int, note.offset + note.size)
                == encoded_chunk::unit_bytes(chunk.encunits@)
        }),
{
    let a = states[i];
    let b = states[i + 1];
    let chunks = chunks_of(steps[i]);
    let at = chunk_at(a, chunks, k);
    let bytes = encoded_chunk::unit_bytes(chunks[k].encunits@);
    let g = a.row_groups_table@.metadata.len() as int;
    let c = chunks[k].column_index as int;
    let note = writer::chunk_note(chunks[k], at, a.enable_io_unit_checksum);
    written_is_kept(states, steps, i, i);
    written_is_kept(states, steps, i + 1, i + 1);
    written_is_kept(states, steps, i + 1, n);
    assert(follows(states[i], steps[i], states[i + 1]));
    assert(in_range(states[i], chunks_of(steps[i])));
    match steps[i] {
        Step::Batch(_, num_rows) => {
            let mid = choose|mid: FileWriteState|
                #[trigger] file_writer::all_flushed(a, chunks, mid) && mid.counted(num_rows, b);
            flushed_chunk_is_kept(a, chunks, mid, k);
            assert(noted(mid, g, c, note));
            assert(noted(b, g, c, note));
        },
        Step::End(_) => {
            let mid = choose|mid: FileWriteState|
                #[trigger] file_writer::all_flushed(a, chunks, mid) && mid.ended(b);
            flushed_chunk_is_kept(a, chunks, mid, k);
            end_keeps(mid, b);
            assert(noted(mid, g, c, note));
            assert(noted(b, g, c, note));
        },
        Step::Take => {},
    }
    let sum = states[n].data_checksum@;
    let m = b.data_checksum@.len() as int;
    assert(b.valid() && states[n].valid());
    assert(b.data_checksum@.len() == b.spec_position());
    let file = taken_bytes(states, steps, n as nat) + states[n].out@ + rest;
    assert(file.subrange(at, at + bytes.len()) =~= sum.take(m).subrange(at, at + bytes.len()));
}

/// What is written once all rows are there keeps all bytes and notes.
proof fn finishing_keeps(mid: FileWriteState, parts: FinishParts, r: Finishing)
    requires
        file_writer::is_finishing(mid, parts, r),
    ensures
        keeps(mid, r.state),
        r.state.row_groups_table@.metadata.len() == mid.row_groups_table@.metadata.len() + 1,
{
    let was = mid.row_groups_table@.metadata;
    let columns = mid.column_metadatas_in_cur_row_group;
    let all = was.push((RowGroupMetadata { col_metadatas: columns }));
    let now = r.state.row_groups_table@.metadata;
    assert(r.state.data_checksum@.take(mid.data_checksum@.len() as int) =~= mid.data_checksum@);
    assert forall|g: int, c: int, n: footer::ChunkView| #[trigger] noted(
        mid,
        g,
        c,
        n,
    ) implies noted(r.state, g, c, n) by {
        assert(in_columns(all[g].col_metadatas@, c, n));
        if now != all {
            assert(now[g].col_metadatas@[c].column_chunks == all[g].col_metadatas@[c].column_chunks);
        }
    }
}

/// Whether these are the steps that finish a file: `mid` is the file `s` with what
/// the encoders still held, `r` with all data, `m` with the table of the modules,
/// `f` with the metadata of the columns, and `end` are the bytes that come last,
/// with the footer and the postscript.
pub open spec fn finishes(
    s: FileWriteState,
    mid: FileWriteState,
    parts: FinishParts,
    r: Finishing,
    table: Seq<u8>,
    m: MetadataReady,
    columns: Seq<u8>,
    f: FooterReady,
    footer: Seq<u8>,
    end: Seq<u8>,
    p: PostScript,
) -> bool {
    &&& file_writer::all_flushed(s, parts.pending@, mid)
    &&& file_writer::is_finishing(mid, parts, r)
    &&& r.state.wrote(m.state, table)
    &&& m.schema_message == r.schema_message
    &&& f.schema_checksum == checksum::xxh64_of(m.schema_message@)
    &&& f.metadata_start == m.state.spec_position()
    &&& f.state.out@ == m.state.out@ + columns
    &&& f.state.data_checksum@ == m.state.data_checksum@ + columns
    &&& f.state.taken == m.state.taken
    &&& end == f.state.out@ + footer + postscript::postscript_bytes(p)
    &&& p.metadata_size == (f.state.spec_position() + footer.len() - f.metadata_start) as u32
    &&& p.footer_size == footer.len() as u32
    &&& p.data_checksum == checksum::xxh64_of(f.state.data_checksum@ + footer)
    &&& p.schema_checksum == f.schema_checksum
}

/// A finished file ends in its postscript, whose last bytes are the magic. The
/// checksum of the data covers all that stands in front of it, that of the schema
/// the message that holds it. The file has all that was written and noted before it
/// was finished, and behind it the data that came last and the table of the
/// modules; `before` are the bytes that had been taken.
pub proof fn finished_file_is_whole(
    before: Seq<u8>,
    s: FileWriteState,
    mid: FileWriteState,
    parts: FinishParts,
    r: Finishing,
    table: Seq<u8>,
    m: MetadataReady,
    columns: Seq<u8>,
    f: FooterReady,
    footer: Seq<u8>,
    end: Seq<u8>,
    p: PostScript,
)
    requires
        accounts_for(s, before),
        in_range(s, parts.pending@),
        finishes(s, mid, parts, r, table, m, columns, f, footer, end, p),
    ensures
        ({
            let file = before + end;
            let n = file.len() as int;
            let last = file_writer::last_data(parts, mid.enable_micro_index);
            let at = mid.spec_position();
            &&& POSTSCRIPT_SIZE <= n
            &&& file.subrange(n - 2, n) == file_format::magic()
            &&& postscript::postscript_of(file.subrange(n - POSTSCRIPT_SIZE, n)) == Ok::<
                PostScript,
                postscript::MagicMismatch,
            >(p)
            &&& p.data_checksum == checksum::xxh64_of(file.take(n - POSTSCRIPT_SIZE))
            &&& p.schema_checksum == checksum::xxh64_of(parts.schema_message@)
            &&& columns.len() + footer.len() <= u32::MAX ==> p.footer_size <= p.metadata_size <= n
                - POSTSCRIPT_SIZE
            &&& keeps(s, mid)
            &&& keeps(mid, m.state)
            &&& mid.row_groups_table@.metadata.len() < m.state.row_groups_table@.metadata.len()
            &&& mid.data_checksum@.len() == at
            &&& at + last.len() + table.len() <= n
            &&& file.take(at) == mid.data_checksum@
            &&& file.subrange(at, at + last.len()) == last
            &&& file.subrange(at + last.len(), at + last.len() + table.len()) == table
        }),
{
    let file = before + end;
    let n = file.len() as int;
    let last = file_writer::last_data(parts, mid.enable_micro_index);
    let at = mid.spec_position();
    let tail = postscript::postscript_bytes(p);
    flushes_keep(s, parts.pending@, mid);
    finishing_keeps(mid, parts, r);
    assert(keeps(r.state, m.state)) by {
        assert(m.state.data_checksum@.take(r.state.data_checksum@.len() as int)
            =~= r.state.data_checksum@);
    }
    keeps_for_good(mid, r.state, m.state);
    postscript::postscript_round_trip(p);
    assert(file.subrange(n - 32, n) =~= tail);
    assert(tail.subrange(30, 32) == file_format::magic());
    assert(file.subrange(n - 2, n) =~= tail.subrange(30, 32));
    assert(mid.data_checksum@ =~= before + mid.out@);
    assert(file =~= mid.data_checksum@ + last + table + columns + footer + tail);
    assert(file.take(n - 32) =~= f.state.data_checksum@ + footer);
    assert(file.take(at) =~= mid.data_checksum@);
    assert(file.subrange(at, at + last.len()) =~= last);
    assert(file.subrange(at + last.len(), at + last.len() + table.len()) =~= table);
}

/// The chunks that are written by step `i`; the last are those that the encoders
/// held when the file was finished.
pub open spec fn written_by(
    steps: Seq<Step>,
    pending: Seq<EncodedColumnChunk>,
    i: int,
) -> Seq<EncodedColumnChunk> {
    if i < steps.len() {
        chunks_of(steps[i])
    } else {
        pending
    }
}

/// Reading gives back what was written: in a finished file, each chunk that was
/// ever written is noted in the metadata of its row group and column, which is what
/// a reader gets, and the bytes that the note speaks of are those of the chunk.
pub proof fn finished_file_gives_chunks(
    states: Seq<FileWriteState>,
    steps: Seq<Step>,
    i: int,
    k: int,
    mid: FileWriteState,
    parts: FinishParts,
    r: Finishing,
    table: Seq<u8>,
    m: MetadataReady,
    columns: Seq<u8>,
    f: FooterReady,
    footer: Seq<u8>,
    end: Seq<u8>,
    p: PostScript,
)
    requires
        is_history(states, steps),
        steps_in_range(states, steps),
        is_new(states[0]),
        in_range(states.last(), parts.pending@),
        mid.valid(),
        finishes(states.last(), mid, parts, r, table, m, columns, f, footer, end, p),
        0 <= i <= steps.len(),
        0 <= k < written_by(steps, parts.pending@, i).len(),
        encoded_chunk::unit_bytes(written_by(steps, parts.pending@, i)[k].encunits@).len()
            <= u32::MAX,
    ensures
        ({
            let chunks = written_by(steps, parts.pending@, i);
            let file = taken_bytes(states, steps, steps.len()) + end;
            let g = states[i].row_groups_table@.metadata.len() as int;
            let note = writer::chunk_note(
                chunks[k],
                chunk_at(states[i], chunks, k),
                states[i].enable_io_unit_checksum,
            );
            &&& g < m.state.row_groups_table@.metadata.len()
            &&& in_columns(
                m.state.row_groups_table@.metadata[g].col_metadatas@,
                chunks[k].column_index as int,
                note,
            )
            &&& note.offset + note.size <= file.len()
            &&& file.subrange(note.offset as int, note.offset + note.size)
                == encoded_chunk::unit_bytes(chunks[k].encunits@)
        }),
{
    let n = steps.len() as int;
    let s = states.last();
    let before = taken_bytes(states, steps, steps.len());
    let chunks = written_by(steps, parts.pending@, i);
    let at = chunk_at(states[i], chunks, k);
    let g = states[i].row_groups_table@.metadata.len() as int;
    let c = chunks[k].column_index as int;
    let note = writer::chunk_note(chunks[k], at, states[i].enable_io_unit_checksum);
    let bytes = encoded_chunk::unit_bytes(chunks[k].encunits@);
    let file = before + end;
    written_is_kept(states, steps, i, n);
    finished_file_is_whole(before, s, mid, parts, r, table, m, columns, f, footer, end, p);
    let z = s.data_checksum@.len() as int;
    if i < n {
        written_chunk_is_found(states, steps, i, k, n, Seq::empty());
        assert(before + s.out@ + Seq::<u8>::empty() =~= s.data_checksum@);
        assert(noted(s, g, c, note));
        let from = note.offset as int;
        let to = note.offset + note.size;
        assert(file.subrange(from, to) =~= file.take(mid.spec_position()).take(z).subrange(
            from,
            to,
        ));
    } else {
        flushed_chunk_is_kept(s, chunks, mid, k);
        assert(file.subrange(at, at + bytes.len()) =~= file.take(mid.spec_position()).subrange(
            at,
            at + bytes.len(),
        ));
    }
    assert(noted(mid, g, c, note));
    assert(noted(m.state, g, c, note));
}

} // verus!
