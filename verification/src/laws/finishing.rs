//! Laws of finishing a file, and of judging what was found.
use crate::artifact::kernel;
use crate::bench::recall;
use crate::bench::recall::{EvaluationError, Tally};
use crate::checksum;
use crate::chunk_decoder::PhysicalDecoder;
use crate::column_reader::{ChunkDecoder, SharedDictionary};
use crate::encoded_chunk;
use crate::encoded_chunk::EncodedColumnChunk;
use crate::encoder::LogicalTree;
use crate::file_footer;
use crate::file_footer::{
    FooterNode,
    OptionalMetadataSections,
    RowGroupsNode,
    SharedDictionaryNode,
};
use crate::file_writer;
use crate::file_writer::{FileTooLarge, FinishParts, Finishing, FooterReady, MetadataReady};
use crate::footer::{MetadataSection, RowGroupMetadata};
use crate::postscript;
use crate::postscript::PostScript;
use crate::row_groups;
use crate::row_groups::RowGroupsTable;
use crate::vector_index::{VectorIndexDescriptor, VectorSearchResult};
use crate::writer_finish;
use crate::writer_finish::BatchTooSmall;
use vstd::prelude::*;

verus! {

/// Chunks stand one behind the other, and each is noted where it stands.
pub proof fn notes_stand_in_a_row(
    chunks: Seq<EncodedColumnChunk>,
    at: int,
    with_checksum: bool,
    i: int,
)
    requires
        0 <= at,
        at + file_writer::chunks_bytes(chunks).len() <= u64::MAX,
        0 <= i < chunks.len(),
        encoded_chunk::unit_bytes(chunks[i].encunits@).len() <= u32::MAX,
        chunks[i].num_rows <= u64::MAX,
    ensures
        ({
            let notes = file_writer::chunk_notes(chunks, at, with_checksum);
            let all = file_writer::chunks_bytes(chunks);
            let from = notes[i].offset - at;
            &&& notes.len() == chunks.len()
            &&& i == 0 ==> notes[i].offset == at
            &&& notes[i].num_rows == chunks[i].num_rows
            &&& 0 <= from
            &&& from + notes[i].size <= all.len()
            &&& all.subrange(from, from + notes[i].size) == encoded_chunk::unit_bytes(
                chunks[i].encunits@,
            )
            &&& i + 1 < chunks.len() ==> notes[i + 1].offset == notes[i].offset + notes[i].size
            &&& i + 1 == chunks.len() ==> from + notes[i].size == all.len()
        }),
{
    let all = file_writer::chunks_bytes(chunks);
    let front = chunks.take(i);
    let upto = chunks.take(i + 1);
    assert(upto.drop_last() =~= front);
    assert(upto.last() == chunks[i]);
    assert(chunks.take(0) =~= Seq::<EncodedColumnChunk>::empty());
    bytes_of_front(chunks, i + 1);
    let a = file_writer::chunks_bytes(front);
    let b = encoded_chunk::unit_bytes(chunks[i].encunits@);
    assert(all.subrange(a.len() as int, (a.len() + b.len()) as int) =~= b) by {
        let x = file_writer::chunks_bytes(upto);
        assert(x == a + b);
        assert(all.take(x.len() as int) == x);
        assert(all.subrange(a.len() as int, (a.len() + b.len()) as int) =~= x.subrange(
            a.len() as int,
            x.len() as int,
        ));
        assert(x.subrange(a.len() as int, x.len() as int) =~= b);
    }
    if i + 1 == chunks.len() {
        assert(upto =~= chunks);
    }
}

proof fn bytes_of_front(chunks: Seq<EncodedColumnChunk>, n: int)
    requires
        0 <= n <= chunks.len(),
    ensures
        ({
            let all = file_writer::chunks_bytes(chunks);
            let front = file_writer::chunks_bytes(chunks.take(n));
            &&& front.len() <= all.len()
            &&& all.take(front.len() as int) == front
        }),
    decreases chunks.len(),
{
    let all = file_writer::chunks_bytes(chunks);
    let front = file_writer::chunks_bytes(chunks.take(n));
    if n == chunks.len() {
        assert(chunks.take(n) =~= chunks);
        assert(all.take(front.len() as int) =~= front);
    } else {
        bytes_of_front(chunks.drop_last(), n);
        assert(chunks.drop_last().take(n) =~= chunks.take(n));
        let some = file_writer::chunks_bytes(chunks.drop_last());
        assert(all.take(front.len() as int) =~= some.take(front.len() as int));
    }
}

/// Dictionaries come one behind the other, each with its chunks in their order.
pub proof fn dictionaries_come_in_order(dicts: Seq<Vec<EncodedColumnChunk>>, d: Vec<EncodedColumnChunk>)
    ensures
        file_writer::all_chunks(Seq::empty()).len() == 0,
        file_writer::all_chunks(dicts.push(d)) == file_writer::all_chunks(dicts) + d@,
{
    assert(dicts.push(d).drop_last() =~= dicts);
}

/// The modules that decode come in their order; the one that searches blocks comes behind
/// them, if it is there and blocks are indexed.
pub proof fn modules_come_in_order(parts: FinishParts, micro: bool, i: int)
    ensures
        ({
            let all = file_writer::modules_of(parts, micro);
            let searches = micro && parts.micro_module is Some;
            &&& all.len() == parts.modules@.len() + (if searches {
                1int
            } else {
                0
            })
            &&& 0 <= i < parts.modules@.len() ==> all[i] == parts.modules@[i]@
            &&& searches ==> all.last() == parts.micro_module->0@
        }),
{
}

/// Before the metadata come the dictionaries, then the modules, then the vector indexes.
pub proof fn last_data_come_in_order(parts: FinishParts, micro: bool)
    ensures
        ({
            let a = file_writer::chunks_bytes(file_writer::all_chunks(parts.dicts@));
            let b = row_groups::joined(file_writer::modules_of(parts, micro));
            let c = writer_finish::configs_bytes(parts.vector_indexes@);
            let all = file_writer::last_data(parts, micro);
            &&& all.len() == a.len() + b.len() + c.len()
            &&& all.take(a.len() as int) == a
            &&& all.subrange(a.len() as int, (a.len() + b.len()) as int) == b
            &&& all.skip((a.len() + b.len()) as int) == c
        }),
{
    let a = file_writer::chunks_bytes(file_writer::all_chunks(parts.dicts@));
    let b = row_groups::joined(file_writer::modules_of(parts, micro));
    let c = writer_finish::configs_bytes(parts.vector_indexes@);
    let all = file_writer::last_data(parts, micro);
    assert(all.take(a.len() as int) =~= a);
    assert(all.subrange(a.len() as int, (a.len() + b.len()) as int) =~= b);
    assert(all.skip((a.len() + b.len()) as int) =~= c);
}

/// The sections of parts that stand one behind the other say where each stands.
pub proof fn sections_stand_in_a_row(parts: Seq<Seq<u8>>, start: int, i: int)
    requires
        0 <= start,
        start + row_groups::joined(parts).len() <= u64::MAX,
        0 <= i < parts.len(),
        parts[i].len() <= u32::MAX,
    ensures
        ({
            let s = row_groups::sections_of(parts, start);
            let from = s[i].offset - start;
            &&& s.len() == parts.len()
            &&& i == 0 ==> s[i].offset == start
            &&& 0 <= from
            &&& from + s[i].size <= row_groups::joined(parts).len()
            &&& row_groups::joined(parts).subrange(from, from + s[i].size) == parts[i]
            &&& i + 1 < parts.len() ==> s[i + 1].offset == s[i].offset + s[i].size
        }),
{
    let all = row_groups::joined(parts);
    let front = parts.take(i);
    let upto = parts.take(i + 1);
    assert(upto.drop_last() =~= front);
    assert(upto.last() == parts[i]);
    assert(parts.take(0) =~= Seq::<Seq<u8>>::empty());
    row_groups::joined_grows(parts, i);
    let a = row_groups::joined(front);
    let x = row_groups::joined(upto);
    assert(x == a + parts[i]);
    assert(all.take(x.len() as int) == x);
    assert(all.subrange(a.len() as int, x.len() as int) =~= x.subrange(
        a.len() as int,
        x.len() as int,
    ));
    assert(x.subrange(a.len() as int, x.len() as int) =~= parts[i]);
}

/// The table of modules stands where its section says, under its name.
pub proof fn tables_of_modules_are_written(
    f: Finishing,
    table: &[u8],
    r: Result<MetadataReady, FileTooLarge>,
)
    requires
        f.state.valid(),
        table@.len() <= u32::MAX,
        call_ensures(Finishing::write_modules_table, (f, table), r),
        r is Ok,
    ensures
        ({
            let s = r->Ok_0.sections;
            let from = s.offsets@[0] - f.state.taken;
            &&& s.names@.len() == 1
            &&& s.names@[0]@ == "WASMBinaries"@
            &&& s.offsets@.len() == 1
            &&& s.sizes@.len() == 1
            &&& s.sizes@[0] == table@.len()
            &&& r->Ok_0.state.out@.subrange(from, from + s.sizes@[0]) == table@
            &&& r->Ok_0.dictionaries == f.dictionaries
            &&& r->Ok_0.indexes == f.indexes
        }),
{
    let s = r->Ok_0.sections;
    let from = s.offsets@[0] - f.state.taken;
    assert(r->Ok_0.state.out@.subrange(from, from + s.sizes@[0]) =~= table@);
}

/// A file ends with the footer and the postscript, which says how long the metadata and the
/// footer are, and has the checksum of all that is in front of it.
pub proof fn files_end(f: FooterReady, footer: &[u8], r: Result<(Vec<u8>, PostScript), FileTooLarge>)
    requires
        f.state.valid(),
        f.metadata_start <= f.state.spec_position(),
        f.state.spec_position() + footer@.len() - f.metadata_start <= u32::MAX,
        footer@.len() <= u32::MAX,
        call_ensures(FooterReady::write_footer, (f, footer), r),
        r is Ok,
    ensures
        ({
            let (bytes, p) = r->Ok_0;
            let n = f.state.out@.len() as int;
            &&& bytes@.take(n) == f.state.out@
            &&& bytes@.subrange(n, n + p.footer_size) == footer@
            &&& bytes@.skip(n + p.footer_size) == postscript::postscript_bytes(p)
            &&& f.metadata_start + p.metadata_size == f.state.spec_position() + footer@.len()
            &&& p.data_checksum == checksum::xxh64_of(f.state.data_checksum@ + footer@)
            &&& p.schema_checksum == f.schema_checksum
        }),
{
    let (bytes, p) = r->Ok_0;
    let n = f.state.out@.len() as int;
    assert(bytes@.take(n) =~= f.state.out@);
    assert(bytes@.subrange(n, n + p.footer_size) =~= footer@);
    assert(bytes@.skip(n + p.footer_size) =~= postscript::postscript_bytes(p));
}

/// A batch that is not cut is one slice; one that is cut has to have as many rows as a slice.
pub proof fn batches_are_cut(
    num_rows: usize,
    len: Option<usize>,
    r: Result<Vec<(usize, usize)>, BatchTooSmall>,
)
    requires
        len is Some ==> len->0 > 0,
        call_ensures(writer_finish::batch_slices, (num_rows, len), r),
    ensures
        len is None ==> r is Ok && r->Ok_0@.len() == 1 && r->Ok_0@[0] == (0usize, num_rows),
        len is Some ==> (r is Err <==> num_rows < len->0),
{
}

/// What is found is judged if there are queries, and true neighbors for each of them; other
/// than that, there may be more true neighbors than queries.
pub proof fn results_are_judged(
    results: &[Vec<VectorSearchResult>],
    truth: &[Vec<u32>],
    k: usize,
    available: usize,
    r: Result<Tally, EvaluationError>,
)
    requires
        call_ensures(recall::evaluate_recall, (results, truth, k, available), r),
    ensures
        r is Ok <==> 0 < results@.len() <= truth@.len(),
        r is Err && r->Err_0 is NoQueries <==> results@.len() == 0,
        r is Err && r->Err_0 is TruthTooShort <==> results@.len() > truth@.len(),
        r is Ok ==> (r->Ok_0.hits as int, r->Ok_0.targets as int) == recall::tally(
            results@,
            truth@,
            k as nat,
            available as u32,
            results@.len() as int,
        ),
{
}

/// Batches are judged if they are not empty, and all together have a result for each query.
pub proof fn batches_are_judged(
    queries: usize,
    batches: &[Vec<Vec<VectorSearchResult>>],
    truth: &[Vec<u32>],
    k: usize,
    available: usize,
    size: usize,
    r: Result<Tally, EvaluationError>,
)
    requires
        call_ensures(
            recall::evaluate_recall_batch,
            (queries, batches, truth, k, available, size),
            r,
        ),
    ensures
        ({
            let all = recall::unbatched(batches@, 0, size as int, queries as int);
            let counted = 0 < queries <= truth@.len();
            &&& r is Ok <==> counted && size > 0 && all is Ok
            &&& queries == 0 ==> r is Err && r->Err_0 is NoQueries
            &&& queries > truth@.len() ==> r is Err && r->Err_0 is TruthTooShort
            &&& counted && size == 0 ==> r is Err && r->Err_0 is ZeroBatch
            &&& counted && size > 0 && all is Err ==> r->Err_0 == all->Err_0
        }),
{
}

/// Every block of vectors knows the module that searches it, with version 0.1 of its
/// interface, and is as it was otherwise; without such a module nothing changes.
pub proof fn blocks_know_their_module(
    before: Seq<RowGroupMetadata>,
    after: Seq<RowGroupMetadata>,
    section: Option<MetadataSection>,
    g: int,
    c: int,
    b: int,
)
    requires
        file_writer::with_micro_module(before, after, section),
        0 <= g < before.len(),
        0 <= c < before[g].col_metadatas@.len(),
        0 <= b < before[g].col_metadatas@[c].vector_blocks@.len(),
    ensures
        after.len() == before.len(),
        section is None ==> after == before,
        section is Some ==> {
            let was = before[g].col_metadatas@[c].vector_blocks@[b];
            let now = after[g].col_metadatas@[c].vector_blocks@[b];
            &&& after[g].col_metadatas@[c].column_chunks == before[g].col_metadatas@[c].column_chunks
            &&& now.micro_index.wasm_offset == section->0.offset
            &&& now.micro_index.wasm_size == section->0.size
            &&& now.micro_index.abi_major == 0
            &&& now.micro_index.abi_minor == 1
            &&& now.micro_index.aux_offset == was.micro_index.aux_offset
            &&& now.micro_index.aux_size == was.micro_index.aux_size
            &&& now.offset == was.offset && now.size == was.size
            &&& now.row_start == was.row_start && now.row_count == was.row_count
        },
{
    if section is Some {
        let x = after[g].col_metadatas@;
        assert(x[c].column_chunks == before[g].col_metadatas@[c].column_chunks);
        assert(x[c].vector_blocks@[b] == row_groups::with_module(
            before[g].col_metadatas@[c].vector_blocks@[b],
            section->0.offset,
            section->0.size,
            (0, 1),
        ));
    }
}

/// The footer lists the row groups as they were noted: how many rows each has, where it
/// starts, how many bytes it has, and where the metadata of its columns are.
pub proof fn row_groups_are_listed(table: &RowGroupsTable, r: RowGroupsNode, g: int)
    requires
        call_ensures(file_footer::row_groups_node, (table,), r),
    ensures
        r.row_counts is Some && r.row_counts->0@ == table@.row_counts,
        r.offsets is Some && r.offsets->0@ == table@.offsets,
        r.sizes is Some && r.sizes->0@ == table@.sizes,
        r.row_group_metadatas is Some,
        r.row_group_metadatas->0@.len() == table@.indirect.len(),
        0 <= g < table@.indirect.len() ==> r.row_group_metadatas->0@[g].col_metadatas is Some
            && r.row_group_metadatas->0@[g].col_metadatas->0@ == table@.indirect[g].col_metadatas@,
{
}

/// The footer has the schema, the row groups, the dictionaries and the sections as they are.
pub proof fn footers_are_put_together(
    schema: Vec<u8>,
    tree: &LogicalTree,
    table: &RowGroupsTable,
    dictionaries: SharedDictionaryNode,
    sections: OptionalMetadataSections,
    indexes: &Vec<VectorIndexDescriptor>,
    r: FooterNode,
)
    requires
        call_ensures(
            file_footer::footer_node,
            (schema, tree, table, dictionaries, sections, indexes),
            r,
        ),
    ensures
        r.schema is Some && r.schema->0@ == schema@,
        r.logical_tree is Some && r.logical_tree->0.id == tree.id,
        r.row_groups is Some && r.row_groups->0.row_counts is Some
            && r.row_groups->0.row_counts->0@ == table@.row_counts,
        r.shared_dictionary_table == Some(dictionaries),
        r.optional_sections == Some(sections),
        r.encoding_versions is Some && r.encoding_versions->0@.len() == 2,
        r.vector_indexes is Some && r.vector_indexes->0@.len() == indexes@.len(),
{
    let v = r.vector_indexes->0@;
    assert(file_footer::meanings_of(v).len() == v.len());
    assert(file_footer::descriptors_of(indexes@).len() == indexes@.len());
}

/// A chunk with indexes into a dictionary of the file is decoded with the length and the
/// type of that dictionary.
pub proof fn chunks_know_their_dictionary(
    d: ChunkDecoder,
    at: usize,
    dicts: Option<Seq<Option<SharedDictionary>>>,
)
    requires
        d.is_like(PhysicalDecoder::SharedDictionary(at), dicts),
    ensures
        d is SharedDictionary,
        dicts is Some,
        at < dicts->0.len(),
        dicts->0[at as int] is Some,
        d->SharedDictionary_0.dict_len == dicts->0[at as int]->0.len,
        d->SharedDictionary_0.dict_type@ == dicts->0[at as int]->0.data_type@,
{
}

/// Counts of results fit if the results of each query end within all results, where those of
/// a query start behind as many as each query before it may have.
pub proof fn counts_of_results_fit(counts: Seq<u32>, k: int, len: int, q: int)
    requires
        0 <= q < counts.len(),
    ensures
        kernel::counts_fit(counts, k, len) ==> 8 * (q * k + counts[q]) <= len,
        8 * (q * k + counts[q]) > len ==> !kernel::counts_fit(counts, k, len),
        (forall|p: int| 0 <= p < counts.len() ==> 8 * (p * k) + 8 * (#[trigger] counts[p]) <= len)
            ==> kernel::counts_fit(counts, k, len),
{
    assert forall|p: int| 0 <= p < counts.len() implies p * k * 8 + (#[trigger] counts[p]) * 8 == 8
        * (p * k) + 8 * counts[p] by {
        assert(p * k * 8 == 8 * (p * k)) by (nonlinear_arith);
    }
    assert(q * k * 8 + counts[q] * 8 == 8 * (q * k) + 8 * counts[q]);
}

} // verus!
