//! Laws of which parts of a file are read, and of how rows are cut.
use crate::chunk_decoder;
use crate::chunk_decoder::{NoDictColDecoder, PhysicalDecoder, PhysicalDecoderError};
use crate::encoder;
use crate::file_format;
use crate::file_format::VectorBlock;
use crate::footer::GroupedColumnMetadata;
use crate::options::{DictionaryTypeOptions, FileWriterOptions};
use crate::read_plan;
use crate::row_groups;
use crate::schema;
use crate::schema::Field;
use crate::selection;
use crate::selection::{Projection, Selection};
use crate::tables::{DictionaryEncodingTable, EncUnitTable};
use crate::vector_index::VectorIndexConfig;
use crate::writer_finish;
use vstd::prelude::*;

verus! {

/// Parts have the rows of each of them, and units the bytes.
pub proof fn parts_follow_each_other(sizes: Seq<u64>, units: Seq<EncUnitTable>, k: int)
    requires
        0 <= k,
    ensures
        chunk_decoder::rows_upto(sizes, 0) == 0,
        chunk_decoder::rows_upto(sizes, k + 1) - chunk_decoder::rows_upto(sizes, k) == sizes[k],
        chunk_decoder::unit_sizes(units, 0) == 0,
        chunk_decoder::unit_sizes(units, k + 1) - chunk_decoder::unit_sizes(units, k)
            == units[k].size_,
        k < units.len() ==> chunk_decoder::unit_rows(units)[k] == units[k].num_rows,
        chunk_decoder::unit_rows(units).len() == units.len(),
{
}

/// The next unit of a chunk is made of the first bytes that are left, as many as it
/// takes; the one behind it of those that come then.
pub proof fn units_are_taken_off(d: NoDictColDecoder, k: int)
    requires
        d.valid(),
        d.taken <= k,
        k + 1 < d.units@.len(),
    ensures
        d.unit_data(d.taken as int) == d.bytes().take(d.units@[d.taken as int].size_ as int),
        d.unit_data(k).len() == d.units@[k].size_,
        ({
            let at = chunk_decoder::unit_sizes(d.units@, k) - chunk_decoder::unit_sizes(
                d.units@,
                d.taken as int,
            );
            d.unit_data(k) + d.unit_data(k + 1) == d.bytes().subrange(
                at,
                at + d.units@[k].size_ + d.units@[k + 1].size_,
            )
        }),
{
    chunk_decoder::unit_sizes_grow(d.units@, d.taken as int, k);
    chunk_decoder::unit_sizes_grow(d.units@, k + 2, d.units@.len() as int);
    chunk_decoder::unit_sizes_grow(d.units@, d.taken + 1, d.units@.len() as int);
    let at = chunk_decoder::unit_sizes(d.units@, k) - chunk_decoder::unit_sizes(
        d.units@,
        d.taken as int,
    );
    assert(d.unit_data(d.taken as int) =~= d.bytes().take(
        d.units@[d.taken as int].size_ as int,
    ));
    assert(d.unit_data(k) + d.unit_data(k + 1) =~= d.bytes().subrange(
        at,
        at + d.units@[k].size_ + d.units@[k + 1].size_,
    ));
}

/// A chunk of indexes into a dictionary of the file is decoded with that dictionary, which
/// has to be there; other chunks need none.
pub proof fn chunks_find_their_dictionary(idx: u32, cache: Option<Seq<bool>>)
    requires
        idx <= usize::MAX,
    ensures
        chunk_decoder::decoder_for(DictionaryEncodingTable::NoDictionary, cache) == Ok::<
            PhysicalDecoder,
            PhysicalDecoderError,
        >(PhysicalDecoder::NoDictionary),
        ({
            let r = chunk_decoder::decoder_for(
                DictionaryEncodingTable::SharedDictionary(idx),
                cache,
            );
            &&& r is Ok <==> cache is Some && idx < cache->0.len() && cache->0[idx as int]
            &&& r is Ok ==> r->Ok_0 == PhysicalDecoder::SharedDictionary(idx as usize)
            &&& cache is None ==> r == Err::<PhysicalDecoder, PhysicalDecoderError>(
                PhysicalDecoderError::NoDictionaryCache,
            )
        }),
{
}

/// All rows are read of all groups in the order of the file, or the selected rows of the
/// groups that have some.
pub proof fn groups_are_read(sel: Selection, groups: Seq<GroupedColumnMetadata>, i: int)
    ensures
        ({
            let r = read_plan::read_groups(sel, groups);
            &&& sel is All ==> r.len() == groups.len() && (0 <= i < r.len() ==> r[i].0 == i
                && r[i].1 is None)
            &&& sel is RowIndexes ==> {
                let parts = selection::selected_rows(sel->RowIndexes_0@, groups);
                r.len() == parts.len() && (0 <= i < r.len() ==> r[i].0 == parts[i].0
                    && r[i].1 == Some(parts[i].1))
            }
        }),
{
}

/// Of a group all rows are read from the first to the last, or those that are asked for
/// in the order in which they are.
pub proof fn rows_are_planned(sel: Selection, row_count: u32, i: int)
    ensures
        ({
            let r = read_plan::planned_rows(sel, row_count);
            &&& sel is All ==> r.len() == row_count && (0 <= i < row_count ==> r[i] == i)
            &&& sel is RowIndexes ==> r == sel->RowIndexes_0@
        }),
{
}

/// Numbers that follow each other start with the first and grow by one.
pub proof fn numbers_follow(first: int, n: nat, i: int)
    requires
        0 <= first,
        first + n <= u32::MAX,
        0 <= i < n,
    ensures
        encoder::consecutive(first, n).len() == n,
        encoder::consecutive(first, n)[i] == first + i,
{
}

/// Without a choice all physical columns are read, from the first to the last.
pub proof fn all_columns_are_read(fields: Seq<Field>, i: int)
    requires
        schema::total_width(fields) <= u32::MAX,
        0 <= i < schema::total_width(fields),
    ensures
        read_plan::projected_columns(fields, Projection::All).len() == schema::total_width(fields),
        read_plan::projected_columns(fields, Projection::All)[i] == i,
{
}

/// Slices of a batch have as many rows each as are asked for, and follow each other from
/// the first row on; fewer rows than a slice has are left.
pub proof fn slices_follow_each_other(num_rows: nat, len: nat, j: int)
    requires
        len > 0,
    ensures
        ({
            let s = writer_finish::slices_of(num_rows, len);
            &&& s.len() * len <= num_rows < s.len() * len + len
            &&& 0 <= j < s.len() ==> s[j].1 == len && s[j].0 + len <= num_rows
            &&& s.len() > 0 ==> s[0].0 == 0
            &&& 0 <= j && j + 1 < s.len() ==> s[j + 1].0 == s[j].0 + len
        }),
{
    let s = writer_finish::slices_of(num_rows, len);
    let n = num_rows / len;
    vstd::arithmetic::div_mod::lemma_fundamental_div_mod(num_rows as int, len as int);
    assert(len * n == n * len) by (nonlinear_arith);
    assert(0 * len == 0) by (nonlinear_arith);
    assert((j + 1) * len == j * len + len) by (nonlinear_arith);
    if 0 <= j < s.len() {
        crate::floats::row_fits(len, j, n as int);
    }
}

/// The chunks of a dictionary are numbered behind those of all dictionaries in front of
/// it. One that has been merged with another has the first chunk of that in front of its
/// own.
pub proof fn dictionaries_have_their_chunks(
    counts: Seq<usize>,
    peers: Seq<Option<usize>>,
    i: int,
    k: int,
)
    requires
        0 <= i < counts.len(),
        0 <= k < counts[i],
        writer_finish::chunks_before(counts, i) + counts[i] <= u32::MAX,
    ensures
        writer_finish::chunks_before(counts, 0) == 0,
        writer_finish::chunks_before(counts, i + 1) - writer_finish::chunks_before(counts, i)
            == counts[i],
        ({
            let r = writer_finish::dictionary_chunks(counts, peers, i);
            let merged = i < peers.len() && peers[i] is Some;
            &&& !merged ==> r.len() == counts[i] && r[k] == writer_finish::chunks_before(counts, i)
                + k
            &&& merged ==> r.len() == counts[i] + 1 && r[k + 1] == writer_finish::chunks_before(
                counts,
                i,
            ) + k && r[0] == writer_finish::chunks_before(counts, peers[i]->0 as int) as u32
        }),
{
}

/// The module of an index stands behind the bytes of the index, where its section says.
pub proof fn sections_find_modules(
    file: Seq<u8>,
    configs: Seq<VectorIndexConfig>,
    at: int,
    i: int,
)
    requires
        0 <= i < configs.len(),
        0 <= at,
        at + writer_finish::configs_bytes(configs).len() <= file.len() <= u64::MAX,
        file.subrange(at, at + writer_finish::configs_bytes(configs).len())
            == writer_finish::configs_bytes(configs),
        configs[i].wasm_module is Some,
        configs[i].wasm_module->0@.len() <= u32::MAX,
    ensures
        ({
            let s = writer_finish::wasm_section_of(
                configs[i],
                writer_finish::config_at(configs, at, i),
            );
            &&& s is Some
            &&& s->0.offset + s->0.size <= file.len()
            &&& file.subrange(s->0.offset as int, s->0.offset + s->0.size)
                == configs[i].wasm_module->0@
            &&& s->0.compression_type.code == 0
        }),
{
    let all = writer_finish::configs_bytes(configs);
    let start = writer_finish::configs_bytes(configs.take(i)).len() as int;
    configs_stand(configs, i);
    let c = configs[i];
    let m = c.wasm_module->0@;
    let from = start + c.data@.len();
    assert(writer_finish::config_bytes(c).subrange(
        c.data@.len() as int,
        (c.data@.len() + m.len()) as int,
    ) =~= m);
    assert(all.subrange(start, start + writer_finish::config_bytes(c).len()).subrange(
        c.data@.len() as int,
        (c.data@.len() + m.len()) as int,
    ) =~= all.subrange(from, from + m.len()));
    assert(file.subrange(at, at + all.len()).subrange(from, from + m.len()) =~= file.subrange(
        at + from,
        at + from + m.len(),
    ));
}

proof fn configs_stand(configs: Seq<VectorIndexConfig>, i: int)
    requires
        0 <= i < configs.len(),
    ensures
        ({
            let all = writer_finish::configs_bytes(configs);
            let start = writer_finish::configs_bytes(configs.take(i)).len();
            let c = writer_finish::config_bytes(configs[i]);
            &&& start + c.len() <= all.len()
            &&& all.subrange(start as int, (start + c.len()) as int) == c
        }),
    decreases configs.len(),
{
    let front = configs.drop_last();
    let all = writer_finish::configs_bytes(configs);
    let start = writer_finish::configs_bytes(configs.take(i)).len() as int;
    let c = writer_finish::config_bytes(configs[i]);
    if i == configs.len() - 1 {
        assert(configs.take(i) =~= front);
        assert(all.subrange(start, start + c.len()) =~= c);
    } else {
        configs_stand(front, i);
        assert(front.take(i) =~= configs.take(i));
        let less = writer_finish::configs_bytes(front);
        assert(all.subrange(start, start + c.len()) =~= less.subrange(start, start + c.len()));
    }
}

/// The metadata of columns stands one behind the other, and so does that of row groups.
pub proof fn metadata_stands_in_a_row(
    a: Seq<Seq<u8>>,
    x: Seq<u8>,
    groups: Seq<Seq<Seq<u8>>>,
    g: Seq<Seq<u8>>,
)
    ensures
        row_groups::joined(Seq::empty()).len() == 0,
        row_groups::joined(a.push(x)) == row_groups::joined(a) + x,
        row_groups::all_joined(Seq::empty()).len() == 0,
        row_groups::all_joined(groups.push(g)) == row_groups::all_joined(groups)
            + row_groups::joined(g),
{
    assert(a.push(x).drop_last() =~= a);
    assert(groups.push(g).drop_last() =~= groups);
}

/// Noting a module in a block changes where the module is, how large, and its version;
/// nothing else.
pub proof fn modules_are_noted(b: VectorBlock, offset: u64, size: u32, abi: (u16, u16))
    ensures
        ({
            let r = row_groups::with_module(b, offset, size, abi);
            &&& r.micro_index.wasm_offset == offset
            &&& r.micro_index.wasm_size == size
            &&& r.micro_index.abi_major == abi.0
            &&& r.micro_index.abi_minor == abi.1
            &&& r.micro_index.aux_offset == b.micro_index.aux_offset
            &&& r.micro_index.aux_size == b.micro_index.aux_size
            &&& r.micro_index.reserved == b.micro_index.reserved
            &&& r.offset == b.offset
            &&& r.size == b.size
            &&& r.row_start == b.row_start
            &&& r.row_count == b.row_count
            &&& r.align == b.align
        }),
{
}

/// If nothing is said, eight mebibytes are read at once, an encoding unit has 65536 rows,
/// a row group is never finished for its size, values share a dictionary within a unit,
/// and nothing is compressed, checked chunk by chunk or indexed.
pub proof fn defaults_of_writing(o: FileWriterOptions)
    requires
        o.are_default(),
    ensures
        o.iounit_size == 8_388_608,
        o.encoding_unit_len == 65_536,
        o.row_group_size == u64::MAX,
        o.checksum_type.code == 0,
        o.compression_type.code == 0,
        o.dictionary_type == DictionaryTypeOptions::EncoderDictionary,
        !o.write_built_in_wasm,
        !o.enable_io_unit_checksum,
        !o.enable_micro_index,
        o.vector_indexes@.len() == 0,
        o.vector_index_builds@.len() == 0,
{
}

/// The version that files are written with, and the size of the postscript.
pub proof fn numbers_of_the_format()
    ensures
        file_format::MAJOR_VERSION == 0,
        file_format::MINOR_VERSION == 1,
        file_format::POSTSCRIPT_SIZE == 32,
{
}

} // verus!
