//! Laws of what the metadata of a file tells.
use crate::column_stats;
use crate::footer::GroupedColumnMetadata;
use crate::postscript::PostScript;
use crate::reader;
use crate::reader::{IndexLoad, IndexLoadError, WasmSpan};
use crate::schema;
use crate::schema::{DataType, Field};
use crate::tables::{ChunkTable, ColumnMetadataTable};
use crate::vector_index::VectorIndexDescriptor;
use vstd::prelude::*;

verus! {

proof fn largest_of_chunks(c: Seq<ChunkTable>, n: nat, least: u32, i: int)
    requires
        n <= c.len(),
    ensures
        ({
            let r = reader::largest_chunk(c, n, least);
            &&& r >= least
            &&& 0 <= i < n ==> r >= c[i].size_
            &&& r == least || exists|k: int| 0 <= k < n && (#[trigger] c[k]).size_ == r
        }),
    decreases n,
{
    if n > 0 {
        largest_of_chunks(c, (n - 1) as nat, least, i);
        assert(c[n - 1].size_ <= reader::largest_chunk(c, n, least));
    }
}

/// Whether some chunk of some of the first `n` columns has this size.
pub open spec fn some_chunk_has(c: Seq<ColumnMetadataTable>, n: nat, size: u32) -> bool {
    exists|j: int, k: int|
        0 <= j < n && 0 <= k < reader::chunks(c[j]).len() && (#[trigger] reader::chunks(
            c[j],
        )[k]).size_ == size
}

proof fn largest_of_columns(c: Seq<ColumnMetadataTable>, n: nat, least: u32, j: int, k: int)
    requires
        n <= c.len(),
    ensures
        ({
            let r = reader::largest_in_columns(c, n, least);
            &&& r >= least
            &&& 0 <= j < n && 0 <= k < reader::chunks(c[j]).len() ==> r >= reader::chunks(
                c[j],
            )[k].size_
            &&& r == least || some_chunk_has(c, n, r)
        }),
    decreases n,
{
    if n > 0 {
        largest_of_columns(c, (n - 1) as nat, least, j, k);
        let before = reader::largest_in_columns(c, (n - 1) as nat, least);
        let last = reader::chunks(c[n - 1]);
        largest_of_chunks(last, last.len(), before, k);
        let r = reader::largest_in_columns(c, n, least);
        if r != before {
            let p = choose|p: int| 0 <= p < last.len() && (#[trigger] last[p]).size_ == r;
            assert(reader::chunks(c[n - 1])[p].size_ == r);
        } else if r != least {
            let (a, b) = choose|a: int, b: int|
                0 <= a < n - 1 && 0 <= b < reader::chunks(c[a]).len() && (#[trigger] reader::chunks(
                    c[a],
                )[b]).size_ == r;
            assert(reader::chunks(c[a])[b].size_ == r);
        }
    }
}

/// No chunk of a file is larger than the largest, which some chunk is, unless there is
/// none that is larger than nothing.
pub proof fn largest_chunk_is_one(g: Seq<GroupedColumnMetadata>, n: nat, i: int, j: int, k: int)
    requires
        n <= g.len(),
    ensures
        ({
            let r = reader::largest_in_groups(g, n);
            &&& 0 <= i < n && 0 <= j < g[i].column_metadatas@.len() && 0 <= k < reader::chunks(
                g[i].column_metadatas@[j],
            ).len() ==> r >= reader::chunks(g[i].column_metadatas@[j])[k].size_
            &&& r == 0 || exists|p: int|
                0 <= p < n && some_chunk_has(
                    (#[trigger] g[p]).column_metadatas@,
                    g[p].column_metadatas@.len(),
                    r,
                )
        }),
    decreases n,
{
    if n > 0 {
        largest_chunk_is_one(g, (n - 1) as nat, i, j, k);
        let before = reader::largest_in_groups(g, (n - 1) as nat);
        let last = g[n - 1].column_metadatas@;
        largest_of_columns(last, last.len(), before, j, k);
        let r = reader::largest_in_groups(g, n);
        if r != before {
            assert(some_chunk_has(g[n - 1].column_metadatas@, last.len(), r));
        } else if r != 0 {
            let p = choose|p: int|
                0 <= p < n - 1 && some_chunk_has(
                    (#[trigger] g[p]).column_metadatas@,
                    g[p].column_metadatas@.len(),
                    r,
                );
            assert(some_chunk_has(g[p].column_metadatas@, g[p].column_metadatas@.len(), r));
        }
    }
}

/// No chunks take no bytes, one takes its size, and chunks behind others take what both
/// take.
pub proof fn chunk_sizes_add_up(a: Seq<ChunkTable>, b: Seq<ChunkTable>, x: ChunkTable)
    ensures
        reader::bytes_of_chunks(a, 0) == 0,
        reader::bytes_of_chunks(seq![x], 1) == x.size_,
        reader::bytes_of_chunks(a + b, (a + b).len()) == reader::bytes_of_chunks(a, a.len())
            + reader::bytes_of_chunks(b, b.len()),
{
    reveal_with_fuel(reader::bytes_of_chunks, 2);
    parts_add_up(a, b, b.len());
}

proof fn parts_add_up(a: Seq<ChunkTable>, b: Seq<ChunkTable>, n: nat)
    requires
        n <= b.len(),
    ensures
        reader::bytes_of_chunks(a + b, a.len() + n) == reader::bytes_of_chunks(a, a.len())
            + reader::bytes_of_chunks(b, n),
    decreases n,
{
    if n == 0 {
        same_front(a, b, a.len());
    } else {
        parts_add_up(a, b, (n - 1) as nat);
    }
}

proof fn same_front(a: Seq<ChunkTable>, b: Seq<ChunkTable>, n: nat)
    requires
        n <= a.len(),
    ensures
        reader::bytes_of_chunks(a + b, n) == reader::bytes_of_chunks(a, n),
    decreases n,
{
    if n > 0 {
        same_front(a, b, (n - 1) as nat);
    }
}

/// A column takes in row groups what its chunks take in each, and has as many chunks as
/// it has in all of them.
pub proof fn column_sizes_add_up(g: Seq<GroupedColumnMetadata>, col: int, n: nat)
    ensures
        reader::bytes_of_column(g, col, 0) == 0,
        reader::count_of_column(g, col, 0) == 0,
        reader::bytes_of_column(g, col, n + 1) - reader::bytes_of_column(g, col, n)
            == reader::bytes_of_chunks(
            reader::chunks(g[n as int].column_metadatas@[col]),
            reader::chunks(g[n as int].column_metadatas@[col]).len(),
        ),
        reader::count_of_column(g, col, n + 1) - reader::count_of_column(g, col, n)
            == reader::chunks(g[n as int].column_metadatas@[col]).len(),
{
}

/// The metadata of a file ends where its postscript starts, 32 bytes before the end.
pub proof fn metadata_is_before_the_postscript(file_size: u64, p: PostScript)
    ensures
        ({
            let (start, size) = reader::metadata_span(file_size, p);
            &&& size == p.metadata_size
            &&& start + size + 32 == file_size
        }),
{
}

/// An index is found if there is one with the id; it is the first one.
pub proof fn first_index_is_found(indexes: Seq<VectorIndexDescriptor>, id: u32, n: nat)
    ensures
        match reader::index_place(indexes, id, n) {
            Some(i) => 0 <= i < n && indexes[i].index_id == id && forall|j: int|
                0 <= j < i ==> (#[trigger] indexes[j]).index_id != id,
            None => forall|j: int| 0 <= j < n ==> (#[trigger] indexes[j]).index_id != id,
        },
    decreases n,
{
    if n > 0 {
        first_index_is_found(indexes, id, (n - 1) as nat);
    }
}

/// What has to be read for a search: nothing if it has been read; otherwise the section
/// with the bytes of the index, which has to be there, and that of its module if there is
/// one, neither compressed.
pub proof fn sections_are_loaded(indexes: Seq<VectorIndexDescriptor>, id: u32, i: int)
    requires
        0 <= i < indexes.len() <= usize::MAX,
        indexes[i].index_id == id,
        forall|j: int| 0 <= j < i ==> (#[trigger] indexes[j]).index_id != id,
    ensures
        reader::index_load(indexes, id, true) == Ok::<IndexLoad, IndexLoadError>(
            IndexLoad::Cached,
        ),
        indexes[i].data_section is None ==> reader::index_load(indexes, id, false) == Err::<
            IndexLoad,
            IndexLoadError,
        >(IndexLoadError::BlobMissing(id)),
        indexes[i].data_section matches Some(d) ==> {
            let module = indexes[i].wasm_section;
            let plain = d.compression_type.code == 0 && (module is Some
                ==> module->0.compression_type.code == 0);
            &&& !plain ==> reader::index_load(indexes, id, false) == Err::<
                IndexLoad,
                IndexLoadError,
            >(IndexLoadError::Compressed)
            &&& plain ==> {
                let r = reader::index_load(indexes, id, false);
                &&& r is Ok
                &&& r->Ok_0 is Read
                &&& r->Ok_0->index == i
                &&& r->Ok_0->blob_offset == d.offset
                &&& r->Ok_0->blob_size == d.size
                &&& module is None <==> r->Ok_0->wasm is Absent
                &&& module is Some ==> r->Ok_0->wasm == (WasmSpan::At {
                    offset: module->0.offset,
                    size: module->0.size,
                })
            }
        },
{
    first_index_is_found(indexes, id, indexes.len());
    let p = reader::index_place(indexes, id, indexes.len());
    assert(indexes[i].index_id == id);
    assert(p is Some);
    if p->0 < i {
        assert(indexes[p->0].index_id != id);
    }
}

/// Without an index with the id nothing can be loaded.
pub proof fn missing_indexes_are_not_loaded(
    indexes: Seq<VectorIndexDescriptor>,
    id: u32,
    cached: bool,
)
    requires
        forall|j: int| 0 <= j < indexes.len() ==> (#[trigger] indexes[j]).index_id != id,
    ensures
        reader::index_load(indexes, id, cached) == Err::<IndexLoad, IndexLoadError>(
            IndexLoadError::NotFound(id),
        ),
{
    first_index_is_found(indexes, id, indexes.len());
}

/// What is known of a field and the fields inside it: as many physical columns as it
/// takes, one behind the other, each with the bytes of its chunks and with the number of
/// the column; the first is the field itself.
pub proof fn fields_have_their_sizes(
    f: Field,
    id: i32,
    metas: Seq<ColumnMetadataTable>,
    at: int,
    i: int,
)
    requires
        column_stats::without_vectors(f),
        0 <= i < schema::width(f),
    ensures
        ({
            let s = column_stats::stats_of(f, id, metas, at);
            let c = reader::chunks(metas[at + i]);
            &&& s.len() == schema::width(f)
            &&& s[i].size == reader::bytes_of_chunks(c, c.len())
            &&& s[i].field_id == id
            &&& s[0].field == f
        }),
    decreases f, 2int, 0nat,
{
    if !f.data_type.is_non_nest() {
        match f.data_type {
            DataType::List(child) => {
                fields_have_their_sizes(*child, id, metas, at + 1, if i > 0 { i - 1 } else { 0 });
            },
            DataType::LargeList(child) => {
                fields_have_their_sizes(*child, id, metas, at + 1, if i > 0 { i - 1 } else { 0 });
            },
            DataType::Struct(fields) => {
                assert(fields@.take(fields@.len() as int) =~= fields@);
                inner_fields_have_their_sizes(f, fields@, fields@.len(), id, metas, at + 1, i - 1);
            },
            _ => {},
        }
    }
}

proof fn inner_fields_have_their_sizes(
    f: Field,
    fields: Seq<Field>,
    n: nat,
    id: i32,
    metas: Seq<ColumnMetadataTable>,
    at: int,
    i: int,
)
    requires
        f.data_type matches DataType::Struct(v) && v@ == fields,
        n <= fields.len(),
        column_stats::all_without_vectors(fields.take(n as int)),
    ensures
        ({
            let s = column_stats::inner_stats(fields.take(n as int), id, metas, at);
            let c = reader::chunks(metas[at + i]);
            &&& s.len() == schema::total_width(fields.take(n as int))
            &&& 0 <= i < s.len() ==> s[i].size == reader::bytes_of_chunks(c, c.len())
                && s[i].field_id == id
        }),
    decreases f, 1int, n,
{
    let front = fields.take(n as int);
    if n > 0 {
        let less = fields.take(n - 1);
        assert(front.drop_last() =~= less);
        assert(front.last() == fields[n - 1]);
        inner_fields_have_their_sizes(f, fields, (n - 1) as nat, id, metas, at, i);
        let start = schema::total_width(less) as int;
        assert(decreases_to!(f => fields[n - 1])) by {
            let v = f.data_type->Struct_0;
            assert(decreases_to!(f => f.data_type));
            assert(decreases_to!(f.data_type => v));
            assert(decreases_to!(v => v@));
            assert(decreases_to!(fields => fields[n - 1]));
        }
        width_is_positive(fields[n - 1]);
        fields_have_their_sizes(
            fields[n - 1],
            id,
            metas,
            at + start,
            if i >= start && i - start < schema::width(fields[n - 1]) {
                i - start
            } else {
                0
            },
        );
    }
}

proof fn width_is_positive(f: Field)
    ensures
        schema::width(f) > 0,
{
}

/// What is known of columns: as many physical columns as they take, each with the bytes
/// of its chunks, in the order in which they stand.
pub proof fn columns_have_their_sizes(
    fields: Seq<Field>,
    metas: Seq<ColumnMetadataTable>,
    n: nat,
    i: int,
)
    requires
        n <= fields.len(),
        forall|k: int| 0 <= k < n ==> column_stats::without_vectors(#[trigger] fields[k]),
    ensures
        ({
            let s = column_stats::top_stats(fields, metas, n);
            let c = reader::chunks(metas[i]);
            &&& s.len() == schema::total_width(fields.take(n as int))
            &&& 0 <= i < s.len() ==> s[i].size == reader::bytes_of_chunks(c, c.len())
        }),
    decreases n,
{
    if n > 0 {
        let front = fields.take(n as int);
        assert(front.drop_last() =~= fields.take(n - 1));
        assert(front.last() == fields[n - 1]);
        columns_have_their_sizes(fields, metas, (n - 1) as nat, i);
        let start = schema::total_width(fields.take(n - 1)) as int;
        width_is_positive(fields[n - 1]);
        fields_have_their_sizes(
            fields[n - 1],
            (n - 1) as i32,
            metas,
            start,
            if i >= start && i - start < schema::width(fields[n - 1]) {
                i - start
            } else {
                0
            },
        );
    } else {
        assert(fields.take(0) =~= Seq::<Field>::empty());
    }
}

/// What is known of row groups: for each as many physical columns as the columns take,
/// and the `i`-th of the `g`-th row group has the bytes that its chunks have there.
pub proof fn groups_have_their_sizes(
    fields: Seq<Field>,
    groups: Seq<GroupedColumnMetadata>,
    n: nat,
    g: int,
    i: int,
)
    requires
        n <= groups.len(),
        forall|k: int| 0 <= k < fields.len() ==> column_stats::without_vectors(#[trigger] fields[k]),
    ensures
        ({
            let s = column_stats::all_stats(fields, groups, n);
            let width = schema::total_width(fields);
            let c = reader::chunks(groups[g].column_metadatas@[i]);
            &&& s.len() == n * width
            &&& 0 <= g < n && 0 <= i < width ==> s[g * width + i].size == reader::bytes_of_chunks(
                c,
                c.len(),
            )
        }),
    decreases n,
{
    let width = schema::total_width(fields);
    assert(fields.take(fields.len() as int) =~= fields);
    if n == 0 {
        assert(0 * width == 0) by (nonlinear_arith);
    } else {
        groups_have_their_sizes(fields, groups, (n - 1) as nat, g, i);
        columns_have_their_sizes(
            fields,
            groups[n - 1].column_metadatas@,
            fields.len(),
            i,
        );
        assert((n - 1) * width + width == n * width) by (nonlinear_arith);
        if 0 <= g < n - 1 && 0 <= i < width {
            crate::floats::row_fits(width, g, n - 1);
        }
    }
}

} // verus!
