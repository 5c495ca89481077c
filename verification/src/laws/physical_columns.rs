//! Laws of the physical columns that columns are written to and read from.
use crate::assemble;
use crate::checksum;
use crate::decoder;
use crate::decoder::{
    ChunkChecksumError,
    ListStructDecoder,
    LogicalColDecoder,
    NoChunks,
};
use crate::encoded_chunk::EncodedColumnChunk;
use crate::encoder;
use crate::encoder::{LogicalColEncoder, LogicalTree, LogicalTreeNode};
use crate::footer::GroupedColumnMetadata;
use crate::read_plan;
use crate::read_plan::GroupPlan;
use crate::schema;
use crate::schema::{ColumnIndexSequence, DataType, Field, TypeView};
use crate::selection::{Projection, Selection};
use crate::tables::ColumnMetadataTable;
use crate::vector_encoder;
use vstd::prelude::*;

verus! {

/// A column is written to the next physical columns, one number behind the other, as many
/// as it takes.
pub proof fn columns_get_the_next_numbers(
    field: &Field,
    next: &mut ColumnIndexSequence,
    micro_index: bool,
    pushdown: bool,
    r: (LogicalColEncoder, LogicalTree),
    i: int,
)
    requires
        old(next).next + encoder::written_width(*field, pushdown) <= u32::MAX,
        call_ensures(encoder::create_logical_encoder, (field, next, micro_index, pushdown), r),
        0 <= i < encoder::written_width(*field, pushdown),
    ensures
        encoder::columns_of(r.0).len() == encoder::written_width(*field, pushdown),
        encoder::columns_of(r.0)[i] == old(next).next + i,
        final(next).next - old(next).next == encoder::written_width(*field, pushdown),
{
}

/// How a column is encoded goes by its type: vectors with their number of components and
/// with nothing waiting, lists with what is inside them, structs with each of their fields,
/// and other columns with their type.
pub proof fn columns_are_encoded(
    field: &Field,
    next: &mut ColumnIndexSequence,
    micro_index: bool,
    pushdown: bool,
    r: (LogicalColEncoder, LogicalTree),
)
    requires
        call_ensures(encoder::create_logical_encoder, (field, next, micro_index, pushdown), r),
    ensures
        ({
            let t = field.data_type;
            let (e, tree) = r;
            &&& t.is_vector() ==> {
                &&& e is Vector
                &&& e->Vector_0.dim == t->FixedSizeList_1
                &&& e->Vector_0.nullable == field.nullable
                &&& e->Vector_0.enable_micro_index == micro_index
                &&& e->Vector_0.pending_rows == 0
                &&& tree.id is Flat
            }
            &&& t.is_non_nest() ==> {
                &&& e is Flat
                &&& e->Flat_0.data_type == t
                &&& e->Flat_0.nullable == field.nullable
                &&& tree.id is Flat
                &&& tree.children@.len() == 0
            }
            &&& t is Struct ==> {
                &&& e is Struct
                &&& e->Struct_0.fields_encoders@.len() == t->Struct_0@.len()
                &&& tree.id is Struct
                &&& tree.children@.len() == t->Struct_0@.len()
            }
            &&& (t is List || t is LargeList) && !pushdown ==> {
                &&& e is List
                &&& e->List_0.list_type@ == t@
                &&& e->List_0.nullable == field.nullable
                &&& tree.id is List
                &&& tree.children@.len() == 1
            }
        }),
{
    reveal_with_fuel(encoder::encodes, 2);
    reveal_with_fuel(encoder::all_encode, 2);
    reveal_with_fuel(encoder::is_tree_of, 2);
    reveal_with_fuel(encoder::are_trees_of, 2);
}

/// The fields of structs are encoded one by one in their order.
pub proof fn fields_are_encoded_in_order(
    es: Seq<LogicalColEncoder>,
    fields: Seq<Field>,
    micro_index: bool,
    pushdown: bool,
    i: int,
)
    requires
        encoder::all_encode(es, fields, micro_index, pushdown),
        0 <= i < fields.len(),
    ensures
        es.len() == fields.len(),
        encoder::encodes(es[i], fields[i], micro_index, pushdown),
    decreases fields.len(),
{
    if i < fields.len() - 1 {
        fields_are_encoded_in_order(
            es.drop_last(),
            fields.drop_last(),
            micro_index,
            pushdown,
            i,
        );
    }
}

/// And so they are decoded.
pub proof fn fields_are_decoded_in_order(
    ds: Seq<LogicalColDecoder>,
    fields: Seq<Field>,
    verify: bool,
    i: int,
)
    requires
        decoder::all_decode(ds, fields, verify),
        0 <= i < fields.len(),
    ensures
        ds.len() == fields.len(),
        decoder::decodes(ds[i], fields[i], verify),
    decreases fields.len(),
{
    if i < fields.len() - 1 {
        fields_are_decoded_in_order(ds.drop_last(), fields.drop_last(), verify, i);
    }
}

/// How columns are nested is told column by column in their order.
pub proof fn trees_are_in_order(ts: Seq<LogicalTree>, fields: Seq<Field>, pushdown: bool, i: int)
    requires
        encoder::are_trees_of(ts, fields, pushdown),
        0 <= i < fields.len(),
    ensures
        ts.len() == fields.len(),
        encoder::is_tree_of(ts[i], fields[i], pushdown),
    decreases fields.len(),
{
    if i < fields.len() - 1 {
        trees_are_in_order(ts.drop_last(), fields.drop_last(), pushdown, i);
    }
}

proof fn tables_are_in_order(t: Seq<LogicalTreeNode>, trees: Seq<LogicalTree>, i: int)
    requires
        encoder::are_tables_of(t, trees),
        0 <= i < trees.len(),
    ensures
        t.len() == trees.len(),
        encoder::is_table_of(t[i], trees[i]),
    decreases trees.len(),
{
    if i < trees.len() - 1 {
        tables_are_in_order(t.drop_last(), trees.drop_last(), i);
    }
}

/// The table of a tree has what the tree is, and the table of each tree inside it.
pub proof fn trees_are_stored(tree: &LogicalTree, r: LogicalTreeNode, i: int)
    requires
        call_ensures(LogicalTree::to_fb, (tree,), r),
        0 <= i < tree.children@.len(),
    ensures
        r.id == tree.id,
        r.children is Some,
        r.children->0@.len() == tree.children@.len(),
        encoder::is_table_of(r.children->0@[i], tree.children@[i]),
{
    tables_are_in_order(r.children->0@, tree.children@, i);
}

/// How many physical columns a column is written to: one for vectors and for what has
/// nothing inside; for lists and structs one more than what is inside; and for lists of
/// structs that go with their fields as many as there are fields.
pub proof fn widths_that_are_written(f: Field, pushdown: bool)
    ensures
        f.data_type.is_vector() || f.data_type.is_non_nest() ==> encoder::written_width(f, pushdown)
            == 1,
        !encoder::pushes_down(f, pushdown) && f.data_type is List ==> encoder::written_width(
            f,
            pushdown,
        ) == 1 + encoder::written_width(*f.data_type->List_0, pushdown),
        !encoder::pushes_down(f, pushdown) && f.data_type is LargeList ==> encoder::written_width(
            f,
            pushdown,
        ) == 1 + encoder::written_width(*f.data_type->LargeList_0, pushdown),
        f.data_type is Struct ==> encoder::written_width(f, pushdown) == 1
            + encoder::total_written_width(f.data_type->Struct_0@, pushdown),
        encoder::pushes_down(f, pushdown) && f.data_type is List ==> encoder::written_width(
            f,
            pushdown,
        ) == f.data_type->List_0.data_type->Struct_0@.len(),
        encoder::pushes_down(f, pushdown) && f.data_type is LargeList ==> encoder::written_width(
            f,
            pushdown,
        ) == f.data_type->LargeList_0.data_type->Struct_0@.len(),
{
}

/// Columns are written to what each of them is written to.
pub proof fn written_widths_add_up(a: Seq<Field>, b: Seq<Field>, pushdown: bool)
    ensures
        encoder::total_written_width(Seq::empty(), pushdown) == 0,
        encoder::total_written_width(a + b, pushdown) == encoder::total_written_width(a, pushdown)
            + encoder::total_written_width(b, pushdown),
    decreases b.len(),
{
    if b.len() == 0 {
        assert(a + b =~= a);
    } else {
        assert((a + b).drop_last() =~= a + b.drop_last());
        written_widths_add_up(a, b.drop_last(), pushdown);
    }
}

/// Lists go with the fields of the structs in them only if that is asked for, the lists are
/// of structs, and no field has anything inside.
pub proof fn lists_go_with_fields(f: Field, pushdown: bool, i: int)
    requires
        encoder::pushes_down(f, pushdown),
    ensures
        pushdown,
        f.data_type is List || f.data_type is LargeList,
        ({
            let inside = if f.data_type is List {
                *f.data_type->List_0
            } else {
                *f.data_type->LargeList_0
            };
            &&& inside.data_type is Struct
            &&& 0 <= i < inside.data_type->Struct_0@.len()
                ==> inside.data_type->Struct_0@[i].data_type.is_non_nest()
        }),
        !encoder::pushes_down(f, false),
{
}

/// Lists that go with a field are lists of the same kind of structs of the same name that
/// have just this field.
pub proof fn lists_have_one_field(f: &Field, i: usize, r: DataType)
    requires
        i < encoder::fields_in_lists(*f),
        call_ensures(encoder::lists_with_field, (f, i), r),
    ensures
        f.data_type is List ==> {
            let inside = *f.data_type->List_0;
            let with = r@;
            &&& with is List
            &&& with->List_0.name == inside.name@
            &&& with->List_0.nullable == inside.nullable
            &&& with->List_0.data_type == TypeView::Struct(
                seq![inside.data_type->Struct_0@[i as int]@],
            )
        },
        f.data_type is LargeList ==> {
            let inside = *f.data_type->LargeList_0;
            let with = r@;
            &&& with is LargeList
            &&& with->LargeList_0.name == inside.name@
            &&& with->LargeList_0.nullable == inside.nullable
            &&& with->LargeList_0.data_type == TypeView::Struct(
                seq![inside.data_type->Struct_0@[i as int]@],
            )
        },
{
}

/// The physical columns of a column come with that of its lists or structs in front, and
/// those of what is inside behind it, column by column.
pub proof fn columns_come_in_order(
    e: LogicalColEncoder,
    es: Seq<LogicalColEncoder>,
)
    ensures
        e is Flat ==> encoder::columns_of(e) == seq![e->Flat_0.column_index],
        e is Vector ==> encoder::columns_of(e) == seq![e->Vector_0.column_index],
        e is List ==> encoder::columns_of(e) == seq![e->List_0.column_index] + encoder::columns_of(
            *e->List_0.values_encoder,
        ),
        e is Struct ==> encoder::columns_of(e) == seq![e->Struct_0.column_index]
            + encoder::all_columns_of(e->Struct_0.fields_encoders@),
        e is ListOfStruct ==> encoder::columns_of(e) == e->ListOfStruct_0.column_indexes@,
        encoder::all_columns_of(Seq::empty()).len() == 0,
        encoder::all_columns_of(es.push(e)) == encoder::all_columns_of(es) + encoder::columns_of(e),
{
    assert(es.push(e).drop_last() =~= es);
}

/// And so they are read.
pub proof fn columns_are_read_in_order(
    d: LogicalColDecoder,
    ds: Seq<LogicalColDecoder>,
)
    ensures
        d is Primitive ==> decoder::columns_read(d) == seq![d->Primitive_0.column_index],
        d is Vector ==> decoder::columns_read(d) == seq![d->Vector_0.inner.column_index],
        d is List ==> decoder::columns_read(d) == seq![
            d->List_0.validity_offsets_decoder.column_index,
        ] + decoder::columns_read(*d->List_0.values_decoder),
        d is Struct ==> decoder::columns_read(d) == seq![d->Struct_0.validity_decoder.column_index]
            + decoder::all_columns_read(d->Struct_0.children@),
        decoder::all_columns_read(Seq::empty()).len() == 0,
        decoder::all_columns_read(ds.push(d)) == decoder::all_columns_read(ds)
            + decoder::columns_read(d),
{
    assert(ds.push(d).drop_last() =~= ds);
}

/// A column is read from the next physical columns, one number behind the other, as many as
/// it takes, if the chunks of all of them are known.
pub proof fn columns_are_read_from_the_next(
    field: &Field,
    metas: &Vec<ColumnMetadataTable>,
    next: &mut ColumnIndexSequence,
    verify: bool,
    r: Result<LogicalColDecoder, NoChunks>,
    i: int,
)
    requires
        old(next).next + schema::width(*field) <= u32::MAX,
        call_ensures(decoder::create_logical_decoder, (field, metas, next, verify), r),
        0 <= i < schema::width(*field),
    ensures
        r is Ok ==> {
            &&& decoder::columns_read(r->Ok_0).len() == schema::width(*field)
            &&& decoder::columns_read(r->Ok_0)[i] == old(next).next + i
            &&& final(next).next - old(next).next == schema::width(*field)
        },
        metas@[old(next).next + i].column_chunks is None ==> r is Err,
        r is Err ==> exists|k: int|
            0 <= k < schema::width(*field) && (#[trigger] metas@[old(next).next
                + k]).column_chunks is None,
{
    let start = old(next).next as int;
    let n = schema::width(*field);
    if metas@[start + i].column_chunks is None {
        assert(!decoder::chunks_known(metas@, start, n));
    }
    if r is Err {
        let x = choose|x: int|
            start <= x < start + n && (#[trigger] metas@[x]).column_chunks is None;
        let k = x - start;
        assert(metas@[old(next).next + k].column_chunks is None);
    }
}

/// How a column is decoded goes by its type.
pub proof fn columns_are_decoded(
    field: &Field,
    metas: &Vec<ColumnMetadataTable>,
    next: &mut ColumnIndexSequence,
    verify: bool,
    r: Result<LogicalColDecoder, NoChunks>,
)
    requires
        call_ensures(decoder::create_logical_decoder, (field, metas, next, verify), r),
        r is Ok,
    ensures
        ({
            let t = field.data_type;
            let d = r->Ok_0;
            &&& t.is_vector() ==> {
                &&& d is Vector
                &&& d->Vector_0.dim == t->FixedSizeList_1
                &&& d->Vector_0.nullable == field.nullable
                &&& d->Vector_0.inner.primitive_type@ == TypeView::Flat(DataType::Binary)
                &&& d->Vector_0.inner.verify == verify
            }
            &&& t.is_non_nest() ==> {
                &&& d is Primitive
                &&& d->Primitive_0.primitive_type@ == t@
                &&& d->Primitive_0.verify == verify
            }
            &&& t is List || t is LargeList ==> {
                &&& d is List
                &&& d->List_0.validity_offsets_decoder.primitive_type@ == t@
                &&& d->List_0.validity_offsets_decoder.verify == verify
            }
            &&& t is Struct ==> {
                &&& d is Struct
                &&& d->Struct_0.validity_decoder.primitive_type@ == TypeView::Flat(
                    DataType::Boolean,
                )
                &&& d->Struct_0.validity_decoder.verify == verify
                &&& d->Struct_0.children@.len() == t->Struct_0@.len()
            }
        }),
{
    reveal_with_fuel(decoder::decodes, 2);
    reveal_with_fuel(decoder::all_decode, 2);
}

/// Lists of structs are read from as many physical columns as they have fields if the lists
/// go with the fields, and else from two more.
pub proof fn lists_of_structs_are_read(n: nat)
    requires
        n > 0,
    ensures
        decoder::list_struct_width(n, true) == n,
        decoder::list_struct_width(n, false) == n + 2,
        decoder::list_struct_width(0, false) == 2,
        decoder::list_struct_width(0, true) == 1,
{
}

/// Where the lists, the structs and the fields of lists of structs are read from.
pub proof fn places_of_lists_of_structs(
    d: ListStructDecoder,
    start: int,
    f: Field,
    pushdown: bool,
    i: int,
)
    requires
        decoder::reads_structs(d, start, f, pushdown),
        decoder::struct_fields(f) is Some,
        0 <= i < decoder::struct_fields(f)->0.len(),
        0 <= start,
        start + 2 + decoder::struct_fields(f)->0.len() <= u32::MAX,
    ensures
        d.fields().len() == decoder::struct_fields(f)->0.len(),
        d.fields()[i].column_index == (if pushdown {
            start + i
        } else {
            start + 2 + i
        }),
        d is OffsetPushdown <==> pushdown,
        d is Plain ==> d->validity_offsets_decoder.column_index == start
            && d->struct_validity_decoder.column_index == start + 1,
{
    let n = decoder::struct_fields(f)->0.len();
    let numbers = decoder::numbers_of(d.fields());
    assert(numbers.len() == n);
    assert(numbers[i] == d.fields()[i].column_index);
}

/// A field of lists of structs is read with its lists, or with the lists and the structs in
/// front.
pub proof fn columns_of_fields(d: &ListStructDecoder, field: usize, r: Vec<u32>)
    requires
        field < d.fields().len(),
        call_ensures(ListStructDecoder::columns_of_field, (d, field), r),
    ensures
        r@.last() == d.fields()[field as int].column_index,
        *d is OffsetPushdown ==> r@.len() == 1,
        *d is Plain ==> r@.len() == 3 && r@[0] == d->validity_offsets_decoder.column_index && r@[1]
            == d->struct_validity_decoder.column_index,
{
}

/// A chunk that is verified has to have a checksum, and its bytes have to have that one; a
/// chunk that is not verified passes.
pub proof fn chunks_are_verified(
    bytes: &[u8],
    stored: Option<u64>,
    verify: bool,
    r: Result<(), ChunkChecksumError>,
)
    requires
        call_ensures(decoder::verify_chunk, (bytes, stored, verify), r),
    ensures
        r is Ok <==> !verify || stored == Some(checksum::xxh64_of(bytes@)),
        r is Err ==> (r->Err_0 is Missing <==> stored is None),
        r is Err ==> (r->Err_0 is Mismatch <==> stored is Some),
{
}

/// Checksums are compared in the same way.
pub proof fn checksums_are_compared(
    stored: Option<u64>,
    computed: u64,
    r: Result<(), ChunkChecksumError>,
)
    requires
        call_ensures(decoder::compare_checksum, (stored, computed), r),
    ensures
        r is Ok <==> stored == Some(computed),
        r is Err ==> (r->Err_0 is Missing <==> stored is None),
        r is Err ==> (r->Err_0 is Mismatch <==> stored is Some),
{
}

/// Lists that are cut out keep their lengths, start at zero, and have the items between the
/// start of the first and the end of the last.
pub proof fn lists_are_cut_out(offsets: &[i32], len: usize, r: (Vec<i32>, usize, usize), i: int)
    requires
        len < offsets@.len(),
        call_ensures(decoder::slice_offsets, (offsets, len), r),
        0 <= i < len,
    ensures
        r.0@.len() == len + 1,
        r.0@[0] == 0,
        r.0@[i + 1] - r.0@[i] == offsets@[i + 1] - offsets@[i],
        r.1 == offsets@[0],
        r.1 + r.2 == offsets@[len as int],
        r.2 == r.0@[len as int],
{
}

/// Batches of columns become columns of batches again.
pub proof fn turning_twice_gives_back<T>(
    v: Vec<Vec<T>>,
    r: Vec<Vec<T>>,
    back: Vec<Vec<T>>,
    i: int,
    j: int,
)
    requires
        call_ensures(decoder::transpose::<T>, (v,), r),
        call_ensures(decoder::transpose::<T>, (r,), back),
        v@.len() > 0,
        v@[0]@.len() > 0,
        0 <= i < v@.len(),
        0 <= j < v@[0]@.len(),
    ensures
        r@.len() == v@[0]@.len(),
        r@[j]@.len() == v@.len(),
        r@[j]@[i] == v@[i]@[j],
        back@.len() == v@.len(),
        back@[i]@[j] == v@[i]@[j],
{
}

/// Structs are paired with which of them are there, as far as there are both.
pub proof fn structs_are_paired<T>(
    validity: Vec<Vec<bool>>,
    values: Vec<T>,
    r: Vec<(Option<Vec<bool>>, T)>,
    i: int,
)
    requires
        call_ensures(assemble::pair_structs::<T>, (validity, values), r),
    ensures
        r@.len() <= validity@.len(),
        r@.len() <= values@.len(),
        r@.len() == validity@.len() || r@.len() == values@.len(),
        0 <= i < r@.len() ==> r@[i].1 == values@[i],
        0 <= i < r@.len() ==> (r@[i].0 is None <==> validity@[i]@.len() == 0),
        0 <= i < r@.len() && r@[i].0 is Some ==> r@[i].0->0@ == validity@[i]@,
{
    if 0 <= i < r@.len() {
        assert(assemble::is_validity(validity@[i]@, r@[i].0));
    }
}

/// Columns that do not fit together are refused, and so are rows of bytes that are no
/// vectors; otherwise there are as many batches as the first column has.
pub proof fn groups_are_put_together<T>(
    decoders: &Vec<LogicalColDecoder>,
    columns: Vec<Vec<assemble::Unit<T>>>,
    r: Result<Vec<Vec<assemble::Array<T>>>, assemble::GroupError>,
    i: int,
    j: int,
)
    requires
        call_ensures(assemble::checked_decode_group::<T>, (decoders, columns), r),
        r is Ok,
        0 <= j < decoders@.len(),
    ensures
        r->Ok_0@.len() == assemble::batch_count(decoders@[0], columns@),
        0 <= i < r->Ok_0@.len() ==> r->Ok_0@[i]@.len() == decoders@.len(),
        0 <= i < r->Ok_0@.len() ==> assemble::is_batch(decoders@[j], columns@, i, r->Ok_0@[i]@[j]),
{
    if 0 <= i < r->Ok_0@.len() {
        assert(assemble::is_row_of_batches(decoders@, columns@, i, r->Ok_0@[i]@));
        assert(assemble::is_batch(decoders@[j], columns@, i, r->Ok_0@[i]@[j]));
    }
}

/// The chunks of physical columns come one column behind the other, each as a chunk of its
/// column and else as it was.
pub proof fn chunks_are_labeled(
    outputs: Seq<Vec<EncodedColumnChunk>>,
    more: Vec<EncodedColumnChunk>,
    columns: Seq<u32>,
    i: int,
)
    requires
        columns.len() > outputs.len(),
        0 <= i < more@.len(),
    ensures
        encoder::all_labeled(Seq::empty(), columns).len() == 0,
        ({
            let before = encoder::all_labeled(outputs, columns);
            let after = encoder::all_labeled(outputs.push(more), columns);
            let c = after[before.len() + i];
            &&& after.len() == before.len() + more@.len()
            &&& after.take(before.len() as int) == before
            &&& c.column_index == columns[outputs.len() as int]
            &&& c.encunits == more@[i].encunits
            &&& c.num_rows == more@[i].num_rows
            &&& c.dict_encoding == more@[i].dict_encoding
            &&& c.micro_index_aux == more@[i].micro_index_aux
        }),
{
    assert(outputs.push(more).drop_last() =~= outputs);
    let before = encoder::all_labeled(outputs, columns);
    let after = encoder::all_labeled(outputs.push(more), columns);
    assert(after.take(before.len() as int) =~= before);
}

/// Rows of which nothing is said are there.
pub proof fn rows_are_there(nulls: Option<&Vec<bool>>, len: usize, r: Vec<bool>, i: int)
    requires
        call_ensures(vector_encoder::extract_validity, (nulls, len), r),
    ensures
        nulls is Some ==> r@ == nulls->0@,
        nulls is None ==> r@.len() == len,
        nulls is None && 0 <= i < len ==> r@[i],
{
}

/// A file is read group by group: each with all columns that are picked, in their order,
/// from the physical columns from the first on, verified if so asked.
pub proof fn groups_are_read_with_all_columns<'a>(
    fields: &Vec<Field>,
    groups: &'a [GroupedColumnMetadata],
    projection: &Projection,
    sel: &Selection,
    verify: bool,
    r: Result<Vec<GroupPlan<'a>>, NoChunks>,
    i: int,
    j: int,
)
    requires
        call_ensures(read_plan::plan_read, (fields, groups, projection, sel, verify), r),
        r is Ok,
        0 <= i < r->Ok_0@.len(),
        0 <= j < read_plan::picked(fields@, *projection).len(),
    ensures
        ({
            let picked = read_plan::picked(fields@, *projection);
            let plan = r->Ok_0@[i];
            let part = read_plan::read_groups(*sel, groups@)[i];
            &&& plan.decoders@.len() == picked.len()
            &&& decoder::decodes(plan.decoders@[j], picked[j], verify)
            &&& decoder::all_columns_read(plan.decoders@) == encoder::consecutive(
                0,
                schema::total_width(picked),
            )
            &&& *plan.group == groups@[part.0]
            &&& part.1 is None <==> plan.selection is All
            &&& part.1 is Some ==> plan.selection->RowIndexes_0@ == part.1->0
        }),
{
    let picked = read_plan::picked(fields@, *projection);
    let plan = r->Ok_0@[i];
    assert(read_plan::is_plan(
        plan,
        read_plan::read_groups(*sel, groups@)[i],
        groups@,
        picked,
        verify,
    ));
    fields_are_decoded_in_order(plan.decoders@, picked, verify, j);
}

/// What is picked are all columns, or those that are named, in the order in which they are.
pub proof fn columns_are_picked(fields: Seq<Field>, projection: Projection, i: int)
    ensures
        projection is All ==> read_plan::picked(fields, projection) == fields,
        projection is LeafColumnIndexes ==> {
            let named = projection->LeafColumnIndexes_0@;
            let r = read_plan::picked(fields, projection);
            &&& r.len() == named.len()
            &&& 0 <= i < named.len() ==> r[i] == fields[named[i] as int]
        },
{
}

} // verus!
