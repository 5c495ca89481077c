//! How columns are put together again from physical columns.
use crate::checksum;
use crate::checksum::create_checksum;
use crate::encoder;
use crate::encoder::{lists_with_field, LogicalColEncoder};
use crate::schema;
use crate::schema::{
    copy_fields, is_supported_vector, ColumnIndexSequence, DataType, Field, TypeView,
};
use crate::tables::ColumnMetadataTable;
use vstd::prelude::*;

verus! {

/// The metadata of a physical column says nothing of its chunks.
#[derive(Clone, Copy, Debug, PartialEq, Eq, Structural)]
pub struct NoChunks;

/// Decodes a physical column.
#[derive(Debug)]
pub struct PrimitiveColDecoder {
    pub column_index: u32,
    /// What is encoded in the physical column.
    pub primitive_type: DataType,
    /// Whether the bytes of each chunk are compared with their checksum.
    pub verify: bool,
}

/// Decodes a column of vectors.
#[derive(Debug)]
pub struct VectorColDecoder {
    pub inner: PrimitiveColDecoder,
    pub dim: i32,
    pub nullable: bool,
}

/// Decodes a column of lists.
#[derive(Debug)]
pub struct ListColDecoder {
    pub validity_offsets_decoder: PrimitiveColDecoder,
    pub values_decoder: Box<LogicalColDecoder>,
}

/// Decodes a column of structs.
#[derive(Debug)]
pub struct StructColDecoder {
    pub fields: Vec<Field>,
    pub validity_decoder: PrimitiveColDecoder,
    pub children: Vec<LogicalColDecoder>,
}

/// Decodes a column.
#[derive(Debug)]
pub enum LogicalColDecoder {
    Primitive(PrimitiveColDecoder),
    Vector(VectorColDecoder),
    List(ListColDecoder),
    Struct(StructColDecoder),
}

/// The physical columns that are read for a column, in order.
pub open spec fn columns_read(d: LogicalColDecoder) -> Seq<u32>
    decreases d,
{
    match d {
        LogicalColDecoder::Primitive(p) => seq![p.column_index],
        LogicalColDecoder::Vector(v) => seq![v.inner.column_index],
        LogicalColDecoder::List(l) => seq![l.validity_offsets_decoder.column_index] + columns_read(
            *l.values_decoder,
        ),
        LogicalColDecoder::Struct(s) => seq![s.validity_decoder.column_index] + all_columns_read(
            s.children@,
        ),
    }
}

/// The physical columns that are read for columns.
pub open spec fn all_columns_read(ds: Seq<LogicalColDecoder>) -> Seq<u32>
    decreases ds,
{
    if ds.len() == 0 {
        Seq::empty()
    } else {
        all_columns_read(ds.drop_last()) + columns_read(ds.last())
    }
}

/// Whether `p` decodes values of a type, and verifies their chunks if so asked.
pub open spec fn reads_type(p: PrimitiveColDecoder, t: TypeView, verify: bool) -> bool {
    p.primitive_type@ == t && p.verify == verify
}

/// What is decoded of the physical columns that are read for a column.
pub open spec fn types_read(d: LogicalColDecoder) -> Seq<TypeView>
    decreases d,
{
    match d {
        LogicalColDecoder::Primitive(p) => seq![p.primitive_type@],
        LogicalColDecoder::Vector(v) => seq![v.inner.primitive_type@],
        LogicalColDecoder::List(l) => seq![l.validity_offsets_decoder.primitive_type@]
            + types_read(*l.values_decoder),
        LogicalColDecoder::Struct(s) => seq![s.validity_decoder.primitive_type@]
            + all_types_read(s.children@),
    }
}

/// What is decoded of the physical columns that are read for columns.
pub open spec fn all_types_read(ds: Seq<LogicalColDecoder>) -> Seq<TypeView>
    decreases ds,
{
    if ds.len() == 0 {
        Seq::empty()
    } else {
        all_types_read(ds.drop_last()) + types_read(ds.last())
    }
}

/// Whether `d` decodes columns like `f`: the physical column of vectors holds bytes,
/// that of structs truth values, and any other values of the type of its column.
pub open spec fn decodes(d: LogicalColDecoder, f: Field, verify: bool) -> bool
    decreases f,
{
    if f.data_type.is_vector() {
        &&& d matches LogicalColDecoder::Vector(v)
        &&& reads_type(v.inner, TypeView::Flat(DataType::Binary), verify)
        &&& Some(v.dim) == encoder::vector_dim(f.data_type)
        &&& v.nullable == f.nullable
    } else if f.data_type.is_non_nest() {
        d matches LogicalColDecoder::Primitive(p) && reads_type(p, f.data_type@, verify)
    } else {
        match f.data_type {
            DataType::List(child) => {
                &&& d matches LogicalColDecoder::List(l)
                &&& reads_type(l.validity_offsets_decoder, f.data_type@, verify)
                &&& decodes(*l.values_decoder, *child, verify)
            },
            DataType::LargeList(child) => {
                &&& d matches LogicalColDecoder::List(l)
                &&& reads_type(l.validity_offsets_decoder, f.data_type@, verify)
                &&& decodes(*l.values_decoder, *child, verify)
            },
            DataType::Struct(fields) => {
                &&& d matches LogicalColDecoder::Struct(s)
                &&& reads_type(s.validity_decoder, TypeView::Flat(DataType::Boolean), verify)
                &&& schema::fields_view(s.fields@) == schema::fields_view(fields@)
                &&& all_decode(s.children@, fields@, verify)
            },
            _ => false,
        }
    }
}

/// Whether these decode columns like these.
pub open spec fn all_decode(ds: Seq<LogicalColDecoder>, fields: Seq<Field>, verify: bool) -> bool
    decreases fields,
{
    &&& ds.len() == fields.len()
    &&& fields.len() > 0 ==> all_decode(ds.drop_last(), fields.drop_last(), verify) && decodes(
        ds.last(),
        fields.last(),
        verify,
    )
}

/// The types of what is encoded in physical columns.
pub open spec fn types_in(v: Seq<encoder::PhysicalTypeView>) -> Seq<TypeView> {
    v.map_values(|t: encoder::PhysicalTypeView| t.data_type)
}

/// What is decoded of each physical column of a column is what is to be encoded in it,
/// if lists stay with their columns.
pub proof fn types_are_read(d: LogicalColDecoder, f: Field, verify: bool)
    requires
        decodes(d, f, verify),
    ensures
        types_read(d) == types_in(encoder::written_types(f, false)),
    decreases f,
{
    let written = encoder::written_types(f, false);
    if f.data_type.is_vector() || f.data_type.is_non_nest() {
        assert(types_read(d) =~= types_in(written));
    } else {
        match f.data_type {
            DataType::List(child) => {
                types_are_read(*d->List_0.values_decoder, *child, verify);
                assert(types_read(d) =~= types_in(written));
            },
            DataType::LargeList(child) => {
                types_are_read(*d->List_0.values_decoder, *child, verify);
                assert(types_read(d) =~= types_in(written));
            },
            DataType::Struct(fields) => {
                all_types_are_read(d->Struct_0.children@, fields@, verify);
                assert(types_read(d) =~= types_in(written));
            },
            _ => {},
        }
    }
}

/// The same for columns.
pub proof fn all_types_are_read(ds: Seq<LogicalColDecoder>, fields: Seq<Field>, verify: bool)
    requires
        all_decode(ds, fields, verify),
    ensures
        all_types_read(ds) == types_in(encoder::all_written_types(fields, false)),
    decreases fields,
{
    if fields.len() > 0 {
        all_types_are_read(ds.drop_last(), fields.drop_last(), verify);
        types_are_read(ds.last(), fields.last(), verify);
    }
    assert(all_types_read(ds) =~= types_in(encoder::all_written_types(fields, false)));
}

/// Whether the chunks of these physical columns are known.
pub open spec fn chunks_known(metas: Seq<ColumnMetadataTable>, start: int, n: nat) -> bool {
    forall|i: int| start <= i < start + n ==> (#[trigger] metas[i]).column_chunks is Some
}

proof fn consecutive_joins(start: int, n: nat, m: nat)
    ensures
        encoder::consecutive(start, n) + encoder::consecutive(start + n, m)
            == encoder::consecutive(start, n + m),
{
    assert(encoder::consecutive(start, n) + encoder::consecutive(start + n, m)
        =~= encoder::consecutive(start, n + m));
}

/// What is read for a column is what is written for it, if both start with the
/// same physical column and lists stay with their columns: the same physical columns,
/// each with values of the same type.
pub proof fn reads_what_is_written(
    e: LogicalColEncoder,
    d: LogicalColDecoder,
    f: Field,
    start: int,
    micro_index: bool,
    verify: bool,
)
    requires
        encoder::encodes(e, f, micro_index, false),
        encoder::columns_of(e) == encoder::consecutive(start, encoder::written_width(f, false)),
        decodes(d, f, verify),
        columns_read(d) == encoder::consecutive(start, schema::width(f)),
    ensures
        columns_read(d) == encoder::columns_of(e),
        types_read(d) == types_in(encoder::types_of(e)),
{
    encoder::written_width_is_width(f);
    encoder::types_are_written(e, f, micro_index, false);
    types_are_read(d, f, verify);
}

/// Takes the next physical column, whose chunks have to be known.
fn next_column(
    metas: &Vec<ColumnMetadataTable>,
    column_idx: &mut ColumnIndexSequence,
    primitive_type: DataType,
    verify: bool,
) -> (r: Result<PrimitiveColDecoder, NoChunks>)
    requires
        old(column_idx).next < u32::MAX,
        old(column_idx).next < metas@.len(),
    ensures
        final(column_idx).next == old(column_idx).next + 1,
        match r {
            Ok(p) => p.column_index == old(column_idx).next && p.primitive_type == primitive_type
                && p.verify == verify && metas@[old(
                column_idx,
            ).next as int].column_chunks is Some,
            Err(_) => metas@[old(column_idx).next as int].column_chunks is None,
        },
{
    let column_index: u32 = column_idx.next_column_index();
    if metas[column_index as usize].column_chunks.is_none() {
        return Err(NoChunks);
    }
    Ok(PrimitiveColDecoder { column_index, primitive_type, verify })
}

/// Puts a column together from the next physical columns, whose chunks are verified
/// if so asked.
pub fn create_logical_decoder(
    field: &Field,
    metas: &Vec<ColumnMetadataTable>,
    column_idx: &mut ColumnIndexSequence,
    verify: bool,
) -> (r: Result<LogicalColDecoder, NoChunks>)
    requires
        schema::storable(*field),
        old(column_idx).next + schema::width(*field) <= u32::MAX,
        old(column_idx).next + schema::width(*field) <= metas@.len(),
    ensures
        r is Ok <==> chunks_known(metas@, old(column_idx).next as int, schema::width(*field)),
        r matches Ok(d) ==> decodes(d, *field, verify) && columns_read(d) == encoder::consecutive(
            old(column_idx).next as int,
            schema::width(*field),
        ),
        r is Ok ==> final(column_idx).next == old(column_idx).next + schema::width(*field),
    decreases field, 0int,
{
    let ghost start = column_idx.next as int;
    if is_supported_vector(&field.data_type) {
        let dim: i32 = match &field.data_type {
            DataType::FixedSizeList(_, dim) => *dim,
            _ => 0,
        };
        return match next_column(metas, column_idx, DataType::Binary, verify) {
            Err(e) => Err(e),
            Ok(inner) => {
                let d = VectorColDecoder { inner, dim, nullable: field.nullable };
                assert(columns_read(LogicalColDecoder::Vector(d)) =~= encoder::consecutive(
                    start,
                    1,
                ));
                Ok(LogicalColDecoder::Vector(d))
            },
        };
    }
    if field.data_type.non_nest() {
        return match next_column(metas, column_idx, field.data_type.copy(), verify) {
            Err(e) => Err(e),
            Ok(p) => {
                assert(columns_read(LogicalColDecoder::Primitive(p)) =~= encoder::consecutive(
                    start,
                    1,
                ));
                Ok(LogicalColDecoder::Primitive(p))
            },
        };
    }
    match &field.data_type {
        DataType::List(child) => create_list_decoder(field, child, metas, column_idx, verify),
        DataType::LargeList(child) => create_list_decoder(field, child, metas, column_idx, verify),
        DataType::Struct(fields) => {
            let validity_decoder = match next_column(
                metas,
                column_idx,
                DataType::Boolean,
                verify,
            ) {
                Err(e) => {
                    return Err(e);
                },
                Ok(p) => p,
            };
            let mut children: Vec<LogicalColDecoder> = Vec::new();
            let mut i: usize = 0;
            assert(fields@.take(0) =~= Seq::empty());
            assert(all_columns_read(children@) =~= encoder::consecutive(start + 1, 0));
            while i < fields.len()
                invariant
                    i <= fields@.len(),
                    decreases_to!(field => fields@),
                    schema::all_storable(fields@),
                    start + 1 + schema::total_width(fields@) <= u32::MAX,
                    start + 1 + schema::total_width(fields@) <= metas@.len(),
                    schema::width(*field) == 1 + schema::total_width(fields@),
                    start == old(column_idx).next,
                    metas@[start].column_chunks is Some,
                    chunks_known(
                        metas@,
                        start + 1,
                        schema::total_width(fields@.take(i as int)),
                    ),
                    children@.len() == i,
                    column_idx.next == start + 1 + schema::total_width(fields@.take(i as int)),
                    all_decode(children@, fields@.take(i as int), verify),
                    all_columns_read(children@) == encoder::consecutive(
                        start + 1,
                        schema::total_width(fields@.take(i as int)),
                    ),
                decreases fields@.len() - i,
            {
                let ghost now = schema::total_width(fields@.take(i as int));
                let ghost c0 = children@;
                proof {
                    let next = fields@.take(i + 1);
                    assert(next.drop_last() =~= fields@.take(i as int));
                    assert(next.last() == fields@[i as int]);
                    schema::width_grows(fields@, i + 1);
                    schema::each_storable(fields@, i as int);
                }
                match create_logical_decoder(&fields[i], metas, column_idx, verify) {
                    Err(e) => {
                        proof {
                            let from = start + 1 + now;
                            let w = schema::width(fields@[i as int]);
                            let q = choose|q: int|
                                from <= q < from + w && (
                                #[trigger] metas@[q]).column_chunks is None;
                            assert(start <= q < start + schema::width(*field));
                        }
                        return Err(e);
                    },
                    Ok(child) => {
                        children.push(child);
                    },
                }
                proof {
                    assert(children@.drop_last() =~= c0);
                    consecutive_joins(start + 1, now, schema::width(fields@[i as int]));
                }
                i = i + 1;
            }
            assert(fields@.take(i as int) =~= fields@);
            proof {
                consecutive_joins(start, 1, schema::total_width(fields@));
                assert(encoder::consecutive(start, 1) =~= seq![validity_decoder.column_index]);
            }
            Ok(
                LogicalColDecoder::Struct(
                    StructColDecoder { fields: copy_fields(fields), validity_decoder, children },
                ),
            )
        },
        _ => Err(NoChunks),
    }
}

/// Puts a column of lists together.
fn create_list_decoder(
    field: &Field,
    child: &Field,
    metas: &Vec<ColumnMetadataTable>,
    column_idx: &mut ColumnIndexSequence,
    verify: bool,
) -> (r: Result<LogicalColDecoder, NoChunks>)
    requires
        schema::storable(*child),
        old(column_idx).next + 1 + schema::width(*child) <= u32::MAX,
        old(column_idx).next + 1 + schema::width(*child) <= metas@.len(),
    ensures
        r is Ok <==> chunks_known(metas@, old(column_idx).next as int, 1 + schema::width(*child)),
        r matches Ok(d) ==> d is List && reads_type(
            d->List_0.validity_offsets_decoder,
            field.data_type@,
            verify,
        ) && decodes(*d->List_0.values_decoder, *child, verify) && columns_read(d) == encoder::consecutive(old(column_idx).next as int, 1 + schema::width(*child)),
        r is Ok ==> final(column_idx).next == old(column_idx).next + 1 + schema::width(*child),
    decreases child, 1int,
{
    let ghost start = column_idx.next as int;
    let validity_offsets_decoder = match next_column(
        metas,
        column_idx,
        field.data_type.copy(),
        verify,
    ) {
        Err(e) => {
            return Err(e);
        },
        Ok(p) => p,
    };
    match create_logical_decoder(child, metas, column_idx, verify) {
        Err(e) => {
            proof {
                let q = choose|q: int|
                    start + 1 <= q < start + 1 + schema::width(*child) && (
                    #[trigger] metas@[q]).column_chunks is None;
                assert(start <= q < start + 1 + schema::width(*child));
            }
            Err(e)
        },
        Ok(values) => {
            proof {
                consecutive_joins(start, 1, schema::width(*child));
                assert(encoder::consecutive(start, 1) =~= seq![
                    validity_offsets_decoder.column_index,
                ]);
            }
            Ok(
                LogicalColDecoder::List(
                    ListColDecoder { validity_offsets_decoder, values_decoder: Box::new(values) },
                ),
            )
        },
    }
}

/// Decodes a column of lists of structs field by field: each field with the lists,
/// or the lists and the structs by themselves.
#[derive(Debug)]
pub enum ListStructDecoder {
    OffsetPushdown(Vec<PrimitiveColDecoder>),
    Plain {
        validity_offsets_decoder: PrimitiveColDecoder,
        struct_validity_decoder: PrimitiveColDecoder,
        children: Vec<PrimitiveColDecoder>,
    },
}

/// The fields of the structs in lists, which have to be such.
pub open spec fn struct_fields(f: Field) -> Option<Seq<Field>> {
    match f.data_type {
        DataType::List(child) => match child.data_type {
            DataType::Struct(fields) => Some(fields@),
            _ => None,
        },
        DataType::LargeList(child) => match child.data_type {
            DataType::Struct(fields) => Some(fields@),
            _ => None,
        },
        _ => None,
    }
}

/// How many physical columns are read for lists of structs with `n` fields.
pub open spec fn list_struct_width(n: nat, pushdown: bool) -> nat {
    if !pushdown {
        2 + n
    } else if n == 0 {
        1
    } else {
        n
    }
}

/// The numbers of physical columns.
pub open spec fn numbers_of(v: Seq<PrimitiveColDecoder>) -> Seq<u32> {
    v.map_values(|p: PrimitiveColDecoder| p.column_index)
}

/// Whether `d` reads lists of structs like those of `f` from the physical columns that
/// begin with `start`. No chunk is verified.
pub open spec fn reads_structs(d: ListStructDecoder, start: int, f: Field, pushdown: bool) -> bool {
    let fields = struct_fields(f)->0;
    match d {
        ListStructDecoder::OffsetPushdown(children) => {
            &&& pushdown
            &&& numbers_of(children@) == encoder::consecutive(start, fields.len())
            &&& forall|i: int|
                0 <= i < children@.len() ==> reads_type(
                    #[trigger] children@[i],
                    encoder::one_field_lists(f, i),
                    false,
                )
        },
        ListStructDecoder::Plain {
            validity_offsets_decoder,
            struct_validity_decoder,
            children,
        } => {
            &&& !pushdown
            &&& validity_offsets_decoder.column_index == start
            &&& reads_type(validity_offsets_decoder, f.data_type@, false)
            &&& struct_validity_decoder.column_index == start + 1
            &&& reads_type(struct_validity_decoder, TypeView::Flat(DataType::Boolean), false)
            &&& numbers_of(children@) == encoder::consecutive(start + 2, fields.len())
            &&& forall|i: int|
                0 <= i < children@.len() ==> reads_type(
                    #[trigger] children@[i],
                    fields[i].data_type@,
                    false,
                )
        },
    }
}

/// What is decoded of the physical columns that are read for lists of structs.
pub open spec fn struct_types_read(d: ListStructDecoder) -> Seq<TypeView> {
    match d {
        ListStructDecoder::OffsetPushdown(children) => children@.map_values(
            |p: PrimitiveColDecoder| p.primitive_type@,
        ),
        ListStructDecoder::Plain {
            validity_offsets_decoder,
            struct_validity_decoder,
            children,
        } => seq![
            validity_offsets_decoder.primitive_type@,
            struct_validity_decoder.primitive_type@,
        ] + children@.map_values(|p: PrimitiveColDecoder| p.primitive_type@),
    }
}

/// What is decoded of each physical column of lists of structs is what is to be
/// encoded in it, whether the lists go with the fields or not.
pub proof fn struct_types_are_read(d: ListStructDecoder, start: int, f: Field, pushdown: bool)
    requires
        struct_fields(f) matches Some(fields) && schema::all_non_nest(fields),
        reads_structs(d, start, f, pushdown),
    ensures
        struct_types_read(d) == types_in(encoder::written_types(f, pushdown)),
{
    let fields = struct_fields(f)->0;
    let written = types_in(encoder::written_types(f, pushdown));
    match d {
        ListStructDecoder::OffsetPushdown(children) => {
            assert(numbers_of(children@).len() == fields.len());
            assert(struct_types_read(d) =~= written);
        },
        ListStructDecoder::Plain { children, .. } => {
            assert(numbers_of(children@).len() == fields.len());
            let child = match f.data_type {
                DataType::List(child) => *child,
                DataType::LargeList(child) => *child,
                _ => f,
            };
            assert(child.data_type matches DataType::Struct(v) && v@ == fields);
            assert(encoder::written_types(child, pushdown) == seq![encoder::truth_values()]
                + encoder::all_written_types(fields, pushdown));
            flat_types(fields, pushdown);
            let flat = types_in(encoder::all_written_types(fields, pushdown));
            assert(encoder::written_types(f, pushdown) == seq![
                encoder::lists_with(f.data_type, f.nullable),
            ] + encoder::written_types(child, pushdown));
            assert(written =~= seq![f.data_type@, TypeView::Flat(DataType::Boolean)] + flat);
            assert(children@.map_values(|p: PrimitiveColDecoder| p.primitive_type@) =~= flat);
            assert(struct_types_read(d) =~= written);
        },
    }
}

/// Columns without columns inside them are one physical column each.
proof fn flat_types(fields: Seq<Field>, pushdown: bool)
    requires
        schema::all_non_nest(fields),
    ensures
        types_in(encoder::all_written_types(fields, pushdown)) == fields.map_values(
            |f: Field| f.data_type@,
        ),
    decreases fields.len(),
{
    let all = types_in(encoder::all_written_types(fields, pushdown));
    let types = fields.map_values(|f: Field| f.data_type@);
    if fields.len() > 0 {
        let front = fields.drop_last();
        assert(schema::all_non_nest(front)) by {
            assert forall|i: int| 0 <= i < front.len() implies (
            #[trigger] front[i]).data_type.is_non_nest() by {
                assert(fields[i].data_type.is_non_nest());
            }
        }
        flat_types(front, pushdown);
        assert(fields[fields.len() - 1].data_type.is_non_nest());
        let last = fields.last();
        assert(encoder::written_types(last, pushdown) == seq![
            encoder::PhysicalTypeView { data_type: last.data_type@, nullable: last.nullable },
        ]);
        assert(encoder::all_written_types(fields, pushdown) == encoder::all_written_types(
            front,
            pushdown,
        ) + encoder::written_types(last, pushdown));
        assert(all =~= types_in(encoder::all_written_types(front, pushdown)).push(
            last.data_type@,
        ));
        assert(types =~= front.map_values(|f: Field| f.data_type@).push(fields.last().data_type@));
    } else {
        assert(all =~= types);
    }
}

/// Puts a column of lists of structs together from the next physical columns.
pub fn create_list_struct_decoder(
    field: &Field,
    metas: &Vec<ColumnMetadataTable>,
    column_idx: &mut ColumnIndexSequence,
    pushdown: bool,
) -> (r: Result<ListStructDecoder, NoChunks>)
    requires
        struct_fields(*field) matches Some(fields) && schema::all_non_nest(fields) && old(
            column_idx,
        ).next + list_struct_width(fields.len(), pushdown) <= u32::MAX && old(column_idx).next
            + list_struct_width(fields.len(), pushdown) <= metas@.len(),
    ensures
        ({
            let start = old(column_idx).next as int;
            let n = (struct_fields(*field)->0).len();
            let w = list_struct_width(n, pushdown);
            &&& r is Ok <==> chunks_known(metas@, start, w)
            &&& r is Ok ==> final(column_idx).next == start + w
            &&& r matches Ok(d) ==> reads_structs(d, start, *field, pushdown)
        }),
{
    let ghost start = column_idx.next as int;
    let ghost inner = struct_fields(*field)->0;
    let child: &Field = match &field.data_type {
        DataType::List(child) => child,
        DataType::LargeList(child) => child,
        _ => field,
    };
    let mut column_types: Vec<DataType> = Vec::new();
    if !pushdown {
        column_types.push(field.data_type.copy());
        column_types.push(DataType::Boolean);
    }
    let ghost front = column_types@;
    if let DataType::Struct(fields) = &child.data_type {
        let mut i: usize = 0;
        while i < fields.len()
            invariant
                i <= fields@.len(),
                inner == fields@,
                inner.len() == encoder::fields_in_lists(*field),
                column_types@.len() == front.len() + i,
                front.len() == (if pushdown {
                    0int
                } else {
                    2
                }),
                forall|j: int| 0 <= j < front.len() ==> #[trigger] column_types@[j] == front[j],
                forall|j: int|
                    0 <= j < i ==> (#[trigger] column_types@[front.len() + j])@ == (if pushdown {
                        encoder::one_field_lists(*field, j)
                    } else {
                        inner[j].data_type@
                    }),
            decreases fields@.len() - i,
        {
            if pushdown {
                column_types.push(lists_with_field(field, i));
            } else {
                column_types.push(fields[i].data_type.copy());
            }
            i = i + 1;
        }
    }
    let ghost wanted = column_types@;
    if pushdown && column_types.len() == 0 {
        // One physical column is passed over though nothing is read of it.
        match next_column(metas, column_idx, DataType::Null, false) {
            Err(e) => {
                return Err(e);
            },
            Ok(_) => {},
        }
        let none: Vec<PrimitiveColDecoder> = Vec::new();
        assert(numbers_of(none@) =~= encoder::consecutive(start, 0));
        return Ok(ListStructDecoder::OffsetPushdown(none));
    }
    let mut columns = match next_columns(metas, column_idx, column_types, false) {
        Err(e) => {
            return Err(e);
        },
        Ok(v) => v,
    };
    let ghost all = columns@;
    assert(numbers_of(all).len() == wanted.len());
    assert forall|j: int| 0 <= j < all.len() implies (#[trigger] all[j]).column_index == start + j
        by {
        assert(numbers_of(all)[j] == encoder::consecutive(start, wanted.len())[j]);
    }
    if pushdown {
        assert forall|i: int| 0 <= i < all.len() implies reads_type(
            #[trigger] all[i],
            encoder::one_field_lists(*field, i),
            false,
        ) by {
            assert(wanted[front.len() + i]@ == encoder::one_field_lists(*field, i));
        }
        return Ok(ListStructDecoder::OffsetPushdown(columns));
    }
    let children = columns.split_off(2);
    assert(children@ =~= all.skip(2));
    let struct_validity_decoder = columns.remove(1);
    let validity_offsets_decoder = columns.remove(0);
    proof {
        assert(numbers_of(children@) =~= encoder::consecutive(start + 2, inner.len()));
        assert forall|i: int| 0 <= i < children@.len() implies reads_type(
            #[trigger] children@[i],
            inner[i].data_type@,
            false,
        ) by {
            assert(children@[i] == all[2 + i]);
            assert(wanted[front.len() + i]@ == inner[i].data_type@);
        }
    }
    Ok(
        ListStructDecoder::Plain { validity_offsets_decoder, struct_validity_decoder, children },
    )
}

impl ListStructDecoder {
    /// The fields that can be read.
    pub open spec fn fields(self) -> Seq<PrimitiveColDecoder> {
        match self {
            ListStructDecoder::OffsetPushdown(children) => children@,
            ListStructDecoder::Plain { children, .. } => children@,
        }
    }

    /// The physical columns that are read for a field: the field with its lists, or
    /// the lists, which structs are there, and the field.
    pub fn columns_of_field(&self, project_idx: usize) -> (r: Vec<u32>)
        requires
            project_idx < self.fields().len(),
        ensures
            r@ == (match *self {
                ListStructDecoder::OffsetPushdown(children) => seq![
                    children@[project_idx as int].column_index,
                ],
                ListStructDecoder::Plain {
                    validity_offsets_decoder,
                    struct_validity_decoder,
                    children,
                } => seq![
                    validity_offsets_decoder.column_index,
                    struct_validity_decoder.column_index,
                    children@[project_idx as int].column_index,
                ],
            }),
    {
        let mut out: Vec<u32> = Vec::new();
        match self {
            ListStructDecoder::OffsetPushdown(children) => {
                out.push(children[project_idx].column_index);
            },
            ListStructDecoder::Plain {
                validity_offsets_decoder,
                struct_validity_decoder,
                children,
            } => {
                out.push(validity_offsets_decoder.column_index);
                out.push(struct_validity_decoder.column_index);
                out.push(children[project_idx].column_index);
            },
        }
        out
    }
}

/// Takes the next physical columns, one for each type.
fn next_columns(
    metas: &Vec<ColumnMetadataTable>,
    column_idx: &mut ColumnIndexSequence,
    types: Vec<DataType>,
    verify: bool,
) -> (r: Result<Vec<PrimitiveColDecoder>, NoChunks>)
    requires
        old(column_idx).next + types@.len() <= u32::MAX,
        old(column_idx).next + types@.len() <= metas@.len(),
    ensures
        r is Ok <==> chunks_known(metas@, old(column_idx).next as int, types@.len()),
        r matches Ok(v) ==> {
            &&& numbers_of(v@) == encoder::consecutive(old(column_idx).next as int, types@.len())
            &&& forall|i: int|
                0 <= i < v@.len() ==> reads_type(#[trigger] v@[i], types@[i]@, verify)
        },
        r is Ok ==> final(column_idx).next == old(column_idx).next + types@.len(),
{
    let ghost start = column_idx.next as int;
    let ghost all = types@;
    let mut columns: Vec<PrimitiveColDecoder> = Vec::new();
    assert(numbers_of(columns@) =~= encoder::consecutive(start, 0));
    for primitive_type in it: types
        invariant
            it.seq() == all,
            start == old(column_idx).next,
            start + all.len() <= u32::MAX,
            start + all.len() <= metas@.len(),
            column_idx.next == start + it.index(),
            chunks_known(metas@, start, it.index() as nat),
            columns@.len() == it.index(),
            numbers_of(columns@) == encoder::consecutive(start, it.index() as nat),
            forall|i: int|
                0 <= i < columns@.len() ==> reads_type(#[trigger] columns@[i], all[i]@, verify),
    {
        let ghost i = it.index() as int;
        match next_column(metas, column_idx, primitive_type, verify) {
            Err(e) => {
                assert(metas@[start + i].column_chunks is None);
                return Err(e);
            },
            Ok(p) => {
                let ghost before = columns@;
                columns.push(p);
                proof {
                    assert(numbers_of(columns@) =~= numbers_of(before).push(p.column_index));
                    assert(encoder::consecutive(start, (i + 1) as nat) =~= encoder::consecutive(
                        start,
                        i as nat,
                    ).push((start + i) as u32));
                }
            },
        }
    }
    Ok(columns)
}

/// Why the bytes of a chunk are not to be trusted.
#[derive(Clone, Copy, Debug, PartialEq, Eq, Structural)]
pub enum ChunkChecksumError {
    /// No checksum was stored.
    Missing,
    /// The bytes have another checksum than was stored.
    Mismatch,
}

/// What is wrong with the bytes of a chunk, if they are verified.
pub open spec fn chunk_check(bytes: Seq<u8>, stored: Option<u64>, verify: bool) -> Result<
    (),
    ChunkChecksumError,
> {
    if !verify {
        Ok(())
    } else {
        match stored {
            None => Err(ChunkChecksumError::Missing),
            Some(sum) => if sum == checksum::xxh64_of(bytes) {
                Ok(())
            } else {
                Err(ChunkChecksumError::Mismatch)
            },
        }
    }
}

/// Compares the checksum of a chunk that was computed with the one that was stored.
pub fn compare_checksum(stored: Option<u64>, computed: u64) -> (r: Result<(), ChunkChecksumError>)
    ensures
        match stored {
            None => r == Err::<(), ChunkChecksumError>(ChunkChecksumError::Missing),
            Some(sum) => if sum == computed {
                r == Ok::<(), ChunkChecksumError>(())
            } else {
                r == Err::<(), ChunkChecksumError>(ChunkChecksumError::Mismatch)
            },
        },
{
    match stored {
        None => Err(ChunkChecksumError::Missing),
        Some(sum) => {
            if sum == computed {
                Ok(())
            } else {
                Err(ChunkChecksumError::Mismatch)
            }
        },
    }
}

/// Verifies the bytes of a chunk, if that is asked for.
pub fn verify_chunk(bytes: &[u8], stored: Option<u64>, verify: bool) -> (r: Result<
    (),
    ChunkChecksumError,
>)
    ensures
        r == chunk_check(bytes@, stored, verify),
{
    if !verify {
        return Ok(());
    }
    let mut sum = create_checksum();
    sum.update(bytes);
    assert(Seq::<u8>::empty() + bytes@ =~= bytes@);
    compare_checksum(stored, sum.finalize())
}

/// Cuts the first `len` lists out: where each starts and ends counted from the first
/// item, the first item, and how many items there are.
pub fn slice_offsets(offsets: &[i32], len: usize) -> (r: (Vec<i32>, usize, usize))
    requires
        len < offsets@.len(),
        forall|i: int, j: int| 0 <= i <= j <= len ==> 0 <= #[trigger] offsets@[i] <= #[trigger] offsets@[j],
    ensures
        r.0@.len() == len + 1,
        forall|i: int| 0 <= i <= len ==> #[trigger] r.0@[i] == offsets@[i] - offsets@[0],
        r.1 == offsets@[0],
        r.1 + r.2 == offsets@[len as int],
{
    let mut sliced: Vec<i32> = Vec::new();
    let mut total: i32 = 0;
    sliced.push(0);
    let mut i: usize = 0;
    while i < len
        invariant
            i <= len,
            len < offsets@.len(),
            forall|i: int, j: int| 0 <= i <= j <= len ==> 0 <= #[trigger] offsets@[i] <= #[trigger] offsets@[j],
            total == offsets@[i as int] - offsets@[0],
            sliced@.len() == i + 1,
            forall|k: int| 0 <= k <= i ==> #[trigger] sliced@[k] == offsets@[k] - offsets@[0],
        decreases len - i,
    {
        let length: i32 = offsets[i + 1] - offsets[i];
        assert(offsets@[0] <= offsets@[i + 1]);
        total = total + length;
        sliced.push(total);
        i = i + 1;
    }
    (sliced, offsets[0] as usize, (offsets[len] - offsets[0]) as usize)
}

/// Turns columns of batches into batches of columns, as many as the first column
/// has.
pub fn transpose<T>(v: Vec<Vec<T>>) -> (r: Vec<Vec<T>>)
    requires
        v@.len() > 0,
        forall|j: int| 0 <= j < v@.len() ==> (#[trigger] v@[j])@.len() >= v@[0]@.len(),
    ensures
        r@.len() == v@[0]@.len(),
        forall|i: int| 0 <= i < r@.len() ==> (#[trigger] r@[i])@.len() == v@.len(),
        forall|i: int, j: int|
            0 <= i < r@.len() && 0 <= j < v@.len() ==> #[trigger] r@[i]@[j] == v@[j]@[i],
{
    let ghost all = v@;
    let n: usize = v[0].len();
    let mut out: Vec<Vec<T>> = Vec::new();
    let mut i: usize = 0;
    while i < n
        invariant
            i <= n,
            out@.len() == i,
            forall|k: int| 0 <= k < i ==> (#[trigger] out@[k])@.len() == 0,
        decreases n - i,
    {
        out.push(Vec::new());
        i = i + 1;
    }
    for column in it: v
        invariant
            it.seq() == all,
            all.len() > 0,
            n == all[0]@.len(),
            forall|j: int| 0 <= j < all.len() ==> (#[trigger] all[j])@.len() >= n,
            out@.len() == n,
            forall|k: int| 0 <= k < n ==> (#[trigger] out@[k])@.len() == it.index(),
            forall|k: int, j: int|
                0 <= k < n && 0 <= j < it.index() ==> #[trigger] out@[k]@[j] == all[j]@[k],
    {
        let ghost at = it.index() as int;
        let ghost items = column@;
        let mut row: usize = 0;
        assert(all[at]@.len() >= n);
        for item in inner: column
            invariant
                inner.seq() == items,
                items == all[at]@,
                items.len() >= n,
                out@.len() == n,
                row == (if inner.index() < n {
                    inner.index()
                } else {
                    n as int
                }),
                forall|k: int|
                    0 <= k < n ==> (#[trigger] out@[k])@.len() == at + (if k < row {
                        1int
                    } else {
                        0int
                    }),
                forall|k: int, j: int|
                    0 <= k < n && 0 <= j < at ==> #[trigger] out@[k]@[j] == all[j]@[k],
                forall|k: int| 0 <= k < row ==> (#[trigger] out@[k])@[at] == items[k],
        {
            if row < n {
                out[row].push(item);
                row = row + 1;
            }
        }
    }
    out
}

} // verus!
