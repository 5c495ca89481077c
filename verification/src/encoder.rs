//! How columns are taken apart into physical columns for encoding.
use crate::encoded_chunk::EncodedColumnChunk;
use crate::schema;
use crate::schema::{
    are_all_non_nest, is_supported_vector, ColumnIndexSequence, DataType, Field, FieldView,
    TypeView,
};
use vstd::prelude::*;

verus! {

/// What a column is to a reader.
#[derive(Clone, Copy, Debug, PartialEq, Eq, Structural)]
pub enum LogicalId {
    Flat,
    List,
    ListOfStructOfPrimitive,
    Struct,
}

/// How columns are nested.
#[derive(Debug)]
pub struct LogicalTree {
    pub id: LogicalId,
    pub children: Vec<LogicalTree>,
}

/// How columns are nested, as stored; the list may be missing.
#[derive(Debug)]
pub struct LogicalTreeNode {
    pub id: LogicalId,
    pub children: Option<Vec<LogicalTreeNode>>,
}

impl LogicalTree {
    pub fn new(id: LogicalId, children: Vec<LogicalTree>) -> (r: Self)
        ensures
            r.id == id,
            r.children == children,
    {
        LogicalTree { id, children }
    }

    /// The table.
    pub fn to_fb(&self) -> (r: LogicalTreeNode)
        ensures
            is_table_of(r, *self),
        decreases self,
    {
        let mut children: Vec<LogicalTreeNode> = Vec::new();
        let mut i: usize = 0;
        assert(self.children@.take(0) =~= Seq::empty());
        while i < self.children.len()
            invariant
                i <= self.children@.len(),
                children@.len() == i,
                are_tables_of(children@, self.children@.take(i as int)),
            decreases self.children@.len() - i,
        {
            let ghost before = children@;
            children.push(self.children[i].to_fb());
            proof {
                let next = self.children@.take(i + 1);
                assert(next.drop_last() =~= self.children@.take(i as int));
                assert(next.last() == self.children@[i as int]);
                assert(children@.drop_last() =~= before);
            }
            i = i + 1;
        }
        assert(self.children@.take(i as int) =~= self.children@);
        LogicalTreeNode { id: self.id, children: Some(children) }
    }
}

/// Whether `t` is the table of a tree.
pub open spec fn is_table_of(t: LogicalTreeNode, tree: LogicalTree) -> bool
    decreases tree,
{
    &&& t.id == tree.id
    &&& t.children is Some
    &&& are_tables_of((t.children->0)@, tree.children@)
}

/// Whether these are the tables of trees.
pub open spec fn are_tables_of(t: Seq<LogicalTreeNode>, trees: Seq<LogicalTree>) -> bool
    decreases trees,
{
    &&& t.len() == trees.len()
    &&& trees.len() > 0 ==> are_tables_of(t.drop_last(), trees.drop_last()) && is_table_of(
        t.last(),
        trees.last(),
    )
}

/// Encodes a column without a column inside it.
#[derive(Debug)]
pub struct FlatColEncoder {
    pub column_index: u32,
    pub data_type: DataType,
    pub nullable: bool,
}

/// Encodes a column of vectors as bytes, and indexes the vectors of each chunk.
#[derive(Debug)]
pub struct VectorColEncoder {
    pub column_index: u32,
    pub nullable: bool,
    pub dim: i32,
    pub enable_micro_index: bool,
    /// The components of the rows that are in no chunk yet.
    pub pending_vectors: Vec<u32>,
    pub pending_rows: usize,
}

/// Encodes a column of lists: where they start and end, and what is in them.
#[derive(Debug)]
pub struct ListColEncoder {
    pub column_index: u32,
    /// The type of the lists, of which only where they start and end is encoded here.
    pub list_type: DataType,
    pub nullable: bool,
    pub values_encoder: Box<LogicalColEncoder>,
}

/// Encodes a column of lists of structs: each field with the lists.
#[derive(Debug)]
pub struct ListOfStructOfPrimitiveColEncoder {
    pub column_indexes: Vec<u32>,
    /// The type of the lists with each field.
    pub list_types: Vec<DataType>,
    pub nullable: bool,
}

/// Encodes a column of structs: which are there, as truth values, and their fields.
#[derive(Debug)]
pub struct StructColEncoder {
    pub column_index: u32,
    pub fields_encoders: Vec<LogicalColEncoder>,
}

/// Encodes a column.
#[derive(Debug)]
pub enum LogicalColEncoder {
    Flat(FlatColEncoder),
    Vector(VectorColEncoder),
    List(ListColEncoder),
    ListOfStruct(ListOfStructOfPrimitiveColEncoder),
    Struct(StructColEncoder),
}

/// The physical columns that are written for a column, in the order in which their
/// chunks come.
pub open spec fn columns_of(e: LogicalColEncoder) -> Seq<u32>
    decreases e,
{
    match e {
        LogicalColEncoder::Flat(f) => seq![f.column_index],
        LogicalColEncoder::Vector(v) => seq![v.column_index],
        LogicalColEncoder::List(l) => seq![l.column_index] + columns_of(*l.values_encoder),
        LogicalColEncoder::ListOfStruct(l) => l.column_indexes@,
        LogicalColEncoder::Struct(s) => seq![s.column_index] + all_columns_of(s.fields_encoders@),
    }
}

/// The physical columns that are written for columns.
pub open spec fn all_columns_of(es: Seq<LogicalColEncoder>) -> Seq<u32>
    decreases es,
{
    if es.len() == 0 {
        Seq::empty()
    } else {
        all_columns_of(es.drop_last()) + columns_of(es.last())
    }
}

/// What is encoded in a physical column.
#[derive(Debug)]
pub struct PhysicalType {
    pub data_type: DataType,
    pub nullable: bool,
}

/// What is encoded in a physical column, without how it is held.
pub struct PhysicalTypeView {
    pub data_type: TypeView,
    pub nullable: bool,
}

impl View for PhysicalType {
    type V = PhysicalTypeView;

    open spec fn view(&self) -> PhysicalTypeView {
        PhysicalTypeView { data_type: self.data_type@, nullable: self.nullable }
    }
}

/// What is encoded in physical columns, without how it is held.
pub open spec fn views_of(v: Seq<PhysicalType>) -> Seq<PhysicalTypeView> {
    v.map_values(|t: PhysicalType| t@)
}

/// What is encoded in a physical column of lists of a type.
pub open spec fn lists_with(list_type: DataType, nullable: bool) -> PhysicalTypeView {
    PhysicalTypeView { data_type: list_type@, nullable }
}

/// What is encoded in a physical column that tells which structs are there.
pub open spec fn truth_values() -> PhysicalTypeView {
    PhysicalTypeView { data_type: TypeView::Flat(DataType::Boolean), nullable: false }
}

/// What is encoded in the physical columns that are written for a column.
pub open spec fn types_of(e: LogicalColEncoder) -> Seq<PhysicalTypeView>
    decreases e,
{
    match e {
        LogicalColEncoder::Flat(f) => seq![
            PhysicalTypeView { data_type: f.data_type@, nullable: f.nullable },
        ],
        LogicalColEncoder::Vector(v) => seq![
            PhysicalTypeView {
                data_type: TypeView::Flat(DataType::Binary),
                nullable: v.nullable,
            },
        ],
        LogicalColEncoder::List(l) => seq![lists_with(l.list_type, l.nullable)] + types_of(
            *l.values_encoder,
        ),
        LogicalColEncoder::ListOfStruct(l) => l.list_types@.map_values(
            |d: DataType| lists_with(d, l.nullable),
        ),
        LogicalColEncoder::Struct(s) => seq![truth_values()] + all_types_of(s.fields_encoders@),
    }
}

/// What is encoded in the physical columns that are written for columns.
pub open spec fn all_types_of(es: Seq<LogicalColEncoder>) -> Seq<PhysicalTypeView>
    decreases es,
{
    if es.len() == 0 {
        Seq::empty()
    } else {
        all_types_of(es.drop_last()) + types_of(es.last())
    }
}

/// Structs with one of the fields only.
pub open spec fn one_field_struct(f: Field, i: int) -> FieldView {
    FieldView {
        name: f.name@,
        data_type: match f.data_type {
            DataType::Struct(fields) => TypeView::Struct(seq![fields@[i]@]),
            _ => f.data_type@,
        },
        nullable: f.nullable,
    }
}

/// The type of the lists of structs of a column with one of the fields only.
pub open spec fn one_field_lists(f: Field, i: int) -> TypeView {
    match f.data_type {
        DataType::List(child) => TypeView::List(Box::new(one_field_struct(*child, i))),
        DataType::LargeList(child) => TypeView::LargeList(Box::new(one_field_struct(*child, i))),
        _ => f.data_type@,
    }
}

/// What is to be encoded in the physical columns for a column: bytes for vectors,
/// truth values for which structs are there, and values of the type of the column
/// otherwise.
pub open spec fn written_types(f: Field, pushdown: bool) -> Seq<PhysicalTypeView>
    decreases f,
{
    if f.data_type.is_vector() {
        seq![PhysicalTypeView {
            data_type: TypeView::Flat(DataType::Binary),
            nullable: f.nullable,
        }]
    } else if f.data_type.is_non_nest() {
        seq![PhysicalTypeView { data_type: f.data_type@, nullable: f.nullable }]
    } else if pushes_down(f, pushdown) {
        Seq::new(
            fields_in_lists(f),
            |i: int|
                PhysicalTypeView { data_type: one_field_lists(f, i), nullable: f.nullable },
        )
    } else {
        match f.data_type {
            DataType::List(child) => seq![lists_with(f.data_type, f.nullable)] + written_types(
                *child,
                pushdown,
            ),
            DataType::LargeList(child) => seq![lists_with(f.data_type, f.nullable)]
                + written_types(*child, pushdown),
            DataType::Struct(fields) => seq![truth_values()] + all_written_types(
                fields@,
                pushdown,
            ),
            _ => Seq::empty(),
        }
    }
}

/// What is to be encoded in the physical columns for columns.
pub open spec fn all_written_types(fields: Seq<Field>, pushdown: bool) -> Seq<PhysicalTypeView>
    decreases fields,
{
    if fields.len() == 0 {
        Seq::empty()
    } else {
        all_written_types(fields.drop_last(), pushdown) + written_types(fields.last(), pushdown)
    }
}

/// Every physical column of a column gets values of the type that is to be encoded in
/// it.
pub proof fn types_are_written(e: LogicalColEncoder, f: Field, micro_index: bool, pushdown: bool)
    requires
        encodes(e, f, micro_index, pushdown),
    ensures
        types_of(e) == written_types(f, pushdown),
        types_of(e).len() == written_width(f, pushdown),
    decreases f,
{
    if f.data_type.is_vector() || f.data_type.is_non_nest() {
    } else if pushes_down(f, pushdown) {
        let l = e->ListOfStruct_0;
        assert(types_of(e) =~= written_types(f, pushdown)) by {
            assert forall|i: int| 0 <= i < l.list_types@.len() implies #[trigger] types_of(e)[i]
                == written_types(f, pushdown)[i] by {
                assert(l.list_types@[i]@ == one_field_lists(f, i));
            }
        }
    } else {
        match f.data_type {
            DataType::List(child) => {
                types_are_written(*e->List_0.values_encoder, *child, micro_index, pushdown);
            },
            DataType::LargeList(child) => {
                types_are_written(*e->List_0.values_encoder, *child, micro_index, pushdown);
            },
            DataType::Struct(fields) => {
                all_types_are_written(
                    e->Struct_0.fields_encoders@,
                    fields@,
                    micro_index,
                    pushdown,
                );
            },
            _ => {},
        }
    }
}

/// The same for columns.
pub proof fn all_types_are_written(
    es: Seq<LogicalColEncoder>,
    fields: Seq<Field>,
    micro_index: bool,
    pushdown: bool,
)
    requires
        all_encode(es, fields, micro_index, pushdown),
    ensures
        all_types_of(es) == all_written_types(fields, pushdown),
        all_types_of(es).len() == total_written_width(fields, pushdown),
    decreases fields,
{
    if fields.len() > 0 {
        all_types_are_written(es.drop_last(), fields.drop_last(), micro_index, pushdown);
        types_are_written(es.last(), fields.last(), micro_index, pushdown);
    }
}

/// Numbers that follow each other.
pub open spec fn consecutive(start: int, n: nat) -> Seq<u32> {
    Seq::new(n, |i: int| (start + i) as u32)
}

/// Whether the lists of a column go with the fields of the structs in them.
pub open spec fn pushes_down(f: Field, pushdown: bool) -> bool {
    &&& pushdown
    &&& match f.data_type {
        DataType::List(child) => child.data_type matches DataType::Struct(fields)
            && schema::all_non_nest(fields@),
        DataType::LargeList(child) => child.data_type matches DataType::Struct(fields)
            && schema::all_non_nest(fields@),
        _ => false,
    }
}

/// How many fields the structs in the lists of a column have.
pub open spec fn fields_in_lists(f: Field) -> nat {
    match f.data_type {
        DataType::List(child) => match child.data_type {
            DataType::Struct(fields) => fields@.len(),
            _ => 0,
        },
        DataType::LargeList(child) => match child.data_type {
            DataType::Struct(fields) => fields@.len(),
            _ => 0,
        },
        _ => 0,
    }
}

/// How many physical columns are written for a column.
pub open spec fn written_width(f: Field, pushdown: bool) -> nat
    decreases f,
{
    if f.data_type.is_vector() || f.data_type.is_non_nest() {
        1
    } else if pushes_down(f, pushdown) {
        fields_in_lists(f)
    } else {
        match f.data_type {
            DataType::List(child) => 1 + written_width(*child, pushdown),
            DataType::LargeList(child) => 1 + written_width(*child, pushdown),
            DataType::Struct(fields) => 1 + total_written_width(fields@, pushdown),
            _ => 1,
        }
    }
}

/// How many physical columns are written for columns.
pub open spec fn total_written_width(fields: Seq<Field>, pushdown: bool) -> nat
    decreases fields,
{
    if fields.len() == 0 {
        0
    } else {
        total_written_width(fields.drop_last(), pushdown) + written_width(fields.last(), pushdown)
    }
}

/// If lists stay with their columns, as many physical columns are written as the
/// columns take.
pub proof fn written_width_is_width(f: Field)
    ensures
        written_width(f, false) == schema::width(f),
    decreases f,
{
    if !(f.data_type.is_vector() || f.data_type.is_non_nest()) {
        match f.data_type {
            DataType::List(child) => {
                written_width_is_width(*child);
            },
            DataType::LargeList(child) => {
                written_width_is_width(*child);
            },
            DataType::Struct(fields) => {
                total_written_width_is_width(fields@);
            },
            _ => {},
        }
    }
}

/// The same for columns.
pub proof fn total_written_width_is_width(fields: Seq<Field>)
    ensures
        total_written_width(fields, false) == schema::total_width(fields),
    decreases fields,
{
    if fields.len() > 0 {
        total_written_width_is_width(fields.drop_last());
        written_width_is_width(fields.last());
    }
}

/// Whether `e` encodes columns like `f`.
pub open spec fn encodes(e: LogicalColEncoder, f: Field, micro_index: bool, pushdown: bool) -> bool
    decreases f,
{
    if f.data_type.is_vector() {
        &&& e matches LogicalColEncoder::Vector(v)
        &&& Some(v.dim) == vector_dim(f.data_type)
        &&& v.nullable == f.nullable
        &&& v.enable_micro_index == micro_index
        &&& v.pending_vectors@.len() == 0
        &&& v.pending_rows == 0
    } else if f.data_type.is_non_nest() {
        &&& e matches LogicalColEncoder::Flat(x)
        &&& x.data_type == f.data_type
        &&& x.nullable == f.nullable
    } else if pushes_down(f, pushdown) {
        &&& e matches LogicalColEncoder::ListOfStruct(l)
        &&& l.list_types@.len() == fields_in_lists(f)
        &&& forall|i: int|
            0 <= i < l.list_types@.len() ==> (#[trigger] l.list_types@[i])@ == one_field_lists(
                f,
                i,
            )
        &&& l.nullable == f.nullable
    } else {
        match f.data_type {
            DataType::List(child) => {
                &&& e matches LogicalColEncoder::List(l)
                &&& l.list_type@ == f.data_type@
                &&& l.nullable == f.nullable
                &&& encodes(*l.values_encoder, *child, micro_index, pushdown)
            },
            DataType::LargeList(child) => {
                &&& e matches LogicalColEncoder::List(l)
                &&& l.list_type@ == f.data_type@
                &&& l.nullable == f.nullable
                &&& encodes(*l.values_encoder, *child, micro_index, pushdown)
            },
            DataType::Struct(fields) => e matches LogicalColEncoder::Struct(s) && all_encode(
                s.fields_encoders@,
                fields@,
                micro_index,
                pushdown,
            ),
            _ => false,
        }
    }
}

/// Whether these encode columns like these.
pub open spec fn all_encode(
    es: Seq<LogicalColEncoder>,
    fields: Seq<Field>,
    micro_index: bool,
    pushdown: bool,
) -> bool
    decreases fields,
{
    &&& es.len() == fields.len()
    &&& fields.len() > 0 ==> all_encode(
        es.drop_last(),
        fields.drop_last(),
        micro_index,
        pushdown,
    ) && encodes(es.last(), fields.last(), micro_index, pushdown)
}

/// How many components the vectors of a type have.
pub open spec fn vector_dim(d: DataType) -> Option<i32> {
    match d {
        DataType::FixedSizeList(_, dim) => Some(dim),
        _ => None,
    }
}

/// Whether `t` is how a column is nested.
pub open spec fn is_tree_of(t: LogicalTree, f: Field, pushdown: bool) -> bool
    decreases f,
{
    if f.data_type.is_vector() || f.data_type.is_non_nest() {
        t.id == LogicalId::Flat && t.children@.len() == 0
    } else if pushes_down(f, pushdown) {
        t.id == LogicalId::ListOfStructOfPrimitive && t.children@.len() == 0
    } else {
        match f.data_type {
            DataType::List(child) => t.id == LogicalId::List && t.children@.len() == 1
                && is_tree_of(t.children@[0], *child, pushdown),
            DataType::LargeList(child) => t.id == LogicalId::List && t.children@.len() == 1
                && is_tree_of(t.children@[0], *child, pushdown),
            DataType::Struct(fields) => t.id == LogicalId::Struct && are_trees_of(
                t.children@,
                fields@,
                pushdown,
            ),
            _ => false,
        }
    }
}

/// Whether these are how columns are nested.
pub open spec fn are_trees_of(ts: Seq<LogicalTree>, fields: Seq<Field>, pushdown: bool) -> bool
    decreases fields,
{
    &&& ts.len() == fields.len()
    &&& fields.len() > 0 ==> are_trees_of(ts.drop_last(), fields.drop_last(), pushdown)
        && is_tree_of(ts.last(), fields.last(), pushdown)
}

/// The physical columns of the columns up to `n` are no more than those of all.
pub proof fn written_width_grows(fields: Seq<Field>, n: int, pushdown: bool)
    requires
        0 <= n <= fields.len(),
    ensures
        total_written_width(fields.take(n), pushdown) <= total_written_width(fields, pushdown),
    decreases fields.len() - n,
{
    if n == fields.len() {
        assert(fields.take(n) =~= fields);
    } else {
        assert(fields.take(n + 1).drop_last() =~= fields.take(n));
        written_width_grows(fields, n + 1, pushdown);
    }
}

proof fn consecutive_joins(start: int, n: nat, m: nat)
    ensures
        consecutive(start, n) + consecutive(start + n, m) == consecutive(start, n + m),
{
    assert(consecutive(start, n) + consecutive(start + n, m) =~= consecutive(start, n + m));
}

/// The fields of structs in lists whose lists go with them, if so.
fn pushed_down_fields(f: &Field, pushdown: bool) -> (r: Option<usize>)
    ensures
        r is Some <==> pushes_down(*f, pushdown),
        r matches Some(n) ==> n == fields_in_lists(*f),
{
    if !pushdown {
        return None;
    }
    let child = match &f.data_type {
        DataType::List(child) => child,
        DataType::LargeList(child) => child,
        _ => {
            return None;
        },
    };
    match &child.data_type {
        DataType::Struct(fields) => {
            if are_all_non_nest(fields) {
                Some(fields.len())
            } else {
                None
            }
        },
        _ => None,
    }
}

/// The same structs with one of the fields only.
fn struct_with_field(f: &Field, i: usize) -> (r: Field)
    requires
        f.data_type matches DataType::Struct(fields) && i < fields@.len(),
    ensures
        r@ == one_field_struct(*f, i as int),
{
    let data_type = match &f.data_type {
        DataType::Struct(fields) => {
            let mut one: Vec<Field> = Vec::new();
            one.push(fields[i].copy());
            assert(one@.drop_last() =~= Seq::<Field>::empty());
            assert(schema::fields_view(one@.drop_last()) =~= Seq::<FieldView>::empty());
            assert(schema::fields_view(one@) =~= seq![fields@[i as int]@]);
            DataType::Struct(one)
        },
        _ => DataType::Null,
    };
    Field { name: f.name.clone(), data_type, nullable: f.nullable }
}

/// The type of the lists of structs of a column with one of the fields only.
pub fn lists_with_field(f: &Field, i: usize) -> (r: DataType)
    requires
        i < fields_in_lists(*f),
    ensures
        r@ == one_field_lists(*f, i as int),
{
    match &f.data_type {
        DataType::List(child) => DataType::List(Box::new(struct_with_field(child, i))),
        DataType::LargeList(child) => DataType::LargeList(Box::new(struct_with_field(child, i))),
        _ => DataType::Null,
    }
}

/// Counts the physical columns that are written for a column; nothing if there are
/// more than can be numbered.
pub fn count_written(f: &Field, pushdown: bool) -> (r: Option<u32>)
    ensures
        match r {
            Some(n) => n == written_width(*f, pushdown),
            None => written_width(*f, pushdown) > u32::MAX,
        },
    decreases f,
{
    if is_supported_vector(&f.data_type) || f.data_type.non_nest() {
        return Some(1);
    }
    if let Some(n) = pushed_down_fields(f, pushdown) {
        return if n as u64 <= u32::MAX as u64 {
            Some(n as u32)
        } else {
            None
        };
    }
    let inner = match &f.data_type {
        DataType::List(child) => count_written(child, pushdown),
        DataType::LargeList(child) => count_written(child, pushdown),
        DataType::Struct(fields) => count_all_written(fields, pushdown),
        _ => Some(0),
    };
    match inner {
        Some(n) => n.checked_add(1),
        None => None,
    }
}

/// Counts the physical columns that are written for columns; nothing if there are
/// more than can be numbered.
pub fn count_all_written(fields: &Vec<Field>, pushdown: bool) -> (r: Option<u32>)
    ensures
        match r {
            Some(n) => n == total_written_width(fields@, pushdown),
            None => total_written_width(fields@, pushdown) > u32::MAX,
        },
    decreases fields,
{
    let mut total: u32 = 0;
    let mut i: usize = 0;
    assert(fields@.take(0) =~= Seq::empty());
    while i < fields.len()
        invariant
            i <= fields@.len(),
            total == total_written_width(fields@.take(i as int), pushdown),
        decreases fields@.len() - i,
    {
        proof {
            let next = fields@.take(i + 1);
            assert(next.drop_last() =~= fields@.take(i as int));
            assert(next.last() == fields@[i as int]);
            written_width_grows(fields@, i + 1, pushdown);
        }
        match count_written(&fields[i], pushdown) {
            None => {
                return None;
            },
            Some(n) => match total.checked_add(n) {
                None => {
                    return None;
                },
                Some(t) => {
                    total = t;
                },
            },
        }
        i = i + 1;
    }
    assert(fields@.take(i as int) =~= fields@);
    Some(total)
}

/// Takes a column apart into physical columns, which get the next numbers.
pub fn create_logical_encoder(
    field: &Field,
    column_idx: &mut ColumnIndexSequence,
    enable_micro_index: bool,
    pushdown: bool,
) -> (r: (LogicalColEncoder, LogicalTree))
    requires
        schema::storable(*field),
        old(column_idx).next + written_width(*field, pushdown) <= u32::MAX,
    ensures
        encodes(r.0, *field, enable_micro_index, pushdown),
        is_tree_of(r.1, *field, pushdown),
        columns_of(r.0) == consecutive(
            old(column_idx).next as int,
            written_width(*field, pushdown),
        ),
        final(column_idx).next == old(column_idx).next + written_width(*field, pushdown),
    decreases field, 0int,
{
    let ghost start = column_idx.next as int;
    if is_supported_vector(&field.data_type) {
        let dim: i32 = match &field.data_type {
            DataType::FixedSizeList(_, dim) => *dim,
            _ => 0,
        };
        let encoder = VectorColEncoder {
            column_index: column_idx.next_column_index(),
            nullable: field.nullable,
            dim,
            enable_micro_index,
            pending_vectors: Vec::new(),
            pending_rows: 0,
        };
        assert(columns_of(LogicalColEncoder::Vector(encoder)) =~= consecutive(start, 1));
        return (
            LogicalColEncoder::Vector(encoder),
            LogicalTree::new(LogicalId::Flat, Vec::new()),
        );
    }
    if field.data_type.non_nest() {
        let encoder = FlatColEncoder {
            column_index: column_idx.next_column_index(),
            data_type: field.data_type.copy(),
            nullable: field.nullable,
        };
        assert(columns_of(LogicalColEncoder::Flat(encoder)) =~= consecutive(start, 1));
        return (LogicalColEncoder::Flat(encoder), LogicalTree::new(LogicalId::Flat, Vec::new()));
    }
    if let Some(n) = pushed_down_fields(field, pushdown) {
        let mut column_indexes: Vec<u32> = Vec::new();
        let mut list_types: Vec<DataType> = Vec::new();
        let mut i: usize = 0;
        while i < n
            invariant
                i <= n,
                start + n <= u32::MAX,
                n == fields_in_lists(*field),
                column_idx.next == start + i,
                column_indexes@ =~= consecutive(start, i as nat),
                list_types@.len() == i,
                forall|j: int|
                    0 <= j < i ==> (#[trigger] list_types@[j])@ == one_field_lists(*field, j),
            decreases n - i,
        {
            column_indexes.push(column_idx.next_column_index());
            list_types.push(lists_with_field(field, i));
            i = i + 1;
        }
        return (
            LogicalColEncoder::ListOfStruct(
                ListOfStructOfPrimitiveColEncoder {
                    column_indexes,
                    list_types,
                    nullable: field.nullable,
                },
            ),
            LogicalTree::new(LogicalId::ListOfStructOfPrimitive, Vec::new()),
        );
    }
    match &field.data_type {
        DataType::Struct(fields) => {
            let column_index: u32 = column_idx.next_column_index();
            let mut encoders: Vec<LogicalColEncoder> = Vec::new();
            let mut trees: Vec<LogicalTree> = Vec::new();
            let mut i: usize = 0;
            assert(fields@.take(0) =~= Seq::empty());
            assert(all_columns_of(encoders@) =~= consecutive(start + 1, 0));
            while i < fields.len()
                invariant
                    i <= fields@.len(),
                    decreases_to!(field => fields@),
                    schema::all_storable(fields@),
                    start + 1 + total_written_width(fields@, pushdown) <= u32::MAX,
                    encoders@.len() == i,
                    trees@.len() == i,
                    column_idx.next == start + 1 + total_written_width(
                        fields@.take(i as int),
                        pushdown,
                    ),
                    all_encode(encoders@, fields@.take(i as int), enable_micro_index, pushdown),
                    are_trees_of(trees@, fields@.take(i as int), pushdown),
                    all_columns_of(encoders@) == consecutive(
                        start + 1,
                        total_written_width(fields@.take(i as int), pushdown),
                    ),
                decreases fields@.len() - i,
            {
                let ghost now = total_written_width(fields@.take(i as int), pushdown);
                let ghost e0 = encoders@;
                let ghost t0 = trees@;
                proof {
                    let next = fields@.take(i + 1);
                    assert(next.drop_last() =~= fields@.take(i as int));
                    assert(next.last() == fields@[i as int]);
                    written_width_grows(fields@, i + 1, pushdown);
                    schema::each_storable(fields@, i as int);
                }
                let (encoder, tree) = create_logical_encoder(
                    &fields[i],
                    column_idx,
                    enable_micro_index,
                    pushdown,
                );
                encoders.push(encoder);
                trees.push(tree);
                proof {
                    assert(encoders@.drop_last() =~= e0);
                    assert(trees@.drop_last() =~= t0);
                    consecutive_joins(start + 1, now, written_width(fields@[i as int], pushdown));
                }
                i = i + 1;
            }
            assert(fields@.take(i as int) =~= fields@);
            proof {
                consecutive_joins(start, 1, total_written_width(fields@, pushdown));
                assert(consecutive(start, 1) =~= seq![column_index]);
            }
            (
                LogicalColEncoder::Struct(
                    StructColEncoder { column_index, fields_encoders: encoders },
                ),
                LogicalTree::new(LogicalId::Struct, trees),
            )
        },
        DataType::List(child) => create_list_encoder(
            field,
            child,
            column_idx,
            enable_micro_index,
            pushdown,
        ),
        DataType::LargeList(child) => create_list_encoder(
            field,
            child,
            column_idx,
            enable_micro_index,
            pushdown,
        ),
        _ => (
            LogicalColEncoder::Flat(
                FlatColEncoder { column_index: 0, data_type: DataType::Null, nullable: true },
            ),
            LogicalTree::new(LogicalId::Flat, Vec::new()),
        ),
    }
}

/// Takes a column of lists apart: the lists, and what is in them.
fn create_list_encoder(
    field: &Field,
    child: &Field,
    column_idx: &mut ColumnIndexSequence,
    enable_micro_index: bool,
    pushdown: bool,
) -> (r: (LogicalColEncoder, LogicalTree))
    requires
        schema::storable(*child),
        old(column_idx).next + 1 + written_width(*child, pushdown) <= u32::MAX,
    ensures
        ({
            &&& r.0 matches LogicalColEncoder::List(l)
            &&& l.list_type@ == field.data_type@
            &&& l.nullable == field.nullable
            &&& encodes(*l.values_encoder, *child, enable_micro_index, pushdown)
        }),
        r.1.id == LogicalId::List,
        r.1.children@.len() == 1,
        is_tree_of(r.1.children@[0], *child, pushdown),
        columns_of(r.0) == consecutive(
            old(column_idx).next as int,
            1 + written_width(*child, pushdown),
        ),
        final(column_idx).next == old(column_idx).next + 1 + written_width(*child, pushdown),
    decreases child, 1int,
{
    let ghost start = column_idx.next as int;
    let column_index: u32 = column_idx.next_column_index();
    let (values, tree) = create_logical_encoder(child, column_idx, enable_micro_index, pushdown);
    let mut children: Vec<LogicalTree> = Vec::new();
    children.push(tree);
    proof {
        consecutive_joins(start, 1, written_width(*child, pushdown));
        assert(consecutive(start, 1) =~= seq![column_index]);
    }
    (
        LogicalColEncoder::List(
            ListColEncoder {
                column_index,
                list_type: field.data_type.copy(),
                nullable: field.nullable,
                values_encoder: Box::new(values),
            },
        ),
        LogicalTree::new(LogicalId::List, children),
    )
}

/// The chunks as those of physical column `column`.
pub open spec fn labeled(chunks: Seq<EncodedColumnChunk>, column: u32) -> Seq<EncodedColumnChunk> {
    chunks.map_values(
        |c: EncodedColumnChunk| EncodedColumnChunk { column_index: column, ..c },
    )
}

/// The chunks of many physical columns, one column behind the other.
pub open spec fn all_labeled(
    outputs: Seq<Vec<EncodedColumnChunk>>,
    columns: Seq<u32>,
) -> Seq<EncodedColumnChunk>
    decreases outputs.len(),
{
    if outputs.len() == 0 {
        Seq::empty()
    } else {
        all_labeled(outputs.drop_last(), columns) + labeled(
            outputs.last()@,
            columns[outputs.len() - 1],
        )
    }
}

/// Appends the chunks of a physical column.
fn put_labeled(out: &mut Vec<EncodedColumnChunk>, chunks: Vec<EncodedColumnChunk>, column: u32)
    ensures
        final(out)@ == old(out)@ + labeled(chunks@, column),
{
    let ghost front = out@;
    let ghost all = chunks@;
    assert(out@ =~= front + labeled(all.take(0), column));
    for chunk in it: chunks
        invariant
            it.seq() == all,
            out@ == front + labeled(all.take(it.index() as int), column),
    {
        let ghost k = it.index() as int;
        out.push(chunk.update_column_index(column));
        assert(out@ =~= front + labeled(all.take(k + 1), column));
    }
    assert(all.take(all.len() as int) =~= all);
}

impl LogicalColEncoder {
    /// The physical columns that are written, in the order in which their chunks
    /// come.
    pub fn columns(&self) -> (r: Vec<u32>)
        ensures
            r@ == columns_of(*self),
        decreases self,
    {
        match self {
            LogicalColEncoder::Flat(f) => {
                let r = vec![f.column_index];
                assert(r@ =~= columns_of(*self));
                r
            },
            LogicalColEncoder::Vector(v) => {
                let r = vec![v.column_index];
                assert(r@ =~= columns_of(*self));
                r
            },
            LogicalColEncoder::List(l) => {
                let mut r = vec![l.column_index];
                let mut values = l.values_encoder.columns();
                r.append(&mut values);
                assert(r@ =~= columns_of(*self));
                r
            },
            LogicalColEncoder::ListOfStruct(l) => crate::tables::copy_u32s(&l.column_indexes),
            LogicalColEncoder::Struct(s) => {
                let mut r = vec![s.column_index];
                let mut i: usize = 0;
                let fields = &s.fields_encoders;
                assert(fields@.take(0) =~= Seq::empty());
                assert(r@ =~= seq![s.column_index] + all_columns_of(fields@.take(0)));
                while i < fields.len()
                    invariant
                        i <= fields@.len(),
                        decreases_to!(self => fields@),
                        r@ == seq![s.column_index] + all_columns_of(fields@.take(i as int)),
                    decreases fields@.len() - i,
                {
                    let mut more = fields[i].columns();
                    let ghost now = all_columns_of(fields@.take(i as int));
                    r.append(&mut more);
                    proof {
                        let next = fields@.take(i + 1);
                        assert(next.drop_last() =~= fields@.take(i as int));
                        assert(next.last() == fields@[i as int]);
                        assert(r@ =~= seq![s.column_index] + (now + columns_of(
                            fields@[i as int],
                        )));
                    }
                    i = i + 1;
                }
                assert(fields@.take(i as int) =~= fields@);
                r
            },
        }
    }

    /// What is encoded in the physical columns that are written, in the order in
    /// which their chunks come.
    pub fn types(&self) -> (r: Vec<PhysicalType>)
        ensures
            views_of(r@) == types_of(*self),
        decreases self,
    {
        match self {
            LogicalColEncoder::Flat(f) => {
                let r = vec![
                    PhysicalType { data_type: f.data_type.copy(), nullable: f.nullable },
                ];
                assert(views_of(r@) =~= types_of(*self));
                r
            },
            LogicalColEncoder::Vector(v) => {
                let r = vec![PhysicalType { data_type: DataType::Binary, nullable: v.nullable }];
                assert(views_of(r@) =~= types_of(*self));
                r
            },
            LogicalColEncoder::List(l) => {
                let mut r = vec![
                    PhysicalType { data_type: l.list_type.copy(), nullable: l.nullable },
                ];
                let ghost first = r@;
                let mut values = l.values_encoder.types();
                let ghost rest = values@;
                r.append(&mut values);
                assert(views_of(r@) =~= views_of(first) + views_of(rest));
                assert(views_of(first) =~= seq![lists_with(l.list_type, l.nullable)]);
                r
            },
            LogicalColEncoder::ListOfStruct(l) => {
                let mut r: Vec<PhysicalType> = Vec::new();
                let mut i: usize = 0;
                while i < l.list_types.len()
                    invariant
                        i <= l.list_types@.len(),
                        r@.len() == i,
                        forall|j: int|
                            0 <= j < i ==> (#[trigger] r@[j])@ == lists_with(
                                l.list_types@[j],
                                l.nullable,
                            ),
                    decreases l.list_types@.len() - i,
                {
                    r.push(
                        PhysicalType { data_type: l.list_types[i].copy(), nullable: l.nullable },
                    );
                    i = i + 1;
                }
                assert(views_of(r@) =~= types_of(*self));
                r
            },
            LogicalColEncoder::Struct(s) => {
                let mut r = vec![PhysicalType { data_type: DataType::Boolean, nullable: false }];
                let mut i: usize = 0;
                let fields = &s.fields_encoders;
                assert(fields@.take(0) =~= Seq::empty());
                assert(views_of(r@) =~= seq![truth_values()] + all_types_of(fields@.take(0)));
                while i < fields.len()
                    invariant
                        i <= fields@.len(),
                        decreases_to!(self => fields@),
                        views_of(r@) == seq![truth_values()] + all_types_of(fields@.take(i as int)),
                    decreases fields@.len() - i,
                {
                    let mut more = fields[i].types();
                    let ghost now = all_types_of(fields@.take(i as int));
                    let ghost before = r@;
                    let ghost rest = more@;
                    r.append(&mut more);
                    proof {
                        let next = fields@.take(i + 1);
                        assert(next.drop_last() =~= fields@.take(i as int));
                        assert(next.last() == fields@[i as int]);
                        assert(views_of(r@) =~= views_of(before) + views_of(rest));
                        assert(views_of(r@) =~= seq![truth_values()] + (now + types_of(
                            fields@[i as int],
                        )));
                    }
                    i = i + 1;
                }
                assert(fields@.take(i as int) =~= fields@);
                r
            },
        }
    }

    /// The chunks that come of the physical encoders, given in the order of the
    /// physical columns: each as one of its column, one column behind the other.
    /// Nothing if there are none.
    pub fn label(&self, outputs: Vec<Vec<EncodedColumnChunk>>) -> (r: Option<
        Vec<EncodedColumnChunk>,
    >)
        requires
            outputs@.len() == columns_of(*self).len(),
        ensures
            ({
                let all = all_labeled(outputs@, columns_of(*self));
                if all.len() == 0 {
                    r is None
                } else {
                    r is Some && (r->0)@ == all
                }
            }),
    {
        let columns = self.columns();
        let ghost all = outputs@;
        let n: usize = columns.len();
        let mut out: Vec<EncodedColumnChunk> = Vec::new();
        let mut i: usize = 0;
        assert(all.take(0) =~= Seq::empty());
        for chunks in it: outputs
            invariant
                it.seq() == all,
                columns@ == columns_of(*self),
                all.len() == columns@.len(),
                all.len() == n,
                i == it.index(),
                out@ == all_labeled(all.take(it.index() as int), columns@),
        {
            let ghost k = it.index() as int;
            put_labeled(&mut out, chunks, columns[i]);
            proof {
                let next = all.take(k + 1);
                assert(next.drop_last() =~= all.take(k));
                assert(next.last() == chunks);
            }
            i = i + 1;
        }
        assert(all.take(all.len() as int) =~= all);
        if out.len() == 0 {
            None
        } else {
            Some(out)
        }
    }
}

} // verus!
