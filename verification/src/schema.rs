//! Column types, and how many physical columns a column takes.
use vstd::prelude::*;

verus! {

#[derive(Clone, Copy, Debug, PartialEq, Eq, Structural)]
pub enum TimeUnit {
    Second,
    Millisecond,
    Microsecond,
    Nanosecond,
}

/// The type of a column.
#[derive(Debug)]
pub enum DataType {
    Null,
    Boolean,
    Int8,
    Int16,
    Int32,
    Int64,
    UInt8,
    UInt16,
    UInt32,
    UInt64,
    Float16,
    Float32,
    Float64,
    /// A moment, and the time zone in which it is shown.
    Timestamp(TimeUnit, Option<String>),
    Date32,
    Date64,
    Time32(TimeUnit),
    Time64(TimeUnit),
    Binary,
    LargeBinary,
    BinaryView,
    Utf8,
    LargeUtf8,
    Utf8View,
    Decimal128(u8, i8),
    Decimal256(u8, i8),
    List(Box<Field>),
    LargeList(Box<Field>),
    FixedSizeList(Box<Field>, i32),
    Struct(Vec<Field>),
    KeyValue(Box<Field>),
    /// A type that cannot be stored.
    Other,
}

/// A column.
#[derive(Debug)]
pub struct Field {
    pub name: String,
    pub data_type: DataType,
    pub nullable: bool,
}

/// The columns of a table.
#[derive(Debug)]
pub struct Schema {
    pub fields: Vec<Field>,
}

impl DataType {
    /// Whether the type has no type inside it and can be stored.
    pub open spec fn is_non_nest(self) -> bool {
        !(self is List || self is LargeList || self is FixedSizeList || self is Struct || self is KeyValue
            || self is Other)
    }

    /// Whether the type is that of vectors of 32-bit floating-point numbers.
    pub open spec fn is_vector(self) -> bool {
        self matches DataType::FixedSizeList(child, _) && child.data_type is Float32
    }

    /// Tells whether the type has no type inside it and can be stored.
    pub fn non_nest(&self) -> (r: bool)
        ensures
            r == self.is_non_nest(),
    {
        match self {
            DataType::List(_) => false,
            DataType::LargeList(_) => false,
            DataType::FixedSizeList(_, _) => false,
            DataType::Struct(_) => false,
            DataType::KeyValue(_) => false,
            DataType::Other => false,
            _ => true,
        }
    }
}

/// Tells whether the type is that of vectors of 32-bit floating-point numbers.
pub fn is_supported_vector(dt: &DataType) -> (r: bool)
    ensures
        r == dt.is_vector(),
{
    match dt {
        DataType::FixedSizeList(child, _) => matches!(child.data_type, DataType::Float32),
        _ => false,
    }
}

/// Whether no field has a type inside its type.
pub open spec fn all_non_nest(fields: Seq<Field>) -> bool {
    forall|i: int| 0 <= i < fields.len() ==> (#[trigger] fields[i]).data_type.is_non_nest()
}

/// Tells whether no field has a type inside its type.
pub fn are_all_non_nest(fields: &Vec<Field>) -> (r: bool)
    ensures
        r == all_non_nest(fields@),
{
    let mut i: usize = 0;
    while i < fields.len()
        invariant
            i <= fields@.len(),
            forall|j: int| 0 <= j < i ==> (#[trigger] fields@[j]).data_type.is_non_nest(),
        decreases fields@.len() - i,
    {
        if !fields[i].data_type.non_nest() {
            return false;
        }
        i = i + 1;
    }
    true
}

/// Whether a column of this type can be stored.
pub open spec fn storable(f: Field) -> bool
    decreases f,
{
    if f.data_type.is_vector() || f.data_type.is_non_nest() {
        true
    } else {
        match f.data_type {
            DataType::List(child) => storable(*child),
            DataType::LargeList(child) => storable(*child),
            DataType::Struct(fields) => all_storable(fields@),
            _ => false,
        }
    }
}

/// Whether columns of all these types can be stored.
pub open spec fn all_storable(fields: Seq<Field>) -> bool
    decreases fields,
{
    if fields.len() == 0 {
        true
    } else {
        all_storable(fields.drop_last()) && storable(fields.last())
    }
}

/// How many physical columns a column takes: one for its values, offsets or
/// validity, and those of the columns inside it.
pub open spec fn width(f: Field) -> nat
    decreases f,
{
    if f.data_type.is_vector() || f.data_type.is_non_nest() {
        1
    } else {
        match f.data_type {
            DataType::List(child) => 1 + width(*child),
            DataType::LargeList(child) => 1 + width(*child),
            DataType::Struct(fields) => 1 + total_width(fields@),
            _ => 1,
        }
    }
}

/// How many physical columns these columns take.
pub open spec fn total_width(fields: Seq<Field>) -> nat
    decreases fields,
{
    if fields.len() == 0 {
        0
    } else {
        total_width(fields.drop_last()) + width(fields.last())
    }
}

/// Tells whether a column can be stored.
pub fn is_storable(f: &Field) -> (r: bool)
    ensures
        r == storable(*f),
    decreases f,
{
    if is_supported_vector(&f.data_type) || f.data_type.non_nest() {
        return true;
    }
    match &f.data_type {
        DataType::List(child) => is_storable(child),
        DataType::LargeList(child) => is_storable(child),
        DataType::Struct(fields) => are_all_storable(fields),
        _ => false,
    }
}

/// Tells whether all these columns can be stored.
pub fn are_all_storable(fields: &Vec<Field>) -> (r: bool)
    ensures
        r == all_storable(fields@),
    decreases fields,
{
    let mut i: usize = 0;
    assert(fields@.take(0) =~= Seq::<Field>::empty());
    while i < fields.len()
        invariant
            i <= fields@.len(),
            all_storable(fields@.take(i as int)),
        decreases fields@.len() - i,
    {
        let ghost next = fields@.take(i + 1);
        proof {
            assert(next.drop_last() =~= fields@.take(i as int));
            assert(next.last() == fields@[i as int]);
        }
        if !is_storable(&fields[i]) {
            proof {
                not_storable_stays(fields@, i + 1);
            }
            return false;
        }
        i = i + 1;
    }
    assert(fields@.take(i as int) =~= fields@);
    true
}

proof fn not_storable_stays(fields: Seq<Field>, n: int)
    requires
        0 <= n <= fields.len(),
        !all_storable(fields.take(n)),
    ensures
        !all_storable(fields),
    decreases fields.len() - n,
{
    if n == fields.len() {
        assert(fields.take(n) =~= fields);
    } else {
        assert(fields.take(n + 1).drop_last() =~= fields.take(n));
        not_storable_stays(fields, n + 1);
    }
}

/// Each of the columns can be stored if all can.
pub proof fn each_storable(fields: Seq<Field>, i: int)
    requires
        all_storable(fields),
        0 <= i < fields.len(),
    ensures
        storable(fields[i]),
    decreases fields.len(),
{
    if i < fields.len() - 1 {
        each_storable(fields.drop_last(), i);
    }
}

/// The columns up to `n` take no more than all.
pub proof fn width_grows(fields: Seq<Field>, n: int)
    requires
        0 <= n <= fields.len(),
    ensures
        total_width(fields.take(n)) <= total_width(fields),
    decreases fields.len() - n,
{
    if n == fields.len() {
        assert(fields.take(n) =~= fields);
    } else {
        assert(fields.take(n + 1).drop_last() =~= fields.take(n));
        width_grows(fields, n + 1);
    }
}

/// Hands out physical column numbers, one after the other.
#[derive(Clone, Copy, Debug, PartialEq, Eq, Structural)]
pub struct ColumnIndexSequence {
    pub next: u32,
}

impl Default for ColumnIndexSequence {
    fn default() -> (r: Self)
        ensures
            r.next == 0,
    {
        ColumnIndexSequence { next: 0 }
    }
}

impl ColumnIndexSequence {
    /// Takes the next number.
    pub fn next_column_index(&mut self) -> (r: u32)
        requires
            old(self).next < u32::MAX,
        ensures
            r == old(self).next,
            final(self).next == old(self).next + 1,
    {
        let r: u32 = self.next;
        self.next = self.next + 1;
        r
    }

    /// How many numbers have been taken.
    pub fn get_current_index(&self) -> (r: u32)
        ensures
            r == self.next,
    {
        self.next
    }
}

/// Passes over the numbers of a top-level column that is not read. Only the first
/// is passed over for lists; a struct cannot be passed over.
pub fn advance_column_index(field: &Field, column_idx: &mut ColumnIndexSequence)
    requires
        old(column_idx).next < u32::MAX,
        field.data_type.is_non_nest() || field.data_type.is_vector() || field.data_type is List
            || field.data_type is LargeList,
    ensures
        final(column_idx).next == old(column_idx).next + 1,
{
    let _ = column_idx.next_column_index();
}

/// The type that text and bytes come back in from a nested column.
pub open spec fn view_type(d: DataType) -> DataType {
    match d {
        DataType::Utf8 => DataType::Utf8View,
        DataType::LargeUtf8 => DataType::Utf8View,
        DataType::Binary => DataType::BinaryView,
        DataType::LargeBinary => DataType::BinaryView,
        _ => d,
    }
}

/// The column as it comes back from a nested column.
pub fn field_to_view(field: Field) -> (r: Field)
    ensures
        r.name == field.name,
        r.nullable == field.nullable,
        r.data_type == view_type(field.data_type),
{
    let data_type = match field.data_type {
        DataType::Utf8 => DataType::Utf8View,
        DataType::LargeUtf8 => DataType::Utf8View,
        DataType::Binary => DataType::BinaryView,
        DataType::LargeBinary => DataType::BinaryView,
        other => other,
    };
    Field { name: field.name, data_type, nullable: field.nullable }
}

/// A type, without how it is held.
pub enum TypeView {
    /// A type without a type inside it.
    Flat(DataType),
    List(Box<FieldView>),
    LargeList(Box<FieldView>),
    FixedSizeList(Box<FieldView>, i32),
    Struct(Seq<FieldView>),
    KeyValue(Box<FieldView>),
}

/// A column, without how it is held.
pub struct FieldView {
    pub name: Seq<char>,
    pub data_type: TypeView,
    pub nullable: bool,
}

pub open spec fn type_view(d: DataType) -> TypeView
    decreases d,
{
    match d {
        DataType::List(child) => TypeView::List(Box::new(field_view(*child))),
        DataType::LargeList(child) => TypeView::LargeList(Box::new(field_view(*child))),
        DataType::FixedSizeList(child, n) => TypeView::FixedSizeList(
            Box::new(field_view(*child)),
            n,
        ),
        DataType::Struct(fields) => TypeView::Struct(fields_view(fields@)),
        DataType::KeyValue(child) => TypeView::KeyValue(Box::new(field_view(*child))),
        _ => TypeView::Flat(d),
    }
}

pub open spec fn field_view(f: Field) -> FieldView
    decreases f,
{
    FieldView { name: f.name@, data_type: type_view(f.data_type), nullable: f.nullable }
}

pub open spec fn fields_view(fields: Seq<Field>) -> Seq<FieldView>
    decreases fields,
{
    if fields.len() == 0 {
        Seq::empty()
    } else {
        fields_view(fields.drop_last()).push(field_view(fields.last()))
    }
}

impl View for DataType {
    type V = TypeView;

    open spec fn view(&self) -> TypeView {
        type_view(*self)
    }
}

impl View for Field {
    type V = FieldView;

    open spec fn view(&self) -> FieldView {
        field_view(*self)
    }
}

/// The `i`-th of columns without how they are held is the `i`-th column so.
pub proof fn each_field_view(fields: Seq<Field>, i: int)
    requires
        0 <= i < fields.len(),
    ensures
        fields_view(fields).len() == fields.len(),
        fields_view(fields)[i] == fields[i]@,
    decreases fields.len(),
{
    let front = fields.drop_last();
    if i < front.len() {
        each_field_view(front, i);
    } else if front.len() > 0 {
        each_field_view(front, 0);
    } else {
        assert(fields_view(front).len() == 0);
    }
}

impl DataType {
    /// The same type once more.
    pub fn copy(&self) -> (r: DataType)
        ensures
            r@ == self@,
            self.is_non_nest() ==> r == *self,
        decreases self,
    {
        match self {
            DataType::Null => DataType::Null,
            DataType::Boolean => DataType::Boolean,
            DataType::Int8 => DataType::Int8,
            DataType::Int16 => DataType::Int16,
            DataType::Int32 => DataType::Int32,
            DataType::Int64 => DataType::Int64,
            DataType::UInt8 => DataType::UInt8,
            DataType::UInt16 => DataType::UInt16,
            DataType::UInt32 => DataType::UInt32,
            DataType::UInt64 => DataType::UInt64,
            DataType::Float16 => DataType::Float16,
            DataType::Float32 => DataType::Float32,
            DataType::Float64 => DataType::Float64,
            DataType::Timestamp(unit, zone) => DataType::Timestamp(
                *unit,
                match zone {
                    Some(name) => Some(name.clone()),
                    None => None,
                },
            ),
            DataType::Date32 => DataType::Date32,
            DataType::Date64 => DataType::Date64,
            DataType::Time32(unit) => DataType::Time32(*unit),
            DataType::Time64(unit) => DataType::Time64(*unit),
            DataType::Binary => DataType::Binary,
            DataType::LargeBinary => DataType::LargeBinary,
            DataType::BinaryView => DataType::BinaryView,
            DataType::Utf8 => DataType::Utf8,
            DataType::LargeUtf8 => DataType::LargeUtf8,
            DataType::Utf8View => DataType::Utf8View,
            DataType::Decimal128(precision, scale) => DataType::Decimal128(*precision, *scale),
            DataType::Decimal256(precision, scale) => DataType::Decimal256(*precision, *scale),
            DataType::List(child) => DataType::List(Box::new(child.copy())),
            DataType::LargeList(child) => DataType::LargeList(Box::new(child.copy())),
            DataType::FixedSizeList(child, n) => DataType::FixedSizeList(
                Box::new(child.copy()),
                *n,
            ),
            DataType::Struct(fields) => DataType::Struct(copy_fields(fields)),
            DataType::KeyValue(child) => DataType::KeyValue(Box::new(child.copy())),
            DataType::Other => DataType::Other,
        }
    }
}

impl Field {
    /// The same column once more.
    pub fn copy(&self) -> (r: Field)
        ensures
            r@ == self@,
        decreases self,
    {
        Field {
            name: self.name.clone(),
            data_type: self.data_type.copy(),
            nullable: self.nullable,
        }
    }
}

/// The same columns once more.
pub fn copy_fields(fields: &Vec<Field>) -> (r: Vec<Field>)
    ensures
        fields_view(r@) == fields_view(fields@),
        r@.len() == fields@.len(),
    decreases fields,
{
    let mut out: Vec<Field> = Vec::new();
    let mut i: usize = 0;
    assert(fields@.take(0) =~= Seq::<Field>::empty());
    while i < fields.len()
        invariant
            i <= fields@.len(),
            out@.len() == i,
            fields_view(out@) == fields_view(fields@.take(i as int)),
        decreases fields@.len() - i,
    {
        let ghost before = out@;
        out.push(fields[i].copy());
        proof {
            let next = fields@.take(i + 1);
            assert(next.drop_last() =~= fields@.take(i as int));
            assert(next.last() == fields@[i as int]);
            assert(out@.drop_last() =~= before);
        }
        i = i + 1;
    }
    assert(fields@.take(i as int) =~= fields@);
    out
}

} // verus!
