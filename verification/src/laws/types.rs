//! Laws of the types of columns, and of the physical columns that they take.
use crate::schema;
use crate::schema::{DataType, Field};
use vstd::prelude::*;

verus! {

/// Columns take what each of them takes.
pub proof fn widths_add_up(a: Seq<Field>, b: Seq<Field>, f: Field)
    ensures
        schema::total_width(Seq::empty()) == 0,
        schema::total_width(seq![f]) == schema::width(f),
        schema::total_width(a + b) == schema::total_width(a) + schema::total_width(b),
    decreases b.len(),
{
    assert(seq![f].drop_last() =~= Seq::<Field>::empty());
    reveal_with_fuel(schema::total_width, 2);
    if b.len() == 0 {
        assert(a + b =~= a);
    } else {
        assert((a + b).drop_last() =~= a + b.drop_last());
        widths_add_up(a, b.drop_last(), f);
    }
}

/// A column without a type inside it takes one physical column, and so does one of
/// vectors; lists and structs take one more than what is inside them.
pub proof fn widths_of_columns(f: Field)
    ensures
        schema::width(f) >= 1,
        f.data_type.is_non_nest() || f.data_type.is_vector() ==> schema::width(f) == 1,
        f.data_type matches DataType::List(child) ==> schema::width(f) == 1 + schema::width(
            *child,
        ),
        f.data_type matches DataType::LargeList(child) ==> schema::width(f) == 1 + schema::width(
            *child,
        ),
        f.data_type matches DataType::Struct(fields) ==> schema::width(f) == 1
            + schema::total_width(fields@),
{
}

/// Columns can be stored if each of them can.
pub proof fn each_column_counts(fields: Seq<Field>)
    ensures
        schema::all_storable(fields) <==> forall|i: int|
            0 <= i < fields.len() ==> schema::storable(#[trigger] fields[i]),
    decreases fields.len(),
{
    if fields.len() > 0 {
        let front = fields.drop_last();
        each_column_counts(front);
        if schema::all_storable(fields) {
            assert forall|i: int| 0 <= i < fields.len() implies schema::storable(
                #[trigger] fields[i],
            ) by {
                if i < front.len() {
                    assert(front[i] == fields[i]);
                }
            }
        }
        if forall|i: int| 0 <= i < fields.len() ==> schema::storable(#[trigger] fields[i]) {
            assert(schema::storable(fields[fields.len() - 1]));
            assert forall|i: int| 0 <= i < front.len() implies schema::storable(
                #[trigger] front[i],
            ) by {
                assert(schema::storable(fields[i]));
            }
        }
    }
}

/// Which columns can be stored: those without a type inside, vectors of 32-bit numbers,
/// and lists and structs of such; no others.
pub proof fn columns_that_can_be_stored(f: Field)
    ensures
        f.data_type.is_non_nest() || f.data_type.is_vector() ==> schema::storable(f),
        f.data_type matches DataType::List(child) ==> (schema::storable(f) <==> schema::storable(
            *child,
        )),
        f.data_type matches DataType::LargeList(child) ==> (schema::storable(f)
            <==> schema::storable(*child)),
        f.data_type matches DataType::Struct(fields) ==> (schema::storable(f)
            <==> schema::all_storable(fields@)),
        f.data_type is KeyValue || f.data_type is Other ==> !schema::storable(f),
        f.data_type is FixedSizeList && !f.data_type.is_vector() ==> !schema::storable(f),
        f.data_type.is_vector() <==> f.data_type is FixedSizeList
            && f.data_type->FixedSizeList_0.data_type is Float32,
        f.data_type.is_non_nest() <==> !(f.data_type is List || f.data_type is LargeList
            || f.data_type is FixedSizeList || f.data_type is Struct || f.data_type is KeyValue
            || f.data_type is Other),
{
}

/// Text comes back as a view of text and bytes as a view of bytes; other types come back
/// as they are, and so does what has come back.
pub proof fn types_come_back(d: DataType)
    ensures
        d is Utf8 || d is LargeUtf8 ==> schema::view_type(d) is Utf8View,
        d is Binary || d is LargeBinary ==> schema::view_type(d) is BinaryView,
        !(d is Utf8 || d is LargeUtf8 || d is Binary || d is LargeBinary) ==> schema::view_type(d)
            == d,
        schema::view_type(schema::view_type(d)) == schema::view_type(d),
{
}

/// What a column is apart from how it is held: its name, its type and whether rows may be
/// missing.
pub proof fn columns_are_seen(f: Field, g: Field)
    requires
        f@ == g@,
    ensures
        f.name@ == g.name@,
        f.nullable == g.nullable,
        f.data_type@ == g.data_type@,
        f.data_type is List <==> g.data_type is List,
        f.data_type is LargeList <==> g.data_type is LargeList,
        f.data_type is FixedSizeList <==> g.data_type is FixedSizeList,
        f.data_type is Struct <==> g.data_type is Struct,
        f.data_type.is_non_nest() ==> f.data_type == g.data_type,
{
}

} // verus!
