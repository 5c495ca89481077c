//! Laws of putting columns together from physical columns.
use crate::assemble;
use crate::assemble::{Array, Unit};
use crate::decoder::LogicalColDecoder;
use crate::le;
use crate::vector;
use vstd::prelude::*;

verus! {

/// A batch of a column without parts is that of its physical column; the column has as
/// many batches.
pub proof fn flat_batches<T>(
    d: LogicalColDecoder,
    cols: Seq<Vec<Unit<T>>>,
    i: int,
    a: Array<T>,
)
    requires
        d is Primitive,
        assemble::is_batch(d, cols, i, a),
    ensures
        a is Flat,
        a->Flat_0 == cols[d->Primitive_0.column_index as int]@[i],
        assemble::batch_count(d, cols) == cols[d->Primitive_0.column_index as int]@.len(),
{
}

/// A batch of vectors has a row for each row of bytes: component `j` stands in the bytes
/// from `4 * j` on, and where there are no bytes there is no vector.
pub proof fn vector_batches<T>(
    d: LogicalColDecoder,
    cols: Seq<Vec<Unit<T>>>,
    i: int,
    a: Array<T>,
    r: int,
    j: int,
)
    requires
        d is Vector,
        cols[d->Vector_0.inner.column_index as int]@[i] is Binary,
        assemble::is_batch(d, cols, i, a),
    ensures
        a is Vectors,
        ({
            let rows = cols[d->Vector_0.inner.column_index as int]@[i]->Binary_0@;
            let v = a->Vectors_0@;
            &&& v.len() == rows.len()
            &&& 0 <= r < rows.len() ==> (v[r] is Some <==> rows[r] is Some)
            &&& 0 <= r < rows.len() && rows[r] is Some ==> v[r]->0@.len() == rows[r]->0@.len() / 4
            &&& 0 <= r < rows.len() && rows[r] is Some && 0 <= j < v[r]->0@.len() ==> v[r]->0@[j]
                == le::u32_of(rows[r]->0@.subrange(4 * j, 4 * j + 4))
        }),
{
    let rows = cols[d->Vector_0.inner.column_index as int]@[i]->Binary_0@;
    let v = a->Vectors_0@;
    let x = vector::vector_rows(v);
    let y = vector::rows_of_bytes(vector::byte_rows(rows));
    assert(x == y);
    assert(x.len() == v.len() && y.len() == rows.len());
    if 0 <= r < rows.len() {
        assert(x[r] == y[r]);
        assert(vector::byte_rows(rows)[r] == (match rows[r] {
            Some(b) => Some(b@),
            None => None,
        }));
    }
}

/// A batch of lists has the offsets and the gaps of the physical column in front, and as
/// items a batch of what is inside, with the same number.
pub proof fn list_batches<T>(d: LogicalColDecoder, cols: Seq<Vec<Unit<T>>>, i: int, a: Array<T>)
    requires
        d is List,
        assemble::is_batch(d, cols, i, a),
    ensures
        a is List,
        ({
            let unit = cols[d->List_0.validity_offsets_decoder.column_index as int]@[i];
            &&& unit is Lists
            &&& a->offsets == unit->offsets
            &&& a->List_nulls == unit->nulls
            &&& assemble::is_batch(*d->List_0.values_decoder, cols, i, *a->values)
        }),
        assemble::batch_count(d, cols) <= assemble::batch_count(*d->List_0.values_decoder, cols),
        assemble::batch_count(d, cols)
            <= cols[d->List_0.validity_offsets_decoder.column_index as int]@.len(),
{
}

/// A batch of structs has for each field, in their order, a batch of that field with the
/// same number, and a gap exactly where the physical column in front says that there is
/// no struct.
pub proof fn struct_batches<T>(
    d: LogicalColDecoder,
    cols: Seq<Vec<Unit<T>>>,
    i: int,
    a: Array<T>,
    j: int,
    r: int,
)
    requires
        d is Struct,
        assemble::is_batch(d, cols, i, a),
    ensures
        a is Struct,
        ({
            let s = d->Struct_0;
            let unit = cols[s.validity_decoder.column_index as int]@[i];
            let fields = a->children@;
            &&& unit is Booleans
            &&& fields.len() == s.children@.len()
            &&& 0 <= j < fields.len() ==> assemble::is_batch(s.children@[j], cols, i, fields[j])
            &&& a->Struct_nulls is None <==> unit->Booleans_0@.len() == 0
            &&& a->Struct_nulls is Some ==> a->Struct_nulls->0@.len() == unit->Booleans_0@.len()
            &&& a->Struct_nulls is Some && 0 <= r < unit->Booleans_0@.len()
                ==> a->Struct_nulls->0@[r] == unit->Booleans_0@[r]
        }),
{
    let s = d->Struct_0;
    if 0 <= j < s.children@.len() {
        assert(assemble::is_batch(s.children@[j], cols, i, a->children@[j]));
    }
}

/// The rows of all columns with the same number go together, column by column.
pub proof fn columns_go_together<T>(
    ds: Seq<LogicalColDecoder>,
    cols: Seq<Vec<Unit<T>>>,
    i: int,
    row: Seq<Array<T>>,
    j: int,
)
    requires
        assemble::is_row_of_batches(ds, cols, i, row),
    ensures
        row.len() == ds.len(),
        0 <= j < ds.len() ==> assemble::is_batch(ds[j], cols, i, row[j]),
{
    if 0 <= j < ds.len() {
        assert(assemble::is_batch(ds[j], cols, i, row[j]));
    }
}

} // verus!
