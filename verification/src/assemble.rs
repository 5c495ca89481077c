//! Putting the rows of columns together from the rows of physical columns.
use crate::decoder;
use crate::decoder::{transpose, LogicalColDecoder};
use crate::vector;
use crate::vector::{are_all_there, binary_to_vector, InvalidVectorLength};
use vstd::prelude::*;

verus! {

/// The rows of a unit of a physical column. What is not looked into is a `T`.
#[derive(Debug)]
pub enum Unit<T> {
    Booleans(Vec<bool>),
    /// Where the items of each list start and end, and which lists are there.
    Lists { offsets: Vec<i64>, nulls: Option<Vec<bool>> },
    /// Rows of bytes; none where a row is not there.
    Binary(Vec<Option<Vec<u8>>>),
    Other(T),
}

/// Rows of a column.
#[derive(Debug)]
pub enum Array<T> {
    Flat(Unit<T>),
    Vectors(Vec<Option<Vec<u32>>>),
    List { offsets: Vec<i64>, values: Box<Array<T>>, nulls: Option<Vec<bool>> },
    Struct { children: Vec<Array<T>>, nulls: Option<Vec<bool>> },
}

/// How many batches of rows a column has, if `cols` are the physical columns.
pub open spec fn batch_count<T>(d: LogicalColDecoder, cols: Seq<Vec<Unit<T>>>) -> nat
    decreases d,
{
    match d {
        LogicalColDecoder::Primitive(p) => cols[p.column_index as int]@.len(),
        LogicalColDecoder::Vector(v) => cols[v.inner.column_index as int]@.len(),
        LogicalColDecoder::List(l) => lesser(
            cols[l.validity_offsets_decoder.column_index as int]@.len(),
            batch_count(*l.values_decoder, cols),
        ),
        LogicalColDecoder::Struct(s) => if s.children@.len() == 0 {
            0
        } else {
            lesser(
                cols[s.validity_decoder.column_index as int]@.len(),
                batch_count(s.children@[0], cols),
            )
        },
    }
}

pub open spec fn lesser(a: nat, b: nat) -> nat {
    if a < b {
        a
    } else {
        b
    }
}

/// Whether each physical column has the rows that the column is made of.
pub open spec fn readable<T>(d: LogicalColDecoder, cols: Seq<Vec<Unit<T>>>) -> bool
    decreases d,
{
    match d {
        LogicalColDecoder::Primitive(_) => true,
        LogicalColDecoder::Vector(v) => {
            &&& v.dim >= 0
            &&& v.nullable || none_missing(cols[v.inner.column_index as int]@)
        },
        LogicalColDecoder::List(l) => {
            &&& readable(*l.values_decoder, cols)
            &&& forall|i: int|
                0 <= i < batch_count(d, cols) ==> (
                #[trigger] cols[l.validity_offsets_decoder.column_index as int]@[i]) is Lists
        },
        LogicalColDecoder::Struct(s) => {
            &&& s.children@.len() > 0
            &&& forall|j: int|
                0 <= j < s.children@.len() ==> readable(#[trigger] s.children@[j], cols)
                    && batch_count(s.children@[j], cols) >= batch_count(s.children@[0], cols)
            &&& forall|i: int|
                0 <= i < batch_count(d, cols) ==> (
                #[trigger] cols[s.validity_decoder.column_index as int]@[i]) is Booleans
        },
    }
}

/// Whether no row of bytes is missing.
pub open spec fn none_missing<T>(units: Seq<Unit<T>>) -> bool {
    forall|i: int|
        0 <= i < units.len() ==> ((#[trigger] units[i]) matches Unit::Binary(rows)
            ==> vector::all_there(rows@))
}

/// Whether all rows of bytes that should be vectors have the right length.
pub open spec fn vectors_fit<T>(d: LogicalColDecoder, cols: Seq<Vec<Unit<T>>>) -> bool
    decreases d,
{
    match d {
        LogicalColDecoder::Primitive(_) => true,
        LogicalColDecoder::Vector(v) => forall|i: int|
            0 <= i < cols[v.inner.column_index as int]@.len() ==> unit_fits(
                #[trigger] cols[v.inner.column_index as int]@[i],
                v.dim as nat,
            ),
        LogicalColDecoder::List(l) => vectors_fit(*l.values_decoder, cols),
        LogicalColDecoder::Struct(s) => forall|j: int|
            0 <= j < s.children@.len() ==> vectors_fit(#[trigger] s.children@[j], cols),
    }
}

/// Whether rows of bytes are as long as vectors of `dim` components.
pub open spec fn unit_fits<T>(u: Unit<T>, dim: nat) -> bool {
    u matches Unit::Binary(rows) ==> vector::all_sized(vector::byte_rows(rows@), dim)
}

/// Whether `a` is batch `i` of a column.
pub open spec fn is_batch<T>(
    d: LogicalColDecoder,
    cols: Seq<Vec<Unit<T>>>,
    i: int,
    a: Array<T>,
) -> bool
    decreases d,
{
    match d {
        LogicalColDecoder::Primitive(p) => a == Array::Flat(cols[p.column_index as int]@[i]),
        LogicalColDecoder::Vector(v) => match cols[v.inner.column_index as int]@[i] {
            Unit::Binary(rows) => a matches Array::Vectors(vectors) && vector::vector_rows(vectors@)
                == vector::rows_of_bytes(vector::byte_rows(rows@)),
            u => a == Array::Flat(u),
        },
        LogicalColDecoder::List(l) => {
            &&& a matches Array::List { offsets, values, nulls }
            &&& cols[l.validity_offsets_decoder.column_index as int]@[i] == (Unit::Lists::<T> {
                offsets,
                nulls,
            })
            &&& is_batch(*l.values_decoder, cols, i, *values)
        },
        LogicalColDecoder::Struct(s) => {
            &&& a matches Array::Struct { children, nulls }
            &&& cols[s.validity_decoder.column_index as int]@[i] matches Unit::Booleans(valid)
            &&& is_validity(valid@, nulls)
            &&& children@.len() == s.children@.len()
            &&& forall|j: int|
                0 <= j < s.children@.len() ==> is_batch(
                    #[trigger] s.children@[j],
                    cols,
                    i,
                    children@[j],
                )
        },
    }
}

/// Whether `nulls` says which structs are there: those that `valid` says. It says
/// nothing of no structs.
pub open spec fn is_validity(valid: Seq<bool>, nulls: Option<Vec<bool>>) -> bool {
    match nulls {
        None => valid.len() == 0,
        Some(v) => valid.len() > 0 && v@ == valid,
    }
}

/// Which structs are there: those that `valid` says, and nothing if there are none.
pub fn struct_nulls(valid: Vec<bool>) -> (r: Option<Vec<bool>>)
    ensures
        is_validity(valid@, r),
{
    if valid.len() == 0 {
        None
    } else {
        Some(valid)
    }
}

/// Pairs the rows of structs with which structs are there, as far as there are both.
pub fn pair_structs<T>(validity: Vec<Vec<bool>>, values: Vec<T>) -> (r: Vec<(Option<Vec<bool>>, T)>)
    ensures
        r@.len() == lesser(validity@.len(), values@.len()),
        forall|i: int|
            0 <= i < r@.len() ==> is_validity(validity@[i]@, (#[trigger] r@[i]).0) && r@[i].1
                == values@[i],
{
    let ghost valid = validity@;
    let ghost all = values@;
    let mut validity = validity;
    let mut out: Vec<(Option<Vec<bool>>, T)> = Vec::new();
    let mut i: usize = 0;
    for value in it: values
        invariant
            it.seq() == all,
            validity@.len() == valid.len(),
            i == lesser(it.index() as nat, valid.len()),
            forall|k: int| i <= k < valid.len() ==> #[trigger] validity@[k] == valid[k],
            out@.len() == i,
            forall|k: int|
                0 <= k < i ==> is_validity(valid[k]@, (#[trigger] out@[k]).0) && out@[k].1
                    == all[k],
    {
        if i < validity.len() {
            let mut mask: Vec<bool> = Vec::new();
            validity.set_and_swap(i, &mut mask);
            out.push((struct_nulls(mask), value));
            i = i + 1;
        }
    }
    out
}

/// Whether two rows of physical columns are the same in the columns that are read.
pub open spec fn agree<T>(
    d: LogicalColDecoder,
    a: Seq<Vec<Unit<T>>>,
    b: Seq<Vec<Unit<T>>>,
) -> bool {
    forall|c: u32| #[trigger]
        decoder::columns_read(d).contains(c) ==> a[c as int] == b[c as int]
}

proof fn part_of_all(ds: Seq<LogicalColDecoder>, j: int, c: u32)
    requires
        0 <= j < ds.len(),
        decoder::columns_read(ds[j]).contains(c),
    ensures
        decoder::all_columns_read(ds).contains(c),
    decreases ds.len(),
{
    let front = decoder::all_columns_read(ds.drop_last());
    let last = decoder::columns_read(ds.last());
    if j == ds.len() - 1 {
        let p = choose|p: int| 0 <= p < last.len() && last[p] == c;
        assert((front + last)[front.len() + p] == c);
    } else {
        part_of_all(ds.drop_last(), j, c);
        let p = choose|p: int| 0 <= p < front.len() && front[p] == c;
        assert((front + last)[p] == c);
    }
}

/// What a column is depends on the physical columns that are read alone.
proof fn agreeing_columns<T>(d: LogicalColDecoder, a: Seq<Vec<Unit<T>>>, b: Seq<Vec<Unit<T>>>)
    requires
        agree(d, a, b),
    ensures
        batch_count(d, a) == batch_count(d, b),
        readable(d, a) == readable(d, b),
        vectors_fit(d, a) == vectors_fit(d, b),
        forall|i: int, x: Array<T>| is_batch(d, a, i, x) == is_batch(d, b, i, x),
    decreases d,
{
    match d {
        LogicalColDecoder::Primitive(p) => {
            assert(decoder::columns_read(d)[0] == p.column_index);
            assert(decoder::columns_read(d).contains(p.column_index));
        },
        LogicalColDecoder::Vector(v) => {
            assert(decoder::columns_read(d)[0] == v.inner.column_index);
            assert(decoder::columns_read(d).contains(v.inner.column_index));
        },
        LogicalColDecoder::List(l) => {
            let inner = decoder::columns_read(*l.values_decoder);
            let all = decoder::columns_read(d);
            assert(all[0] == l.validity_offsets_decoder.column_index);
            assert(all.contains(l.validity_offsets_decoder.column_index));
            assert forall|c: u32| #[trigger] inner.contains(c) implies a[c as int] == b[c as int] by {
                let p = choose|p: int| 0 <= p < inner.len() && inner[p] == c;
                assert(all[1 + p] == c);
                assert(all.contains(c));
            }
            agreeing_columns(*l.values_decoder, a, b);
            assert forall|i: int, x: Array<T>| is_batch(d, a, i, x) == is_batch(d, b, i, x) by {
                if let Array::List { offsets, values, nulls } = x {
                    assert(is_batch(*l.values_decoder, a, i, *values) == is_batch(
                        *l.values_decoder,
                        b,
                        i,
                        *values,
                    ));
                }
            }
        },
        LogicalColDecoder::Struct(s) => {
            let inner = decoder::all_columns_read(s.children@);
            let all = decoder::columns_read(d);
            assert(all[0] == s.validity_decoder.column_index);
            assert(all.contains(s.validity_decoder.column_index));
            assert forall|j: int| 0 <= j < s.children@.len() implies batch_count(
                #[trigger] s.children@[j],
                a,
            ) == batch_count(s.children@[j], b) && readable(s.children@[j], a) == readable(
                s.children@[j],
                b,
            ) && vectors_fit(s.children@[j], a) == vectors_fit(s.children@[j], b) && (forall|
                i: int,
                x: Array<T>,
            |
                is_batch(s.children@[j], a, i, x) == is_batch(s.children@[j], b, i, x)) by {
                let child = s.children@[j];
                assert forall|c: u32| #[trigger]
                    decoder::columns_read(child).contains(c) implies a[c as int] == b[c as int] by {
                    part_of_all(s.children@, j, c);
                    let p = choose|p: int| 0 <= p < inner.len() && inner[p] == c;
                    assert(all[1 + p] == c);
                assert(all.contains(c));
                }
                agreeing_columns(child, a, b);
            }
            assert forall|i: int, x: Array<T>| is_batch(d, a, i, x) == is_batch(d, b, i, x) by {
                if let Array::Struct { children, nulls } = x {
                    let n = s.children@.len();
                    if is_batch(d, a, i, x) {
                        assert forall|j: int| 0 <= j < n implies is_batch(
                            #[trigger] s.children@[j],
                            b,
                            i,
                            children@[j],
                        ) by {
                            assert(is_batch(s.children@[j], a, i, children@[j]));
                        }
                    }
                    if is_batch(d, b, i, x) {
                        assert forall|j: int| 0 <= j < n implies is_batch(
                            #[trigger] s.children@[j],
                            a,
                            i,
                            children@[j],
                        ) by {
                            assert(is_batch(s.children@[j], b, i, children@[j]));
                        }
                    }
                }
            }
        },
    }
}

/// Whether all numbers are below `n`.
pub open spec fn all_below(numbers: Seq<u32>, n: nat) -> bool {
    forall|i: int| 0 <= i < numbers.len() ==> #[trigger] numbers[i] < n
}

/// Whether columns are the same but for some.
pub open spec fn same_but<T>(
    a: Seq<Vec<Unit<T>>>,
    b: Seq<Vec<Unit<T>>>,
    numbers: Seq<u32>,
) -> bool {
    &&& a.len() == b.len()
    &&& forall|c: int|
        0 <= c < a.len() && !(c <= u32::MAX && numbers.contains(c as u32)) ==> #[trigger] a[c]
            == b[c]
}

/// Takes a physical column out.
fn take_column<T>(columns: &mut Vec<Vec<Unit<T>>>, c: u32) -> (r: Vec<Unit<T>>)
    requires
        c < old(columns)@.len(),
    ensures
        r == old(columns)@[c as int],
        same_but(final(columns)@, old(columns)@, seq![c]),
{
    let mut column: Vec<Unit<T>> = Vec::new();
    columns.set_and_swap(c as usize, &mut column);
    proof {
        assert(seq![c].contains(c)) by {
            assert(seq![c][0] == c);
        }
    }
    column
}

/// Turns rows of bytes into vectors, and leaves other rows as they are.
fn as_vectors<T>(units: Vec<Unit<T>>, dim: usize, nullable: bool) -> (r: Result<
    Vec<Array<T>>,
    InvalidVectorLength,
>)
    requires
        nullable || none_missing(units@),
    ensures
        r is Ok <==> forall|i: int|
            0 <= i < units@.len() ==> unit_fits(#[trigger] units@[i], dim as nat),
        r matches Ok(v) ==> v@.len() == units@.len() && forall|i: int|
            0 <= i < v@.len() ==> match units@[i] {
                Unit::Binary(rows) => (#[trigger] v@[i]) matches Array::Vectors(vectors)
                    && vector::vector_rows(vectors@) == vector::rows_of_bytes(
                    vector::byte_rows(rows@),
                ),
                u => v@[i] == Array::Flat(u),
            },
{
    let ghost all = units@;
    let mut out: Vec<Array<T>> = Vec::new();
    for unit in it: units
        invariant
            it.seq() == all,
            all == units@,
            nullable || none_missing(all),
            out@.len() == it.index(),
            forall|i: int|
                0 <= i < it.index() ==> unit_fits(#[trigger] all[i], dim as nat),
            forall|i: int|
                0 <= i < out@.len() ==> match all[i] {
                    Unit::Binary(rows) => (#[trigger] out@[i]) matches Array::Vectors(vectors)
                        && vector::vector_rows(vectors@) == vector::rows_of_bytes(
                        vector::byte_rows(rows@),
                    ),
                    u => out@[i] == Array::Flat(u),
                },
    {
        match unit {
            Unit::Binary(rows) => match binary_to_vector(&rows, dim, nullable) {
                Err(e) => {
                    assert(!unit_fits(units@[it.index() as int], dim as nat));
                    return Err(e);
                },
                Ok(vectors) => {
                    out.push(Array::Vectors(vectors));
                },
            },
            other => {
                out.push(Array::Flat(other));
            },
        }
    }
    Ok(out)
}

/// Puts lists together: the items of batch `i` of the lists are batch `i` of
/// `values`.
fn as_lists<T>(units: Vec<Unit<T>>, values: Vec<Array<T>>) -> (r: Vec<Array<T>>)
    requires
        forall|i: int|
            0 <= i < lesser(units@.len(), values@.len()) ==> (#[trigger] units@[i]) is Lists,
    ensures
        r@.len() == lesser(units@.len(), values@.len()),
        forall|i: int|
            0 <= i < r@.len() ==> ((#[trigger] r@[i]) matches Array::List {
                offsets,
                values: items,
                nulls,
            } && units@[i] == (Unit::Lists::<T> { offsets, nulls }) && *items == values@[i]),
{
    let ghost lists = units@;
    let ghost all = values@;
    let mut units = units;
    let mut out: Vec<Array<T>> = Vec::new();
    let mut i: usize = 0;
    for value in it: values
        invariant
            it.seq() == all,
            units@.len() == lists.len(),
            i == lesser(it.index() as nat, lists.len()),
            forall|k: int|
                0 <= k < lesser(lists.len(), all.len()) ==> (#[trigger] lists[k]) is Lists,
            forall|k: int| i <= k < lists.len() ==> #[trigger] units@[k] == lists[k],
            out@.len() == i,
            forall|k: int|
                0 <= k < i ==> ((#[trigger] out@[k]) matches Array::List {
                    offsets,
                    values: items,
                    nulls,
                } && lists[k] == (Unit::Lists::<T> { offsets, nulls }) && *items == all[k]),
    {
        if i < units.len() {
            let mut unit: Unit<T> = Unit::Booleans(Vec::new());
            units.set_and_swap(i, &mut unit);
            assert(unit == lists[i as int]);
            if let Unit::Lists { offsets, nulls } = unit {
                out.push(Array::List { offsets, values: Box::new(value), nulls });
            }
            i = i + 1;
        }
    }
    out
}

/// Puts structs together: the fields of batch `i` of the structs are `rows[i]`.
fn as_structs<T>(units: Vec<Unit<T>>, rows: Vec<Vec<Array<T>>>) -> (r: Vec<Array<T>>)
    requires
        forall|i: int|
            0 <= i < lesser(units@.len(), rows@.len()) ==> (#[trigger] units@[i]) is Booleans,
    ensures
        r@.len() == lesser(units@.len(), rows@.len()),
        forall|i: int|
            0 <= i < r@.len() ==> ((#[trigger] r@[i]) matches Array::Struct { children, nulls }
                && units@[i] matches Unit::Booleans(valid) && is_validity(valid@, nulls)
                && children == rows@[i]),
{
    let ghost masks = units@;
    let ghost all = rows@;
    let mut units = units;
    let mut out: Vec<Array<T>> = Vec::new();
    let mut i: usize = 0;
    for children in it: rows
        invariant
            it.seq() == all,
            units@.len() == masks.len(),
            i == lesser(it.index() as nat, masks.len()),
            forall|k: int|
                0 <= k < lesser(masks.len(), all.len()) ==> (#[trigger] masks[k]) is Booleans,
            forall|k: int| i <= k < masks.len() ==> #[trigger] units@[k] == masks[k],
            out@.len() == i,
            forall|k: int|
                0 <= k < i ==> ((#[trigger] out@[k]) matches Array::Struct { children, nulls }
                    && masks[k] matches Unit::Booleans(valid) && is_validity(valid@, nulls)
                    && children == all[k]),
    {
        if i < units.len() {
            let mut unit: Unit<T> = Unit::Booleans(Vec::new());
            units.set_and_swap(i, &mut unit);
            assert(unit == masks[i as int]);
            if let Unit::Booleans(valid) = unit {
                out.push(Array::Struct { children, nulls: struct_nulls(valid) });
            }
            i = i + 1;
        }
    }
    out
}

/// Leaves rows as they are.
fn as_they_are<T>(units: Vec<Unit<T>>) -> (r: Vec<Array<T>>)
    ensures
        r@.len() == units@.len(),
        forall|i: int| 0 <= i < r@.len() ==> #[trigger] r@[i] == Array::Flat(units@[i]),
{
    let ghost all = units@;
    let mut out: Vec<Array<T>> = Vec::new();
    for unit in it: units
        invariant
            it.seq() == all,
            out@.len() == it.index(),
            forall|i: int| 0 <= i < out@.len() ==> #[trigger] out@[i] == Array::Flat(all[i]),
    {
        out.push(Array::Flat(unit));
    }
    out
}

/// The physical columns of the first `j` columns are the first of those of all.
proof fn columns_of_front(ds: Seq<LogicalColDecoder>, j: int)
    requires
        0 <= j <= ds.len(),
    ensures
        decoder::all_columns_read(ds.take(j)).len() <= decoder::all_columns_read(ds).len(),
        forall|p: int|
            0 <= p < decoder::all_columns_read(ds.take(j)).len()
                ==> #[trigger] decoder::all_columns_read(ds)[p] == decoder::all_columns_read(
                ds.take(j),
            )[p],
    decreases ds.len(),
{
    if j == ds.len() {
        assert(ds.take(j) =~= ds);
    } else {
        columns_of_front(ds.drop_last(), j);
        assert(ds.drop_last().take(j) =~= ds.take(j));
    }
}

/// No physical column is read for two columns.
proof fn columns_are_apart(ds: Seq<LogicalColDecoder>, j: int, n: nat)
    requires
        0 <= j < ds.len(),
        decoder::all_columns_read(ds).no_duplicates(),
        all_below(decoder::all_columns_read(ds), n),
    ensures
        decoder::columns_read(ds[j]).no_duplicates(),
        all_below(decoder::columns_read(ds[j]), n),
        forall|c: u32| #[trigger]
            decoder::columns_read(ds[j]).contains(c) ==> !decoder::all_columns_read(
                ds.take(j),
            ).contains(c),
{
    let all = decoder::all_columns_read(ds);
    let front = decoder::all_columns_read(ds.take(j));
    let own = decoder::columns_read(ds[j]);
    columns_of_front(ds, j + 1);
    let upto = decoder::all_columns_read(ds.take(j + 1));
    assert(ds.take(j + 1).drop_last() =~= ds.take(j));
    assert(ds.take(j + 1).last() == ds[j]);
    assert(upto == front + own);
    assert forall|p: int| 0 <= p < own.len() implies own[p] == #[trigger] all[front.len() + p] by {
        assert(upto[front.len() + p] == own[p]);
    }
    assert forall|p: int| 0 <= p < own.len() implies #[trigger] own[p] < n by {
        assert(all[front.len() + p] == own[p]);
    }
    assert forall|p: int, q: int| 0 <= p < own.len() && 0 <= q < own.len() && p != q implies own[p]
        != own[q] by {
        assert(all[front.len() + p] == own[p]);
        assert(all[front.len() + q] == own[q]);
    }
    assert forall|c: u32| #[trigger] own.contains(c) implies !front.contains(c) by {
        let p = choose|p: int| 0 <= p < own.len() && own[p] == c;
        if front.contains(c) {
            let q = choose|q: int| 0 <= q < front.len() && front[q] == c;
            assert(upto[q] == front[q]);
            assert(all[q] == upto[q]);
            assert(all[front.len() + p] == own[p]);
        }
    }
}

/// The vectors of each field of structs fit if those of the structs do.
proof fn fields_fit<T>(s: decoder::StructColDecoder, cols: Seq<Vec<Unit<T>>>, j: int)
    requires
        0 <= j < s.children@.len(),
        vectors_fit(LogicalColDecoder::Struct(s), cols),
    ensures
        vectors_fit(s.children@[j], cols),
{
    let d = LogicalColDecoder::Struct(s);
    assert(d->Struct_0 == s);
    assert(forall|k: int|
        0 <= k < s.children@.len() ==> vectors_fit(#[trigger] s.children@[k], cols));
}

/// Takes the physical columns of a column out, and puts them together.
fn take_batches<T>(d: &LogicalColDecoder, columns: &mut Vec<Vec<Unit<T>>>) -> (r: Result<
    Vec<Array<T>>,
    InvalidVectorLength,
>)
    requires
        readable(*d, old(columns)@),
        decoder::columns_read(*d).no_duplicates(),
        all_below(decoder::columns_read(*d), old(columns)@.len()),
    ensures
        r is Ok <==> vectors_fit(*d, old(columns)@),
        r is Ok ==> same_but(final(columns)@, old(columns)@, decoder::columns_read(*d)),
        r matches Ok(v) ==> v@.len() == batch_count(*d, old(columns)@) && forall|i: int|
            0 <= i < v@.len() ==> is_batch(*d, old(columns)@, i, #[trigger] v@[i]),
    decreases d,
{
    let ghost cols = columns@;
    let ghost read = decoder::columns_read(*d);
    match d {
        LogicalColDecoder::Primitive(p) => {
            assert(read[0] == p.column_index);
            let units = take_column(columns, p.column_index);
            Ok(as_they_are(units))
        },
        LogicalColDecoder::Vector(v) => {
            assert(read[0] == v.inner.column_index);
            let units = take_column(columns, v.inner.column_index);
            as_vectors(units, v.dim as usize, v.nullable)
        },
        LogicalColDecoder::List(l) => {
            let ghost inner = decoder::columns_read(*l.values_decoder);
            let c: u32 = l.validity_offsets_decoder.column_index;
            assert(read[0] == c);
            let units = take_column(columns, c);
            let ghost rest = columns@;
            proof {
                assert forall|p: int| 0 <= p < inner.len() implies inner[p] == #[trigger] read[1
                    + p] by {}
                assert forall|p: int| 0 <= p < inner.len() implies #[trigger] inner[p]
                    < cols.len() by {
                    assert(read[1 + p] == inner[p]);
                }
                assert forall|p: int, q: int|
                    0 <= p < inner.len() && 0 <= q < inner.len() && p != q implies inner[p]
                    != inner[q] by {
                    assert(read[1 + p] == inner[p]);
                    assert(read[1 + q] == inner[q]);
                }
                assert forall|x: u32| #[trigger] inner.contains(x) implies cols[x as int]
                    == rest[x as int] by {
                    let p = choose|p: int| 0 <= p < inner.len() && inner[p] == x;
                    assert(read[1 + p] == x);
                    assert(x != c);
                    assert(inner[p] < cols.len());
                }
                agreeing_columns(*l.values_decoder, cols, rest);
            }
            let values = match take_batches(&l.values_decoder, columns) {
                Err(e) => {
                    return Err(e);
                },
                Ok(v) => v,
            };
            proof {
                assert forall|x: int|
                    0 <= x < cols.len() && !(x <= u32::MAX && read.contains(
                        x as u32,
                    )) implies #[trigger] columns@[x] == cols[x] by {
                    if x <= u32::MAX && inner.contains(x as u32) {
                        let p = choose|p: int| 0 <= p < inner.len() && inner[p] == x as u32;
                        assert(read[1 + p] == x as u32);
                    }
                    if x <= u32::MAX && seq![c].contains(x as u32) {
                        assert(read[0] == x as u32);
                    }
                    assert(rest[x] == cols[x]);
                }
            }
            Ok(as_lists(units, values))
        },
        LogicalColDecoder::Struct(s) => {
            let ghost inner = decoder::all_columns_read(s.children@);
            let c: u32 = s.validity_decoder.column_index;
            assert(read[0] == c);
            let units = take_column(columns, c);
            proof {
                assert forall|p: int| 0 <= p < inner.len() implies inner[p] == #[trigger] read[1
                    + p] by {}
                assert forall|p: int| 0 <= p < inner.len() implies #[trigger] inner[p]
                    < cols.len() by {
                    assert(read[1 + p] == inner[p]);
                }
                assert forall|p: int, q: int|
                    0 <= p < inner.len() && 0 <= q < inner.len() && p != q implies inner[p]
                    != inner[q] by {
                    assert(read[1 + p] == inner[p]);
                    assert(read[1 + q] == inner[q]);
                }
                assert(s.children@.take(0) =~= Seq::empty());
            }
            let mut all: Vec<Vec<Array<T>>> = Vec::new();
            let mut j: usize = 0;
            while j < s.children.len()
                invariant
                    j <= s.children@.len(),
                    decreases_to!(d => s.children@),
                    *d == LogicalColDecoder::Struct(*s),
                    cols == old(columns)@,
                    s.children@.len() > 0,
                    read == seq![c] + inner,
                    read.no_duplicates(),
                    inner == decoder::all_columns_read(s.children@),
                    inner.no_duplicates(),
                    all_below(inner, cols.len()),
                    forall|k: int|
                        0 <= k < s.children@.len() ==> readable(#[trigger] s.children@[k], cols),
                    columns@.len() == cols.len(),
                    forall|x: int|
                        0 <= x < cols.len() && x != c && !(x <= u32::MAX
                            && decoder::all_columns_read(s.children@.take(j as int)).contains(
                            x as u32,
                        )) ==> #[trigger] columns@[x] == cols[x],
                    all@.len() == j,
                    forall|k: int|
                        0 <= k < j ==> vectors_fit(#[trigger] s.children@[k], cols) && all@[k]@.len()
                            == batch_count(s.children@[k], cols),
                    forall|k: int, i: int|
                        0 <= k < j && 0 <= i < all@[k]@.len() ==> is_batch(
                            s.children@[k],
                            cols,
                            i,
                            #[trigger] all@[k]@[i],
                        ),
                decreases s.children@.len() - j,
            {
                let ghost now = columns@;
                let ghost front = decoder::all_columns_read(s.children@.take(j as int));
                let ghost own = decoder::columns_read(s.children@[j as int]);
                proof {
                    columns_are_apart(s.children@, j as int, cols.len());
                    assert forall|x: u32| #[trigger] own.contains(x) implies cols[x as int]
                        == now[x as int] by {
                        part_of_all(s.children@, j as int, x);
                        let p = choose|p: int| 0 <= p < inner.len() && inner[p] == x;
                        assert(read[1 + p] == x);
                        assert(read[0] == c);
                        assert(x != c);
                        assert(inner[p] < cols.len());
                    }
                    agreeing_columns(s.children@[j as int], cols, now);
                }
                match take_batches(&s.children[j], columns) {
                    Err(e) => {
                        assert(!vectors_fit(s.children@[j as int], cols));
                        proof {
                            if vectors_fit(*d, cols) {
                                fields_fit(*s, cols, j as int);
                            }
                        }
                        return Err(e);
                    },
                    Ok(v) => {
                        all.push(v);
                    },
                }
                proof {
                    let next = s.children@.take(j + 1);
                    assert(next.drop_last() =~= s.children@.take(j as int));
                    assert(next.last() == s.children@[j as int]);
                    let upto = decoder::all_columns_read(next);
                    assert(upto == front + own);
                    assert forall|x: int|
                        0 <= x < cols.len() && x != c && !(x <= u32::MAX && upto.contains(
                            x as u32,
                        )) implies #[trigger] columns@[x] == cols[x] by {
                        if x <= u32::MAX && own.contains(x as u32) {
                            let p = choose|p: int| 0 <= p < own.len() && own[p] == x as u32;
                            assert(upto[front.len() + p] == x as u32);
                        }
                        if x <= u32::MAX && front.contains(x as u32) {
                            let p = choose|p: int| 0 <= p < front.len() && front[p] == x as u32;
                            assert(upto[p] == x as u32);
                        }
                        assert(now[x] == cols[x]);
                    }
                }
                j = j + 1;
            }
            proof {
                assert(s.children@.take(j as int) =~= s.children@);
                assert forall|x: int|
                    0 <= x < cols.len() && !(x <= u32::MAX && read.contains(
                        x as u32,
                    )) implies #[trigger] columns@[x] == cols[x] by {
                    if x == c {
                        assert(read[0] == x as u32);
                    }
                    if x <= u32::MAX && inner.contains(x as u32) {
                        let p = choose|p: int| 0 <= p < inner.len() && inner[p] == x as u32;
                        assert(read[1 + p] == x as u32);
                    }
                }
                assert forall|k: int| 0 <= k < all@.len() implies (#[trigger] all@[k])@.len()
                    >= all@[0]@.len() by {
                    assert(vectors_fit(s.children@[k], cols));
                    assert(vectors_fit(s.children@[0], cols));
                }
            }
            let ghost taken = all@;
            let rows = transpose(all);
            assert(batch_count(s.children@[0], cols) == taken[0]@.len()) by {
                assert(vectors_fit(s.children@[0], cols));
            }
            let out = as_structs(units, rows);
            proof {
                assert forall|i: int| 0 <= i < out@.len() implies is_batch(
                    *d,
                    cols,
                    i,
                    #[trigger] out@[i],
                ) by {
                    assert forall|k: int| 0 <= k < s.children@.len() implies is_batch(
                        #[trigger] s.children@[k],
                        cols,
                        i,
                        rows@[i]@[k],
                    ) by {
                        assert(vectors_fit(s.children@[k], cols));
                        assert(rows@[i]@[k] == taken[k]@[i]);
                        assert(is_batch(s.children@[k], cols, i, taken[k]@[i]));
                    }
                }
            }
            Ok(out)
        },
    }
}

impl LogicalColDecoder {
    /// Puts a column together from physical columns, batch by batch. `columns` are
    /// the physical columns of a row group.
    pub fn decode_batch<T>(&self, columns: Vec<Vec<Unit<T>>>) -> (r: Result<
        Vec<Array<T>>,
        InvalidVectorLength,
    >)
        requires
            readable(*self, columns@),
            decoder::columns_read(*self).no_duplicates(),
            all_below(decoder::columns_read(*self), columns@.len()),
        ensures
            r is Ok <==> vectors_fit(*self, columns@),
            r matches Ok(v) ==> v@.len() == batch_count(*self, columns@) && forall|i: int|
                0 <= i < v@.len() ==> is_batch(*self, columns@, i, #[trigger] v@[i]),
    {
        let mut left = columns;
        take_batches(self, &mut left)
    }
}

/// Whether `row` is batch `i` of all columns.
pub open spec fn is_row_of_batches<T>(
    ds: Seq<LogicalColDecoder>,
    cols: Seq<Vec<Unit<T>>>,
    i: int,
    row: Seq<Array<T>>,
) -> bool {
    &&& row.len() == ds.len()
    &&& forall|j: int| 0 <= j < ds.len() ==> is_batch(#[trigger] ds[j], cols, i, row[j])
}

/// Puts the columns of a row group together from its physical columns: as many
/// batches as the first column has, each with all columns.
pub fn decode_group<T>(decoders: &Vec<LogicalColDecoder>, columns: Vec<Vec<Unit<T>>>) -> (r: Result<
    Vec<Vec<Array<T>>>,
    InvalidVectorLength,
>)
    requires
        decoders@.len() > 0,
        decoder::all_columns_read(decoders@).no_duplicates(),
        all_below(decoder::all_columns_read(decoders@), columns@.len()),
        forall|j: int|
            0 <= j < decoders@.len() ==> readable(#[trigger] decoders@[j], columns@)
                && batch_count(decoders@[j], columns@) >= batch_count(decoders@[0], columns@),
    ensures
        r is Ok <==> forall|j: int|
            0 <= j < decoders@.len() ==> vectors_fit(#[trigger] decoders@[j], columns@),
        r matches Ok(v) ==> v@.len() == batch_count(decoders@[0], columns@) && forall|i: int|
            0 <= i < v@.len() ==> is_row_of_batches(
                decoders@,
                columns@,
                i,
                (#[trigger] v@[i])@,
            ),
{
    let ghost cols = columns@;
    let ghost inner = decoder::all_columns_read(decoders@);
    let mut left = columns;
    let mut all: Vec<Vec<Array<T>>> = Vec::new();
    let mut j: usize = 0;
    assert(decoders@.take(0) =~= Seq::empty());
    while j < decoders.len()
        invariant
            j <= decoders@.len(),
            cols == columns@,
            inner == decoder::all_columns_read(decoders@),
            inner.no_duplicates(),
            all_below(inner, cols.len()),
            forall|k: int| 0 <= k < decoders@.len() ==> readable(#[trigger] decoders@[k], cols),
            left@.len() == cols.len(),
            forall|x: int|
                0 <= x < cols.len() && !(x <= u32::MAX && decoder::all_columns_read(
                    decoders@.take(j as int),
                ).contains(x as u32)) ==> #[trigger] left@[x] == cols[x],
            all@.len() == j,
            forall|k: int|
                0 <= k < j ==> vectors_fit(#[trigger] decoders@[k], cols) && all@[k]@.len()
                    == batch_count(decoders@[k], cols),
            forall|k: int, i: int|
                0 <= k < j && 0 <= i < all@[k]@.len() ==> is_batch(
                    decoders@[k],
                    cols,
                    i,
                    #[trigger] all@[k]@[i],
                ),
        decreases decoders@.len() - j,
    {
        let ghost now = left@;
        let ghost front = decoder::all_columns_read(decoders@.take(j as int));
        let ghost own = decoder::columns_read(decoders@[j as int]);
        proof {
            columns_are_apart(decoders@, j as int, cols.len());
            assert forall|x: u32| #[trigger] own.contains(x) implies cols[x as int]
                == now[x as int] by {
                let p = choose|p: int| 0 <= p < own.len() && own[p] == x;
                assert(own[p] < cols.len());
            }
            agreeing_columns(decoders@[j as int], cols, now);
        }
        match take_batches(&decoders[j], &mut left) {
            Err(e) => {
                assert(!vectors_fit(decoders@[j as int], cols));
                return Err(e);
            },
            Ok(v) => {
                all.push(v);
            },
        }
        proof {
            let next = decoders@.take(j + 1);
            assert(next.drop_last() =~= decoders@.take(j as int));
            assert(next.last() == decoders@[j as int]);
            let upto = decoder::all_columns_read(next);
            assert(upto == front + own);
            assert forall|x: int|
                0 <= x < cols.len() && !(x <= u32::MAX && upto.contains(
                    x as u32,
                )) implies #[trigger] left@[x] == cols[x] by {
                if x <= u32::MAX && own.contains(x as u32) {
                    let p = choose|p: int| 0 <= p < own.len() && own[p] == x as u32;
                    assert(upto[front.len() + p] == x as u32);
                }
                if x <= u32::MAX && front.contains(x as u32) {
                    let p = choose|p: int| 0 <= p < front.len() && front[p] == x as u32;
                    assert(upto[p] == x as u32);
                }
                assert(now[x] == cols[x]);
            }
        }
        j = j + 1;
    }
    let ghost taken = all@;
    proof {
        assert(vectors_fit(decoders@[0], cols));
        assert forall|k: int| 0 <= k < taken.len() implies (#[trigger] taken[k])@.len()
            >= taken[0]@.len() by {
            assert(vectors_fit(decoders@[k], cols));
        }
    }
    let rows = transpose(all);
    proof {
        assert forall|i: int| 0 <= i < rows@.len() implies is_row_of_batches(
            decoders@,
            cols,
            i,
            (#[trigger] rows@[i])@,
        ) by {
            assert forall|k: int| 0 <= k < decoders@.len() implies is_batch(
                #[trigger] decoders@[k],
                cols,
                i,
                rows@[i]@[k],
            ) by {
                assert(vectors_fit(decoders@[k], cols));
                assert(rows@[i]@[k] == taken[k]@[i]);
                assert(is_batch(decoders@[k], cols, i, taken[k]@[i]));
            }
        }
    }
    Ok(rows)
}

/// The physical columns of a column are among those of all columns.
proof fn below_for_each(ds: Seq<LogicalColDecoder>, j: int, n: nat)
    requires
        0 <= j < ds.len(),
        all_below(decoder::all_columns_read(ds), n),
    ensures
        all_below(decoder::columns_read(ds[j]), n),
{
    let all = decoder::all_columns_read(ds);
    let own = decoder::columns_read(ds[j]);
    assert forall|p: int| 0 <= p < own.len() implies #[trigger] own[p] < n by {
        assert(own.contains(own[p]));
        part_of_all(ds, j, own[p]);
        let q = choose|q: int| 0 <= q < all.len() && all[q] == own[p];
        assert(all[q] < n);
    }
}

/// Tells whether the first `n` units are lists.
fn first_are_lists<T>(units: &Vec<Unit<T>>, n: usize) -> (r: bool)
    requires
        n <= units@.len(),
    ensures
        r == forall|i: int| 0 <= i < n ==> (#[trigger] units@[i]) is Lists,
{
    let mut i: usize = 0;
    while i < n
        invariant
            i <= n,
            n <= units@.len(),
            forall|k: int| 0 <= k < i ==> (#[trigger] units@[k]) is Lists,
        decreases n - i,
    {
        if !matches!(units[i], Unit::Lists { .. }) {
            assert(!(units@[i as int] is Lists));
            return false;
        }
        i = i + 1;
    }
    true
}

/// Tells whether the first `n` units are truth values.
fn first_are_booleans<T>(units: &Vec<Unit<T>>, n: usize) -> (r: bool)
    requires
        n <= units@.len(),
    ensures
        r == forall|i: int| 0 <= i < n ==> (#[trigger] units@[i]) is Booleans,
{
    let mut i: usize = 0;
    while i < n
        invariant
            i <= n,
            n <= units@.len(),
            forall|k: int| 0 <= k < i ==> (#[trigger] units@[k]) is Booleans,
        decreases n - i,
    {
        if !matches!(units[i], Unit::Booleans(_)) {
            assert(!(units@[i as int] is Booleans));
            return false;
        }
        i = i + 1;
    }
    true
}

/// Tells whether no row of bytes is missing.
fn is_none_missing<T>(units: &Vec<Unit<T>>) -> (r: bool)
    ensures
        r == none_missing(units@),
{
    let mut i: usize = 0;
    while i < units.len()
        invariant
            i <= units@.len(),
            forall|k: int|
                0 <= k < i ==> ((#[trigger] units@[k]) matches Unit::Binary(rows)
                    ==> vector::all_there(rows@)),
        decreases units@.len() - i,
    {
        if let Unit::Binary(rows) = &units[i] {
            if !are_all_there(rows) {
                return false;
            }
        }
        i = i + 1;
    }
    true
}

/// Counts the batches of rows of a column; nothing if a physical column has not the
/// rows that the column is made of.
pub fn count_batches<T>(d: &LogicalColDecoder, columns: &Vec<Vec<Unit<T>>>) -> (r: Option<usize>)
    requires
        all_below(decoder::columns_read(*d), columns@.len()),
    ensures
        r is Some <==> readable(*d, columns@),
        r matches Some(n) ==> n == batch_count(*d, columns@),
    decreases d,
{
    let ghost read = decoder::columns_read(*d);
    let ghost cols = columns@;
    match d {
        LogicalColDecoder::Primitive(p) => {
            assert(read[0] == p.column_index);
            Some(columns[p.column_index as usize].len())
        },
        LogicalColDecoder::Vector(v) => {
            assert(read[0] == v.inner.column_index);
            let units = &columns[v.inner.column_index as usize];
            if v.dim >= 0 && (v.nullable || is_none_missing(units)) {
                Some(units.len())
            } else {
                None
            }
        },
        LogicalColDecoder::List(l) => {
            let c: u32 = l.validity_offsets_decoder.column_index;
            proof {
                assert(read[0] == c);
                let inner = decoder::columns_read(*l.values_decoder);
                assert forall|p: int| 0 <= p < inner.len() implies #[trigger] inner[p]
                    < cols.len() by {
                    assert(read[1 + p] == inner[p]);
                }
            }
            let values: usize = match count_batches(&l.values_decoder, columns) {
                None => {
                    return None;
                },
                Some(n) => n,
            };
            let lists = &columns[c as usize];
            let n: usize = if lists.len() < values { lists.len() } else { values };
            assert(n == batch_count(*d, cols));
            if !first_are_lists(lists, n) {
                return None;
            }
            Some(n)
        },
        LogicalColDecoder::Struct(s) => {
            let c: u32 = s.validity_decoder.column_index;
            proof {
                assert(read[0] == c);
                let inner = decoder::all_columns_read(s.children@);
                assert forall|p: int| 0 <= p < inner.len() implies #[trigger] inner[p]
                    < cols.len() by {
                    assert(read[1 + p] == inner[p]);
                }
            }
            let first: usize = match count_all_batches(&s.children, columns) {
                None => {
                    return None;
                },
                Some(n) => n,
            };
            let valid = &columns[c as usize];
            let n: usize = if valid.len() < first { valid.len() } else { first };
            assert(n == batch_count(*d, cols));
            if !first_are_booleans(valid, n) {
                return None;
            }
            Some(n)
        },
    }
}

/// Whether there are columns, each physical column has the rows that they are made of,
/// and no column has fewer batches than the first.
pub open spec fn all_readable<T>(ds: Seq<LogicalColDecoder>, cols: Seq<Vec<Unit<T>>>) -> bool {
    &&& ds.len() > 0
    &&& forall|j: int|
        0 <= j < ds.len() ==> readable(#[trigger] ds[j], cols) && batch_count(ds[j], cols)
            >= batch_count(ds[0], cols)
}

/// Counts the batches of rows of the first column; nothing if not all columns can be
/// put together in so many.
pub fn count_all_batches<T>(decoders: &Vec<LogicalColDecoder>, columns: &Vec<Vec<Unit<T>>>) -> (r:
    Option<usize>)
    requires
        all_below(decoder::all_columns_read(decoders@), columns@.len()),
    ensures
        r is Some <==> all_readable(decoders@, columns@),
        r matches Some(n) ==> n == batch_count(decoders@[0], columns@),
    decreases decoders,
{
    if decoders.len() == 0 {
        return None;
    }
    let mut first: usize = 0;
    let mut j: usize = 0;
    while j < decoders.len()
        invariant
            j <= decoders@.len(),
            decoders@.len() > 0,
            all_below(decoder::all_columns_read(decoders@), columns@.len()),
            j > 0 ==> first == batch_count(decoders@[0], columns@),
            forall|k: int|
                0 <= k < j ==> readable(#[trigger] decoders@[k], columns@) && batch_count(
                    decoders@[k],
                    columns@,
                ) >= batch_count(decoders@[0], columns@),
        decreases decoders@.len() - j,
    {
        proof {
            below_for_each(decoders@, j as int, columns@.len());
        }
        match count_batches(&decoders[j], columns) {
            None => {
                assert(!readable(decoders@[j as int], columns@));
                return None;
            },
            Some(n) => {
                if j == 0 {
                    first = n;
                } else if n < first {
                    assert(batch_count(decoders@[j as int], columns@) < first);
                    return None;
                }
            },
        }
        j = j + 1;
    }
    Some(first)
}

/// Why the columns of a row group cannot be put together.
#[derive(Clone, Copy, Debug, PartialEq, Eq, Structural)]
pub enum GroupError {
    /// A physical column has not the rows that its column is made of.
    NotReadable,
    /// A row of bytes is no vector.
    InvalidVectorLength,
}

/// Puts the columns of a row group together if its physical columns have the rows that
/// they are made of.
pub fn checked_decode_group<T>(
    decoders: &Vec<LogicalColDecoder>,
    columns: Vec<Vec<Unit<T>>>,
) -> (r: Result<Vec<Vec<Array<T>>>, GroupError>)
    requires
        decoder::all_columns_read(decoders@).no_duplicates(),
        all_below(decoder::all_columns_read(decoders@), columns@.len()),
    ensures
        match r {
            Err(GroupError::NotReadable) => !all_readable(decoders@, columns@),
            Err(GroupError::InvalidVectorLength) => all_readable(decoders@, columns@) && !forall|
                j: int,
            |
                0 <= j < decoders@.len() ==> vectors_fit(#[trigger] decoders@[j], columns@),
            Ok(v) => {
                &&& all_readable(decoders@, columns@)
                &&& forall|j: int|
                    0 <= j < decoders@.len() ==> vectors_fit(#[trigger] decoders@[j], columns@)
                &&& v@.len() == batch_count(decoders@[0], columns@)
                &&& forall|i: int|
                    0 <= i < v@.len() ==> is_row_of_batches(
                        decoders@,
                        columns@,
                        i,
                        (#[trigger] v@[i])@,
                    )
            },
        },
{
    if count_all_batches(decoders, &columns).is_none() {
        return Err(GroupError::NotReadable);
    }
    match decode_group(decoders, columns) {
        Err(_) => Err(GroupError::InvalidVectorLength),
        Ok(v) => Ok(v),
    }
}

} // verus!
