//! Laws of indexes that are stored in columns, and of columns of vectors.
use crate::ivf_columns;
use crate::ivf_columns::{
    ArrayData,
    ColumnBatch,
    ColumnIndexError,
    IndexColumn,
    NamedColumn,
    ReadAllError,
    ReadFirstError,
    ScanError,
};
use crate::ivf_flat::IvfFlatIndex;
use vstd::prelude::*;

verus! {

/// A column is found by its name, and of several with one name the first.
pub proof fn first_columns_are_found(columns: Seq<NamedColumn>, name: Seq<char>, n: nat)
    requires
        n <= columns.len(),
    ensures
        match ivf_columns::column_place(columns, name, n) {
            Some(i) => 0 <= i < n && columns[i].name@ == name && forall|j: int|
                0 <= j < i ==> (#[trigger] columns[j]).name@ != name,
            None => forall|j: int| 0 <= j < n ==> (#[trigger] columns[j]).name@ != name,
        },
    decreases n,
{
    if n > 0 {
        first_columns_are_found(columns, name, (n - 1) as nat);
    }
}

/// What is found by a name are the data of the first column with it.
pub proof fn columns_are_found_by_name(batch: &ColumnBatch, name: &str, r: Option<&ArrayData>)
    requires
        call_ensures(ColumnBatch::column_by_name, (batch, name), r),
    ensures
        match r {
            Some(d) => exists|i: int|
                0 <= i < batch.columns@.len() && (#[trigger] batch.columns@[i]).name@ == name@
                    && batch.columns@[i].data == *d && forall|j: int|
                    0 <= j < i ==> (#[trigger] batch.columns@[j]).name@ != name@,
            None => forall|j: int|
                0 <= j < batch.columns@.len() ==> (#[trigger] batch.columns@[j]).name@ != name@,
        },
{
    first_columns_are_found(batch.columns@, name@, batch.columns@.len());
}

/// An index is read if there are lists, its three columns are there with their types and
/// without nulls, its vectors have components, no list starts below zero, and there are as
/// many vectors as row ids.
pub proof fn stored_indexes_are_read(b: &ColumnBatch, r: Result<IvfFlatIndex, ColumnIndexError>)
    requires
        ivf_columns::lengths_valid(*b),
        call_ensures(ivf_columns::load_ivf_flat_index_f3, (Some(b),), r),
    ensures
        ({
            let c = b.by_name("centroids"@);
            let i = b.by_name("postings_row_ids"@);
            let v = b.by_name("postings_vectors"@);
            let typed = {
                &&& c is Some && c->0 is FixedSizeList
                &&& i is Some && i->0 is List && i->0->List_values is UInt32
                &&& v is Some && v->0 is List && v->0->List_values is Float32
            };
            let whole = {
                &&& c->0->FixedSizeList_null_count == 0
                &&& i->0->List_null_count == 0
                &&& v->0->List_null_count == 0
                &&& c->0->FixedSizeList_value_length > 0
                &&& forall|x: int|
                    0 <= x < i->0->List_offsets@.len() ==> #[trigger] i->0->List_offsets@[x] >= 0
                &&& v->0->List_values->Float32_0@.len()
                    == i->0->List_values->UInt32_0@.len() * c->0->FixedSizeList_value_length
            };
            &&& r is Ok <==> b.num_rows > 0 && typed && whole
            &&& r is Ok ==> {
                let x = r->Ok_0;
                &&& x.nlist == b.num_rows
                &&& x.dim == c->0->FixedSizeList_value_length
                &&& x.centroids@ == c->0->FixedSizeList_values@
                &&& x.row_ids@ == i->0->List_values->UInt32_0@
                &&& x.vectors@ == v->0->List_values->Float32_0@
                &&& x.list_offsets@.len() == i->0->List_offsets@.len()
                &&& forall|k: int|
                    0 <= k < x.list_offsets@.len() ==> #[trigger] x.list_offsets@[k]
                        == i->0->List_offsets@[k]
            }
        }),
{
    let c = b.by_name("centroids"@);
    let i = b.by_name("postings_row_ids"@);
    let v = b.by_name("postings_vectors"@);
    if c is Some && c->0 is FixedSizeList && c->0->FixedSizeList_value_length > 0 {
        let d = c->0->FixedSizeList_value_length as int;
        let n = v->0->List_values->Float32_0@.len() as int;
        let k = i->0->List_values->UInt32_0@.len() as int;
        vstd::arithmetic::div_mod::lemma_fundamental_div_mod(n, d);
        if n == k * d {
            vstd::arithmetic::div_mod::lemma_fundamental_div_mod_converse(n, d, k, 0);
        }
        assert(n % d == 0 && n / d == k ==> n == k * d) by (nonlinear_arith)
            requires
                n == d * (n / d) + n % d,
        ;
    }
}

/// What is wrong is told in this order: that there are no lists, and then what is wrong with
/// the centroids, the row ids, and the vectors; a column that is missing is named.
pub proof fn missing_columns_are_named(b: &ColumnBatch, r: Result<IvfFlatIndex, ColumnIndexError>)
    requires
        ivf_columns::lengths_valid(*b),
        call_ensures(ivf_columns::load_ivf_flat_index_f3, (Some(b),), r),
    ensures
        r == Err::<IvfFlatIndex, ColumnIndexError>(ColumnIndexError::NoLists) <==> b.num_rows == 0,
        r == Err::<IvfFlatIndex, ColumnIndexError>(
            ColumnIndexError::Missing(IndexColumn::Centroids),
        ) <==> b.num_rows > 0 && b.by_name("centroids"@) is None,
        r == Err::<IvfFlatIndex, ColumnIndexError>(ColumnIndexError::DimZero) <==> b.num_rows > 0
            && b.by_name("centroids"@) is Some && b.by_name("centroids"@)->0 is FixedSizeList
            && b.by_name("centroids"@)->0->FixedSizeList_null_count == 0 && b.by_name(
            "centroids"@,
        )->0->FixedSizeList_value_length == 0,
        r is Err && (r->Err_0 == ColumnIndexError::Missing(IndexColumn::RowIds) || r->Err_0
            == ColumnIndexError::WrongType(IndexColumn::RowIds) || r->Err_0
            == ColumnIndexError::Nulls(IndexColumn::RowIds) || r->Err_0
            == ColumnIndexError::WrongValues(IndexColumn::RowIds) || r->Err_0
            is NegativeOffset) ==> ivf_columns::centroids_error(b.by_name("centroids"@)) is None,
        r is Err && (r->Err_0 == ColumnIndexError::Missing(IndexColumn::Vectors) || r->Err_0
            == ColumnIndexError::WrongType(IndexColumn::Vectors) || r->Err_0
            == ColumnIndexError::Nulls(IndexColumn::Vectors) || r->Err_0
            == ColumnIndexError::WrongValues(IndexColumn::Vectors))
            ==> ivf_columns::row_ids_error(b.by_name("postings_row_ids"@)) is None,
{
}

/// Without batches there is no index.
pub proof fn no_batches_no_index(r: Result<IvfFlatIndex, ColumnIndexError>)
    requires
        call_ensures(ivf_columns::load_ivf_flat_index_f3, (None,), r),
    ensures
        r is Err,
        r->Err_0 is NoBatches,
{
}

/// What a column says of its own is what it is refused for.
pub proof fn columns_are_refused(d: ArrayData)
    ensures
        ivf_columns::centroids_error(Some(d)) == Some(
            ColumnIndexError::WrongType(IndexColumn::Centroids),
        ) <==> !(d is FixedSizeList),
        ivf_columns::row_ids_error(Some(d)) == Some(
            ColumnIndexError::WrongType(IndexColumn::RowIds),
        ) <==> !(d is List),
        ivf_columns::vectors_error(Some(d)) == Some(
            ColumnIndexError::WrongType(IndexColumn::Vectors),
        ) <==> !(d is List),
        ivf_columns::centroids_error(Some(d)) == Some(
            ColumnIndexError::Nulls(IndexColumn::Centroids),
        ) <==> d is FixedSizeList && d->FixedSizeList_null_count != 0,
        ivf_columns::row_ids_error(Some(d)) == Some(ColumnIndexError::Nulls(IndexColumn::RowIds))
            <==> d is List && d->List_null_count != 0,
        ivf_columns::vectors_error(Some(d)) == Some(ColumnIndexError::Nulls(IndexColumn::Vectors))
            <==> d is List && d->List_null_count != 0,
        ivf_columns::centroids_error(None) == Some(
            ColumnIndexError::Missing(IndexColumn::Centroids),
        ),
        ivf_columns::row_ids_error(None) == Some(ColumnIndexError::Missing(IndexColumn::RowIds)),
        ivf_columns::vectors_error(None) == Some(ColumnIndexError::Missing(IndexColumn::Vectors)),
{
}

/// The components of a column of vectors are had if the column is there, holds vectors with
/// as many components as are asked for, and none is missing.
pub proof fn columns_of_vectors_are_read(
    batch: &ColumnBatch,
    leaf: usize,
    dim: usize,
    r: Result<&[u32], ScanError>,
)
    requires
        call_ensures(ivf_columns::scan_vectors_from_f3, (batch, leaf, dim), r),
        ivf_columns::lengths_given(*batch),
    ensures
        ({
            let there = leaf < batch.columns@.len();
            let d = batch.columns@[leaf as int].data;
            let fits = d is FixedSizeList && d->FixedSizeList_value_length == dim;
            &&& r is Ok <==> there && fits && d->FixedSizeList_null_count == 0
            &&& r is Ok ==> r->Ok_0@ == d->FixedSizeList_values@
            &&& r is Err && r->Err_0 is OutOfRange <==> !there
            &&& r is Err && r->Err_0 is NotFixedSizeList <==> there && !(d is FixedSizeList)
            &&& r is Err && r->Err_0 is DimMismatch <==> there && d is FixedSizeList && !fits
            &&& r is Err && r->Err_0 is Nulls <==> there && fits && d->FixedSizeList_null_count
                != 0
        }),
{
}

/// The vectors of all batches are those of each, one batch behind the other; the first batch
/// with which something is wrong is the one that counts.
pub proof fn batches_are_read_in_order(batches: Seq<ColumnBatch>, b: ColumnBatch, leaf: usize, dim: usize)
    ensures
        ({
            let front = ivf_columns::scanned(batches, leaf, dim);
            let all = ivf_columns::scanned(batches.push(b), leaf, dim);
            let wrong = ivf_columns::scan_error(b, leaf, dim);
            &&& ivf_columns::scanned(Seq::empty(), leaf, dim) == Ok::<Seq<u32>, ScanError>(
                Seq::empty(),
            )
            &&& all is Ok <==> front is Ok && wrong is None
            &&& all is Ok ==> all->Ok_0 == front->Ok_0
                + b.columns@[leaf as int].data->FixedSizeList_values@
            &&& front is Err ==> all->Err_0 == front->Err_0
            &&& front is Ok && wrong is Some ==> all->Err_0 == wrong->0
        }),
{
    assert(batches.push(b).drop_last() =~= batches);
}

/// The vectors of all batches are whole: components that are left over are refused.
pub proof fn all_vectors_are_whole(
    batches: &[ColumnBatch],
    leaf: usize,
    dim: usize,
    r: Result<Vec<u32>, ReadAllError>,
)
    requires
        call_ensures(ivf_columns::read_all_vectors, (batches, leaf, dim), r),
    ensures
        ({
            let all = ivf_columns::scanned(batches@, leaf, dim);
            &&& r is Ok ==> dim > 0 && all is Ok && r->Ok_0@ == all->Ok_0 && r->Ok_0@.len() % dim
                as nat == 0
            &&& r is Err && r->Err_0 is Scan <==> all is Err
            &&& all is Err ==> r->Err_0->Scan_0 == all->Err_0
            &&& all is Ok && dim > 0 && all->Ok_0.len() % dim as nat == 0 ==> r is Ok
            &&& all is Ok && (dim == 0 || all->Ok_0.len() % dim as nat != 0) ==> r->Err_0
                is NotDivisible
        }),
{
}

/// The first vectors of a column are its first components, as many as the vectors have.
pub proof fn first_vectors_are_read(
    batch: &ColumnBatch,
    leaf: usize,
    dim: usize,
    nq: usize,
    r: Result<Vec<u32>, ReadFirstError>,
)
    requires
        nq * dim <= usize::MAX,
        ivf_columns::lengths_given(*batch),
        call_ensures(ivf_columns::read_first_vectors, (Some(batch), leaf, dim, nq), r),
    ensures
        ({
            let there = leaf < batch.columns@.len();
            let d = batch.columns@[leaf as int].data;
            let fits = there && d is FixedSizeList && d->FixedSizeList_value_length == dim;
            &&& r is Ok <==> fits && d->FixedSizeList_values@.len() >= nq * dim
            &&& r is Ok ==> r->Ok_0@.len() == nq * dim && forall|i: int|
                0 <= i < nq * dim ==> #[trigger] r->Ok_0@[i] == d->FixedSizeList_values@[i]
            &&& r is Err && r->Err_0 is TooFewValues <==> fits && d->FixedSizeList_values@.len()
                < nq * dim
            &&& r is Err && r->Err_0 is OutOfRange <==> !there
            &&& r is Err && r->Err_0 is NotFixedSizeList <==> there && !(d is FixedSizeList)
        }),
{
}

} // verus!
