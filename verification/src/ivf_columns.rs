//! Vectors and indexes that are stored as columns of a file.
use crate::ivf_flat::IvfFlatIndex;
use crate::manifest::same_text;
use vstd::prelude::*;

verus! {

/// The items of lists. Floating-point numbers are bit patterns.
#[derive(Clone, Debug)]
pub enum ListValues {
    UInt32(Vec<u32>),
    Float32(Vec<u32>),
    Other,
}

/// The values of a column.
#[derive(Clone, Debug)]
pub enum ArrayData {
    /// Vectors of 32-bit floating-point numbers, one behind the other.
    FixedSizeList { value_length: i32, null_count: usize, values: Vec<u32> },
    List { offsets: Vec<i32>, null_count: usize, values: ListValues },
    Other,
}

/// A column of a batch.
#[derive(Clone, Debug)]
pub struct NamedColumn {
    pub name: String,
    pub data: ArrayData,
}

/// Rows of columns.
#[derive(Clone, Debug)]
pub struct ColumnBatch {
    pub num_rows: usize,
    pub columns: Vec<NamedColumn>,
}

/// The place of the first column with a name.
pub open spec fn column_place(columns: Seq<NamedColumn>, name: Seq<char>, n: nat) -> Option<int>
    decreases n,
{
    if n == 0 {
        None
    } else {
        match column_place(columns, name, (n - 1) as nat) {
            Some(i) => Some(i),
            None => if columns[n - 1].name@ == name {
                Some(n - 1)
            } else {
                None
            },
        }
    }
}

proof fn place_stays(columns: Seq<NamedColumn>, name: Seq<char>, i: nat, n: nat)
    requires
        i <= n,
        column_place(columns, name, i) is Some,
    ensures
        column_place(columns, name, n) == column_place(columns, name, i),
    decreases n,
{
    if i < n {
        place_stays(columns, name, i, (n - 1) as nat);
    }
}

impl ColumnBatch {
    /// The first column with a name.
    pub open spec fn by_name(self, name: Seq<char>) -> Option<ArrayData> {
        match column_place(self.columns@, name, self.columns@.len()) {
            Some(i) => Some(self.columns@[i].data),
            None => None,
        }
    }

    /// Finds the first column with a name.
    pub fn column_by_name(&self, name: &str) -> (r: Option<&ArrayData>)
        ensures
            match r {
                Some(d) => self.by_name(name@) == Some(*d),
                None => self.by_name(name@) is None,
            },
    {
        let mut i: usize = 0;
        while i < self.columns.len()
            invariant
                i <= self.columns@.len(),
                column_place(self.columns@, name@, i as nat) is None,
            decreases self.columns@.len() - i,
        {
            if same_text(self.columns[i].name.as_str(), name) {
                proof {
                    place_stays(self.columns@, name@, i as nat + 1, self.columns@.len());
                }
                return Some(&self.columns[i].data);
            }
            i = i + 1;
        }
        None
    }
}

/// Why columns are no index.
#[derive(Clone, Copy, Debug, PartialEq, Eq, Structural)]
pub enum ColumnIndexError {
    NoBatches,
    NoLists,
    Missing(IndexColumn),
    WrongType(IndexColumn),
    Nulls(IndexColumn),
    DimZero,
    NegativeOffset,
    WrongValues(IndexColumn),
    /// There are not whole vectors.
    VectorsLen,
    /// There are not as many vectors as row ids.
    RowsMismatch,
}

/// A column of an index.
#[derive(Clone, Copy, Debug, PartialEq, Eq, Structural)]
pub enum IndexColumn {
    Centroids,
    RowIds,
    Vectors,
}

/// What is wrong with the centroids.
pub open spec fn centroids_error(d: Option<ArrayData>) -> Option<ColumnIndexError> {
    match d {
        None => Some(ColumnIndexError::Missing(IndexColumn::Centroids)),
        Some(ArrayData::FixedSizeList { value_length, null_count, values }) => if null_count != 0 {
            Some(ColumnIndexError::Nulls(IndexColumn::Centroids))
        } else if value_length == 0 {
            Some(ColumnIndexError::DimZero)
        } else {
            None
        },
        Some(_) => Some(ColumnIndexError::WrongType(IndexColumn::Centroids)),
    }
}

/// What is wrong with the row ids.
pub open spec fn row_ids_error(d: Option<ArrayData>) -> Option<ColumnIndexError> {
    match d {
        None => Some(ColumnIndexError::Missing(IndexColumn::RowIds)),
        Some(ArrayData::List { offsets, null_count, values }) => if null_count != 0 {
            Some(ColumnIndexError::Nulls(IndexColumn::RowIds))
        } else if exists|i: int| 0 <= i < offsets@.len() && #[trigger] offsets@[i] < 0 {
            Some(ColumnIndexError::NegativeOffset)
        } else if !(values is UInt32) {
            Some(ColumnIndexError::WrongValues(IndexColumn::RowIds))
        } else {
            None
        },
        Some(_) => Some(ColumnIndexError::WrongType(IndexColumn::RowIds)),
    }
}

/// What is wrong with the vectors.
pub open spec fn vectors_error(d: Option<ArrayData>) -> Option<ColumnIndexError> {
    match d {
        None => Some(ColumnIndexError::Missing(IndexColumn::Vectors)),
        Some(ArrayData::List { offsets, null_count, values }) => if null_count != 0 {
            Some(ColumnIndexError::Nulls(IndexColumn::Vectors))
        } else if !(values is Float32) {
            Some(ColumnIndexError::WrongValues(IndexColumn::Vectors))
        } else {
            None
        },
        Some(_) => Some(ColumnIndexError::WrongType(IndexColumn::Vectors)),
    }
}

/// The components of each vector.
pub open spec fn dim_of(b: ColumnBatch) -> i32 {
    b.by_name("centroids"@)->0->FixedSizeList_value_length
}

/// The row ids.
pub open spec fn row_ids_of(b: ColumnBatch) -> Seq<u32> {
    b.by_name("postings_row_ids"@)->0->List_values->UInt32_0@
}

/// The components of the vectors.
pub open spec fn vectors_of(b: ColumnBatch) -> Seq<u32> {
    b.by_name("postings_vectors"@)->0->List_values->Float32_0@
}

/// What is wrong with columns as an index.
pub open spec fn index_error(b: ColumnBatch) -> Option<ColumnIndexError> {
    let c = centroids_error(b.by_name("centroids"@));
    let r = row_ids_error(b.by_name("postings_row_ids"@));
    let v = vectors_error(b.by_name("postings_vectors"@));
    if b.num_rows == 0 {
        Some(ColumnIndexError::NoLists)
    } else if c is Some {
        c
    } else if r is Some {
        r
    } else if v is Some {
        v
    } else if vectors_of(b).len() % (dim_of(b) as nat) != 0 {
        Some(ColumnIndexError::VectorsLen)
    } else if vectors_of(b).len() / (dim_of(b) as nat) != row_ids_of(b).len() {
        Some(ColumnIndexError::RowsMismatch)
    } else {
        None
    }
}

/// Whether the lengths of vectors are not negative.
pub open spec fn lengths_valid(b: ColumnBatch) -> bool {
    b.by_name("centroids"@) matches Some(ArrayData::FixedSizeList { value_length, .. })
        ==> value_length >= 0
}

/// Whether `index` is what the columns hold.
pub open spec fn is_index_of(index: IvfFlatIndex, b: ColumnBatch) -> bool {
    &&& index.dim == dim_of(b)
    &&& index.nlist == b.num_rows
    &&& index.centroids@ == (b.by_name("centroids"@)->0->FixedSizeList_values)@
    &&& index.list_offsets@ == (b.by_name("postings_row_ids"@)->0->List_offsets)@.map_values(
        |o: i32| o as u64,
    )
    &&& index.row_ids@ == row_ids_of(b)
    &&& index.vectors@ == vectors_of(b)
}

/// The offsets of lists; nothing if one is negative.
fn read_offsets(offsets: &Vec<i32>) -> (r: Option<Vec<u64>>)
    ensures
        match r {
            Some(v) => v@ == offsets@.map_values(|o: i32| o as u64) && forall|i: int|
                0 <= i < offsets@.len() ==> #[trigger] offsets@[i] >= 0,
            None => exists|i: int| 0 <= i < offsets@.len() && #[trigger] offsets@[i] < 0,
        },
{
    let mut out: Vec<u64> = Vec::new();
    let mut i: usize = 0;
    while i < offsets.len()
        invariant
            i <= offsets@.len(),
            out@.len() == i,
            forall|j: int|
                0 <= j < i ==> #[trigger] offsets@[j] >= 0 && out@[j] == offsets@[j] as u64,
        decreases offsets@.len() - i,
    {
        let o: i32 = offsets[i];
        if o < 0 {
            assert(offsets@[i as int] < 0);
            return None;
        }
        out.push(o as u64);
        i = i + 1;
    }
    assert(out@ =~= offsets@.map_values(|o: i32| o as u64)) by {
        assert forall|j: int| 0 <= j < out@.len() implies out@[j] == offsets@.map_values(
            |o: i32| o as u64,
        )[j] by {
            assert(offsets@[j] >= 0);
        }
    }
    Some(out)
}

/// A copy of numbers.
fn copied(v: &Vec<u32>) -> (r: Vec<u32>)
    ensures
        r@ == v@,
{
    crate::tables::copy_u32s(v)
}

/// Reads an index from the columns of its file, all batches joined into one;
/// nothing if there were none.
pub fn load_ivf_flat_index_f3(batch: Option<&ColumnBatch>) -> (r: Result<
    IvfFlatIndex,
    ColumnIndexError,
>)
    requires
        batch matches Some(b) ==> lengths_valid(*b),
    ensures
        match batch {
            None => r is Err && r->Err_0 == ColumnIndexError::NoBatches,
            Some(b) => match index_error(*b) {
                Some(e) => r is Err && r->Err_0 == e,
                None => r is Ok && is_index_of(r->Ok_0, *b),
            },
        },
{
    let batch = match batch {
        None => {
            return Err(ColumnIndexError::NoBatches);
        },
        Some(b) => b,
    };
    let nlist: usize = batch.num_rows;
    if nlist == 0 {
        return Err(ColumnIndexError::NoLists);
    }
    let (dim, centroids) = match batch.column_by_name("centroids") {
        None => {
            return Err(ColumnIndexError::Missing(IndexColumn::Centroids));
        },
        Some(d) => match d {
            ArrayData::FixedSizeList { value_length, null_count, values } => {
                if *null_count != 0 {
                    return Err(ColumnIndexError::Nulls(IndexColumn::Centroids));
                }
                if *value_length == 0 {
                    return Err(ColumnIndexError::DimZero);
                }
                (*value_length as usize, copied(values))
            },
            _ => {
                return Err(ColumnIndexError::WrongType(IndexColumn::Centroids));
            },
        },
    };
    let (list_offsets, row_ids) = match batch.column_by_name("postings_row_ids") {
        None => {
            return Err(ColumnIndexError::Missing(IndexColumn::RowIds));
        },
        Some(d) => match d {
            ArrayData::List { offsets, null_count, values } => {
                if *null_count != 0 {
                    return Err(ColumnIndexError::Nulls(IndexColumn::RowIds));
                }
                let list_offsets = match read_offsets(offsets) {
                    None => {
                        return Err(ColumnIndexError::NegativeOffset);
                    },
                    Some(o) => o,
                };
                match values {
                    ListValues::UInt32(v) => (list_offsets, copied(v)),
                    _ => {
                        return Err(ColumnIndexError::WrongValues(IndexColumn::RowIds));
                    },
                }
            },
            _ => {
                return Err(ColumnIndexError::WrongType(IndexColumn::RowIds));
            },
        },
    };
    let vectors = match batch.column_by_name("postings_vectors") {
        None => {
            return Err(ColumnIndexError::Missing(IndexColumn::Vectors));
        },
        Some(d) => match d {
            ArrayData::List { offsets: _, null_count, values } => {
                if *null_count != 0 {
                    return Err(ColumnIndexError::Nulls(IndexColumn::Vectors));
                }
                match values {
                    ListValues::Float32(v) => copied(v),
                    _ => {
                        return Err(ColumnIndexError::WrongValues(IndexColumn::Vectors));
                    },
                }
            },
            _ => {
                return Err(ColumnIndexError::WrongType(IndexColumn::Vectors));
            },
        },
    };
    if vectors.len() % dim != 0 {
        return Err(ColumnIndexError::VectorsLen);
    }
    if vectors.len() / dim != row_ids.len() {
        return Err(ColumnIndexError::RowsMismatch);
    }
    Ok(IvfFlatIndex { dim, nlist, centroids, list_offsets, row_ids, vectors })
}

/// Why a column does not hold the vectors that are asked for.
#[derive(Clone, Copy, Debug, PartialEq, Eq, Structural)]
pub enum ScanError {
    /// There is no such column.
    OutOfRange { index: usize, columns: usize },
    NotFixedSizeList,
    DimMismatch { expected: usize, got: usize },
    Nulls,
}

/// What is wrong with a column of vectors.
pub open spec fn scan_error(b: ColumnBatch, index: usize, dim: usize) -> Option<ScanError> {
    if index >= b.columns@.len() {
        Some(ScanError::OutOfRange { index, columns: b.columns@.len() as usize })
    } else {
        match b.columns@[index as int].data {
            ArrayData::FixedSizeList { value_length, null_count, values } => if value_length
                != dim {
                Some(ScanError::DimMismatch { expected: dim, got: value_length as usize })
            } else if null_count != 0 {
                Some(ScanError::Nulls)
            } else {
                None
            },
            _ => Some(ScanError::NotFixedSizeList),
        }
    }
}

/// The components of the vectors in a column of a batch.
pub fn scan_vectors_from_f3(batch: &ColumnBatch, vector_leaf_index: usize, dim: usize) -> (r: Result<
    &[u32],
    ScanError,
>)
    requires
        vector_leaf_index < batch.columns@.len() ==> (
        batch.columns@[vector_leaf_index as int].data matches ArrayData::FixedSizeList {
            value_length,
            ..
        } ==> value_length >= 0),
    ensures
        match scan_error(*batch, vector_leaf_index, dim) {
            Some(e) => r is Err && r->Err_0 == e,
            None => r is Ok && (r->Ok_0)@
                == (batch.columns@[vector_leaf_index as int].data->FixedSizeList_values)@,
        },
{
    if vector_leaf_index >= batch.columns.len() {
        return Err(
            ScanError::OutOfRange { index: vector_leaf_index, columns: batch.columns.len() },
        );
    }
    match &batch.columns[vector_leaf_index].data {
        ArrayData::FixedSizeList { value_length, null_count, values } => {
            if *value_length as usize != dim {
                return Err(
                    ScanError::DimMismatch { expected: dim, got: *value_length as usize },
                );
            }
            if *null_count != 0 {
                return Err(ScanError::Nulls);
            }
            Ok(values.as_slice())
        },
        _ => Err(ScanError::NotFixedSizeList),
    }
}

/// The components of the vectors in a column of some batches, or what is wrong
/// with the first batch with which something is.
pub open spec fn scanned(batches: Seq<ColumnBatch>, index: usize, dim: usize) -> Result<
    Seq<u32>,
    ScanError,
>
    decreases batches.len(),
{
    if batches.len() == 0 {
        Ok(Seq::empty())
    } else {
        match scanned(batches.drop_last(), index, dim) {
            Err(e) => Err(e),
            Ok(s) => match scan_error(batches.last(), index, dim) {
                Some(e) => Err(e),
                None => Ok(s + column_values(batches.last(), index)),
            },
        }
    }
}

/// The components in a column of vectors.
pub open spec fn column_values(b: ColumnBatch, index: usize) -> Seq<u32> {
    (b.columns@[index as int].data->FixedSizeList_values)@
}

proof fn scan_stops(batches: Seq<ColumnBatch>, index: usize, dim: usize, n: int)
    requires
        0 <= n <= batches.len(),
        scanned(batches.take(n), index, dim) is Err,
    ensures
        scanned(batches, index, dim) == scanned(batches.take(n), index, dim),
    decreases batches.len() - n,
{
    if n == batches.len() {
        assert(batches.take(n) =~= batches);
    } else {
        assert(batches.take(n + 1).drop_last() =~= batches.take(n));
        scan_stops(batches, index, dim, n + 1);
    }
}

/// Whether all columns of vectors say how long their vectors are.
pub open spec fn lengths_given(b: ColumnBatch) -> bool {
    forall|i: int|
        0 <= i < b.columns@.len() ==> ((#[trigger] b.columns@[i]).data matches
            ArrayData::FixedSizeList { value_length, .. } ==> value_length >= 0)
}

/// Why the vectors of all batches cannot be read.
#[derive(Clone, Copy, Debug, PartialEq, Eq, Structural)]
pub enum ReadAllError {
    Scan(ScanError),
    /// There are not whole vectors.
    NotDivisible { len: usize, dim: usize },
}

/// The components of the vectors in a column of all batches.
pub fn read_all_vectors(batches: &[ColumnBatch], leaf: usize, dim: usize) -> (r: Result<
    Vec<u32>,
    ReadAllError,
>)
    requires
        forall|i: int| 0 <= i < batches@.len() ==> lengths_given(#[trigger] batches@[i]),
    ensures
        match scanned(batches@, leaf, dim) {
            Err(e) => r == Err::<Vec<u32>, ReadAllError>(ReadAllError::Scan(e)),
            Ok(s) => if dim == 0 || s.len() % dim as nat != 0 {
                r == Err::<Vec<u32>, ReadAllError>(
                    ReadAllError::NotDivisible { len: s.len() as usize, dim },
                )
            } else {
                r is Ok && r->Ok_0@ == s
            },
        },
{
    let n: usize = batches.len();
    let mut out: Vec<u32> = Vec::new();
    let mut i: usize = 0;
    assert(batches@.take(0) =~= Seq::empty());
    while i < n
        invariant
            n == batches@.len(),
            i <= n,
            forall|j: int| 0 <= j < batches@.len() ==> lengths_given(#[trigger] batches@[j]),
            scanned(batches@.take(i as int), leaf, dim) == Ok::<Seq<u32>, ScanError>(out@),
        decreases n - i,
    {
        proof {
            assert(lengths_given(batches@[i as int]));
            let next = batches@.take(i + 1);
            assert(next.drop_last() =~= batches@.take(i as int));
            assert(next.last() == batches@[i as int]);
        }
        match scan_vectors_from_f3(&batches[i], leaf, dim) {
            Err(e) => {
                proof {
                    scan_stops(batches@, leaf, dim, i + 1);
                }
                return Err(ReadAllError::Scan(e));
            },
            Ok(values) => {
                let ghost before = out@;
                out.extend_from_slice(values);
                assert(out@ =~= before + values@);
            },
        }
        i = i + 1;
    }
    assert(batches@.take(n as int) =~= batches@);
    if dim == 0 || out.len() % dim != 0 {
        return Err(ReadAllError::NotDivisible { len: out.len(), dim });
    }
    Ok(out)
}

/// Why the first vectors of a batch cannot be read.
#[derive(Clone, Copy, Debug, PartialEq, Eq, Structural)]
pub enum ReadFirstError {
    NoBatches,
    OutOfRange { index: usize, columns: usize },
    NotFixedSizeList,
    DimMismatch { expected: usize, got: usize },
    TooFewValues { wanted: usize, have: usize },
}

/// The components of the first `nq` vectors in a column. Nulls are not looked at.
pub fn read_first_vectors(batch: Option<&ColumnBatch>, leaf: usize, dim: usize, nq: usize) -> (r:
    Result<Vec<u32>, ReadFirstError>)
    requires
        nq * dim <= usize::MAX,
        batch matches Some(b) ==> lengths_given(*b),
    ensures
        match batch {
            None => r == Err::<Vec<u32>, ReadFirstError>(ReadFirstError::NoBatches),
            Some(b) => if leaf >= b.columns@.len() {
                r == Err::<Vec<u32>, ReadFirstError>(
                    ReadFirstError::OutOfRange { index: leaf, columns: b.columns@.len() as usize },
                )
            } else {
                match b.columns@[leaf as int].data {
                    ArrayData::FixedSizeList { value_length, null_count, values } => if value_length
                        != dim {
                        r == Err::<Vec<u32>, ReadFirstError>(
                            ReadFirstError::DimMismatch {
                                expected: dim,
                                got: value_length as usize,
                            },
                        )
                    } else if values@.len() < nq * dim {
                        r == Err::<Vec<u32>, ReadFirstError>(
                            ReadFirstError::TooFewValues {
                                wanted: (nq * dim) as usize,
                                have: values@.len() as usize,
                            },
                        )
                    } else {
                        r is Ok && r->Ok_0@ == values@.take(nq * dim)
                    },
                    _ => r == Err::<Vec<u32>, ReadFirstError>(ReadFirstError::NotFixedSizeList),
                }
            },
        },
{
    let b = match batch {
        None => {
            return Err(ReadFirstError::NoBatches);
        },
        Some(b) => b,
    };
    if leaf >= b.columns.len() {
        return Err(ReadFirstError::OutOfRange { index: leaf, columns: b.columns.len() });
    }
    assert(lengths_given(*b));
    match &b.columns[leaf].data {
        ArrayData::FixedSizeList { value_length, null_count: _, values } => {
            assert(b.columns@[leaf as int].data is FixedSizeList);
            if *value_length as usize != dim {
                return Err(
                    ReadFirstError::DimMismatch { expected: dim, got: *value_length as usize },
                );
            }
            let total: usize = nq * dim;
            if values.len() < total {
                return Err(ReadFirstError::TooFewValues { wanted: total, have: values.len() });
            }
            let mut out: Vec<u32> = Vec::new();
            out.extend_from_slice(&values.as_slice()[0..total]);
            assert(out@ =~= values@.take(total as int));
            Ok(out)
        },
        _ => Err(ReadFirstError::NotFixedSizeList),
    }
}

} // verus!
