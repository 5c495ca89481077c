//! Laws of columns of vectors.
use crate::encoded_chunk;
use crate::encoded_chunk::{EncodedColumnChunk, SerializedEncUnit};
use crate::floats;
use crate::ivf_assign;
use crate::laws::lists;
use crate::le;
use crate::vector;
use crate::vector_encoder;
use vstd::prelude::*;

verus! {

broadcast use crate::le::sizes;

/// The small index of a block has eight centroids, or one for each row if there are
/// fewer. They are rows of the block, the first of them the first row; each comes as far
/// behind the one in front of it as the second behind the first, but the last row is the
/// last.
pub proof fn seeds_are_spaced_rows(rows: nat, i: int)
    requires
        rows > 0,
        0 <= i < vector::centroid_count(rows),
    ensures
        vector::centroid_count(rows) == (if rows < 8 {
            rows
        } else {
            8
        }),
        vector::seed_row(rows, 0) == 0,
        0 <= vector::seed_row(rows, i) < rows,
        ({
            let k = vector::centroid_count(rows);
            let step = (rows + k - 1) / k as int;
            vector::seed_row(rows, i) == (if i * step < rows {
                i * step
            } else {
                rows - 1
            })
        }),
        rows <= 8 ==> vector::seed_row(rows, i) == i,
{
    let k = vector::centroid_count(rows) as int;
    let step = (rows + k - 1) / k;
    assert(step >= 1) by (nonlinear_arith)
        requires
            step == (rows + k - 1) / k,
            rows >= 1,
            k >= 1,
    ;
    assert(0 * step == 0) by (nonlinear_arith);
    assert(i * step >= 0) by (nonlinear_arith)
        requires
            i >= 0,
            step >= 1,
    ;
    if rows <= 8 {
        assert(step == 1) by (nonlinear_arith)
            requires
                step == (rows + k - 1) / k,
                k == rows,
                rows >= 1,
        ;
        assert(i * step == i) by (nonlinear_arith)
            requires
                step == 1,
        ;
    }
}

/// Component `j` of centroid `i` is that of its row.
pub proof fn seeds_are_whole(vectors: Seq<u32>, dim: nat, rows: nat, n: nat, i: int, j: int)
    requires
        rows > 0,
        n <= vector::centroid_count(rows),
        rows * dim <= vectors.len(),
        0 <= i < n,
        0 <= j < dim,
    ensures
        vector::seeds(vectors, dim, rows, n).len() == n * dim,
        vector::seeds(vectors, dim, rows, n)[i * dim + j] == vectors[vector::seed_row(rows, i) * dim
            + j],
    decreases n,
{
    seeds_len(vectors, dim, rows, n);
    seeds_len(vectors, dim, rows, (n - 1) as nat);
    floats::row_fits(dim, i, n as int);
    seeds_are_spaced_rows(rows, n - 1);
    floats::row_fits(dim, vector::seed_row(rows, n - 1), rows as int);
    if i < n - 1 {
        floats::row_fits(dim, i, n - 1);
        seeds_are_whole(vectors, dim, rows, (n - 1) as nat, i, j);
    }
}

proof fn seeds_len(vectors: Seq<u32>, dim: nat, rows: nat, n: nat)
    requires
        rows > 0,
        n <= vector::centroid_count(rows),
        rows * dim <= vectors.len(),
    ensures
        vector::seeds(vectors, dim, rows, n).len() == n * dim,
    decreases n,
{
    if n == 0 {
        assert(0 * dim == 0) by (nonlinear_arith);
    } else {
        seeds_len(vectors, dim, rows, (n - 1) as nat);
        seeds_are_spaced_rows(rows, n - 1);
        floats::row_fits(dim, vector::seed_row(rows, n - 1), rows as int);
        assert((n - 1) * dim + dim == n * dim) by (nonlinear_arith);
    }
}

/// In the small index of a block each row is in the runs of the first centroid that is
/// nearest to it, and in no others.
pub proof fn rows_are_in_the_nearest_bucket<F: Fn(&[u32], &[u32]) -> u32>(
    f: F,
    dim: nat,
    vectors: Seq<u32>,
    rows: nat,
    row: int,
) -> (c: int)
    requires
        0 < dim <= u32::MAX,
        0 <= row < rows <= u32::MAX,
        rows * dim <= vectors.len(),
    ensures
        ({
            let index = vector::mini_ivf(f, dim, vectors, rows);
            &&& index.dim == dim
            &&& index.k == index.bucket_spans.len() == (if rows < 8 {
                rows
            } else {
                8
            })
            &&& index.centroids.len() == index.k * dim
            &&& 0 <= c < index.k
            &&& lists::is_nearest_row(
                f,
                vectors.subrange(row * dim, row * dim + dim),
                index.centroids,
                dim,
                index.k as nat,
                0x7f80_0000,
                c,
            )
            &&& forall|b: int|
                0 <= b < index.k ==> (vector::in_runs(#[trigger] index.bucket_spans[b], row) <==> b
                    == c)
        }),
{
    let index = vector::mini_ivf(f, dim, vectors, rows);
    let k = vector::centroid_count(rows);
    let seeds = vector::seeds(vectors, dim, rows, k);
    seeds_len(vectors, dim, rows, k);
    let v = floats::row_of(vectors, dim, row);
    lists::nearest_centroid_is_found(f, v, seeds, dim, k, floats::INFINITY);
    let c = ivf_assign::nearest_upto(f, v, seeds, dim, k, floats::INFINITY).0;
    let of = vector::nearest_seeds(f, vectors, dim, rows, rows);
    assert(of[row] == c);
    assert forall|b: int| 0 <= b < index.k implies (vector::in_runs(
        #[trigger] index.bucket_spans[b],
        row,
    ) <==> b == c) by {
        vector::runs_hold_bucket(of, b, row);
    }
    c
}

/// A vector becomes the bytes of its components, four for each, one component behind the
/// other; of a row that is not there nothing comes.
pub proof fn vectors_become_bytes(
    values: Seq<u32>,
    valid: Seq<bool>,
    dim: nat,
    i: int,
    j: int,
)
    requires
        valid.len() * dim <= values.len(),
        0 <= i < valid.len(),
    ensures
        ({
            let r = vector::bytes_of_rows(vector::rows_of(values, valid, dim));
            &&& r.len() == valid.len()
            &&& r[i] is Some <==> valid[i]
            &&& valid[i] ==> r[i]->0.len() == 4 * dim
            &&& valid[i] && 0 <= j < dim ==> r[i]->0.subrange(4 * j, 4 * j + 4)
                == le::bytes_of_u32(values[i * dim + j])
        }),
{
    floats::row_fits(dim, i, valid.len() as int);
    let v = floats::row_of(values, dim, i);
    if valid[i] && 0 <= j < dim {
        assert(v[j] == values[i * dim + j]);
        assert(le::bytes_of_u32s(v).subrange(4 * j, 4 * j + 4) =~= le::bytes_of_u32(v[j]));
    }
}

/// Bytes become the vector whose component `j` stands in the bytes from `4 * j` on; where
/// there are none, there is no vector.
pub proof fn bytes_become_vectors(rows: Seq<Option<Seq<u8>>>, dim: nat, i: int, j: int)
    requires
        vector::all_sized(rows, dim),
        0 <= i < rows.len(),
    ensures
        ({
            let r = vector::rows_of_bytes(rows);
            &&& r.len() == rows.len()
            &&& r[i] is Some <==> rows[i] is Some
            &&& rows[i] is Some ==> rows[i]->0.len() == 4 * dim && r[i]->0.len() == dim
            &&& rows[i] is Some && 0 <= j < dim ==> r[i]->0[j] == le::u32_of(
                rows[i]->0.subrange(4 * j, 4 * j + 4),
            )
        }),
{
    if rows[i] is Some {
        assert(rows[i] matches Some(b) ==> b.len() == 4 * dim);
    }
}

/// What is noted of rows are the components of those that are there, and zeros for the
/// others, row behind row.
pub proof fn rows_are_noted(
    values: Seq<u32>,
    valid: Seq<bool>,
    dim: nat,
    n: nat,
    i: int,
    j: int,
)
    requires
        n <= valid.len(),
        valid.len() * dim <= values.len(),
        0 <= i < n,
        0 <= j < dim,
    ensures
        vector_encoder::row_components(values, valid, dim, n).len() == n * dim,
        vector_encoder::row_components(values, valid, dim, n)[i * dim + j] == (if valid[i] {
            values[i * dim + j]
        } else {
            0
        }),
    decreases n,
{
    noted_len(values, valid, dim, n);
    noted_len(values, valid, dim, (n - 1) as nat);
    floats::row_fits(dim, i, n as int);
    floats::row_fits(dim, n - 1, valid.len() as int);
    if i < n - 1 {
        floats::row_fits(dim, i, n - 1);
        rows_are_noted(values, valid, dim, (n - 1) as nat, i, j);
    }
}

proof fn noted_len(values: Seq<u32>, valid: Seq<bool>, dim: nat, n: nat)
    requires
        n <= valid.len(),
        valid.len() * dim <= values.len(),
    ensures
        vector_encoder::row_components(values, valid, dim, n).len() == n * dim,
    decreases n,
{
    if n == 0 {
        assert(0 * dim == 0) by (nonlinear_arith);
    } else {
        noted_len(values, valid, dim, (n - 1) as nat);
        floats::row_fits(dim, n - 1, valid.len() as int);
        assert((n - 1) * dim + dim == n * dim) by (nonlinear_arith);
    }
}

/// The rows of a chunk start where those of the chunk in front of it end, and its index
/// is that of its own rows.
pub proof fn chunks_have_their_rows<F: Fn(&[u32], &[u32]) -> u32>(
    f: F,
    pending: Seq<u32>,
    dim: nat,
    chunks: Seq<EncodedColumnChunk>,
    k: int,
    start: int,
)
    requires
        0 <= k < chunks.len(),
        start == vector_encoder::rows_before(chunks, k),
    ensures
        vector_encoder::rows_before(chunks, 0) == 0,
        vector_encoder::rows_before(chunks, k + 1) - start == chunks[k].num_rows,
        vector_encoder::chunk_index(f, pending, dim, chunks, k) == vector::mini_ivf(
            f,
            dim,
            pending.subrange(start * dim, (start + chunks[k].num_rows) * dim),
            chunks[k].num_rows as nat,
        ),
{
    let n = chunks[k].num_rows as int;
    assert((start + n) * dim == start * dim + n * dim) by (nonlinear_arith);
}

/// The bytes of units stand one behind the other.
pub proof fn units_stand_in_a_row(
    a: Seq<SerializedEncUnit>,
    b: Seq<SerializedEncUnit>,
    x: SerializedEncUnit,
)
    ensures
        encoded_chunk::unit_bytes(Seq::empty()).len() == 0,
        encoded_chunk::unit_bytes(seq![x]) == x.spec_bytes(),
        encoded_chunk::unit_bytes(a + b) == encoded_chunk::unit_bytes(a)
            + encoded_chunk::unit_bytes(b),
    decreases b.len(),
{
    assert(seq![x].drop_last() =~= Seq::<SerializedEncUnit>::empty());
    reveal_with_fuel(encoded_chunk::unit_bytes, 2);
    assert(encoded_chunk::unit_bytes(seq![x]) =~= x.spec_bytes());
    if b.len() == 0 {
        assert(a + b =~= a);
        assert(encoded_chunk::unit_bytes(a) + encoded_chunk::unit_bytes(b)
            =~= encoded_chunk::unit_bytes(a));
    } else {
        assert((a + b).drop_last() =~= a + b.drop_last());
        units_stand_in_a_row(a, b.drop_last(), x);
        assert(encoded_chunk::unit_bytes(a + b) =~= encoded_chunk::unit_bytes(a)
            + encoded_chunk::unit_bytes(b));
    }
}

/// The runs of a bucket come in the order of their rows, none is empty, and between two of
/// them there is a row of another bucket: rows that follow each other are in one run.
pub proof fn runs_are_as_long_as_can_be(buckets: Seq<int>, b: int, i: int)
    requires
        buckets.len() <= u32::MAX,
        0 <= i < vector::runs(buckets, b).len(),
    ensures
        ({
            let r = vector::runs(buckets, b);
            &&& r[i].1 > 0
            &&& r[i].0 + r[i].1 <= buckets.len()
            &&& i + 1 < r.len() ==> r[i].0 + r[i].1 < r[i + 1].0
        }),
    decreases buckets.len(),
{
    let r = vector::runs(buckets, b);
    let front = vector::runs(buckets.drop_last(), b);
    if front.len() > 0 {
        runs_are_as_long_as_can_be(buckets.drop_last(), b, front.len() - 1);
    }
    if i < front.len() {
        runs_are_as_long_as_can_be(buckets.drop_last(), b, i);
    }
    if i + 1 < front.len() {
        runs_are_as_long_as_can_be(buckets.drop_last(), b, i + 1);
    }
}

} // verus!
