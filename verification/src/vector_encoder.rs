//! Indexing the vectors of each chunk while a column of vectors is encoded, and
//! what is encoded of lists and structs.
use crate::encoded_chunk::{EncodedColumnChunk, MicroIndexAux};
use crate::encoder::VectorColEncoder;
use crate::floats;
use crate::vector;
use crate::vector::{build_mini_ivf, serialize_micro_blob};
use vstd::prelude::*;

verus! {

/// The components of the first `n` rows; of a row that is not there, zeros.
pub open spec fn row_components(values: Seq<u32>, valid: Seq<bool>, dim: nat, n: nat) -> Seq<u32>
    decreases n,
{
    if n == 0 {
        Seq::empty()
    } else {
        row_components(values, valid, dim, (n - 1) as nat) + (if valid[n - 1] {
            floats::row_of(values, dim, n - 1)
        } else {
            Seq::new(dim, |i: int| 0u32)
        })
    }
}

/// How many rows the first `k` chunks have.
pub open spec fn rows_before(chunks: Seq<EncodedColumnChunk>, k: int) -> nat
    decreases k,
{
    if k <= 0 {
        0
    } else {
        rows_before(chunks, k - 1) + chunks[k - 1].num_rows as nat
    }
}

/// The index of the vectors of chunk `k`.
pub open spec fn chunk_index<F: Fn(&[u32], &[u32]) -> u32>(
    f: F,
    pending: Seq<u32>,
    dim: nat,
    chunks: Seq<EncodedColumnChunk>,
    k: int,
) -> vector::MicroBlob {
    let start = rows_before(chunks, k);
    let rows = chunks[k].num_rows as nat;
    vector::mini_ivf(
        f,
        dim,
        pending.subrange((start * dim) as int, (start * dim + rows * dim) as int),
        rows,
    )
}

/// Whether `after` is chunk `k` as one of its column, with its index if rows are
/// indexed and it has any.
pub open spec fn is_indexed<F: Fn(&[u32], &[u32]) -> u32>(
    f: F,
    encoder: VectorColEncoder,
    chunks: Seq<EncodedColumnChunk>,
    k: int,
    after: EncodedColumnChunk,
) -> bool {
    let before = chunks[k];
    &&& after.encunits == before.encunits
    &&& after.num_rows == before.num_rows
    &&& after.dict_encoding == before.dict_encoding
    &&& after.column_index == encoder.column_index
    &&& if encoder.enable_micro_index && before.num_rows > 0 {
        let index = chunk_index(f, encoder.pending_vectors@, encoder.dim as nat, chunks, k);
        &&& after.micro_index_aux is Some
        &&& (after.micro_index_aux->0).bytes@ == vector::blob_bytes(index)
        &&& (after.micro_index_aux->0).reserved@ == seq![index.k, index.dim]
    } else {
        after.micro_index_aux == before.micro_index_aux
    }
}

proof fn rows_before_grows(chunks: Seq<EncodedColumnChunk>, i: int, j: int)
    requires
        0 <= i <= j,
    ensures
        rows_before(chunks, i) <= rows_before(chunks, j),
    decreases j - i,
{
    if i < j {
        rows_before_grows(chunks, i, j - 1);
    }
}

impl VectorColEncoder {
    /// Whether the rows that are in no chunk yet are all there.
    pub open spec fn valid(self) -> bool {
        &&& self.dim > 0
        &&& self.pending_vectors@.len() == self.pending_rows * self.dim
    }

    /// Takes in rows that are to be encoded.
    pub fn take_in(&mut self, values: &[u32], valid: &[bool])
        requires
            old(self).valid(),
            valid@.len() * old(self).dim <= values@.len(),
            old(self).pending_rows + valid@.len() <= usize::MAX,
        ensures
            final(self).valid(),
            final(self).column_index == old(self).column_index,
            final(self).nullable == old(self).nullable,
            final(self).dim == old(self).dim,
            final(self).enable_micro_index == old(self).enable_micro_index,
            if old(self).enable_micro_index {
                &&& final(self).pending_vectors@ == old(self).pending_vectors@ + row_components(
                    values@,
                    valid@,
                    old(self).dim as nat,
                    valid@.len(),
                )
                &&& final(self).pending_rows == old(self).pending_rows + valid@.len()
            } else {
                &&& final(self).pending_vectors == old(self).pending_vectors
                &&& final(self).pending_rows == old(self).pending_rows
            },
    {
        if !self.enable_micro_index {
            return;
        }
        let dim: usize = self.dim as usize;
        let n: usize = valid.len();
        let ghost front = self.pending_vectors@;
        let mut i: usize = 0;
        assert(front + row_components(values@, valid@, dim as nat, 0) =~= front);
        assert(0 * dim == 0) by (nonlinear_arith);
        while i < n
            invariant
                i <= n,
                n == valid@.len(),
                dim == self.dim,
                self.dim > 0,
                n * dim <= values@.len(),
                self.column_index == old(self).column_index,
                self.nullable == old(self).nullable,
                self.dim == old(self).dim,
                self.enable_micro_index == old(self).enable_micro_index,
                self.pending_rows == old(self).pending_rows,
                self.pending_vectors@ == front + row_components(
                    values@,
                    valid@,
                    dim as nat,
                    i as nat,
                ),
                self.pending_vectors@.len() == front.len() + i * dim,
            decreases n - i,
        {
            let ghost before = row_components(values@, valid@, dim as nat, i as nat);
            proof {
                floats::row_fits(dim as nat, i as int, n as int);
            }
            if valid[i] {
                let row = floats::row(values, dim, i, n);
                self.pending_vectors.extend_from_slice(row);
                assert(self.pending_vectors@ =~= front + (before + row@));
            } else {
                let mut zeros: Vec<u32> = vec![0u32; dim];
                assert(zeros@ =~= Seq::new(dim as nat, |i: int| 0u32));
                self.pending_vectors.append(&mut zeros);
                assert(self.pending_vectors@ =~= front + (before + Seq::new(
                    dim as nat,
                    |i: int| 0u32,
                )));
            }
            i = i + 1;
        }
        proof {
            let old_rows = old(self).pending_rows as int;
            assert(old_rows * dim + n * dim == (old_rows + n) * dim) by (nonlinear_arith);
        }
        self.pending_rows = self.pending_rows + n;
    }

    /// The chunks that come of the physical encoder, as those of the column, each
    /// with the index of its rows. Nothing if there are none.
    pub fn attach<F: Fn(&[u32], &[u32]) -> u32>(
        &mut self,
        chunks: Vec<EncodedColumnChunk>,
        f: &F,
    ) -> (r: Option<Vec<EncodedColumnChunk>>)
        requires
            floats::is_distance(*f),
            old(self).valid(),
            old(self).enable_micro_index ==> rows_before(chunks@, chunks@.len() as int) <= old(
                self,
            ).pending_rows,
            forall|i: int| 0 <= i < chunks@.len() ==> (#[trigger] chunks@[i]).num_rows <= u32::MAX,
        ensures
            final(self).valid(),
            final(self).column_index == old(self).column_index,
            final(self).nullable == old(self).nullable,
            final(self).dim == old(self).dim,
            final(self).enable_micro_index == old(self).enable_micro_index,
            if old(self).enable_micro_index {
                let rows = rows_before(chunks@, chunks@.len() as int);
                &&& final(self).pending_rows == old(self).pending_rows - rows
                &&& final(self).pending_vectors@ == old(self).pending_vectors@.skip(
                    rows * old(self).dim,
                )
            } else {
                &&& final(self).pending_rows == old(self).pending_rows
                &&& final(self).pending_vectors@ == old(self).pending_vectors@
            },
            chunks@.len() == 0 <==> r is None,
            r matches Some(v) ==> v@.len() == chunks@.len() && forall|k: int|
                0 <= k < v@.len() ==> is_indexed(*f, *old(self), chunks@, k, #[trigger] v@[k]),
    {
        let ghost all = chunks@;
        let ghost pending = self.pending_vectors@;
        let ghost total = self.pending_rows;
        let dim: usize = self.dim as usize;
        let mut out: Vec<EncodedColumnChunk> = Vec::new();
        assert(pending.skip(0) =~= pending);
        assert(0 * dim == 0) by (nonlinear_arith);
        for chunk in it: chunks
            invariant
                it.seq() == all,
                floats::is_distance(*f),
                dim == self.dim,
                self.dim > 0,
                pending == old(self).pending_vectors@,
                total == old(self).pending_rows,
                pending.len() == total * dim,
                self.column_index == old(self).column_index,
                self.nullable == old(self).nullable,
                self.dim == old(self).dim,
                self.enable_micro_index == old(self).enable_micro_index,
                self.enable_micro_index ==> rows_before(all, all.len() as int) <= total,
                self.enable_micro_index ==> self.pending_rows == total - rows_before(
                    all,
                    it.index() as int,
                ),
                self.enable_micro_index ==> self.pending_vectors@ == pending.skip(
                    rows_before(all, it.index() as int) * dim,
                ),
                !self.enable_micro_index ==> self.pending_rows == total && self.pending_vectors@
                    == pending,
                forall|i: int| 0 <= i < all.len() ==> (#[trigger] all[i]).num_rows <= u32::MAX,
                out@.len() == it.index(),
                forall|k: int|
                    0 <= k < out@.len() ==> is_indexed(*f, *old(self), all, k, #[trigger] out@[k]),
        {
            let ghost k = it.index() as int;
            let ghost start = rows_before(all, k) as int;
            let mut chunk = chunk;
            assert(all[k].num_rows <= u32::MAX);
            if self.enable_micro_index && chunk.num_rows > 0 {
                let rows: usize = chunk.num_rows;
                proof {
                    rows_before_grows(all, k + 1, all.len() as int);
                    assert(start * dim + rows * dim == (start + rows) * dim) by (nonlinear_arith);
                    assert((start + rows) * dim <= total * dim) by (nonlinear_arith)
                        requires
                            start + rows <= total,
                    ;
                    assert(0 <= start * dim) by (nonlinear_arith)
                        requires
                            0 <= start,
                    ;
                    assert(0 <= rows * dim) by (nonlinear_arith);
                }
                let held: usize = self.pending_vectors.len();
                let take: usize = rows * dim;
                let rest = self.pending_vectors.split_off(take);
                let mut vectors: Vec<u32> = rest;
                std::mem::swap(&mut vectors, &mut self.pending_vectors);
                proof {
                    assert(vectors@ =~= pending.subrange(start * dim, start * dim + rows * dim));
                    assert(self.pending_vectors@ =~= pending.skip((start + rows) * dim));
                }
                let blob = build_mini_ivf(dim, vectors.as_slice(), rows, f);
                let reserved: Vec<u32> = vec![blob.k, blob.dim];
                assert(reserved@ =~= seq![blob@.k, blob@.dim]);
                let bytes = serialize_micro_blob(&blob);
                chunk.micro_index_aux = Some(MicroIndexAux { bytes, reserved });
                self.pending_rows = self.pending_rows - rows;
            }
            let ghost before = out@;
            out.push(chunk.update_column_index(self.column_index));
            assert forall|j: int| 0 <= j < out@.len() implies is_indexed(
                *f,
                *old(self),
                all,
                j,
                #[trigger] out@[j],
            ) by {
                if j < k {
                    assert(out@[j] == before[j]);
                }
            }
        }
        proof {
            let rows = rows_before(all, all.len() as int) as int;
            if self.enable_micro_index {
                assert(total * dim - rows * dim == (total - rows) * dim) by (nonlinear_arith);
                assert(0 <= rows * dim <= total * dim) by (nonlinear_arith)
                    requires
                        0 <= rows <= total,
                ;
            }
        }
        if out.len() == 0 {
            None
        } else {
            Some(out)
        }
    }
}

/// Which items lists hold, as (start, length), if list `i` goes from offset `i` to
/// the next: those from the first list taken to the last.
pub fn extract_items(offsets: &[i64], offset: usize, len: usize) -> (r: (usize, usize))
    requires
        offset + len < offsets@.len(),
        0 <= offsets@[offset as int] <= offsets@[offset + len] <= usize::MAX,
    ensures
        r.0 == offsets@[offset as int],
        r.0 + r.1 == offsets@[offset + len],
{
    let n: usize = offsets.len();
    let start: usize = offsets[offset] as usize;
    let end: usize = offsets[offset + len] as usize;
    (start, end - start)
}

/// Which rows are there; all if nothing is said of it.
pub fn extract_validity(nulls: Option<&Vec<bool>>, len: usize) -> (r: Vec<bool>)
    ensures
        match nulls {
            Some(v) => r@ == v@,
            None => r@ == Seq::new(len as nat, |i: int| true),
        },
{
    match nulls {
        Some(v) => {
            let mut copy: Vec<bool> = Vec::new();
            copy.extend_from_slice(v.as_slice());
            assert(copy@ =~= v@);
            copy
        },
        None => {
            let all: Vec<bool> = vec![true; len];
            assert(all@ =~= Seq::new(len as nat, |i: int| true));
            all
        },
    }
}

} // verus!
