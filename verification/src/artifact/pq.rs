//! Product quantisation: vectors as bytes, one for each part of their components.
use crate::artifact::posting;
use crate::artifact::posting::{decode_rows, encode_deltas};
use crate::floats;
use crate::ivf_assign;
use crate::ivf_assign::nearest_centroid;
use crate::le;
use crate::num::product_u64;
use crate::uleb128::Uleb128Error;
use vstd::prelude::*;

verus! {

broadcast use crate::le::sizes;

/// Why bytes are no posting list.
#[derive(Clone, Copy, Debug, PartialEq, Eq, Structural)]
pub enum PqPostingError {
    /// There is no room for the count.
    TooSmall,
    /// There are rows, but no room for the first row id.
    TooSmallForRowIds,
    RowIds(Uleb128Error),
    LengthMismatch { expected: u128, got: usize },
}

/// The parts that vectors are cut into do not make up their components.
#[derive(Clone, Copy, Debug, PartialEq, Eq, Structural)]
pub struct PqParamsMismatch {
    pub num_subspaces: u32,
    pub subspace_dim: u32,
    pub dim: usize,
}

/// The row ids at the front of a posting list, how many there are, and where
/// they end.
pub open spec fn pq_rows(bytes: Seq<u8>) -> Result<(Seq<u32>, nat, nat), PqPostingError> {
    if bytes.len() < 4 {
        Err(PqPostingError::TooSmall)
    } else {
        let count = le::u32_of(bytes.subrange(0, 4)) as nat;
        if count == 0 {
            Ok((Seq::empty(), 0, 4))
        } else if bytes.len() < 8 {
            Err(PqPostingError::TooSmallForRowIds)
        } else {
            match posting::rows_from(bytes.skip(8), le::u32_of(bytes.subrange(4, 8)), count) {
                Err(e) => Err(PqPostingError::RowIds(e)),
                Ok((rows, used)) => Ok((rows, count, 8 + used)),
            }
        }
    }
}

/// The posting list that `bytes` holds: row ids, and `m` codes for each. With
/// `exact` nothing may follow.
pub open spec fn pq_posting_of(bytes: Seq<u8>, m: nat, exact: bool) -> Result<
    (Seq<u32>, Seq<u8>),
    PqPostingError,
> {
    match pq_rows(bytes) {
        Err(e) => Err(e),
        Ok((rows, count, at)) => {
            let expected = at + count * m;
            if bytes.len() < expected || (exact && bytes.len() != expected) {
                Err(
                    PqPostingError::LengthMismatch {
                        expected: expected as u128,
                        got: bytes.len() as usize,
                    },
                )
            } else {
                Ok((rows, bytes.subrange(at as int, expected as int)))
            }
        },
    }
}

/// The bytes of a posting list.
pub open spec fn pq_posting_bytes(rows: Seq<u32>, codes: Seq<u8>) -> Seq<u8> {
    if rows.len() == 0 {
        le::bytes_of_u32(0)
    } else {
        le::bytes_of_u32(rows.len() as u32) + le::bytes_of_u32(rows[0]) + posting::delta_bytes(rows)
            + codes
    }
}

/// Reading a stored posting list gives back its row ids and codes.
pub proof fn pq_posting_round_trip(rows: Seq<u32>, codes: Seq<u8>, m: nat, exact: bool)
    requires
        rows.len() <= u32::MAX,
        codes.len() == rows.len() * m,
    ensures
        pq_posting_of(pq_posting_bytes(rows, codes), m, exact) == Ok::<
            (Seq<u32>, Seq<u8>),
            PqPostingError,
        >((rows, codes)),
{
    let b = pq_posting_bytes(rows, codes);
    let count = rows.len();
    le::u32_round_trip(count as u32);
    assert(b.subrange(0, 4) =~= le::bytes_of_u32(count as u32));
    if count == 0 {
        assert(0 * m == 0) by (nonlinear_arith);
        assert(rows =~= Seq::<u32>::empty());
        assert(codes =~= Seq::<u8>::empty());
        assert(b.subrange(4, 4) =~= codes);
    } else {
        le::u32_round_trip(rows[0]);
        assert(b.subrange(4, 8) =~= le::bytes_of_u32(rows[0]));
        assert(b.skip(8) =~= posting::delta_bytes(rows) + codes);
        posting::delta_round_trip(rows, codes);
        assert(seq![rows[0]] + rows.skip(1) =~= rows);
        let at = 8 + posting::delta_bytes(rows).len() as int;
        assert(b.subrange(at, at + codes.len()) =~= codes);
    }
}

/// Reads the posting list that `bytes` holds: its row ids, and `m` codes for
/// each. With `exact`, bytes behind it are an error, else they do not matter.
pub fn decode_pq_posting_list(bytes: &[u8], m: u32, exact: bool) -> (r: Result<
    (Vec<u32>, Vec<u8>),
    PqPostingError,
>)
    ensures
        match r {
            Ok((rows, codes)) => pq_posting_of(bytes@, m as nat, exact) == Ok::<
                (Seq<u32>, Seq<u8>),
                PqPostingError,
            >((rows@, codes@)),
            Err(e) => pq_posting_of(bytes@, m as nat, exact) == Err::<
                (Seq<u32>, Seq<u8>),
                PqPostingError,
            >(e),
        },
{
    if bytes.len() < 4 {
        return Err(PqPostingError::TooSmall);
    }
    let count: u32 = le::read_u32(&bytes[0..4]);
    assert(bytes@.subrange(0, 4).subrange(0, 4) =~= bytes@.subrange(0, 4));
    let (rows, at): (Vec<u32>, usize) = if count == 0 {
        let none: Vec<u32> = Vec::new();
        assert(none@ =~= Seq::<u32>::empty());
        (none, 4)
    } else {
        if bytes.len() < 8 {
            return Err(PqPostingError::TooSmallForRowIds);
        }
        let first: u32 = le::read_u32(&bytes[4..8]);
        assert(bytes@.subrange(4, 8).subrange(0, 4) =~= bytes@.subrange(4, 8));
        match decode_rows(bytes, first, count) {
            Err(e) => {
                return Err(PqPostingError::RowIds(e));
            },
            Ok(found) => found,
        }
    };
    assert(count * m <= 0xffff_ffff * 0xffff_ffff) by (nonlinear_arith)
        requires
            count <= 0xffff_ffff,
            m <= 0xffff_ffff,
    ;
    let expected: u128 = at as u128 + product_u64(count as u64, m as u64);
    if (bytes.len() as u128) < expected || (exact && bytes.len() as u128 != expected) {
        return Err(PqPostingError::LengthMismatch { expected, got: bytes.len() });
    }
    let mut codes: Vec<u8> = Vec::new();
    le::put_bytes(&mut codes, &bytes[at..expected as usize]);
    assert(codes@ =~= bytes@.subrange(at as int, expected as int));
    Ok((rows, codes))
}

/// The bytes of the posting list with these row ids and codes.
pub fn encode_pq_posting_list(rows: &[u32], codes: &[u8]) -> (r: Vec<u8>)
    requires
        rows@.len() <= u32::MAX,
    ensures
        r@ == pq_posting_bytes(rows@, codes@),
{
    let mut out: Vec<u8> = Vec::new();
    le::put_u32(&mut out, rows.len() as u32);
    assert(out@ =~= le::bytes_of_u32(rows@.len() as u32));
    if rows.len() > 0 {
        le::put_u32(&mut out, rows[0]);
        encode_deltas(rows, &mut out);
        le::put_bytes(&mut out, codes);
    }
    out
}

/// What is left of `v` when `c` is taken away, component by component.
pub open spec fn residual<S: Fn(u32, u32) -> u32>(minus: S, v: Seq<u32>, c: Seq<u32>) -> Seq<u32> {
    Seq::new(v.len(), |i: int| floats::applied(minus, v[i], c[i]))
}

/// Takes `c` away from `v`, component by component.
pub fn subtract<S: Fn(u32, u32) -> u32>(v: &[u32], c: &[u32], minus: &S) -> (r: Vec<u32>)
    requires
        floats::is_operation(*minus),
        v@.len() == c@.len(),
    ensures
        r@ == residual(*minus, v@, c@),
{
    let mut out: Vec<u32> = Vec::new();
    let mut i: usize = 0;
    while i < v.len()
        invariant
            floats::is_operation(*minus),
            i <= v@.len(),
            v@.len() == c@.len(),
            out@ =~= residual(*minus, v@, c@).take(i as int),
        decreases v@.len() - i,
    {
        out.push(floats::apply(minus, v[i], c[i]));
        i = i + 1;
    }
    out
}

/// Part `sub` of a vector that is cut into parts of `d` components.
pub open spec fn part(v: Seq<u32>, d: nat, sub: int) -> Seq<u32> {
    floats::row_of(v, d, sub)
}

/// The code of part `sub` of `v`: the number of the entry in the part's codebook
/// that is nearest to what is left of it when the centroid is taken away.
pub open spec fn code_of<F: Fn(&[u32], &[u32]) -> u32, S: Fn(u32, u32) -> u32>(
    f: F,
    minus: S,
    v: Seq<u32>,
    centroid: Seq<u32>,
    codebook: Seq<u32>,
    d: nat,
    sub: int,
) -> u8 {
    ivf_assign::nearest_upto(
        f,
        residual(minus, part(v, d, sub), part(centroid, d, sub)),
        codebook,
        d,
        codebook.len() / d,
        floats::MAX,
    ).0 as u8
}

/// The codes of all parts of `v`.
pub open spec fn vector_codes<F: Fn(&[u32], &[u32]) -> u32, S: Fn(u32, u32) -> u32>(
    f: F,
    minus: S,
    v: Seq<u32>,
    centroid: Seq<u32>,
    codebooks: Seq<Vec<u32>>,
    d: nat,
) -> Seq<u8> {
    Seq::new(
        codebooks.len(),
        |sub: int| code_of(f, minus, v, centroid, codebooks[sub]@, d, sub),
    )
}

/// The codes of the first `n` vectors, vector behind vector.
pub open spec fn codes_upto<F: Fn(&[u32], &[u32]) -> u32, S: Fn(u32, u32) -> u32>(
    f: F,
    minus: S,
    vectors: Seq<u32>,
    centroid: Seq<u32>,
    codebooks: Seq<Vec<u32>>,
    d: nat,
    n: nat,
) -> Seq<u8>
    decreases n,
{
    if n == 0 {
        Seq::empty()
    } else {
        codes_upto(f, minus, vectors, centroid, codebooks, d, (n - 1) as nat) + vector_codes(
            f,
            minus,
            floats::row_of(vectors, codebooks.len() * d, n - 1),
            centroid,
            codebooks,
            d,
        )
    }
}

/// Each vector has one code for each part.
pub proof fn codes_len<F: Fn(&[u32], &[u32]) -> u32, S: Fn(u32, u32) -> u32>(
    f: F,
    minus: S,
    vectors: Seq<u32>,
    centroid: Seq<u32>,
    codebooks: Seq<Vec<u32>>,
    d: nat,
    n: nat,
)
    ensures
        codes_upto(f, minus, vectors, centroid, codebooks, d, n).len() == n * codebooks.len(),
    decreases n,
{
    let m = codebooks.len();
    if n == 0 {
        assert(0 * m == 0) by (nonlinear_arith);
    } else {
        codes_len(f, minus, vectors, centroid, codebooks, d, (n - 1) as nat);
        assert((n - 1) * m + m == n * m) by (nonlinear_arith);
    }
}

/// Encodes `n` vectors against the centroid of their list. `f` computes
/// distances, `minus` differences.
pub fn encode_vectors<F: Fn(&[u32], &[u32]) -> u32, S: Fn(u32, u32) -> u32>(
    vectors: &[u32],
    n: usize,
    centroid: &[u32],
    codebooks: &Vec<Vec<u32>>,
    d: usize,
    f: &F,
    minus: &S,
) -> (r: Vec<u8>)
    requires
        floats::is_distance(*f),
        floats::is_operation(*minus),
        d > 0,
        centroid@.len() == codebooks@.len() * d,
        n * (codebooks@.len() * d) <= vectors@.len(),
        forall|sub: int|
            0 <= sub < codebooks@.len() ==> (#[trigger] codebooks@[sub])@.len() / (d as nat) <= 256,
    ensures
        r@ == codes_upto(
            *f,
            *minus,
            vectors@,
            centroid@,
            codebooks@,
            d as nat,
            n as nat,
        ),
{
    let mut codes: Vec<u8> = Vec::new();
    let dim: usize = centroid.len();
    let m: usize = codebooks.len();
    let mut j: usize = 0;
    while j < n
        invariant
            floats::is_distance(*f),
            floats::is_operation(*minus),
            d > 0,
            m == codebooks@.len(),
            dim == m * d,
            centroid@.len() == dim,
            n * dim <= vectors@.len(),
            forall|sub: int|
                0 <= sub < codebooks@.len() ==> (#[trigger] codebooks@[sub])@.len() / (d as nat)
                    <= 256,
            j <= n,
            codes@ == codes_upto(
                *f,
                *minus,
                vectors@,
                centroid@,
                codebooks@,
                d as nat,
                j as nat,
            ),
        decreases n - j,
    {
        let v = floats::row(vectors, dim, j, n);
        let ghost front = codes@;
        let ghost goal = vector_codes(*f, *minus, v@, centroid@, codebooks@, d as nat);
        assert(v@.len() == dim) by {
            floats::row_fits(dim as nat, j as int, n as int);
        }
        let mut sub: usize = 0;
        while sub < m
            invariant
                floats::is_distance(*f),
                floats::is_operation(*minus),
                d > 0,
                m == codebooks@.len(),
                dim == m * d,
                v@.len() == dim,
                centroid@.len() == dim,
                forall|sub: int|
                    0 <= sub < codebooks@.len() ==> (#[trigger] codebooks@[sub])@.len() / (
                    d as nat) <= 256,
                sub <= m,
                goal == vector_codes(*f, *minus, v@, centroid@, codebooks@, d as nat),
                codes@ =~= front + goal.take(sub as int),
            decreases m - sub,
        {
            let a = floats::row(v, d, sub, m);
            let b = floats::row(centroid, d, sub, m);
            proof {
                floats::row_fits(d as nat, sub as int, m as int);
            }
            let res = subtract(a, b, minus);
            let codebook = codebooks[sub].as_slice();
            let entries: usize = codebook.len() / d;
            assert(codebooks@[sub as int]@.len() / (d as nat) <= 256);
            assert(entries * d <= codebook@.len()) by (nonlinear_arith)
                requires
                    entries == codebook@.len() / (d as nat),
                    d > 0,
            ;
            let (code, _) = nearest_centroid(
                res.as_slice(),
                codebook,
                d,
                entries,
                floats::MAX,
                f,
            );
            codes.push(code as u8);
            sub = sub + 1;
        }
        assert(goal.take(sub as int) =~= goal);
        j = j + 1;
    }
    codes
}

/// Whether the parts make up a vector.
pub fn check_pq_params(num_subspaces: u32, subspace_dim: u32, dim: usize) -> (r: Result<
    (),
    PqParamsMismatch,
>)
    ensures
        r == (if num_subspaces * subspace_dim != dim {
            Err::<(), PqParamsMismatch>(PqParamsMismatch { num_subspaces, subspace_dim, dim })
        } else {
            Ok::<(), PqParamsMismatch>(())
        }),
{
    if product_u64(num_subspaces as u64, subspace_dim as u64) != dim as u128 {
        return Err(PqParamsMismatch { num_subspaces, subspace_dim, dim });
    }
    Ok(())
}

/// What is left of the first `n` vectors when the nearest centroid is taken away
/// from each.
pub open spec fn residuals_upto<F: Fn(&[u32], &[u32]) -> u32, S: Fn(u32, u32) -> u32>(
    f: F,
    minus: S,
    sample: Seq<u32>,
    centroids: Seq<u32>,
    dim: nat,
    n: nat,
) -> Seq<u32>
    decreases n,
{
    if n == 0 {
        Seq::empty()
    } else {
        let v = floats::row_of(sample, dim, n - 1);
        let c = ivf_assign::nearest_upto(
            f,
            v,
            centroids,
            dim,
            centroids.len() / dim,
            floats::MAX,
        ).0;
        residuals_upto(f, minus, sample, centroids, dim, (n - 1) as nat) + residual(
            minus,
            v,
            floats::row_of(centroids, dim, c),
        )
    }
}

/// Takes from each sampled vector its nearest centroid, to train codebooks on
/// what is left.
pub fn residual_samples<F: Fn(&[u32], &[u32]) -> u32, S: Fn(u32, u32) -> u32>(
    sample: &[u32],
    centroids: &[u32],
    dim: usize,
    f: &F,
    minus: &S,
) -> (r: Vec<u32>)
    requires
        floats::is_distance(*f),
        floats::is_operation(*minus),
        dim > 0,
        centroids@.len() >= dim,
    ensures
        r@ == residuals_upto(
            *f,
            *minus,
            sample@,
            centroids@,
            dim as nat,
            sample@.len() / (dim as nat),
        ),
{
    let n: usize = sample.len() / dim;
    let nlist: usize = centroids.len() / dim;
    assert(n * dim <= sample@.len() && nlist * dim <= centroids@.len() && nlist > 0)
        by (nonlinear_arith)
        requires
            dim > 0,
            n == sample@.len() / (dim as nat),
            nlist == centroids@.len() / (dim as nat),
            centroids@.len() >= dim,
    ;
    let mut out: Vec<u32> = Vec::new();
    let mut i: usize = 0;
    while i < n
        invariant
            floats::is_distance(*f),
            floats::is_operation(*minus),
            dim > 0,
            n * dim <= sample@.len(),
            nlist * dim <= centroids@.len(),
            nlist == centroids@.len() / (dim as nat),
            nlist > 0,
            i <= n,
            out@ == residuals_upto(*f, *minus, sample@, centroids@, dim as nat, i as nat),
        decreases n - i,
    {
        let v = floats::row(sample, dim, i, n);
        let (c, _) = nearest_centroid(v, centroids, dim, nlist, floats::MAX, f);
        let centroid = floats::row(centroids, dim, c, nlist);
        proof {
            floats::row_fits(dim as nat, i as int, n as int);
            floats::row_fits(dim as nat, c as int, nlist as int);
        }
        let res = subtract(v, centroid, minus);
        out.extend_from_slice(res.as_slice());
        assert(out@ =~= residuals_upto(
            *f,
            *minus,
            sample@,
            centroids@,
            dim as nat,
            (i + 1) as nat,
        ));
        i = i + 1;
    }
    out
}

/// Part `sub` of each of the first `n` vectors.
pub open spec fn parts_upto(residuals: Seq<u32>, m: nat, d: nat, sub: int, n: nat) -> Seq<u32>
    decreases n,
{
    if n == 0 {
        Seq::empty()
    } else {
        parts_upto(residuals, m, d, sub, (n - 1) as nat) + part(
            floats::row_of(residuals, m * d, n - 1),
            d,
            sub,
        )
    }
}

/// Gathers part `sub` of every vector, to train the codebook of that part.
pub fn subspace_samples(residuals: &[u32], m: usize, d: usize, sub: usize) -> (r: Vec<u32>)
    requires
        m * d > 0,
        m * d <= usize::MAX,
        sub < m,
    ensures
        r@ == parts_upto(
            residuals@,
            m as nat,
            d as nat,
            sub as int,
            residuals@.len() / ((m * d) as nat),
        ),
{
    let dim: usize = m * d;
    let n: usize = residuals.len() / dim;
    assert(n * dim <= residuals@.len()) by (nonlinear_arith)
        requires
            dim > 0,
            n == residuals@.len() / (dim as nat),
    ;
    let mut out: Vec<u32> = Vec::new();
    let mut i: usize = 0;
    while i < n
        invariant
            dim == m * d,
            sub < m,
            n * dim <= residuals@.len(),
            i <= n,
            out@ == parts_upto(residuals@, m as nat, d as nat, sub as int, i as nat),
        decreases n - i,
    {
        let v = floats::row(residuals, dim, i, n);
        proof {
            floats::row_fits(dim as nat, i as int, n as int);
        }
        let p = floats::row(v, d, sub, m);
        out.extend_from_slice(p);
        assert(out@ =~= parts_upto(
            residuals@,
            m as nat,
            d as nat,
            sub as int,
            (i + 1) as nat,
        ));
        i = i + 1;
    }
    out
}

} // verus!
