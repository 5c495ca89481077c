//! Laws of the sample that centroids and codebooks are trained on.
use crate::artifact::pq;
use crate::artifact::pq_build;
use crate::floats;
use crate::kmeans;
use crate::training;
use vstd::prelude::*;

verus! {

/// Taking in a vector puts it behind the sample as long as there is room. After that it
/// takes the place of the vector whose number was drawn, and no other changes; if no
/// vector of the sample has that number, nothing changes.
pub proof fn a_vector_is_taken_in(
    sample: Seq<u32>,
    dim: nat,
    limit: nat,
    m: nat,
    v: Seq<u32>,
    draw: int,
    s: int,
    j: int,
)
    requires
        dim > 0,
        m <= limit,
        sample.len() == m * dim,
        v.len() == dim,
        0 <= draw,
        0 <= j < dim,
    ensures
        ({
            let r = training::resampled(sample, dim, limit, v, draw);
            &&& m < limit ==> {
                &&& r.len() == (m + 1) * dim
                &&& r[m * dim + j] == v[j]
                &&& 0 <= s < m ==> r[s * dim + j] == sample[s * dim + j]
            }
            &&& m == limit ==> {
                &&& r.len() == m * dim
                &&& 0 <= s < m ==> r[s * dim + j] == (if s == draw {
                    v[j]
                } else {
                    sample[s * dim + j]
                })
            }
        }),
{
    let r = training::resampled(sample, dim, limit, v, draw);
    assert((m + 1) * dim == m * dim + dim) by (nonlinear_arith);
    if 0 <= s < m {
        floats::row_fits(dim, s, m as int);
    }
    if m < limit {
        assert(m * dim < limit * dim) by (nonlinear_arith)
            requires
                m < limit,
                dim > 0,
        ;
    } else if draw < limit {
        floats::row_fits(dim, draw, m as int);
        assert(r == sample.take(draw * dim) + v + sample.skip(draw * dim + dim));
        if 0 <= s < m {
            if s < draw {
                floats::row_fits(dim, s, draw);
            } else if s > draw {
                floats::row_fits(dim, draw, s);
            }
        }
    }
}

/// A number is drawn among all vectors seen so far, the new one with them.
pub proof fn draws_are_among_those_seen(draws: Seq<u64>, seen: nat, i: int)
    requires
        training::can_be_drawn(draws, seen),
        0 <= i < draws.len(),
        seen + draws.len() <= 0x1_0000_0000,
    ensures
        draws[i] < seen + i + 1,
{
    assert(draws[i] <= (seen + i) % 0x1_0000_0000);
}

/// Only whole vectors of a batch count.
pub proof fn whole_vectors_count(batch: Seq<u32>, dim: nat)
    requires
        dim > 0,
    ensures
        ({
            let whole = training::whole_vectors(batch, dim);
            &&& whole.len() % dim == 0
            &&& batch.len() - dim < whole.len() <= batch.len()
            &&& whole == batch.take(whole.len() as int)
        }),
{
    let n = batch.len() / dim;
    vstd::arithmetic::div_mod::lemma_fundamental_div_mod(batch.len() as int, dim as int);
    assert(dim * n == n * dim) by (nonlinear_arith);
    vstd::arithmetic::div_mod::lemma_mod_multiples_basic(n as int, dim as int);
}

/// Each part has a codebook of its own, with as many entries as are asked for, trained on
/// just that part of what is left of the vectors.
pub proof fn parts_have_codebooks<
    F: Fn(&[u32], &[u32]) -> u32,
    A: Fn(u32, u32) -> u32,
    M: Fn(u32, usize) -> u32,
>(
    f: F,
    plus: A,
    average: M,
    residuals: Seq<u32>,
    m: nat,
    d: nat,
    k: nat,
    iters: nat,
    books: Seq<Vec<u32>>,
    sub: int,
    part: Seq<u32>,
)
    requires
        pq_build::are_codebooks(f, plus, average, residuals, m, d, k, iters, books),
        m > 0,
        d > 0,
        0 <= sub < m,
        part.len() == (residuals.len() / (m * d)) * d,
        forall|i: int, j: int|
            0 <= i < residuals.len() / (m * d) && 0 <= j < d ==> #[trigger] part[i * d + j]
                == residuals[i * (m * d) + sub * d + j],
    ensures
        books.len() == m,
        books[sub]@.len() == k * d,
        kmeans::is_trained(f, plus, average, part, d, k, iters, books[sub]@),
{
    let n = residuals.len() / (m * d);
    assert(m * d > 0) by (nonlinear_arith)
        requires
            m > 0,
            d > 0,
    ;
    assert(n * (m * d) <= residuals.len()) by (nonlinear_arith)
        requires
            n == residuals.len() / (m * d),
            m * d > 0,
    ;
    let gathered = pq::parts_upto(residuals, m, d, sub, n);
    assert(books[sub]@.len() == k * d);
    assert(gathered =~= part) by {
        if n > 0 {
            crate::laws::codes::parts_are_gathered(residuals, m, d, sub, n, 0, 0);
        } else {
            assert(0 * d == 0) by (nonlinear_arith);
        }
        assert forall|x: int| 0 <= x < part.len() implies gathered[x] == part[x] by {
            let i = x / d as int;
            let j = x % d as int;
            vstd::arithmetic::div_mod::lemma_fundamental_div_mod(x, d as int);
            assert(d * i == i * d) by (nonlinear_arith);
            assert(0 <= i < n) by (nonlinear_arith)
                requires
                    0 <= x < n * d,
                    x == i * d + j,
                    0 <= j < d,
                    d > 0,
            ;
            crate::laws::codes::parts_are_gathered(residuals, m, d, sub, n, i, j);
            assert(part[i * d + j] == residuals[i * (m * d) + sub * d + j]);
        }
    }
}

/// A codebook has 256 entries, one for each byte.
pub proof fn a_byte_names_an_entry(code: u8)
    ensures
        code < pq_build::CODEBOOK_ENTRIES,
        pq_build::CODEBOOK_ENTRIES == 256,
{
}

} // verus!
