//! Laws of coding vectors part by part.
use crate::artifact::pq;
use crate::floats;
use crate::ivf_assign;
use crate::laws::lists;
use vstd::prelude::*;

verus! {

/// Taking a vector away from another takes each of its components away from the one at
/// the same place.
pub proof fn components_are_taken_away<S: Fn(u32, u32) -> u32>(
    minus: S,
    v: Seq<u32>,
    c: Seq<u32>,
    i: int,
)
    requires
        v.len() == c.len(),
        0 <= i < v.len(),
    ensures
        pq::residual(minus, v, c).len() == v.len(),
        pq::residual(minus, v, c)[i] == floats::applied(minus, v[i], c[i]),
{
}

proof fn parts_fit(m: nat, d: nat, n: nat, j: int, sub: int)
    requires
        0 <= j < n,
        0 <= sub < m,
    ensures
        0 <= sub * d,
        sub * d + d <= m * d,
        0 <= j * (m * d),
        j * (m * d) + m * d <= n * (m * d),
        0 <= j * m,
        j * m + m <= n * m,
{
    floats::row_fits(d, sub, m as int);
    floats::row_fits(m * d, j, n as int);
    floats::row_fits(m, j, n as int);
}

proof fn code_at<F: Fn(&[u32], &[u32]) -> u32, S: Fn(u32, u32) -> u32>(
    f: F,
    minus: S,
    vectors: Seq<u32>,
    centroid: Seq<u32>,
    codebooks: Seq<Vec<u32>>,
    d: nat,
    n: nat,
    j: int,
    sub: int,
)
    requires
        0 <= j < n,
        0 <= sub < codebooks.len(),
    ensures
        0 <= j * codebooks.len() + sub < n * codebooks.len(),
        pq::codes_upto(f, minus, vectors, centroid, codebooks, d, n).len() == n * codebooks.len(),
        pq::codes_upto(f, minus, vectors, centroid, codebooks, d, n)[j * codebooks.len() + sub]
            == pq::code_of(
            f,
            minus,
            floats::row_of(vectors, codebooks.len() * d, j),
            centroid,
            codebooks[sub]@,
            d,
            sub,
        ),
    decreases n,
{
    let m = codebooks.len();
    pq::codes_len(f, minus, vectors, centroid, codebooks, d, (n - 1) as nat);
    pq::codes_len(f, minus, vectors, centroid, codebooks, d, n);
    parts_fit(m, d, n, j, sub);
    if j < n - 1 {
        code_at(f, minus, vectors, centroid, codebooks, d, (n - 1) as nat, j, sub);
    }
}

/// The code of a part is the number of the first entry of its codebook that is nearest
/// to what is left of that part of the vector when that part of the centroid is taken
/// away from it, component by component.
pub proof fn codes_are_nearest_entries<F: Fn(&[u32], &[u32]) -> u32, S: Fn(u32, u32) -> u32>(
    f: F,
    minus: S,
    vectors: Seq<u32>,
    centroid: Seq<u32>,
    codebooks: Seq<Vec<u32>>,
    d: nat,
    n: nat,
    j: int,
    sub: int,
    left: Seq<u32>,
)
    requires
        d > 0,
        0 <= j < n,
        0 <= sub < codebooks.len(),
        centroid.len() == codebooks.len() * d,
        n * (codebooks.len() * d) <= vectors.len(),
        codebooks[sub]@.len() / d <= 256,
        left.len() == d,
        forall|i: int|
            0 <= i < d ==> #[trigger] left[i] == floats::applied(
                minus,
                vectors[j * (codebooks.len() * d) + sub * d + i],
                centroid[sub * d + i],
            ),
    ensures
        ({
            let codes = pq::codes_upto(f, minus, vectors, centroid, codebooks, d, n);
            &&& codes.len() == n * codebooks.len()
            &&& 0 <= j * codebooks.len() + sub < codes.len()
            &&& lists::is_nearest_row(
                f,
                left,
                codebooks[sub]@,
                d,
                codebooks[sub]@.len() / d,
                0x7f7f_ffff,
                codes[j * codebooks.len() + sub] as int,
            )
        }),
{
    let m = codebooks.len();
    code_at(f, minus, vectors, centroid, codebooks, d, n, j, sub);
    parts_fit(m, d, n, j, sub);
    let v = floats::row_of(vectors, m * d, j);
    let res = pq::residual(minus, pq::part(v, d, sub), pq::part(centroid, d, sub));
    assert forall|i: int| 0 <= i < d implies res[i] == left[i] by {
        assert(pq::part(v, d, sub)[i] == v[sub * d + i]);
        assert(v[sub * d + i] == vectors[j * (m * d) + (sub * d + i)]);
        assert(pq::part(centroid, d, sub)[i] == centroid[sub * d + i]);
    }
    assert(res =~= left);
    let count = codebooks[sub]@.len() / d;
    lists::nearest_centroid_is_found(f, left, codebooks[sub]@, d, count, floats::MAX);
    let c = ivf_assign::nearest_upto(f, left, codebooks[sub]@, d, count, floats::MAX).0;
    assert(0 <= c < 256);
    assert(c as u8 == c);
}

/// What is left of each sampled vector is what is left when its nearest centroid is
/// taken away from it, component by component.
pub proof fn samples_lose_their_centroids<F: Fn(&[u32], &[u32]) -> u32, S: Fn(u32, u32) -> u32>(
    f: F,
    minus: S,
    sample: Seq<u32>,
    centroids: Seq<u32>,
    dim: nat,
    n: nat,
    i: int,
) -> (c: int)
    requires
        dim > 0,
        0 <= i < n,
        n * dim <= sample.len(),
        centroids.len() >= dim,
    ensures
        0 <= c < centroids.len() / dim,
        lists::is_nearest_row(
            f,
            sample.subrange(i * dim, i * dim + dim),
            centroids,
            dim,
            centroids.len() / dim,
            0x7f7f_ffff,
            c,
        ),
        pq::residuals_upto(f, minus, sample, centroids, dim, n).len() == n * dim,
        forall|j: int|
            0 <= j < dim ==> #[trigger] pq::residuals_upto(
                f,
                minus,
                sample,
                centroids,
                dim,
                n,
            )[i * dim + j] == floats::applied(
                minus,
                sample[i * dim + j],
                centroids[c * dim + j],
            ),
    decreases n,
{
    let count = centroids.len() / dim;
    assert(count > 0 && count * dim <= centroids.len()) by (nonlinear_arith)
        requires
            dim > 0,
            count == centroids.len() / dim,
            centroids.len() >= dim,
    ;
    floats::row_fits(dim, n - 1, n as int);
    residuals_len(f, minus, sample, centroids, dim, n);
    residuals_len(f, minus, sample, centroids, dim, (n - 1) as nat);
    let before = pq::residuals_upto(f, minus, sample, centroids, dim, (n - 1) as nat);
    let all = pq::residuals_upto(f, minus, sample, centroids, dim, n);
    if i < n - 1 {
        floats::row_fits(dim, i, n - 1);
        let c = samples_lose_their_centroids(
            f,
            minus,
            sample,
            centroids,
            dim,
            (n - 1) as nat,
            i,
        );
        assert forall|j: int| 0 <= j < dim implies #[trigger] all[i * dim + j] == floats::applied(
            minus,
            sample[i * dim + j],
            centroids[c * dim + j],
        ) by {
            assert(before[i * dim + j] == all[i * dim + j]);
        }
        c
    } else {
        let v = floats::row_of(sample, dim, i);
        lists::nearest_centroid_is_found(f, v, centroids, dim, count, floats::MAX);
        let c = ivf_assign::nearest_upto(f, v, centroids, dim, count, floats::MAX).0;
        floats::row_fits(dim, c, count as int);
        let row = floats::row_of(centroids, dim, c);
        assert forall|j: int| 0 <= j < dim implies #[trigger] all[i * dim + j] == floats::applied(
            minus,
            sample[i * dim + j],
            centroids[c * dim + j],
        ) by {
            assert(all[i * dim + j] == pq::residual(minus, v, row)[j]);
            assert(v[j] == sample[i * dim + j]);
            assert(row[j] == centroids[c * dim + j]);
        }
        c
    }
}

proof fn residuals_len<F: Fn(&[u32], &[u32]) -> u32, S: Fn(u32, u32) -> u32>(
    f: F,
    minus: S,
    sample: Seq<u32>,
    centroids: Seq<u32>,
    dim: nat,
    n: nat,
)
    requires
        n * dim <= sample.len(),
    ensures
        pq::residuals_upto(f, minus, sample, centroids, dim, n).len() == n * dim,
    decreases n,
{
    if n == 0 {
        assert(0 * dim == 0) by (nonlinear_arith);
    } else {
        floats::row_fits(dim, n - 1, n as int);
        assert((n - 1) * dim + dim == n * dim) by (nonlinear_arith);
        residuals_len(f, minus, sample, centroids, dim, (n - 1) as nat);
    }
}

/// Gathering a part of all vectors takes the components of that part from each vector,
/// one vector behind the other.
pub proof fn parts_are_gathered(
    vectors: Seq<u32>,
    m: nat,
    d: nat,
    sub: int,
    n: nat,
    i: int,
    j: int,
)
    requires
        0 <= sub < m,
        0 <= i < n,
        0 <= j < d,
        n * (m * d) <= vectors.len(),
    ensures
        pq::parts_upto(vectors, m, d, sub, n).len() == n * d,
        pq::parts_upto(vectors, m, d, sub, n)[i * d + j] == vectors[i * (m * d) + sub * d + j],
    decreases n,
{
    floats::row_fits(m * d, n - 1, n as int);
    parts_len(vectors, m, d, sub, n);
    parts_len(vectors, m, d, sub, (n - 1) as nat);
    floats::row_fits(d, i, n as int);
    parts_fit(m, d, n, i, sub);
    let v = floats::row_of(vectors, m * d, i);
    if i < n - 1 {
        parts_fit(m, d, n, n - 1, sub);
        assert((n - 1) * (m * d) + m * d == n * (m * d)) by (nonlinear_arith);
        floats::row_fits(d, i, n - 1);
        parts_are_gathered(vectors, m, d, sub, (n - 1) as nat, i, j);
    } else {
        assert(pq::part(v, d, sub)[j] == v[sub * d + j]);
        assert(v[sub * d + j] == vectors[i * (m * d) + (sub * d + j)]);
        assert((n - 1) * d + d == n * d) by (nonlinear_arith);
    }
}

proof fn parts_len(vectors: Seq<u32>, m: nat, d: nat, sub: int, n: nat)
    requires
        0 <= sub < m,
        n * (m * d) <= vectors.len(),
    ensures
        pq::parts_upto(vectors, m, d, sub, n).len() == n * d,
    decreases n,
{
    if n == 0 {
        assert(0 * d == 0) by (nonlinear_arith);
    } else {
        parts_fit(m, d, n, n - 1, sub);
        assert((n - 1) * d + d == n * d) by (nonlinear_arith);
        assert((n - 1) * (m * d) + m * d == n * (m * d)) by (nonlinear_arith);
        parts_len(vectors, m, d, sub, (n - 1) as nat);
    }
}

} // verus!
