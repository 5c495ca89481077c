//! Laws of moving centroids.
use crate::floats;
use crate::kmeans;
use crate::laws::lists;
use vstd::prelude::*;

verus! {

/// Component `j` of the vectors at these places.
pub open spec fn components_at(
    samples: Seq<u32>,
    dim: nat,
    j: int,
    members: Seq<int>,
) -> Seq<u32> {
    members.map_values(|i: int| samples[i * dim + j])
}

/// The sum of a list is that of its vectors, added up in their order from zero on.
pub proof fn sums_are_folds<A: Fn(u32, u32) -> u32>(
    plus: A,
    samples: Seq<u32>,
    dim: nat,
    of: Seq<usize>,
    c: int,
    j: int,
    n: nat,
    members: Seq<int>,
)
    requires
        n <= of.len(),
        lists::are_members(of, c, n, members),
    ensures
        kmeans::component_sum(plus, samples, dim, of, c, j, n) == components_at(
            samples,
            dim,
            j,
            members,
        ).fold_left(0u32, |sum: u32, x: u32| floats::applied(plus, sum, x)),
    decreases n,
{
    let all = components_at(samples, dim, j, members);
    if n == 0 {
        if members.len() > 0 {
            assert(members[0] < n);
        }
    } else if of[n - 1] == c {
        lists::last_member(of, c, n, members);
        let front = members.drop_last();
        sums_are_folds(plus, samples, dim, of, c, j, (n - 1) as nat, front);
        assert(all.drop_last() =~= components_at(samples, dim, j, front));
        assert(all.last() == samples[(n - 1) * dim + j]);
    } else {
        lists::not_last_member(of, c, n, members);
        sums_are_folds(plus, samples, dim, of, c, j, (n - 1) as nat, members);
    }
}

/// A centroid is moved to the average of the vectors in its list: component `j` is the
/// average of the sum of components `j` of just these vectors, added up in their order
/// from zero on. Without any, it is moved to the vector that is drawn for its list.
pub proof fn centroids_move_to_averages<A: Fn(u32, u32) -> u32, M: Fn(u32, usize) -> u32>(
    plus: A,
    m: M,
    samples: Seq<u32>,
    dim: nat,
    k: nat,
    of: Seq<usize>,
    draws: Seq<usize>,
    c: int,
    j: int,
    members: Seq<int>,
)
    requires
        0 <= c < k,
        0 <= j < dim,
        of.len() <= usize::MAX,
        lists::are_members(of, c, of.len(), members),
    ensures
        ({
            let after = kmeans::moved(plus, m, samples, dim, k, of, draws);
            &&& after.len() == k * dim
            &&& after[c * dim + j] == (if members.len() == 0 {
                samples[draws[c] * dim + j]
            } else {
                kmeans::averaged(
                    m,
                    components_at(samples, dim, j, members).fold_left(
                        0u32,
                        |sum: u32, x: u32| floats::applied(plus, sum, x),
                    ),
                    members.len() as usize,
                )
            })
        }),
{
    let x = c * dim + j;
    floats::row_fits(dim, c, k as int);
    vstd::arithmetic::div_mod::lemma_fundamental_div_mod_converse(x, dim as int, c, j);
    lists::entries_are_counted(of, c, members);
    sums_are_folds(plus, samples, dim, of, c, j, of.len(), members);
}

/// The centroid of a list with one vector is that vector, if adding to zero and taking
/// the average of one change nothing.
pub proof fn lone_vectors_are_centroids<A: Fn(u32, u32) -> u32, M: Fn(u32, usize) -> u32>(
    plus: A,
    m: M,
    samples: Seq<u32>,
    dim: nat,
    k: nat,
    of: Seq<usize>,
    draws: Seq<usize>,
    i: int,
    j: int,
)
    requires
        0 <= i < of.len() <= usize::MAX,
        of[i] < k,
        0 <= j < dim,
        forall|x: u32| floats::applied(plus, 0, x) == x,
        forall|x: u32| kmeans::averaged(m, x, 1) == x,
        forall|e: int| 0 <= e < of.len() && e != i ==> of[e] != of[i],
    ensures
        kmeans::moved(plus, m, samples, dim, k, of, draws)[of[i] * dim + j] == samples[i * dim + j],
{
    let members = seq![i];
    assert(members[0] == i);
    assert(lists::are_members(of, of[i] as int, of.len(), members));
    centroids_move_to_averages(
        plus,
        m,
        samples,
        dim,
        k,
        of,
        draws,
        of[i] as int,
        j,
        members,
    );
    let all = components_at(samples, dim, j, members);
    assert(all.drop_last() =~= Seq::<u32>::empty());
    reveal_with_fuel(Seq::fold_left, 2);
}

/// Each vector of a sample is in the list of its nearest centroid.
pub proof fn samples_are_with_their_nearest<F: Fn(&[u32], &[u32]) -> u32>(
    f: F,
    samples: Seq<u32>,
    dim: nat,
    k: nat,
    centroids: Seq<u32>,
    n: nat,
    i: int,
)
    requires
        0 <= i < n,
        0 < k <= usize::MAX,
    ensures
        kmeans::lists_for(f, samples, dim, k, centroids, n).len() == n,
        kmeans::lists_for(f, samples, dim, k, centroids, n)[i] < k,
        lists::is_nearest_row(
            f,
            samples.subrange(i * dim, i * dim + dim),
            centroids,
            dim,
            k,
            0x7f80_0000,
            kmeans::lists_for(f, samples, dim, k, centroids, n)[i] as int,
        ),
{
    lists::nearest_centroid_is_found(
        f,
        floats::row_of(samples, dim, i),
        centroids,
        dim,
        k,
        kmeans::INFINITY,
    );
}

/// Vectors that are taken from a sample keep their components.
pub proof fn taken_vectors_are_whole(
    samples: Seq<u32>,
    dim: nat,
    places: Seq<usize>,
    n: nat,
    p: int,
    j: int,
)
    requires
        forall|q: int| 0 <= q < places.len() ==> #[trigger] places[q] < n,
        n * dim <= samples.len(),
        0 <= p < places.len(),
        0 <= j < dim,
    ensures
        kmeans::rows_at(samples, dim, places).len() == places.len() * dim,
        kmeans::rows_at(samples, dim, places)[p * dim + j] == samples[places[p] * dim + j],
    decreases places.len(),
{
    let front = places.drop_last();
    rows_len(samples, dim, places, n);
    rows_len(samples, dim, front, n);
    floats::row_fits(dim, p, places.len() as int);
    assert(places.last() == places[places.len() - 1]);
    floats::row_fits(dim, places.last() as int, n as int);
    if p < front.len() {
        floats::row_fits(dim, p, front.len() as int);
        taken_vectors_are_whole(samples, dim, front, n, p, j);
    }
}

proof fn rows_len(samples: Seq<u32>, dim: nat, places: Seq<usize>, n: nat)
    requires
        forall|q: int| 0 <= q < places.len() ==> #[trigger] places[q] < n,
        n * dim <= samples.len(),
    ensures
        kmeans::rows_at(samples, dim, places).len() == places.len() * dim,
    decreases places.len(),
{
    let len = places.len();
    if len == 0 {
        assert(0 * dim == 0) by (nonlinear_arith);
    } else {
        assert(places.last() == places[len - 1]);
        floats::row_fits(dim, places.last() as int, n as int);
        rows_len(samples, dim, places.drop_last(), n);
        assert((len - 1) * dim + dim == len * dim) by (nonlinear_arith);
    }
}

/// Rounds follow each other: what comes of some rounds and then of others comes of all
/// of them.
pub proof fn rounds_add_up<
    F: Fn(&[u32], &[u32]) -> u32,
    A: Fn(u32, u32) -> u32,
    M: Fn(u32, usize) -> u32,
>(
    f: F,
    plus: A,
    m: M,
    samples: Seq<u32>,
    dim: nat,
    k: nat,
    n: nat,
    first: Seq<u32>,
    mid: Seq<u32>,
    last: Seq<u32>,
    a: nat,
    b: nat,
)
    requires
        kmeans::can_become(f, plus, m, samples, dim, k, n, first, mid, a),
        kmeans::can_become(f, plus, m, samples, dim, k, n, mid, last, b),
    ensures
        kmeans::can_become(f, plus, m, samples, dim, k, n, first, last, a + b),
    decreases b,
{
    if b > 0 {
        let (now, draws) = choose|now: Seq<u32>, draws: Seq<usize>|
            kmeans::can_become(f, plus, m, samples, dim, k, n, mid, now, (b - 1) as nat)
                && kmeans::are_draws(draws, k, n) && last == #[trigger] kmeans::moved(
                plus,
                m,
                samples,
                dim,
                k,
                kmeans::lists_for(f, samples, dim, k, now, n),
                draws,
            );
        rounds_add_up(f, plus, m, samples, dim, k, n, first, mid, now, a, (b - 1) as nat);
    }
}

/// No round changes nothing. In a round each centroid is moved to the average of the
/// vectors that it is nearest to, or to some vector of the sample if there are none.
pub proof fn a_round_moves_centroids<
    F: Fn(&[u32], &[u32]) -> u32,
    A: Fn(u32, u32) -> u32,
    M: Fn(u32, usize) -> u32,
>(
    f: F,
    plus: A,
    m: M,
    samples: Seq<u32>,
    dim: nat,
    k: nat,
    n: nat,
    before: Seq<u32>,
    after: Seq<u32>,
    c: int,
    members: Seq<int>,
) -> (drawn: int)
    requires
        n <= usize::MAX,
        0 <= c < k,
        kmeans::can_become(f, plus, m, samples, dim, k, n, before, after, 1),
        lists::are_members(
            kmeans::lists_for(f, samples, dim, k, before, n),
            c,
            n,
            members,
        ),
    ensures
        0 <= drawn < n,
        after.len() == k * dim,
        forall|j: int|
            0 <= j < dim ==> #[trigger] after[c * dim + j] == (if members.len() == 0 {
                samples[drawn * dim + j]
            } else {
                kmeans::averaged(
                    m,
                    components_at(samples, dim, j, members).fold_left(
                        0u32,
                        |sum: u32, x: u32| floats::applied(plus, sum, x),
                    ),
                    members.len() as usize,
                )
            }),
        kmeans::can_become(f, plus, m, samples, dim, k, n, before, before, 0),
{
    let (now, draws) = choose|now: Seq<u32>, draws: Seq<usize>|
        kmeans::can_become(f, plus, m, samples, dim, k, n, before, now, 0) && kmeans::are_draws(
            draws,
            k,
            n,
        ) && after == #[trigger] kmeans::moved(
            plus,
            m,
            samples,
            dim,
            k,
            kmeans::lists_for(f, samples, dim, k, now, n),
            draws,
        );
    reveal_with_fuel(kmeans::can_become, 2);
    assert(now == before);
    let of = kmeans::lists_for(f, samples, dim, k, before, n);
    assert forall|j: int| 0 <= j < dim implies #[trigger] after[c * dim + j] == (if members.len()
        == 0 {
        samples[draws[c] * dim + j]
    } else {
        kmeans::averaged(
            m,
            components_at(samples, dim, j, members).fold_left(
                0u32,
                |sum: u32, x: u32| floats::applied(plus, sum, x),
            ),
            members.len() as usize,
        )
    }) by {
        centroids_move_to_averages(plus, m, samples, dim, k, of, draws, c, j, members);
    }
    assert(draws[c] < n);
    draws[c] as int
}

/// Training without rounds gives different vectors of the sample.
pub proof fn training_starts_with_vectors<
    F: Fn(&[u32], &[u32]) -> u32,
    A: Fn(u32, u32) -> u32,
    M: Fn(u32, usize) -> u32,
>(f: F, plus: A, m: M, samples: Seq<u32>, dim: nat, k: nat, r: Seq<u32>) -> (places: Seq<usize>)
    requires
        dim > 0,
        kmeans::is_trained(f, plus, m, samples, dim, k, 0, r),
    ensures
        places.len() == k,
        places.no_duplicates(),
        forall|p: int| 0 <= p < k ==> #[trigger] places[p] < samples.len() / dim,
        r.len() == k * dim,
        forall|p: int, j: int|
            0 <= p < k && 0 <= j < dim ==> #[trigger] r[p * dim + j] == samples[places[p] * dim
                + j],
{
    let places = choose|chosen: Seq<usize>|
        chosen.len() == k && chosen.no_duplicates() && (forall|i: int|
            0 <= i < k ==> (#[trigger] chosen[i]) < samples.len() / dim) && kmeans::can_become(
            f,
            plus,
            m,
            samples,
            dim,
            k,
            samples.len() / dim,
            #[trigger] kmeans::rows_at(samples, dim, chosen),
            r,
            0,
        );
    let n = samples.len() / dim;
    assert(n * dim <= samples.len()) by (nonlinear_arith)
        requires
            dim > 0,
            n == samples.len() / dim,
    ;
    rows_len(samples, dim, places, n);
    assert forall|p: int, j: int| 0 <= p < k && 0 <= j < dim implies #[trigger] r[p * dim + j]
        == samples[places[p] * dim + j] by {
        taken_vectors_are_whole(samples, dim, places, n, p, j);
    }
    places
}

} // verus!
