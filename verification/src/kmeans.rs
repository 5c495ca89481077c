//! Finding centroids in a sample of vectors. Sums and averages of components are
//! computed by functions that are handed in.
use crate::floats;
use crate::floats::apply;
use crate::ivf_assign;
use crate::ivf_assign::nearest_centroid;
use crate::random::draw_below;
use rand::rngs::StdRng;
use vstd::prelude::*;

verus! {

/// The pattern of positive infinity, which no distance is behind.
pub const INFINITY: u32 = 0x7f80_0000;

/// There are fewer vectors than centroids.
#[derive(Clone, Copy, Debug, PartialEq, Eq, Structural)]
pub struct TooFewSamples;

/// The vectors of a sample that the first centroids are taken from: none twice.
#[derive(Debug)]
pub struct FirstCentroids {
    n: usize,
    k: usize,
    chosen: Vec<usize>,
}

impl FirstCentroids {
    /// The vectors chosen so far.
    pub closed spec fn view(&self) -> Seq<usize> {
        self.chosen@
    }

    /// How many vectors there are.
    pub closed spec fn samples(self) -> nat {
        self.n as nat
    }

    /// How many are chosen in the end.
    pub closed spec fn wanted(self) -> nat {
        self.k as nat
    }

    /// No vector is chosen twice, and no more than are wanted.
    pub open spec fn valid(self) -> bool {
        &&& self.wanted() <= self.samples()
        &&& self@.len() <= self.wanted()
        &&& self@.no_duplicates()
        &&& forall|i: int| 0 <= i < self@.len() ==> (#[trigger] self@[i]) < self.samples()
    }

    /// Starts to choose `k` of `n` vectors.
    pub fn new(n: usize, k: usize) -> (r: Result<Self, TooFewSamples>)
        ensures
            r is Err <==> n < k,
            r matches Ok(c) ==> c.valid() && c@.len() == 0 && c.samples() == n && c.wanted() == k,
    {
        if n < k {
            return Err(TooFewSamples);
        }
        Ok(FirstCentroids { n, k, chosen: Vec::new() })
    }

    /// Tells whether enough are chosen.
    pub fn done(&self) -> (r: bool)
        requires
            self.valid(),
        ensures
            r == (self@.len() == self.wanted()),
    {
        self.chosen.len() == self.k
    }

    /// Chooses a vector, unless it has been chosen before.
    pub fn offer(&mut self, i: usize)
        requires
            old(self).valid(),
            old(self)@.len() < old(self).wanted(),
            i < old(self).samples(),
        ensures
            final(self).valid(),
            final(self).samples() == old(self).samples(),
            final(self).wanted() == old(self).wanted(),
            final(self)@ == (if old(self)@.contains(i) {
                old(self)@
            } else {
                old(self)@.push(i)
            }),
    {
        let mut j: usize = 0;
        while j < self.chosen.len()
            invariant
                j <= self.chosen@.len(),
                *self == *old(self),
                old(self).valid(),
                forall|p: int| 0 <= p < j ==> #[trigger] self.chosen@[p] != i,
            decreases self.chosen@.len() - j,
        {
            if self.chosen[j] == i {
                assert(self@[j as int] == i);
                return ;
            }
            j = j + 1;
        }
        self.chosen.push(i);
    }

    /// The components of the vectors chosen, one vector behind the other.
    pub fn centroids(&self, samples: &[u32], dim: usize) -> (r: Vec<u32>)
        requires
            self.valid(),
            self.samples() * dim <= samples@.len(),
        ensures
            r@ == rows_at(samples@, dim as nat, self@),
            r@.len() == self@.len() * dim,
    {
        let mut out: Vec<u32> = Vec::new();
        let mut j: usize = 0;
        assert(self@.take(0) =~= Seq::empty());
        assert(0 * dim == 0) by (nonlinear_arith);
        while j < self.chosen.len()
            invariant
                self.valid(),
                self.samples() * dim <= samples@.len(),
                j <= self.chosen@.len(),
                out@ == rows_at(samples@, dim as nat, self@.take(j as int)),
                out@.len() == j * dim,
            decreases self.chosen@.len() - j,
        {
            proof {
                assert(self@.take(j + 1).drop_last() =~= self@.take(j as int));
                assert(self@[j as int] < self.samples());
                floats::row_fits(dim as nat, self@[j as int] as int, self.samples() as int);
                floats::row_fits(dim as nat, j as int, j + 1);
            }
            out.extend_from_slice(floats::row(samples, dim, self.chosen[j], self.n));
            assert(out@ =~= rows_at(samples@, dim as nat, self@.take(j as int))
                + floats::row_of(samples@, dim as nat, self@[j as int] as int));
            j = j + 1;
        }
        assert(self@.take(j as int) =~= self@);
        out
    }
}

/// The vectors at these places, one behind the other.
pub open spec fn rows_at(samples: Seq<u32>, dim: nat, places: Seq<usize>) -> Seq<u32>
    decreases places.len(),
{
    if places.len() == 0 {
        Seq::empty()
    } else {
        rows_at(samples, dim, places.drop_last()) + floats::row_of(
            samples,
            dim,
            places.last() as int,
        )
    }
}

/// Whether `m` computes a function of a sum and a number of summands.
pub open spec fn is_average<M: Fn(u32, usize) -> u32>(m: M) -> bool {
    &&& forall|a: u32, n: usize| #[trigger] call_requires(m, (a, n))
    &&& forall|a: u32, n: usize, x: u32, y: u32| #[trigger]
        call_ensures(m, (a, n), x) && #[trigger] call_ensures(m, (a, n), y) ==> x == y
}

/// The pattern that `m` gives for a sum of `n`.
pub open spec fn averaged<M: Fn(u32, usize) -> u32>(m: M, a: u32, n: usize) -> u32 {
    choose|x: u32| call_ensures(m, (a, n), x)
}

/// Component `j` of the sum of those of the first `n` vectors that are in list `c`,
/// summed up in their order from zero on.
pub open spec fn component_sum<A: Fn(u32, u32) -> u32>(
    plus: A,
    samples: Seq<u32>,
    dim: nat,
    lists: Seq<usize>,
    c: int,
    j: int,
    n: nat,
) -> u32
    decreases n,
{
    if n == 0 {
        0
    } else {
        let before = component_sum(plus, samples, dim, lists, c, j, (n - 1) as nat);
        if lists[n - 1] == c {
            floats::applied(plus, before, samples[(n - 1) * dim + j])
        } else {
            before
        }
    }
}

/// The centroids that come of sorting vectors into lists: the average of those in
/// the list; the vector `draws[c]` for a list with none.
pub open spec fn moved<A: Fn(u32, u32) -> u32, M: Fn(u32, usize) -> u32>(
    plus: A,
    m: M,
    samples: Seq<u32>,
    dim: nat,
    k: nat,
    lists: Seq<usize>,
    draws: Seq<usize>,
) -> Seq<u32> {
    Seq::new(
        k * dim,
        |x: int|
            {
                let c = x / dim as int;
                let j = x % dim as int;
                let count = ivf_assign::occurrences(lists, c);
                if count == 0 {
                    samples[draws[c] * dim + j]
                } else {
                    averaged(
                        m,
                        component_sum(plus, samples, dim, lists, c, j, lists.len()),
                        count as usize,
                    )
                }
            },
    )
}

/// The list of each vector: that of its nearest centroid.
pub open spec fn lists_for<F: Fn(&[u32], &[u32]) -> u32>(
    f: F,
    samples: Seq<u32>,
    dim: nat,
    k: nat,
    centroids: Seq<u32>,
    n: nat,
) -> Seq<usize> {
    Seq::new(
        n,
        |i: int|
            ivf_assign::nearest_upto(
                f,
                floats::row_of(samples, dim, i),
                centroids,
                dim,
                k,
                INFINITY,
            ).0 as usize,
    )
}

/// Whether there is a vector for each list.
pub open spec fn are_draws(draws: Seq<usize>, k: nat, n: nat) -> bool {
    draws.len() == k && forall|c: int| 0 <= c < k ==> #[trigger] draws[c] < n
}

/// Whether `after` can come of centroids when they are moved `iters` times, each
/// time to the averages of the vectors nearest to them.
pub open spec fn can_become<
    F: Fn(&[u32], &[u32]) -> u32,
    A: Fn(u32, u32) -> u32,
    M: Fn(u32, usize) -> u32,
>(
    f: F,
    plus: A,
    m: M,
    samples: Seq<u32>,
    dim: nat,
    k: nat,
    n: nat,
    before: Seq<u32>,
    after: Seq<u32>,
    iters: nat,
) -> bool
    decreases iters,
{
    if iters == 0 {
        after == before
    } else {
        exists|mid: Seq<u32>, draws: Seq<usize>|
            can_become(f, plus, m, samples, dim, k, n, before, mid, (iters - 1) as nat)
                && are_draws(draws, k, n) && after == #[trigger] moved(
                plus,
                m,
                samples,
                dim,
                k,
                lists_for(f, samples, dim, k, mid, n),
                draws,
            )
    }
}

proof fn place(dim: int, c: int, j: int, x: int)
    requires
        dim > 0,
        0 <= j < dim,
        0 <= c,
    ensures
        x == c * dim + j <==> (x / dim == c && x % dim == j),
{
    vstd::arithmetic::div_mod::lemma_fundamental_div_mod(x, dim);
    if x == c * dim + j {
        vstd::arithmetic::div_mod::lemma_fundamental_div_mod_converse(x, dim, c, j);
    }
    assert((x / dim) * dim == dim * (x / dim)) by (nonlinear_arith);
}

proof fn place_fits(dim: int, k: int, x: int)
    requires
        dim > 0,
        0 <= x < k * dim,
    ensures
        0 <= x / dim < k,
        0 <= x % dim < dim,
        (x / dim) * dim + x % dim == x,
{
    vstd::arithmetic::div_mod::lemma_fundamental_div_mod(x, dim);
    assert(dim * (x / dim) == (x / dim) * dim) by (nonlinear_arith);
    assert(0 <= x / dim < k) by (nonlinear_arith)
        requires
            0 <= x < k * dim,
            dim > 0,
            dim * (x / dim) + x % dim == x,
            0 <= x % dim < dim,
    ;
}

/// The list of each vector.
fn sort_samples<F: Fn(&[u32], &[u32]) -> u32>(
    samples: &[u32],
    dim: usize,
    k: usize,
    n: usize,
    centroids: &Vec<u32>,
    f: &F,
) -> (r: Vec<usize>)
    requires
        floats::is_distance(*f),
        k > 0,
        k * dim <= centroids@.len(),
        n * dim <= samples@.len(),
    ensures
        r@ == lists_for(*f, samples@, dim as nat, k as nat, centroids@, n as nat),
        forall|i: int| 0 <= i < r@.len() ==> #[trigger] r@[i] < k,
{
    let mut lists: Vec<usize> = Vec::new();
    let mut i: usize = 0;
    while i < n
        invariant
            floats::is_distance(*f),
            k > 0,
            k * dim <= centroids@.len(),
            n * dim <= samples@.len(),
            i <= n,
            lists@.len() == i,
            forall|p: int|
                0 <= p < i ==> #[trigger] lists@[p] < k && lists@[p] == ivf_assign::nearest_upto(
                    *f,
                    floats::row_of(samples@, dim as nat, p),
                    centroids@,
                    dim as nat,
                    k as nat,
                    INFINITY,
                ).0,
        decreases n - i,
    {
        let v = floats::row(samples, dim, i, n);
        let (c, _) = nearest_centroid(v, centroids.as_slice(), dim, k, INFINITY, f);
        lists.push(c);
        i = i + 1;
    }
    assert(lists@ =~= lists_for(*f, samples@, dim as nat, k as nat, centroids@, n as nat));
    lists
}

/// The sums of the vectors in each list.
pub fn sum_lists<A: Fn(u32, u32) -> u32>(
    samples: &[u32],
    dim: usize,
    k: usize,
    lists: &Vec<usize>,
    plus: &A,
) -> (r: Vec<u32>)
    requires
        floats::is_operation(*plus),
        dim > 0,
        k * dim <= usize::MAX,
        lists@.len() * dim <= samples@.len(),
        forall|i: int| 0 <= i < lists@.len() ==> #[trigger] lists@[i] < k,
    ensures
        r@.len() == k * dim,
        forall|x: int|
            0 <= x < k * dim ==> #[trigger] r@[x] == component_sum(
                *plus,
                samples@,
                dim as nat,
                lists@,
                x / dim as int,
                x % dim as int,
                lists@.len(),
            ),
{
    let total: usize = k * dim;
    let samples_len: usize = samples.len();
    let ghost d = dim as int;
    let mut sums: Vec<u32> = vec![0u32; total];
    let mut i: usize = 0;
    while i < lists.len()
        invariant
            floats::is_operation(*plus),
            dim > 0,
            d == dim,
            total == k * dim,
            samples_len == samples@.len(),
            lists@.len() * dim <= samples@.len(),
            forall|i: int| 0 <= i < lists@.len() ==> #[trigger] lists@[i] < k,
            i <= lists@.len(),
            sums@.len() == total,
            forall|x: int|
                0 <= x < total ==> #[trigger] sums@[x] == component_sum(
                    *plus,
                    samples@,
                    dim as nat,
                    lists@,
                    x / d,
                    x % d,
                    i as nat,
                ),
        decreases lists@.len() - i,
    {
        let c: usize = lists[i];
        proof {
            floats::row_fits(dim as nat, c as int, k as int);
            floats::row_fits(dim as nat, i as int, lists@.len() as int);
        }
        let base: usize = c * dim;
        let from: usize = i * dim;
        let mut j: usize = 0;
        while j < dim
            invariant
                floats::is_operation(*plus),
                dim > 0,
                d == dim,
                total == k * dim,
                c == lists@[i as int],
                c < k,
                i < lists@.len(),
                base == c * dim,
                base + dim <= total,
                from == i * dim,
                from + dim <= samples@.len(),
                samples_len == samples@.len(),
                j <= dim,
                sums@.len() == total,
                forall|x: int|
                    0 <= x < total ==> #[trigger] sums@[x] == component_sum(
                        *plus,
                        samples@,
                        dim as nat,
                        lists@,
                        x / d,
                        x % d,
                        if x / d == c && x % d < j {
                            (i + 1) as nat
                        } else {
                            i as nat
                        },
                    ),
            decreases dim - j,
        {
            let ghost was = sums@;
            proof {
                place(d, c as int, j as int, base + j);
            }
            sums[base + j] = apply(plus, sums[base + j], samples[from + j]);
            proof {
                assert forall|x: int| 0 <= x < total implies #[trigger] sums@[x] == component_sum(
                    *plus,
                    samples@,
                    dim as nat,
                    lists@,
                    x / d,
                    x % d,
                    if x / d == c && x % d < j + 1 {
                        (i + 1) as nat
                    } else {
                        i as nat
                    },
                ) by {
                    place(d, c as int, j as int, x);
                    assert(was[x] == component_sum(
                        *plus,
                        samples@,
                        dim as nat,
                        lists@,
                        x / d,
                        x % d,
                        if x / d == c && x % d < j {
                            (i + 1) as nat
                        } else {
                            i as nat
                        },
                    ));
                }
            }
            j = j + 1;
        }
        proof {
            assert forall|x: int| 0 <= x < total implies #[trigger] sums@[x] == component_sum(
                *plus,
                samples@,
                dim as nat,
                lists@,
                x / d,
                x % d,
                (i + 1) as nat,
            ) by {
                place_fits(d, k as int, x);
            }
        }
        i = i + 1;
    }
    sums
}

/// Moves centroids to the averages of the vectors in their lists, and those
/// without any to the vector drawn for them.
pub fn move_centroids<A: Fn(u32, u32) -> u32, M: Fn(u32, usize) -> u32>(
    samples: &[u32],
    dim: usize,
    k: usize,
    lists: &Vec<usize>,
    draws: &Vec<usize>,
    plus: &A,
    m: &M,
) -> (r: Vec<u32>)
    requires
        floats::is_operation(*plus),
        is_average(*m),
        dim > 0,
        k * dim <= usize::MAX,
        lists@.len() * dim <= samples@.len(),
        forall|i: int| 0 <= i < lists@.len() ==> #[trigger] lists@[i] < k,
        are_draws(draws@, k as nat, lists@.len()),
    ensures
        r@ == moved(*plus, *m, samples@, dim as nat, k as nat, lists@, draws@),
        r@.len() == k * dim,
{
    let counts = ivf_assign::count_lists(lists, k);
    let sums = sum_lists(samples, dim, k, lists, plus);
    let total: usize = k * dim;
    let samples_len: usize = samples.len();
    let ghost d = dim as int;
    let mut out: Vec<u32> = Vec::new();
    let mut x: usize = 0;
    while x < total
        invariant
            is_average(*m),
            dim > 0,
            d == dim,
            total == k * dim,
            samples_len == samples@.len(),
            lists@.len() * dim <= samples@.len(),
            are_draws(draws@, k as nat, lists@.len()),
            counts@.len() == k,
            forall|c: int|
                0 <= c < k ==> #[trigger] counts@[c] == ivf_assign::occurrences(lists@, c),
            sums@.len() == total,
            forall|x: int|
                0 <= x < total ==> #[trigger] sums@[x] == component_sum(
                    *plus,
                    samples@,
                    dim as nat,
                    lists@,
                    x / d,
                    x % d,
                    lists@.len(),
                ),
            x <= total,
            out@ =~= moved(*plus, *m, samples@, dim as nat, k as nat, lists@, draws@).take(
                x as int,
            ),
        decreases total - x,
    {
        proof {
            place_fits(d, k as int, x as int);
        }
        let c: usize = x / dim;
        let j: usize = x % dim;
        if counts[c] == 0 {
            let i: usize = draws[c];
            proof {
                floats::row_fits(dim as nat, i as int, lists@.len() as int);
            }
            out.push(samples[i * dim + j]);
        } else {
            out.push(m(sums[x], counts[c]));
        }
        x = x + 1;
    }
    out
}

/// Moves centroids `max_iters` times to the averages of the vectors nearest to
/// them; one that no vector is nearest to goes to a vector that is drawn.
pub fn kmeans_rounds<
    F: Fn(&[u32], &[u32]) -> u32,
    A: Fn(u32, u32) -> u32,
    M: Fn(u32, usize) -> u32,
>(
    samples: &[u32],
    dim: usize,
    centroids: Vec<u32>,
    k: usize,
    max_iters: usize,
    rng: &mut StdRng,
    f: &F,
    plus: &A,
    m: &M,
) -> (r: Vec<u32>)
    requires
        floats::is_distance(*f),
        floats::is_operation(*plus),
        is_average(*m),
        dim > 0,
        k > 0,
        centroids@.len() == k * dim,
        samples@.len() / (dim as nat) > 0,
    ensures
        r@.len() == k * dim,
        can_become(
            *f,
            *plus,
            *m,
            samples@,
            dim as nat,
            k as nat,
            samples@.len() / (dim as nat),
            centroids@,
            r@,
            max_iters as nat,
        ),
{
    let n: usize = samples.len() / dim;
    proof {
        let s = samples@.len() as int;
        let d = dim as int;
        assert((s / d) * d <= s) by (nonlinear_arith)
            requires
                d > 0,
                s >= 0,
        ;
    }
    let ghost start = centroids@;
    let mut now = centroids;
    let total: usize = now.len();
    let mut t: usize = 0;
    while t < max_iters
        invariant
            floats::is_distance(*f),
            floats::is_operation(*plus),
            is_average(*m),
            dim > 0,
            k > 0,
            n > 0,
            n == samples@.len() / (dim as nat),
            n * dim <= samples@.len(),
            total == k * dim,
            now@.len() == k * dim,
            t <= max_iters,
            can_become(
                *f,
                *plus,
                *m,
                samples@,
                dim as nat,
                k as nat,
                n as nat,
                start,
                now@,
                t as nat,
            ),
        decreases max_iters - t,
    {
        let lists = sort_samples(samples, dim, k, n, &now, f);
        let counts = ivf_assign::count_lists(&lists, k);
        let mut draws: Vec<usize> = Vec::new();
        let mut c: usize = 0;
        while c < k
            invariant
                c <= k,
                n > 0,
                counts@.len() == k,
                draws@.len() == c,
                forall|p: int| 0 <= p < c ==> #[trigger] draws@[p] < n,
            decreases k - c,
        {
            if counts[c] == 0 {
                draws.push(draw_below(rng, n as u64) as usize);
            } else {
                draws.push(0);
            }
            c = c + 1;
        }
        let ghost mid = now@;
        now = move_centroids(samples, dim, k, &lists, &draws, plus, m);
        assert(are_draws(draws@, k as nat, n as nat));
        t = t + 1;
    }
    now
}

/// Where all places below `n` are listed, at least `n` are.
proof fn all_listed_are_many(s: Seq<usize>, n: nat)
    requires
        n <= usize::MAX + 1,
        forall|i: usize| i < n ==> s.contains(i),
    ensures
        s.len() >= n,
    decreases n,
{
    if n > 0 {
        let last = (n - 1) as usize;
        assert(s.contains(last));
        let p = choose|p: int| 0 <= p < s.len() && s[p] == last;
        let rest = s.remove(p);
        assert forall|i: usize| i < n - 1 implies rest.contains(i) by {
            assert(s.contains(i));
            let q = choose|q: int| 0 <= q < s.len() && s[q] == i;
            assert(rest[if q < p { q } else { q - 1 }] == i);
        }
        all_listed_are_many(rest, (n - 1) as nat);
    }
}

impl FirstCentroids {
    /// The first vector that has not been chosen.
    fn first_free(&self) -> (r: usize)
        requires
            self.valid(),
            self@.len() < self.samples(),
        ensures
            r < self.samples(),
            !self@.contains(r),
            forall|p: usize| p < r ==> self@.contains(p),
    {
        let mut i: usize = 0;
        let mut j: usize = 0;
        while i < self.n && j < self.chosen.len()
            invariant
                self.valid(),
                self@.len() < self.samples(),
                i <= self.n,
                j <= self.chosen@.len(),
                forall|p: usize| p < i ==> self@.contains(p),
                i < self.n ==> forall|q: int| 0 <= q < j ==> #[trigger] self@[q] != i,
            decreases self.n - i, self.chosen@.len() - j,
        {
            if self.chosen[j] == i {
                assert(self@[j as int] == i);
                i = i + 1;
                j = 0;
            } else {
                j = j + 1;
            }
        }
        proof {
            if i == self.n {
                all_listed_are_many(self@, self.samples());
            }
        }
        i
    }

    /// Chooses vectors by drawing: a draw that gives a vector chosen before is
    /// repeated. If it has been repeated as often as can be counted, the first
    /// vector that has not been chosen is taken. Those chosen before stay in front.
    pub fn draw_all(&mut self, rng: &mut StdRng)
        requires
            old(self).valid(),
        ensures
            final(self).valid(),
            final(self).samples() == old(self).samples(),
            final(self).wanted() == old(self).wanted(),
            final(self)@.len() == old(self).wanted(),
            final(self)@.take(old(self)@.len() as int) == old(self)@,
    {
        while self.chosen.len() < self.k
            invariant
                self.valid(),
                self.samples() == old(self).samples(),
                self.wanted() == old(self).wanted(),
                old(self)@.len() <= self@.len(),
                self@.take(old(self)@.len() as int) =~= old(self)@,
            decreases self.k - self.chosen@.len(),
        {
            let before: usize = self.chosen.len();
            let mut left: usize = usize::MAX;
            while left > 0 && self.chosen.len() == before
                invariant
                    self.valid(),
                    self.samples() == old(self).samples(),
                    self.wanted() == old(self).wanted(),
                    before < self.wanted(),
                    old(self)@.len() <= self@.len(),
                    self@.take(old(self)@.len() as int) =~= old(self)@,
                    before <= self@.len() <= before + 1,
                decreases left,
            {
                let i: usize = draw_below(rng, self.n as u64) as usize;
                self.offer(i);
                left = left - 1;
            }
            if self.chosen.len() == before {
                let i: usize = self.first_free();
                self.offer(i);
            }
        }
    }
}

/// Whether `r` are centroids that can come of a sample: `k` different vectors of it,
/// moved `iters` times.
pub open spec fn is_trained<
    F: Fn(&[u32], &[u32]) -> u32,
    A: Fn(u32, u32) -> u32,
    M: Fn(u32, usize) -> u32,
>(
    f: F,
    plus: A,
    m: M,
    samples: Seq<u32>,
    dim: nat,
    k: nat,
    iters: nat,
    r: Seq<u32>,
) -> bool {
    exists|chosen: Seq<usize>|
        chosen.len() == k && chosen.no_duplicates() && (forall|i: int|
            0 <= i < k ==> (#[trigger] chosen[i]) < samples.len() / dim) && can_become(
            f,
            plus,
            m,
            samples,
            dim,
            k,
            samples.len() / dim,
            #[trigger] rows_at(samples, dim, chosen),
            r,
            iters,
        )
}

/// Finds `k` centroids in a sample: starts with different vectors that are drawn,
/// and moves them `max_iters` times.
pub fn kmeans_l2<
    F: Fn(&[u32], &[u32]) -> u32,
    A: Fn(u32, u32) -> u32,
    M: Fn(u32, usize) -> u32,
>(
    samples: &[u32],
    dim: usize,
    k: usize,
    max_iters: usize,
    rng: &mut StdRng,
    f: &F,
    plus: &A,
    m: &M,
) -> (r: Result<Vec<u32>, TooFewSamples>)
    requires
        floats::is_distance(*f),
        floats::is_operation(*plus),
        is_average(*m),
        dim > 0,
        k > 0,
    ensures
        r is Err <==> samples@.len() / (dim as nat) < k,
        r matches Ok(c) ==> c@.len() == k * dim && is_trained(
            *f,
            *plus,
            *m,
            samples@,
            dim as nat,
            k as nat,
            max_iters as nat,
            c@,
        ),
{
    let total: usize = samples.len();
    let n: usize = total / dim;
    let mut first = match FirstCentroids::new(n, k) {
        Err(e) => {
            return Err(e);
        },
        Ok(c) => c,
    };
    first.draw_all(rng);
    assert(n * dim <= total) by (nonlinear_arith)
        requires
            n == total as int / dim as int,
            dim > 0,
    ;
    let start = first.centroids(samples, dim);
    let ghost chosen = first@;
    let r = kmeans_rounds(samples, dim, start, k, max_iters, rng, f, plus, m);
    proof {
        assert(start@ == rows_at(samples@, dim as nat, chosen));
    }
    Ok(r)
}

} // verus!
