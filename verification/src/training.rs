//! Collecting the vectors of a base file, and a sample of them to train on.
use crate::floats;
use crate::random::{draw_below, seeded};
use rand::rngs::StdRng;
use vstd::prelude::*;

verus! {

/// Why no index can be built.
#[derive(Clone, Copy, Debug, PartialEq, Eq, Structural)]
pub enum TrainingError {
    NoVectors,
    NoTrainingVectors,
    NlistZero,
    SampleTooSmall { have: usize, nlist: usize },
}

/// All vectors seen so far and a sample of at most `train_sample` of them.
#[derive(Debug)]
pub struct TrainingSet {
    dim: usize,
    train_sample: usize,
    sample: Vec<u32>,
    vectors: Vec<u32>,
    row_ids: Vec<u32>,
}

/// `sample` with vector `j` replaced by `v`.
pub open spec fn with_row(sample: Seq<u32>, dim: nat, j: int, v: Seq<u32>) -> Seq<u32> {
    sample.take(j * dim) + v + sample.skip(j * dim + dim)
}

/// The sample once vector `v` has been seen, where `draw` is the number drawn
/// for it: as long as there is room it is taken; then it takes the place that
/// was drawn, if there is one.
pub open spec fn resampled(
    sample: Seq<u32>,
    dim: nat,
    train_sample: nat,
    v: Seq<u32>,
    draw: int,
) -> Seq<u32> {
    if sample.len() < train_sample * dim {
        sample + v
    } else if draw < train_sample {
        with_row(sample, dim, draw, v)
    } else {
        sample
    }
}

/// The sample once the first `n` vectors of a batch have been seen, where `draws` are
/// the numbers drawn for them.
pub open spec fn resampled_all(
    sample: Seq<u32>,
    dim: nat,
    train_sample: nat,
    batch: Seq<u32>,
    draws: Seq<u64>,
    n: nat,
) -> Seq<u32>
    decreases n,
{
    if n == 0 {
        sample
    } else {
        resampled(
            resampled_all(sample, dim, train_sample, batch, draws, (n - 1) as nat),
            dim,
            train_sample,
            floats::row_of(batch, dim, n - 1),
            draws[n - 1] as int,
        )
    }
}

/// Whether `draws` can be drawn for the vectors behind the first `seen`: for each a
/// number up to how many have been seen before it.
pub open spec fn can_be_drawn(draws: Seq<u64>, seen: nat) -> bool {
    forall|i: int| 0 <= i < draws.len() ==> #[trigger] draws[i] <= (seen + i) % 0x1_0000_0000
}

/// Whether `after` can become of a sample when a batch has been seen.
pub open spec fn can_be_sampled(
    sample: Seq<u32>,
    dim: nat,
    train_sample: nat,
    seen: nat,
    batch: Seq<u32>,
    after: Seq<u32>,
) -> bool {
    exists|draws: Seq<u64>|
        {
            &&& draws.len() == batch.len() / dim
            &&& can_be_drawn(draws, seen)
            &&& after == #[trigger] resampled_all(
                sample,
                dim,
                train_sample,
                batch,
                draws,
                draws.len(),
            )
        }
}

/// Whether every vector of `sample` is one of `vectors`.
pub open spec fn drawn_from(sample: Seq<u32>, vectors: Seq<u32>, dim: nat, m: int, n: int) -> bool {
    forall|s: int|
        0 <= s < m ==> exists|i: int|
            0 <= i < n && #[trigger] floats::row_of(vectors, dim, i) == #[trigger] floats::row_of(
                sample,
                dim,
                s,
            )
}

/// The components in `batch` that belong to whole vectors.
pub open spec fn whole_vectors(batch: Seq<u32>, dim: nat) -> Seq<u32> {
    batch.take((batch.len() / dim) * dim as int)
}

impl TrainingSet {
    pub closed spec fn spec_dim(self) -> nat {
        self.dim as nat
    }

    /// The most vectors that the sample can have.
    pub closed spec fn limit(self) -> nat {
        self.train_sample as nat
    }

    pub closed spec fn sample_view(self) -> Seq<u32> {
        self.sample@
    }

    pub closed spec fn vectors_view(self) -> Seq<u32> {
        self.vectors@
    }

    pub closed spec fn row_ids_view(self) -> Seq<u32> {
        self.row_ids@
    }

    /// How many vectors have been seen.
    pub open spec fn seen(self) -> nat {
        self.row_ids_view().len()
    }

    /// How many vectors the sample has: all, or as many as it can have.
    pub open spec fn sampled(self) -> nat {
        if self.seen() < self.limit() {
            self.seen()
        } else {
            self.limit()
        }
    }

    /// Vectors are numbered from 0 on, the sample is as large as it can be, and
    /// it consists of vectors seen: of all, in order, as long as there is room.
    pub open spec fn wf(self) -> bool {
        &&& self.spec_dim() > 0
        &&& self.vectors_view().len() == self.seen() * self.spec_dim()
        &&& self.sample_view().len() == self.sampled() * self.spec_dim()
        &&& forall|i: int|
            0 <= i < self.seen() ==> #[trigger] self.row_ids_view()[i] == (i % 0x1_0000_0000) as u32
        &&& drawn_from(
            self.sample_view(),
            self.vectors_view(),
            self.spec_dim(),
            self.sampled() as int,
            self.seen() as int,
        )
        &&& self.seen() <= self.limit() ==> self.sample_view() == self.vectors_view()
    }

    /// Nothing seen yet.
    pub fn new(dim: usize, train_sample: usize) -> (r: Self)
        requires
            dim > 0,
        ensures
            r.wf(),
            r.spec_dim() == dim,
            r.limit() == train_sample,
            r.seen() == 0,
            r.sample_view().len() == 0,
    {
        assert(0 * (dim as nat) == 0) by (nonlinear_arith);
        TrainingSet {
            dim,
            train_sample,
            sample: Vec::new(),
            vectors: Vec::new(),
            row_ids: Vec::new(),
        }
    }

    /// Whether there is no room in the sample, so that a number has to be drawn
    /// for the next vector.
    pub fn is_full(&self) -> (r: bool)
        requires
            self.wf(),
        ensures
            r == (self.seen() >= self.limit()),
    {
        self.row_ids.len() >= self.train_sample
    }

    /// Below which number one has to be drawn for the next vector: one more than its
    /// row id.
    pub fn draw_bound(&self) -> (r: u64)
        requires
            self.wf(),
        ensures
            r == self.seen() % 0x1_0000_0000 + 1,
    {
        self.row_ids.len() as u64 % 0x1_0000_0000 + 1
    }

    /// Takes in the next vector; `draw` is the number drawn for it, of which
    /// nothing depends while the sample has room.
    pub fn add_vector(&mut self, v: &[u32], draw: u64)
        requires
            old(self).wf(),
            v@.len() == old(self).spec_dim(),
            old(self).vectors_view().len() + v@.len() <= usize::MAX,
        ensures
            final(self).wf(),
            final(self).spec_dim() == old(self).spec_dim(),
            final(self).limit() == old(self).limit(),
            final(self).vectors_view() == old(self).vectors_view() + v@,
            final(self).row_ids_view() == old(self).row_ids_view().push(
                (old(self).seen() % 0x1_0000_0000) as u32,
            ),
            final(self).sample_view() == resampled(
                old(self).sample_view(),
                old(self).spec_dim(),
                old(self).limit(),
                v@,
                draw as int,
            ),
    {
        let ghost dim = self.dim as nat;
        let ghost n = self.row_ids@.len() as int;
        let ghost m = self.sampled() as int;
        let ghost lim = self.train_sample as int;
        proof {
            assert(m * dim < lim * dim <==> m < lim) by (nonlinear_arith)
                requires
                    dim > 0,
            ;
            assert(n * dim + dim == (n + 1) * dim) by (nonlinear_arith);
            assert(m * dim + dim == (m + 1) * dim) by (nonlinear_arith);
        }
        if self.row_ids.len() < self.train_sample {
            self.sample.extend_from_slice(v);
            assert(self.sample@ =~= old(self).sample@ + v@);
        } else if draw < self.train_sample as u64 {
            proof {
                floats::row_fits(dim, draw as int, m);
            }
            let total: usize = self.sample.len();
            let start: usize = draw as usize * self.dim;
            let mut j: usize = 0;
            let ghost before = self.sample@;
            while j < v.len()
                invariant
                    j <= v@.len(),
                    start + v@.len() <= before.len(),
                    self.sample@ =~= before.take(start as int) + v@.take(j as int) + before.skip(
                        start + j,
                    ),
                    self.dim == old(self).dim,
                    self.train_sample == old(self).train_sample,
                    self.vectors == old(self).vectors,
                    self.row_ids == old(self).row_ids,
                    before.len() <= usize::MAX,
                decreases v@.len() - j,
            {
                self.sample[start + j] = v[j];
                j = j + 1;
            }
            assert(self.sample@ =~= with_row(before, dim, draw as int, v@));
        }
        let row: u32 = (self.row_ids.len() as u64 % 0x1_0000_0000) as u32;
        self.vectors.extend_from_slice(v);
        assert(self.vectors@ =~= old(self).vectors@ + v@);
        self.row_ids.push(row);
        proof {
            resampled_is_drawn(
                old(self).sample@,
                old(self).vectors@,
                dim,
                m,
                n,
                lim,
                v@,
                draw as int,
            );
        }
    }

    /// Takes in the vectors of a batch, one behind the other; what is left over
    /// at the end and is no whole vector is not taken. Numbers are drawn from
    /// `rng` for those that come when the sample is full. Which vectors the sample then
    /// has depends on the draws, and on nothing else.
    pub fn add_batch(&mut self, batch: &[u32], rng: &mut StdRng)
        requires
            old(self).wf(),
            old(self).vectors_view().len() + batch@.len() <= usize::MAX,
        ensures
            final(self).wf(),
            final(self).spec_dim() == old(self).spec_dim(),
            final(self).limit() == old(self).limit(),
            final(self).vectors_view() == old(self).vectors_view() + whole_vectors(
                batch@,
                old(self).spec_dim(),
            ),
            final(self).seen() == old(self).seen() + batch@.len() / old(self).spec_dim(),
            final(self).row_ids_view().take(old(self).seen() as int) == old(self).row_ids_view(),
            can_be_sampled(
                old(self).sample_view(),
                old(self).spec_dim(),
                old(self).limit(),
                old(self).seen(),
                batch@,
                final(self).sample_view(),
            ),
    {
        let dim: usize = self.dim;
        let n: usize = batch.len() / dim;
        let ghost d = dim as nat;
        assert(n * dim <= batch@.len()) by (nonlinear_arith)
            requires
                n == batch@.len() / (dim as nat),
                dim > 0,
        ;
        let ghost mut draws: Seq<u64> = Seq::empty();
        let mut i: usize = 0;
        assert(0 * d == 0) by (nonlinear_arith);
        assert(batch@.take(0) =~= Seq::<u32>::empty());
        assert(old(self).vectors_view() + batch@.take(0) =~= old(self).vectors_view());
        while i < n
            invariant
                i <= n,
                n * dim <= batch@.len(),
                d == dim,
                dim == self.dim,
                self.wf(),
                self.spec_dim() == old(self).spec_dim(),
                self.limit() == old(self).limit(),
                self.vectors_view() == old(self).vectors_view() + batch@.take(i * d),
                self.seen() == old(self).seen() + i,
                self.row_ids_view().take(old(self).seen() as int) =~= old(self).row_ids_view(),
                old(self).vectors_view().len() + batch@.len() <= usize::MAX,
                draws.len() == i,
                can_be_drawn(draws, old(self).seen()),
                self.sample_view() == resampled_all(
                    old(self).sample_view(),
                    d,
                    old(self).limit(),
                    batch@,
                    draws,
                    i as nat,
                ),
            decreases n - i,
        {
            let v = floats::row(batch, dim, i, n);
            let ghost before = self.vectors_view();
            proof {
                floats::row_fits(d, i as int, n as int);
            }
            let draw: u64 = if self.is_full() {
                draw_below(rng, self.draw_bound())
            } else {
                0
            };
            self.add_vector(v, draw);
            proof {
                let earlier = draws;
                draws = draws.push(draw);
                same_draws_same_sample(
                    old(self).sample_view(),
                    d,
                    old(self).limit(),
                    batch@,
                    earlier,
                    draws,
                    i as nat,
                );
            }
            assert(before + v@ =~= old(self).vectors_view() + batch@.take((i + 1) * d));
            i = i + 1;
        }
        assert(draws.len() == batch@.len() / old(self).spec_dim());
    }

    /// A set with the vectors of all batches, sampled by a generator that starts
    /// from `seed`.
    pub fn collect(dim: usize, train_sample: usize, seed: u64, batch: &[u32]) -> (r: Self)
        requires
            dim > 0,
        ensures
            r.wf(),
            r.spec_dim() == dim,
            r.limit() == train_sample,
            r.vectors_view() == whole_vectors(batch@, dim as nat),
            r.seen() == batch@.len() / (dim as nat),
            can_be_sampled(
                Seq::empty(),
                dim as nat,
                train_sample as nat,
                0,
                batch@,
                r.sample_view(),
            ),
    {
        let mut rng = seeded(seed);
        let mut r = TrainingSet::new(dim, train_sample);
        assert(r.vectors_view().len() == 0) by {
            assert(0 * r.spec_dim() == 0) by (nonlinear_arith);
        }
        assert(r.sample_view() =~= Seq::empty());
        let n: usize = batch.len();
        r.add_batch(batch, &mut rng);
        assert(r.vectors_view() =~= whole_vectors(batch@, dim as nat));
        r
    }

    pub open spec fn readiness(self, nlist: nat) -> Result<(), TrainingError> {
        if self.seen() == 0 {
            Err(TrainingError::NoVectors)
        } else if self.limit() == 0 {
            Err(TrainingError::NoTrainingVectors)
        } else if nlist == 0 {
            Err(TrainingError::NlistZero)
        } else if self.sampled() < nlist {
            Err(
                TrainingError::SampleTooSmall {
                    have: self.sampled() as usize,
                    nlist: nlist as usize,
                },
            )
        } else {
            Ok(())
        }
    }

    /// Whether `nlist` lists can be trained on the sample.
    pub fn check(&self, nlist: usize) -> (r: Result<(), TrainingError>)
        requires
            self.wf(),
        ensures
            r == self.readiness(nlist as nat),
    {
        if self.row_ids.len() == 0 {
            return Err(TrainingError::NoVectors);
        }
        if self.train_sample == 0 {
            return Err(TrainingError::NoTrainingVectors);
        }
        if nlist == 0 {
            return Err(TrainingError::NlistZero);
        }
        let have: usize = if self.row_ids.len() < self.train_sample {
            self.row_ids.len()
        } else {
            self.train_sample
        };
        if have < nlist {
            return Err(TrainingError::SampleTooSmall { have, nlist });
        }
        Ok(())
    }

    /// How many components a vector has.
    pub fn dim(&self) -> (r: usize)
        ensures
            r == self.spec_dim(),
    {
        self.dim
    }

    /// The components of the sample, vector behind vector.
    pub fn sample(&self) -> (r: &[u32])
        ensures
            r@ == self.sample_view(),
    {
        self.sample.as_slice()
    }

    /// The components of all vectors, vector behind vector.
    pub fn vectors(&self) -> (r: &[u32])
        ensures
            r@ == self.vectors_view(),
    {
        self.vectors.as_slice()
    }

    /// The row ids of all vectors.
    pub fn row_ids(&self) -> (r: &[u32])
        ensures
            r@ == self.row_ids_view(),
    {
        self.row_ids.as_slice()
    }
}

/// The sample depends on the draws for the vectors seen alone.
proof fn same_draws_same_sample(
    sample: Seq<u32>,
    dim: nat,
    train_sample: nat,
    batch: Seq<u32>,
    a: Seq<u64>,
    b: Seq<u64>,
    n: nat,
)
    requires
        n <= a.len() <= b.len(),
        forall|i: int| 0 <= i < n ==> #[trigger] a[i] == b[i],
    ensures
        resampled_all(sample, dim, train_sample, batch, a, n) == resampled_all(
            sample,
            dim,
            train_sample,
            batch,
            b,
            n,
        ),
    decreases n,
{
    if n > 0 {
        same_draws_same_sample(sample, dim, train_sample, batch, a, b, (n - 1) as nat);
        assert(a[n - 1] == b[n - 1]);
    }
}

/// It does not matter how vectors are split into batches: two batches, one behind the
/// other, give the sample that both as one batch give with the same draws.
pub proof fn batches_join(
    sample: Seq<u32>,
    dim: nat,
    train_sample: nat,
    first: Seq<u32>,
    second: Seq<u32>,
    a: Seq<u64>,
    b: Seq<u64>,
    n: nat,
)
    requires
        dim > 0,
        first.len() == a.len() * dim,
        n <= b.len(),
        second.len() >= b.len() * dim,
    ensures
        resampled_all(sample, dim, train_sample, first + second, a + b, a.len() + n)
            == resampled_all(
            resampled_all(sample, dim, train_sample, first, a, a.len()),
            dim,
            train_sample,
            second,
            b,
            n,
        ),
    decreases n,
{
    let all = first + second;
    let draws = a + b;
    if n == 0 {
        first_batch_alone(sample, dim, train_sample, first, second, a, b, a.len());
    } else {
        batches_join(sample, dim, train_sample, first, second, a, b, (n - 1) as nat);
        let k = n - 1;
        floats::row_fits(dim, k, b.len() as int);
        assert((a.len() + k) * dim == a.len() * dim + k * dim) by (nonlinear_arith);
        assert(floats::row_of(all, dim, a.len() + k) =~= floats::row_of(second, dim, k));
        assert(draws[a.len() + k] == b[k]);
    }
}

/// Vectors that come later do not change the sample of the first batch.
proof fn first_batch_alone(
    sample: Seq<u32>,
    dim: nat,
    train_sample: nat,
    first: Seq<u32>,
    second: Seq<u32>,
    a: Seq<u64>,
    b: Seq<u64>,
    n: nat,
)
    requires
        dim > 0,
        first.len() == a.len() * dim,
        n <= a.len(),
    ensures
        resampled_all(sample, dim, train_sample, first + second, a + b, n) == resampled_all(
            sample,
            dim,
            train_sample,
            first,
            a,
            n,
        ),
    decreases n,
{
    if n > 0 {
        first_batch_alone(sample, dim, train_sample, first, second, a, b, (n - 1) as nat);
        floats::row_fits(dim, n - 1, a.len() as int);
        assert(floats::row_of(first + second, dim, n - 1) =~= floats::row_of(first, dim, n - 1));
        assert((a + b)[n - 1] == a[n - 1]);
    }
}

proof fn resampled_is_drawn(
    sample: Seq<u32>,
    vectors: Seq<u32>,
    dim: nat,
    m: int,
    n: int,
    lim: int,
    v: Seq<u32>,
    draw: int,
)
    requires
        dim > 0,
        0 <= m,
        0 <= n,
        0 <= lim,
        0 <= draw,
        v.len() == dim,
        m == (if n < lim {
            n
        } else {
            lim
        }),
        sample.len() == m * dim,
        vectors.len() == n * dim,
        drawn_from(sample, vectors, dim, m, n),
    ensures
        drawn_from(
            resampled(sample, dim, lim as nat, v, draw),
            vectors + v,
            dim,
            if n < lim {
                m + 1
            } else {
                m
            },
            n + 1,
        ),
        resampled(sample, dim, lim as nat, v, draw).len() == (if n < lim {
            m + 1
        } else {
            m
        }) * dim,
{
    let after = resampled(sample, dim, lim as nat, v, draw);
    let all = vectors + v;
    let m2 = if n < lim {
        m + 1
    } else {
        m
    };
    assert(m * dim < lim * dim <==> m < lim) by (nonlinear_arith)
        requires
            dim > 0,
    ;
    assert(m * dim + dim == (m + 1) * dim) by (nonlinear_arith);
    assert(n * dim + dim == (n + 1) * dim) by (nonlinear_arith);
    if n >= lim && draw < lim {
        floats::row_fits(dim, draw, m);
    }
    assert(floats::row_of(all, dim, n) =~= v);
    assert forall|s: int| 0 <= s < m2 implies exists|i: int|
        0 <= i < n + 1 && #[trigger] floats::row_of(all, dim, i) == #[trigger] floats::row_of(
            after,
            dim,
            s,
        ) by {
        if (n < lim && s == m) || (n >= lim && s == draw) {
            assert(floats::row_of(after, dim, s) =~= v);
            assert(floats::row_of(all, dim, n) == floats::row_of(after, dim, s));
        } else {
            floats::row_fits(dim, s, m);
            if n >= lim && draw < lim {
                if s < draw {
                    floats::row_fits(dim, s, draw);
                } else {
                    floats::row_fits(dim, draw, s);
                }
            }
            assert(floats::row_of(after, dim, s) =~= floats::row_of(sample, dim, s));
            let i = choose|i: int|
                0 <= i < n && #[trigger] floats::row_of(vectors, dim, i) == floats::row_of(
                    sample,
                    dim,
                    s,
                );
            floats::row_fits(dim, i, n);
            assert(floats::row_of(all, dim, i) =~= floats::row_of(vectors, dim, i));
        }
    }
}

} // verus!
