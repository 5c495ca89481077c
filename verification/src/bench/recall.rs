//! How many of the nearest vectors a search has found.
use crate::floats::measure;
use crate::floats::row;
use crate::topk::{Candidate, TopK};
use crate::vector_index::VectorSearchResult;
use vstd::prelude::*;

verus! {

/// The neighbours that a search should find: the first `k` of those that are below
/// `available`. If `k` is zero they are all taken, but none if the first neighbour
/// is not available.
pub open spec fn expected(truth: Seq<u32>, k: nat, available: u32) -> Seq<u32> {
    let there = truth.filter(|n: u32| n < available);
    if k == 0 {
        if truth.len() > 0 && truth[0] >= available {
            Seq::empty()
        } else {
            there
        }
    } else if there.len() < k {
        there
    } else {
        there.take(k as int)
    }
}

/// Whether a number is among others.
pub fn is_among(v: &[u32], x: u32) -> (r: bool)
    ensures
        r == v@.contains(x),
{
    let n: usize = v.len();
    let mut i: usize = 0;
    while i < n
        invariant
            n == v@.len(),
            i <= n,
            forall|j: int| 0 <= j < i ==> v@[j] != x,
        decreases n - i,
    {
        if v[i] == x {
            assert(v@[i as int] == x);
            return true;
        }
        i = i + 1;
    }
    false
}

/// The numbers of a list, each once.
pub fn distinct(v: &[u32]) -> (r: Vec<u32>)
    ensures
        r@.no_duplicates(),
        r@.to_set() == v@.to_set(),
{
    let n: usize = v.len();
    let mut out: Vec<u32> = Vec::new();
    let mut i: usize = 0;
    while i < n
        invariant
            n == v@.len(),
            i <= n,
            out@.no_duplicates(),
            forall|x: u32| out@.contains(x) <==> v@.take(i as int).contains(x),
        decreases n - i,
    {
        let x: u32 = v[i];
        let ghost before = out@;
        let ghost seen = v@.take(i as int);
        if !is_among(out.as_slice(), x) {
            out.push(x);
        }
        proof {
            let now = v@.take(i + 1);
            assert(now =~= seen.push(x));
            assert forall|y: u32| out@.contains(y) <==> now.contains(y) by {
                assert(out@.contains(y) <==> before.contains(y) || y == x) by {
                    if before.contains(y) {
                        let j = choose|j: int| 0 <= j < before.len() && before[j] == y;
                        assert(out@[j] == y);
                    }
                    if y == x && !before.contains(x) {
                        assert(out@[before.len() as int] == y);
                    }
                }
                assert(now.contains(y) <==> seen.contains(y) || y == x) by {
                    if seen.contains(y) {
                        let j = choose|j: int| 0 <= j < seen.len() && seen[j] == y;
                        assert(now[j] == y);
                    }
                    assert(now[seen.len() as int] == x);
                }
            }
        }
        i = i + 1;
    }
    assert(v@.take(n as int) =~= v@);
    assert(out@.to_set() =~= v@.to_set());
    out
}

/// The neighbours that a search should find, each once.
pub fn build_expected_set(truth_row: &[u32], k: usize, available_rows: usize) -> (r: Vec<u32>)
    ensures
        r@.no_duplicates(),
        r@.to_set() == expected(truth_row@, k as nat, available_rows as u32).to_set(),
{
    let available: u32 = #[verifier::truncate]
    (available_rows as u32);
    let ghost there = |n: u32| n < available;
    let n: usize = truth_row.len();
    let mut kept: Vec<u32> = Vec::new();
    let mut i: usize = 0;
    assert(truth_row@.take(0).filter(there) =~= Seq::empty()) by {
        reveal_with_fuel(Seq::filter, 1);
    }
    while i < n && !(i > 0 && kept.len() == k)
        invariant
            n == truth_row@.len(),
            i <= n,
            there == (|n: u32| n < available),
            kept@ == truth_row@.take(i as int).filter(there),
            k > 0 ==> kept@.len() <= k,
            k == 0 && i > 0 && kept@.len() == 0 ==> i == 1 && truth_row@[0] >= available,
            k == 0 && i > 0 && kept@.len() > 0 ==> truth_row@[0] < available,
        decreases n - i,
    {
        let x: u32 = truth_row[i];
        proof {
            let next = truth_row@.take(i + 1);
            assert(next.drop_last() =~= truth_row@.take(i as int));
            assert(next.last() == x);
            reveal_with_fuel(Seq::filter, 1);
        }
        if x < available {
            kept.push(x);
        }
        i = i + 1;
    }
    proof {
        let t = truth_row@;
        filter_in_parts(t.take(i as int), t.skip(i as int), there);
        assert(t.take(i as int) + t.skip(i as int) =~= t);
        let all = t.filter(there);
        if i == n {
            assert(t.take(i as int) =~= t);
            assert(all.take(all.len() as int) =~= all);
        } else {
            assert(all.take(kept@.len() as int) =~= kept@);
        }
        assert(kept@ =~= expected(t, k as nat, available));
    }
    distinct(kept.as_slice())
}

proof fn filter_in_parts(a: Seq<u32>, b: Seq<u32>, p: spec_fn(u32) -> bool)
    ensures
        (a + b).filter(p) == a.filter(p) + b.filter(p),
    decreases b.len(),
{
    reveal_with_fuel(Seq::filter, 1);
    if b.len() == 0 {
        assert(a + b =~= a);
        assert(b.filter(p) =~= Seq::empty());
        assert(a.filter(p) + b.filter(p) =~= a.filter(p));
    } else {
        filter_in_parts(a, b.drop_last(), p);
        assert((a + b).drop_last() =~= a + b.drop_last());
        assert((a + b).last() == b.last());
        if p(b.last()) {
            assert(a.filter(p) + b.drop_last().filter(p).push(b.last()) =~= (a.filter(p)
                + b.drop_last().filter(p)).push(b.last()));
        }
    }
}

/// How many results are among the expected neighbours.
pub open spec fn hits(results: Seq<VectorSearchResult>, wanted: Set<u32>) -> nat
    decreases results.len(),
{
    if results.len() == 0 {
        0
    } else {
        hits(results.drop_last(), wanted) + (if wanted.contains(results.last().row_id as u32) {
            1nat
        } else {
            0
        })
    }
}

/// How many results were right and how many there should have been.
#[derive(Clone, Copy, Debug, PartialEq, Eq, Structural)]
pub struct Tally {
    pub hits: u128,
    pub targets: u128,
}

/// What the first `n` queries add up to.
pub open spec fn tally(
    results: Seq<Vec<VectorSearchResult>>,
    truth: Seq<Vec<u32>>,
    k: nat,
    available: u32,
    n: int,
) -> (int, int)
    decreases n,
{
    if n <= 0 {
        (0, 0)
    } else {
        let (h, t) = tally(results, truth, k, available, n - 1);
        let wanted = expected(truth[n - 1]@, k, available).to_set();
        (h + hits(results[n - 1]@, wanted), t + wanted.len())
    }
}

/// Why results cannot be judged.
#[derive(Clone, Copy, Debug, PartialEq, Eq, Structural)]
pub enum EvaluationError {
    NoQueries,
    /// There are fewer rows of true neighbours than queries.
    TruthTooShort { truth: usize, queries: usize },
    ZeroBatch,
    /// A batch has another number of results than queries.
    BatchCount { results: usize, queries: usize },
}

/// Counts the results that are among the expected neighbours.
pub fn count_hits(results: &[VectorSearchResult], wanted: &[u32]) -> (r: usize)
    ensures
        r == hits(results@, wanted@.to_set()),
        r <= results@.len(),
{
    let n: usize = results.len();
    let mut count: usize = 0;
    let mut i: usize = 0;
    assert(results@.take(0) =~= Seq::empty());
    while i < n
        invariant
            n == results@.len(),
            i <= n,
            count <= i,
            count == hits(results@.take(i as int), wanted@.to_set()),
        decreases n - i,
    {
        let row_id: u32 = #[verifier::truncate]
        (results[i].row_id as u32);
        proof {
            let next = results@.take(i + 1);
            assert(next.drop_last() =~= results@.take(i as int));
            assert(next.last() == results@[i as int]);
        }
        if is_among(wanted, row_id) {
            count = count + 1;
        }
        i = i + 1;
    }
    assert(results@.take(n as int) =~= results@);
    count
}

/// What is wrong with the numbers of queries and of rows of true neighbours.
pub open spec fn counts_error(queries: int, truth: int) -> Option<EvaluationError> {
    if queries == 0 {
        Some(EvaluationError::NoQueries)
    } else if truth < queries {
        Some(
            EvaluationError::TruthTooShort { truth: truth as usize, queries: queries as usize },
        )
    } else {
        None
    }
}

/// Judges the results of queries, one list for each.
pub fn evaluate_recall(
    results: &[Vec<VectorSearchResult>],
    truth: &[Vec<u32>],
    k: usize,
    available_rows: usize,
) -> (r: Result<Tally, EvaluationError>)
    ensures
        match counts_error(results@.len() as int, truth@.len() as int) {
            Some(e) => r == Err::<Tally, EvaluationError>(e),
            None => r is Ok && (r->Ok_0.hits as int, r->Ok_0.targets as int) == tally(
                results@,
                truth@,
                k as nat,
                available_rows as u32,
                results@.len() as int,
            ),
        },
{
    let n: usize = results.len();
    if n == 0 {
        return Err(EvaluationError::NoQueries);
    }
    if truth.len() < n {
        return Err(EvaluationError::TruthTooShort { truth: truth.len(), queries: n });
    }
    let mut sum = Tally { hits: 0, targets: 0 };
    let mut i: usize = 0;
    while i < n
        invariant
            n == results@.len(),
            n <= truth@.len(),
            i <= n,
            sum.is_sum(results@, truth@, k, available_rows, i as int),
        decreases n - i,
    {
        sum.judge(results[i].as_slice(), truth[i].as_slice(), k, available_rows, i);
        i = i + 1;
    }
    Ok(sum)
}

impl Tally {
    /// Whether this is what the first `n` queries add up to.
    pub open spec fn is_sum(
        self,
        results: Seq<Vec<VectorSearchResult>>,
        truth: Seq<Vec<u32>>,
        k: usize,
        available_rows: usize,
        n: int,
    ) -> bool {
        &&& (self.hits as int, self.targets as int) == tally(
            results,
            truth,
            k as nat,
            available_rows as u32,
            n,
        )
        &&& self.hits <= n * usize::MAX
        &&& self.targets <= n * usize::MAX
    }

    /// Adds the results of a query to those of `n` others.
    pub fn judge(
        &mut self,
        results: &[VectorSearchResult],
        truth_row: &[u32],
        k: usize,
        available_rows: usize,
        n: usize,
    )
        requires
            n < usize::MAX,
            old(self).hits <= n * usize::MAX,
            old(self).targets <= n * usize::MAX,
        ensures
            ({
                let wanted = expected(truth_row@, k as nat, available_rows as u32).to_set();
                &&& final(self).hits == old(self).hits + hits(results@, wanted)
                &&& final(self).targets == old(self).targets + wanted.len()
            }),
            final(self).hits <= (n + 1) * usize::MAX,
            final(self).targets <= (n + 1) * usize::MAX,
    {
        let wanted = build_expected_set(truth_row, k, available_rows);
        let found: usize = count_hits(results, wanted.as_slice());
        let size: usize = wanted.len();
        proof {
            wanted@.unique_seq_to_set();
            assert((n + 1) * usize::MAX == n * usize::MAX + usize::MAX) by (nonlinear_arith);
            assert((n + 1) * usize::MAX <= u128::MAX) by (nonlinear_arith)
                requires
                    n < usize::MAX,
                    usize::MAX <= u64::MAX,
            ;
        }
        self.hits = self.hits + found as u128;
        self.targets = self.targets + size as u128;
    }
}

/// Where the batch that starts at `start` ends.
pub open spec fn batch_end(start: int, batch_size: int, queries: int) -> int {
    if start + batch_size < queries {
        start + batch_size
    } else {
        queries
    }
}

/// Where the batch of queries that starts at `start` ends.
pub fn next_batch(start: usize, batch_size: usize, queries: usize) -> (r: usize)
    requires
        start <= queries,
    ensures
        r == batch_end(start as int, batch_size as int, queries as int),
{
    if batch_size < queries - start {
        start + batch_size
    } else {
        queries
    }
}

/// The results of batches one behind the other, or the first batch whose number
/// of results is not that of its queries.
pub open spec fn unbatched(
    batches: Seq<Vec<Vec<VectorSearchResult>>>,
    start: int,
    batch_size: int,
    queries: int,
) -> Result<Seq<Vec<VectorSearchResult>>, EvaluationError>
    decreases batches.len(),
{
    if batches.len() == 0 {
        Ok(Seq::empty())
    } else {
        let end = batch_end(start, batch_size, queries);
        if batches[0]@.len() != end - start {
            Err(
                EvaluationError::BatchCount {
                    results: batches[0]@.len() as usize,
                    queries: (end - start) as usize,
                },
            )
        } else {
            match unbatched(batches.drop_first(), end, batch_size, queries) {
                Ok(s) => Ok(batches[0]@ + s),
                Err(e) => Err(e),
            }
        }
    }
}

proof fn tally_of_prefix(
    a: Seq<Vec<VectorSearchResult>>,
    b: Seq<Vec<VectorSearchResult>>,
    truth: Seq<Vec<u32>>,
    k: nat,
    available: u32,
    n: int,
)
    requires
        n <= a.len(),
        n <= b.len(),
        forall|i: int| 0 <= i < n ==> a[i] == b[i],
    ensures
        tally(a, truth, k, available, n) == tally(b, truth, k, available, n),
    decreases n,
{
    if n > 0 {
        tally_of_prefix(a, b, truth, k, available, n - 1);
    }
}

/// Judges the results of queries that were asked in batches, one list of results
/// for each batch.
pub fn evaluate_recall_batch(
    queries: usize,
    batches: &[Vec<Vec<VectorSearchResult>>],
    truth: &[Vec<u32>],
    k: usize,
    available_rows: usize,
    batch_size: usize,
) -> (r: Result<Tally, EvaluationError>)
    ensures
        match counts_error(queries as int, truth@.len() as int) {
            Some(e) => r == Err::<Tally, EvaluationError>(e),
            None => if batch_size == 0 {
                r == Err::<Tally, EvaluationError>(EvaluationError::ZeroBatch)
            } else {
                match unbatched(batches@, 0, batch_size as int, queries as int) {
                    Err(e) => r == Err::<Tally, EvaluationError>(e),
                    Ok(s) => r is Ok && (r->Ok_0.hits as int, r->Ok_0.targets as int) == tally(
                        s,
                        truth@,
                        k as nat,
                        available_rows as u32,
                        s.len() as int,
                    ),
                }
            },
        },
{
    if queries == 0 {
        return Err(EvaluationError::NoQueries);
    }
    if truth.len() < queries {
        return Err(EvaluationError::TruthTooShort { truth: truth.len(), queries });
    }
    if batch_size == 0 {
        return Err(EvaluationError::ZeroBatch);
    }
    let ghost all = unbatched(batches@, 0, batch_size as int, queries as int);
    let ghost mut done: Seq<Vec<VectorSearchResult>> = Seq::empty();
    let n: usize = batches.len();
    let mut sum = Tally { hits: 0, targets: 0 };
    let mut idx: usize = 0;
    let mut b: usize = 0;
    proof {
        assert(batches@.skip(0) =~= batches@);
        assert(all is Ok ==> done + all->Ok_0 =~= all->Ok_0);
    }
    while b < n
        invariant
            n == batches@.len(),
            b <= n,
            batch_size > 0,
            queries > 0,
            idx <= queries <= truth@.len(),
            idx == done.len(),
            all == (match unbatched(
                batches@.skip(b as int),
                idx as int,
                batch_size as int,
                queries as int,
            ) {
                Ok(s) => Ok(done + s),
                Err(e) => Err(e),
            }),
            all == unbatched(batches@, 0, batch_size as int, queries as int),
            sum.is_sum(done, truth@, k, available_rows, idx as int),
        decreases n - b,
    {
        let end: usize = next_batch(idx, batch_size, queries);
        let batch = &batches[b];
        let m: usize = batch.len();
        let ghost rest = batches@.skip(b as int);
        assert(rest[0] == *batch);
        assert(rest.drop_first() =~= batches@.skip(b + 1));
        if m != end - idx {
            return Err(EvaluationError::BatchCount { results: m, queries: end - idx });
        }
        let ghost before = done;
        let mut j: usize = 0;
        proof {
            assert(before + batch@.take(0) =~= before);
        }
        while j < m
            invariant
                m == batch@.len(),
                j <= m,
                idx + m == end,
                end <= queries <= truth@.len(),
                idx == before.len(),
                sum.is_sum(before + batch@.take(j as int), truth@, k, available_rows, idx + j),
            decreases m - j,
        {
            let at: usize = idx + j;
            sum.judge(batch[j].as_slice(), truth[at].as_slice(), k, available_rows, at);
            proof {
                let past = before + batch@.take(j as int);
                let now = before + batch@.take(j + 1);
                assert(now =~= past.push(batch@[j as int]));
                tally_of_prefix(past, now, truth@, k as nat, available_rows as u32, at as int);
            }
            j = j + 1;
        }
        proof {
            done = before + batch@;
            assert(batch@.take(m as int) =~= batch@);
            let more = unbatched(
                batches@.skip(b + 1),
                end as int,
                batch_size as int,
                queries as int,
            );
            assert(more is Ok ==> before + (batch@ + more->Ok_0) =~= done + more->Ok_0);
        }
        idx = end;
        b = b + 1;
    }
    proof {
        assert(batches@.skip(n as int).len() == 0);
        assert(done + Seq::<Vec<VectorSearchResult>>::empty() =~= done);
    }
    Ok(sum)
}

/// How many numbers two lists have in common.
pub fn common_count(a: &[u32], b: &[u32]) -> (r: usize)
    ensures
        r == a@.to_set().intersect(b@.to_set()).len(),
{
    let left = distinct(a);
    let n: usize = left.len();
    let mut shared: Vec<u32> = Vec::new();
    let mut i: usize = 0;
    while i < n
        invariant
            n == left@.len(),
            i <= n,
            left@.no_duplicates(),
            shared@.len() <= i,
            shared@.no_duplicates(),
            forall|x: u32| shared@.contains(x) <==> left@.take(i as int).contains(x) && b@.contains(x),
        decreases n - i,
    {
        let x: u32 = left[i];
        let ghost before = shared@;
        let ghost seen = left@.take(i as int);
        proof {
            if seen.contains(x) {
                let j = choose|j: int| 0 <= j < seen.len() && seen[j] == x;
                assert(left@[j] == left@[i as int]);
            }
        }
        if is_among(b, x) {
            shared.push(x);
        }
        proof {
            let now = left@.take(i + 1);
            assert(now =~= seen.push(x));
            assert forall|y: u32| shared@.contains(y) <==> now.contains(y) && b@.contains(y) by {
                assert(now.contains(y) <==> seen.contains(y) || y == x) by {
                    if seen.contains(y) {
                        let j = choose|j: int| 0 <= j < seen.len() && seen[j] == y;
                        assert(now[j] == y);
                    }
                    assert(now[seen.len() as int] == x);
                }
                if before.contains(y) {
                    let j = choose|j: int| 0 <= j < before.len() && before[j] == y;
                    assert(shared@[j] == y);
                }
                if y == x && b@.contains(x) {
                    assert(shared@[before.len() as int] == y);
                }
            }
        }
        i = i + 1;
    }
    proof {
        assert(left@.take(n as int) =~= left@);
        shared@.unique_seq_to_set();
        assert forall|x: u32| shared@.to_set().contains(x) <==> a@.to_set().intersect(
            b@.to_set(),
        ).contains(x) by {
            assert(left@.contains(x) <==> left@.to_set().contains(x));
        }
        assert(shared@.to_set() =~= a@.to_set().intersect(b@.to_set()));
    }
    shared.len()
}

/// All vectors with their distances from a query. A place that has no 32-bit
/// number is cut to one.
pub open spec fn distances<F: Fn(&[u32], &[u32]) -> u32>(
    vectors: Seq<u32>,
    dim: nat,
    query: Seq<u32>,
    f: F,
) -> Seq<Candidate> {
    Seq::new(
        vectors.len() / dim,
        |i: int|
            Candidate {
                distance: crate::floats::distance(
                    f,
                    query,
                    crate::floats::row_of(vectors, dim, i),
                ),
                id: i as u64,
            },
    )
}

/// The rows of the `k` vectors that are nearest to a query, the nearest first and
/// of equally near ones the earlier first.
pub fn exact_topk_row_ids<F: Fn(&[u32], &[u32]) -> u32>(
    vectors: &[u32],
    dim: usize,
    query: &[u32],
    k: usize,
    f: &F,
) -> (r: Vec<u32>)
    requires
        crate::floats::is_distance(*f),
    ensures
        r@ == crate::topk::nearest(
            distances(
                vectors@,
                (if dim == 0 {
                    1
                } else {
                    dim
                }) as nat,
                query@,
                *f,
            ),
            k as nat,
        ).map_values(|c: Candidate| c.id as u32),
{
    let width: usize = if dim == 0 { 1 } else { dim };
    let total: usize = vectors.len();
    let n: usize = total / width;
    let ghost all = distances(vectors@, width as nat, query@, *f);
    assert(n * width <= total) by (nonlinear_arith)
        requires
            n == total as int / width as int,
            width > 0,
    ;
    let mut top = TopK::new(k);
    let mut i: usize = 0;
    assert(all.take(0) =~= Seq::empty());
    while i < n
        invariant
            crate::floats::is_distance(*f),
            width > 0,
            n * width <= vectors@.len(),
            n == vectors@.len() / width as nat,
            n == all.len(),
            i <= n,
            all == distances(vectors@, width as nat, query@, *f),
            top.limit() == k,
            top@ == crate::topk::nearest(all.take(i as int), k as nat),
        decreases n - i,
    {
        let distance: u32 = measure(f, query, row(vectors, width, i, n));
        top.offer(Candidate { distance, id: i as u64 });
        proof {
            assert(all[i as int] == (Candidate { distance, id: i as u64 }));
            let next = all.take(i + 1);
            assert(next.drop_last() =~= all.take(i as int));
            assert(next.last() == all[i as int]);
        }
        i = i + 1;
    }
    assert(all.take(n as int) =~= all);
    let ranked = top.into_ranked();
    let m: usize = ranked.len();
    let ghost ids = ranked@.map_values(|c: Candidate| c.id as u32);
    let mut out: Vec<u32> = Vec::new();
    let mut j: usize = 0;
    while j < m
        invariant
            m == ranked@.len(),
            j <= m,
            ids == ranked@.map_values(|c: Candidate| c.id as u32),
            out@ =~= ids.take(j as int),
        decreases m - j,
    {
        out.push(
            #[verifier::truncate]
            (ranked[j].id as u32),
        );
        j = j + 1;
    }
    assert(out@ =~= ids);
    out
}

} // verus!
