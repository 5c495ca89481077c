//! Vector columns: their small indexes per block, and their rows as bytes.
use crate::floats;
use crate::ivf_assign;
use crate::ivf_file;
use crate::le;
use crate::num;
use vstd::prelude::*;

verus! {

broadcast use crate::le::sizes;

/// A small index of the vectors of one block.
#[derive(Debug)]
pub struct MicroIndexBlob {
    pub dim: u32,
    pub k: u32,
    /// The centroids, one behind the other.
    pub centroids: Vec<u32>,
    /// For each centroid the rows nearest to it, as runs of (start, length).
    pub bucket_spans: Vec<Vec<(u32, u32)>>,
}

/// What a small index holds.
#[verifier::ext_equal]
pub struct MicroBlob {
    pub dim: u32,
    pub k: u32,
    pub centroids: Seq<u32>,
    pub bucket_spans: Seq<Seq<(u32, u32)>>,
}

/// Why bytes are not those of a small index.
#[derive(Clone, Copy, Debug, PartialEq, Eq, Structural)]
pub enum MicroBlobError {
    TooSmall,
    Magic,
    Version,
    TruncatedCentroids,
    TruncatedSpans,
    TruncatedSpanEntries,
}

/// What the buckets hold.
pub open spec fn buckets_of(v: Seq<Vec<(u32, u32)>>) -> Seq<Seq<(u32, u32)>> {
    v.map_values(|b: Vec<(u32, u32)>| b@)
}

impl View for MicroIndexBlob {
    type V = MicroBlob;

    open spec fn view(&self) -> MicroBlob {
        MicroBlob {
            dim: self.dim,
            k: self.k,
            centroids: self.centroids@,
            bucket_spans: buckets_of(self.bucket_spans@),
        }
    }
}

impl MicroBlob {
    /// Whether the index has `k` centroids and a bucket for each.
    pub open spec fn complete(self) -> bool {
        &&& self.centroids.len() == self.dim * self.k
        &&& self.bucket_spans.len() == self.k
        &&& forall|i: int|
            0 <= i < self.bucket_spans.len() ==> (#[trigger] self.bucket_spans[i]).len() <= u32::MAX
    }
}

/// The first bytes of a small index: `MIVF`.
pub open spec fn magic_bytes() -> Seq<u8> {
    seq![0x4du8, 0x49u8, 0x56u8, 0x46u8]
}

/// The bytes of runs.
pub open spec fn span_bytes(spans: Seq<(u32, u32)>) -> Seq<u8>
    decreases spans.len(),
{
    if spans.len() == 0 {
        Seq::empty()
    } else {
        span_bytes(spans.drop_last()) + le::bytes_of_u32(spans.last().0) + le::bytes_of_u32(
            spans.last().1,
        )
    }
}

/// The bytes of buckets: of each, how many runs there are, and the runs.
pub open spec fn bucket_bytes(buckets: Seq<Seq<(u32, u32)>>) -> Seq<u8>
    decreases buckets.len(),
{
    if buckets.len() == 0 {
        Seq::empty()
    } else {
        bucket_bytes(buckets.drop_last()) + le::bytes_of_u32(buckets.last().len() as u32)
            + span_bytes(buckets.last())
    }
}

/// The sixteen bytes in front of the centroids.
pub open spec fn blob_header(dim: u32, k: u32) -> Seq<u8> {
    magic_bytes() + le::bytes_of_u32(1) + le::bytes_of_u32(dim) + le::bytes_of_u32(k)
}

/// The bytes of a small index.
pub open spec fn blob_bytes(b: MicroBlob) -> Seq<u8> {
    blob_header(b.dim, b.k) + le::bytes_of_u32s(b.centroids) + bucket_bytes(b.bucket_spans)
}

/// The `n` runs that stand at `at`.
pub open spec fn spans_at(buf: Seq<u8>, at: int, n: nat) -> Seq<(u32, u32)> {
    Seq::new(
        n,
        |i: int| (ivf_file::u32_at(buf, at + 8 * i), ivf_file::u32_at(buf, at + 8 * i + 4)),
    )
}

/// The `k` buckets that stand at `at`, and where they end.
pub open spec fn buckets_at(buf: Seq<u8>, at: int, k: nat) -> Result<
    (Seq<Seq<(u32, u32)>>, int),
    MicroBlobError,
>
    decreases k,
{
    if k == 0 {
        Ok((Seq::empty(), at))
    } else {
        match buckets_at(buf, at, (k - 1) as nat) {
            Err(e) => Err(e),
            Ok((front, end)) => {
                let count = ivf_file::u32_at(buf, end);
                if buf.len() < end + 4 {
                    Err(MicroBlobError::TruncatedSpans)
                } else if buf.len() < end + 4 + 8 * count {
                    Err(MicroBlobError::TruncatedSpanEntries)
                } else {
                    Ok((front.push(spans_at(buf, end + 4, count as nat)), end + 4 + 8 * count))
                }
            },
        }
    }
}

/// The small index that bytes hold. Bytes behind it do not matter.
pub open spec fn blob_of(buf: Seq<u8>) -> Result<MicroBlob, MicroBlobError> {
    let dim = ivf_file::u32_at(buf, 8);
    let k = ivf_file::u32_at(buf, 12);
    let end = 16 + 4 * (dim * k);
    if buf.len() < 16 {
        Err(MicroBlobError::TooSmall)
    } else if buf.subrange(0, 4) != magic_bytes() {
        Err(MicroBlobError::Magic)
    } else if ivf_file::u32_at(buf, 4) != 1 {
        Err(MicroBlobError::Version)
    } else if buf.len() < end {
        Err(MicroBlobError::TruncatedCentroids)
    } else {
        match buckets_at(buf, end, k as nat) {
            Err(e) => Err(e),
            Ok((bucket_spans, _)) => Ok(
                MicroBlob { dim, k, centroids: le::u32s_of(buf.subrange(16, end)), bucket_spans },
            ),
        }
    }
}

/// Whether `r` is this outcome.
pub open spec fn is_blob(
    r: Result<MicroIndexBlob, MicroBlobError>,
    outcome: Result<MicroBlob, MicroBlobError>,
) -> bool {
    match outcome {
        Ok(b) => r is Ok && r->Ok_0@ == b,
        Err(e) => r is Err && r->Err_0 == e,
    }
}

/// Writes a small index.
pub fn serialize_micro_blob(blob: &MicroIndexBlob) -> (r: Vec<u8>)
    ensures
        r@ == blob_bytes(blob@),
{
    let mut out: Vec<u8> = Vec::new();
    out.push(0x4d);
    out.push(0x49);
    out.push(0x56);
    out.push(0x46);
    assert(out@ =~= magic_bytes());
    le::put_u32(&mut out, 1);
    le::put_u32(&mut out, blob.dim);
    le::put_u32(&mut out, blob.k);
    let mut i: usize = 0;
    assert(le::bytes_of_u32s(blob.centroids@.take(0)) =~= Seq::empty());
    while i < blob.centroids.len()
        invariant
            i <= blob.centroids@.len(),
            out@ == blob_header(blob.dim, blob.k) + le::bytes_of_u32s(
                blob.centroids@.take(i as int),
            ),
        decreases blob.centroids@.len() - i,
    {
        let ghost before = blob.centroids@.take(i as int);
        le::put_u32(&mut out, blob.centroids[i]);
        proof {
            assert(blob.centroids@.take(i + 1) =~= before.push(blob.centroids@[i as int]));
            u32s_grow(before, blob.centroids@[i as int]);
            assert(out@ =~= blob_header(blob.dim, blob.k) + le::bytes_of_u32s(
                blob.centroids@.take(i + 1),
            ));
        }
        i = i + 1;
    }
    assert(blob.centroids@.take(i as int) =~= blob.centroids@);
    let ghost front = out@;
    let ghost buckets = buckets_of(blob.bucket_spans@);
    let mut b: usize = 0;
    assert(buckets.take(0) =~= Seq::empty());
    while b < blob.bucket_spans.len()
        invariant
            b <= blob.bucket_spans@.len(),
            buckets == buckets_of(blob.bucket_spans@),
            out@ == front + bucket_bytes(buckets.take(b as int)),
        decreases blob.bucket_spans@.len() - b,
    {
        let spans = &blob.bucket_spans[b];
        assert(blob@.bucket_spans[b as int] == spans@);
        le::put_u32(&mut out, spans.len() as u32);
        let ghost mid = out@;
        let mut j: usize = 0;
        assert(spans@.take(0) =~= Seq::empty());
        assert(out@ =~= mid + span_bytes(spans@.take(0)));
        while j < spans.len()
            invariant
                j <= spans@.len(),
                out@ == mid + span_bytes(spans@.take(j as int)),
            decreases spans@.len() - j,
        {
            le::put_u32(&mut out, spans[j].0);
            le::put_u32(&mut out, spans[j].1);
            proof {
                let next = spans@.take(j + 1);
                assert(next.drop_last() =~= spans@.take(j as int));
                assert(out@ =~= mid + span_bytes(next));
            }
            j = j + 1;
        }
        proof {
            assert(spans@.take(j as int) =~= spans@);
            let next = buckets.take(b + 1);
            assert(next.drop_last() =~= buckets.take(b as int));
            assert(next.last() == spans@);
            assert(out@ =~= front + bucket_bytes(next));
        }
        b = b + 1;
    }
    assert(buckets.take(b as int) =~= buckets);
    out
}

/// One more number is four more bytes.
pub proof fn u32s_grow(v: Seq<u32>, x: u32)
    ensures
        le::bytes_of_u32s(v.push(x)) == le::bytes_of_u32s(v) + le::bytes_of_u32(x),
{
    let a = le::bytes_of_u32s(v.push(x));
    let b = le::bytes_of_u32s(v) + le::bytes_of_u32(x);
    assert forall|i: int| 0 <= i < a.len() implies a[i] == b[i] by {
        if i >= 4 * v.len() {
            assert(i / 4 == v.len() && i % 4 == i - 4 * v.len());
        }
    }
    assert(a =~= b);
}

/// Reads a small index.
pub fn parse_micro_blob(buf: &[u8]) -> (r: Result<MicroIndexBlob, MicroBlobError>)
    ensures
        is_blob(r, blob_of(buf@)),
{
    let n: usize = buf.len();
    if n < 16 {
        return Err(MicroBlobError::TooSmall);
    }
    proof {
        assert(buf@.subrange(0, 4) =~= seq![buf@[0], buf@[1], buf@[2], buf@[3]]);
        let m = magic_bytes();
        assert(buf@.subrange(0, 4) == m ==> buf@[0] == m[0] && buf@[1] == m[1] && buf@[2] == m[2]
            && buf@[3] == m[3]) by {
            let s = buf@.subrange(0, 4);
            assert(s[0] == buf@[0] && s[1] == buf@[1] && s[2] == buf@[2] && s[3] == buf@[3]);
        }
    }
    if !(buf[0] == 0x4d && buf[1] == 0x49 && buf[2] == 0x56 && buf[3] == 0x46) {
        return Err(MicroBlobError::Magic);
    }
    if ivf_file::get_u32_at(buf, 4) != 1 {
        return Err(MicroBlobError::Version);
    }
    let dim: u32 = ivf_file::get_u32_at(buf, 8);
    let k: u32 = ivf_file::get_u32_at(buf, 12);
    let cells: u128 = num::product_u64(dim as u64, k as u64);
    assert(dim * k <= 0xffff_ffff * 0xffff_ffff) by (nonlinear_arith)
        requires
            dim <= 0xffff_ffff,
            k <= 0xffff_ffff,
    ;
    if (n as u128) < 16 + 4 * cells {
        return Err(MicroBlobError::TruncatedCentroids);
    }
    let end: usize = 16 + 4 * (cells as usize);
    let centroids = le::get_u32s(&buf[16..end]);
    let mut bucket_spans: Vec<Vec<(u32, u32)>> = Vec::new();
    let mut offset: usize = end;
    let mut b: u32 = 0;
    assert(buckets_of(bucket_spans@) =~= Seq::empty());
    while b < k
        invariant
            b <= k,
            n == buf@.len(),
            offset <= n,
            end <= n,
            end == 16 + 4 * (dim * k),
            dim == ivf_file::u32_at(buf@, 8),
            k == ivf_file::u32_at(buf@, 12),
            buf@.subrange(0, 4) == magic_bytes(),
            ivf_file::u32_at(buf@, 4) == 1,
            n >= 16,
            buckets_at(buf@, end as int, b as nat) == Ok::<
                (Seq<Seq<(u32, u32)>>, int),
                MicroBlobError,
            >((buckets_of(bucket_spans@), offset as int)),
        decreases k - b,
    {
        if n - offset < 4 {
            proof {
                buckets_stop(buf@, end as int, b as nat + 1, k as nat);
            }
            return Err(MicroBlobError::TruncatedSpans);
        }
        let count: u32 = ivf_file::get_u32_at(buf, offset);
        let at: usize = offset + 4;
        if ((n - at) as u128) < 8 * (count as u128) {
            proof {
                buckets_stop(buf@, end as int, b as nat + 1, k as nat);
            }
            return Err(MicroBlobError::TruncatedSpanEntries);
        }
        let mut spans: Vec<(u32, u32)> = Vec::new();
        let mut j: usize = 0;
        while j < count as usize
            invariant
                j <= count,
                n == buf@.len(),
                at + 8 * count <= n,
                spans@ =~= spans_at(buf@, at as int, j as nat),
            decreases count - j,
        {
            let start: u32 = ivf_file::get_u32_at(buf, at + 8 * j);
            let len: u32 = ivf_file::get_u32_at(buf, at + 8 * j + 4);
            spans.push((start, len));
            j = j + 1;
        }
        let ghost before = bucket_spans@;
        bucket_spans.push(spans);
        assert(buckets_of(bucket_spans@) =~= buckets_of(before).push(spans@));
        offset = at + 8 * (count as usize);
        b = b + 1;
    }
    Ok(MicroIndexBlob { dim, k, centroids, bucket_spans })
}

proof fn span_bytes_len(spans: Seq<(u32, u32)>)
    ensures
        span_bytes(spans).len() == 8 * spans.len(),
    decreases spans.len(),
{
    if spans.len() > 0 {
        span_bytes_len(spans.drop_last());
    }
}

/// The runs that were written at `at` are read there.
proof fn spans_read_back(buf: Seq<u8>, at: int, spans: Seq<(u32, u32)>)
    requires
        0 <= at,
        at + 8 * spans.len() <= buf.len(),
        buf.subrange(at, at + 8 * spans.len()) == span_bytes(spans),
    ensures
        spans_at(buf, at, spans.len()) == spans,
    decreases spans.len(),
{
    span_bytes_len(spans);
    if spans.len() > 0 {
        let n = spans.len() - 1;
        let front = spans.drop_last();
        let all = buf.subrange(at, at + 8 * spans.len());
        span_bytes_len(front);
        assert(buf.subrange(at, at + 8 * n) =~= all.subrange(0, 8 * n));
        assert(all.subrange(0, 8 * n) =~= span_bytes(front));
        spans_read_back(buf, at, front);
        assert(buf.subrange(at + 8 * n, at + 8 * n + 4) =~= all.subrange(8 * n, 8 * n + 4));
        assert(all.subrange(8 * n, 8 * n + 4) =~= le::bytes_of_u32(spans.last().0));
        assert(buf.subrange(at + 8 * n + 4, at + 8 * n + 8) =~= all.subrange(8 * n + 4, 8 * n + 8));
        assert(all.subrange(8 * n + 4, 8 * n + 8) =~= le::bytes_of_u32(spans.last().1));
        le::u32_round_trip(spans.last().0);
        le::u32_round_trip(spans.last().1);
        let got = spans_at(buf, at, spans.len());
        assert forall|i: int| 0 <= i < spans.len() implies got[i] == spans[i] by {
            if i < n {
                assert(spans_at(buf, at, front.len())[i] == front[i]);
            }
        }
    }
    assert(spans_at(buf, at, spans.len()) =~= spans);
}

/// The buckets that were written at `at` are read there.
proof fn buckets_read_back(buf: Seq<u8>, at: int, buckets: Seq<Seq<(u32, u32)>>)
    requires
        0 <= at,
        at + bucket_bytes(buckets).len() <= buf.len(),
        buf.subrange(at, at + bucket_bytes(buckets).len()) == bucket_bytes(buckets),
        forall|i: int| 0 <= i < buckets.len() ==> (#[trigger] buckets[i]).len() <= u32::MAX,
    ensures
        buckets_at(buf, at, buckets.len()) == Ok::<(Seq<Seq<(u32, u32)>>, int), MicroBlobError>(
            (buckets, at + bucket_bytes(buckets).len()),
        ),
    decreases buckets.len(),
{
    if buckets.len() > 0 {
        let front = buckets.drop_last();
        let last = buckets.last();
        let n = bucket_bytes(front).len() as int;
        let all = bucket_bytes(buckets);
        assert(last == buckets[buckets.len() - 1]);
        span_bytes_len(last);
        assert(all.len() == n + 4 + 8 * last.len());
        assert(buf.subrange(at, at + n) =~= buf.subrange(at, at + all.len()).subrange(0, n));
        assert(all.subrange(0, n) =~= bucket_bytes(front));
        buckets_read_back(buf, at, front);
        assert(buf.subrange(at + n, at + n + 4) =~= buf.subrange(at, at + all.len()).subrange(
            n,
            n + 4,
        ));
        assert(all.subrange(n, n + 4) =~= le::bytes_of_u32(last.len() as u32));
        le::u32_round_trip(last.len() as u32);
        assert(buf.subrange(at + n + 4, at + all.len()) =~= buf.subrange(
            at,
            at + all.len(),
        ).subrange(n + 4, all.len() as int));
        assert(all.subrange(n + 4, all.len() as int) =~= span_bytes(last));
        spans_read_back(buf, at + n + 4, last);
        assert(front.push(last) =~= buckets);
    } else {
        assert(buckets =~= Seq::empty());
    }
}

/// A small index that is written is read back.
pub proof fn micro_blob_round_trip(b: MicroBlob)
    requires
        b.complete(),
    ensures
        blob_of(blob_bytes(b)) == Ok::<MicroBlob, MicroBlobError>(b),
{
    let buf = blob_bytes(b);
    let cents = le::bytes_of_u32s(b.centroids);
    let end = 16 + 4 * (b.dim * b.k);
    assert(cents.len() == 4 * (b.dim * b.k));
    assert(buf.subrange(0, 4) =~= magic_bytes());
    assert(buf.subrange(4, 8) =~= le::bytes_of_u32(1));
    assert(buf.subrange(8, 12) =~= le::bytes_of_u32(b.dim));
    assert(buf.subrange(12, 16) =~= le::bytes_of_u32(b.k));
    le::u32_round_trip(1);
    le::u32_round_trip(b.dim);
    le::u32_round_trip(b.k);
    assert(buf.subrange(16, end) =~= cents);
    le::u32s_round_trip(b.centroids);
    assert(buf.subrange(end, end + bucket_bytes(b.bucket_spans).len()) =~= bucket_bytes(
        b.bucket_spans,
    ));
    buckets_read_back(buf, end, b.bucket_spans);
}

/// Where the first buckets cannot be read, all cannot.
proof fn buckets_stop(buf: Seq<u8>, at: int, n: nat, k: nat)
    requires
        n <= k,
        buckets_at(buf, at, n) is Err,
    ensures
        buckets_at(buf, at, k) == buckets_at(buf, at, n),
    decreases k,
{
    if n < k {
        buckets_stop(buf, at, n, (k - 1) as nat);
    }
}

/// How many centroids a small index has.
pub open spec fn centroid_count(rows: nat) -> nat {
    if rows > 8 {
        8
    } else {
        rows
    }
}

/// Which row becomes centroid `i`: the rows are evenly spaced.
pub open spec fn seed_row(rows: nat, i: int) -> int {
    let k = centroid_count(rows);
    let at = i * ((rows + k - 1) / k as int);
    if at < rows - 1 {
        at
    } else {
        rows - 1
    }
}

/// The first `n` centroids, one behind the other.
pub open spec fn seeds(vectors: Seq<u32>, dim: nat, rows: nat, n: nat) -> Seq<u32>
    decreases n,
{
    if n == 0 {
        Seq::empty()
    } else {
        seeds(vectors, dim, rows, (n - 1) as nat) + floats::row_of(
            vectors,
            dim,
            seed_row(rows, n - 1),
        )
    }
}

/// For each of the first `n` rows the centroid nearest to it.
pub open spec fn nearest_seeds<F: Fn(&[u32], &[u32]) -> u32>(
    f: F,
    vectors: Seq<u32>,
    dim: nat,
    rows: nat,
    n: nat,
) -> Seq<int> {
    let k = centroid_count(rows);
    Seq::new(
        n,
        |i: int|
            ivf_assign::nearest_upto(
                f,
                floats::row_of(vectors, dim, i),
                seeds(vectors, dim, rows, k),
                dim,
                k,
                floats::INFINITY,
            ).0,
    )
}

/// The runs of rows that have bucket `b`.
pub open spec fn runs(buckets: Seq<int>, b: int) -> Seq<(u32, u32)>
    decreases buckets.len(),
{
    if buckets.len() == 0 {
        Seq::empty()
    } else {
        let front = runs(buckets.drop_last(), b);
        let row = buckets.len() - 1;
        if buckets.last() != b {
            front
        } else if front.len() > 0 && front.last().0 + front.last().1 == row {
            front.drop_last().push((front.last().0, (front.last().1 + 1) as u32))
        } else {
            front.push((row as u32, 1u32))
        }
    }
}

/// Whether `row` is in a run.
pub open spec fn in_runs(spans: Seq<(u32, u32)>, row: int) -> bool {
    exists|i: int|
        0 <= i < spans.len() && (#[trigger] spans[i]).0 <= row < spans[i].0 + spans[i].1
}

/// The runs of a bucket hold its rows and no others.
pub proof fn runs_hold_bucket(buckets: Seq<int>, b: int, row: int)
    requires
        buckets.len() <= u32::MAX,
        0 <= row < buckets.len(),
    ensures
        in_runs(runs(buckets, b), row) <==> buckets[row] == b,
{
    runs_hold(buckets, b);
}

proof fn runs_hold(buckets: Seq<int>, b: int)
    requires
        buckets.len() <= u32::MAX,
    ensures
        forall|i: int|
            0 <= i < runs(buckets, b).len() ==> (#[trigger] runs(buckets, b)[i]).0 + runs(
                buckets,
                b,
            )[i].1 <= buckets.len(),
        forall|row: int|
            0 <= row < buckets.len() ==> (#[trigger] in_runs(runs(buckets, b), row)
                <==> buckets[row] == b),
    decreases buckets.len(),
{
    if buckets.len() > 0 {
        let front = runs(buckets.drop_last(), b);
        let all = runs(buckets, b);
        let last = buckets.len() - 1;
        runs_hold(buckets.drop_last(), b);
        assert forall|row: int| 0 <= row < buckets.len() implies (#[trigger] in_runs(all, row)
            <==> buckets[row] == b) by {
            assert(row < last ==> (in_runs(front, row) <==> buckets.drop_last()[row] == b));
            if in_runs(front, row) {
                let i = choose|i: int|
                    0 <= i < front.len() && (#[trigger] front[i]).0 <= row < front[i].0 + front[i].1;
                assert(row < last);
                assert(all[i].0 <= row < all[i].0 + all[i].1);
            }
            if in_runs(all, row) && row < last {
                let i = choose|i: int|
                    0 <= i < all.len() && (#[trigger] all[i]).0 <= row < all[i].0 + all[i].1;
                assert(i < front.len() && front[i].0 <= row < front[i].0 + front[i].1);
            }
            if row == last && buckets[row] == b {
                let i = all.len() - 1;
                assert(all[i].0 <= row < all[i].0 + all[i].1);
            }
            if row == last && in_runs(all, row) && buckets[row] != b {
                let i = choose|i: int|
                    0 <= i < all.len() && (#[trigger] all[i]).0 <= row < all[i].0 + all[i].1;
                assert(front[i].0 + front[i].1 <= last);
            }
        }
    }
}

/// The small index of `rows` vectors: evenly spaced rows are the centroids, and
/// each row is in the bucket of the nearest.
pub open spec fn mini_ivf<F: Fn(&[u32], &[u32]) -> u32>(
    f: F,
    dim: nat,
    vectors: Seq<u32>,
    rows: nat,
) -> MicroBlob {
    let k = centroid_count(rows);
    MicroBlob {
        dim: dim as u32,
        k: k as u32,
        centroids: seeds(vectors, dim, rows, k),
        bucket_spans: Seq::new(k, |b: int| runs(nearest_seeds(f, vectors, dim, rows, rows), b)),
    }
}

/// At least one.
pub open spec fn at_least_one(n: nat) -> nat {
    if n == 0 {
        1
    } else {
        n
    }
}

/// Builds the small index of `row_count` vectors. With no rows or no components
/// there is taken to be one.
pub fn build_mini_ivf<F: Fn(&[u32], &[u32]) -> u32>(
    dim: usize,
    vectors: &[u32],
    row_count: usize,
    f: &F,
) -> (r: MicroIndexBlob)
    requires
        floats::is_distance(*f),
        dim <= u32::MAX,
        row_count <= u32::MAX,
        at_least_one(row_count as nat) * at_least_one(dim as nat) <= vectors@.len(),
    ensures
        r@ == mini_ivf(
            *f,
            at_least_one(dim as nat),
            vectors@,
            at_least_one(row_count as nat),
        ),
        r@.complete(),
{
    let safe_dim: usize = if dim == 0 { 1 } else { dim };
    let safe_rows: usize = if row_count == 0 { 1 } else { row_count };
    let k: usize = if safe_rows > 8 { 8 } else { safe_rows };
    let stride: usize = ((safe_rows as u64 + k as u64 - 1) / k as u64) as usize;
    let ghost d = safe_dim as nat;
    let ghost n = safe_rows as nat;
    let mut centroids: Vec<u32> = Vec::new();
    let mut i: usize = 0;
    while i < k
        invariant
            i <= k <= 8,
            k == centroid_count(n),
            d == safe_dim,
            n == safe_rows,
            n >= 1,
            n <= u32::MAX,
            stride == (n + k - 1) / k as int,
            safe_rows * safe_dim <= vectors@.len(),
            centroids@ == seeds(vectors@, d, n, i as nat),
            centroids@.len() == i * safe_dim,
        decreases k - i,
    {
        assert((n + k - 1) / k as int <= n) by (nonlinear_arith)
            requires
                1 <= n,
                1 <= k,
        ;
        assert(i * stride <= 8 * n) by (nonlinear_arith)
            requires
                i <= 8,
                stride <= n,
        ;
        let at: u64 = i as u64 * stride as u64;
        let idx: usize = if at < safe_rows as u64 - 1 { at as usize } else { safe_rows - 1 };
        assert(idx as int == seed_row(n, i as int));
        let seed = floats::row(vectors, safe_dim, idx, safe_rows);
        proof {
            floats::row_fits(d, idx as int, n as int);
            floats::row_fits(d, i as int, k as int);
        }
        let ghost before = centroids@;
        centroids.extend_from_slice(seed);
        assert(centroids@ =~= before + seed@);
        i = i + 1;
    }
    let mut bucket_spans: Vec<Vec<(u32, u32)>> = Vec::new();
    let mut b: usize = 0;
    while b < k
        invariant
            b <= k,
            bucket_spans@.len() == b,
            forall|j: int| 0 <= j < b ==> (#[trigger] bucket_spans@[j])@ == Seq::<(u32, u32)>::empty(),
        decreases k - b,
    {
        bucket_spans.push(Vec::new());
        b = b + 1;
    }
    let mut row: usize = 0;
    while row < safe_rows
        invariant
            floats::is_distance(*f),
            row <= safe_rows,
            1 <= k <= 8,
            k == centroid_count(n),
            d == safe_dim,
            n == safe_rows,
            n <= u32::MAX,
            safe_rows * safe_dim <= vectors@.len(),
            centroids@ == seeds(vectors@, d, n, k as nat),
            centroids@.len() == k * safe_dim,
            bucket_spans@.len() == k,
            forall|j: int|
                0 <= j < k ==> (#[trigger] bucket_spans@[j])@ == runs(
                    nearest_seeds(*f, vectors@, d, n, row as nat),
                    j,
                ),
        decreases safe_rows - row,
    {
        let v = floats::row(vectors, safe_dim, row, safe_rows);
        let best: (usize, u32) = ivf_assign::nearest_centroid(
            v,
            centroids.as_slice(),
            safe_dim,
            k,
            floats::INFINITY,
            f,
        );
        let ghost now = nearest_seeds(*f, vectors@, d, n, row as nat);
        let ghost next = nearest_seeds(*f, vectors@, d, n, row as nat + 1);
        let ghost before = bucket_spans@;
        proof {
            assert(next.drop_last() =~= now);
            assert(next.last() == best.0);
            runs_hold(now, best.0 as int);
            runs_bounds(now, best.0 as int);
        }
        let c: usize = best.0;
        let held: usize = bucket_spans[c].len();
        if held > 0 && bucket_spans[c][held - 1].0 + bucket_spans[c][held - 1].1 == row as u32 {
            let last: (u32, u32) = bucket_spans[c][held - 1];
            bucket_spans[c].pop();
            bucket_spans[c].push((last.0, last.1 + 1));
        } else {
            bucket_spans[c].push((row as u32, 1));
        }
        assert forall|j: int| 0 <= j < k implies (#[trigger] bucket_spans@[j])@ == runs(next, j) by {
            if j != c {
                assert(bucket_spans@[j]@ == before[j]@);
            } else {
                assert(bucket_spans@[j]@ =~= runs(next, j));
            }
        }
        row = row + 1;
    }
    proof {
        assert forall|j: int| 0 <= j < k implies (#[trigger] buckets_of(bucket_spans@)[j]).len()
            <= u32::MAX by {
            assert(bucket_spans@[j]@ == runs(nearest_seeds(*f, vectors@, d, n, n), j));
            runs_bounds(nearest_seeds(*f, vectors@, d, n, n), j);
        }
        assert(k * safe_dim == safe_dim * k) by (nonlinear_arith);
    }
    let r = MicroIndexBlob { dim: safe_dim as u32, k: k as u32, centroids, bucket_spans };
    assert(r@.bucket_spans =~= mini_ivf(*f, d, vectors@, n).bucket_spans);
    r
}

proof fn runs_bounds(buckets: Seq<int>, b: int)
    requires
        buckets.len() <= u32::MAX,
    ensures
        runs(buckets, b).len() <= buckets.len(),
    decreases buckets.len(),
{
    if buckets.len() > 0 {
        runs_bounds(buckets.drop_last(), b);
    }
}

/// The bytes that the rows hold.
pub open spec fn byte_rows(v: Seq<Option<Vec<u8>>>) -> Seq<Option<Seq<u8>>> {
    v.map_values(
        |row: Option<Vec<u8>>|
            match row {
                Some(b) => Some(b@),
                None => None,
            },
    )
}

/// The vectors that the rows hold.
pub open spec fn vector_rows(v: Seq<Option<Vec<u32>>>) -> Seq<Option<Seq<u32>>> {
    v.map_values(
        |row: Option<Vec<u32>>|
            match row {
                Some(b) => Some(b@),
                None => None,
            },
    )
}

/// The vectors of `dim` components that stand one behind the other in `values`;
/// there is none where a row is not valid.
pub open spec fn rows_of(values: Seq<u32>, valid: Seq<bool>, dim: nat) -> Seq<Option<Seq<u32>>> {
    Seq::new(
        valid.len(),
        |i: int|
            if valid[i] {
                Some(floats::row_of(values, dim, i))
            } else {
                None
            },
    )
}

/// The bytes of vectors.
pub open spec fn bytes_of_rows(rows: Seq<Option<Seq<u32>>>) -> Seq<Option<Seq<u8>>> {
    rows.map_values(
        |row: Option<Seq<u32>>|
            match row {
                Some(v) => Some(le::bytes_of_u32s(v)),
                None => None,
            },
    )
}

/// A row whose bytes are not those of a vector of the column.
#[derive(Clone, Copy, Debug, PartialEq, Eq, Structural)]
pub struct InvalidVectorLength;

/// Whether each row that is there has the bytes of `dim` components.
pub open spec fn all_sized(rows: Seq<Option<Seq<u8>>>, dim: nat) -> bool {
    forall|i: int| 0 <= i < rows.len() ==> ((#[trigger] rows[i]) matches Some(b) ==> b.len() == 4 * dim)
}

/// The vectors that bytes hold.
pub open spec fn rows_of_bytes(rows: Seq<Option<Seq<u8>>>) -> Seq<Option<Seq<u32>>> {
    rows.map_values(
        |row: Option<Seq<u8>>|
            match row {
                Some(b) => Some(le::u32s_of(b)),
                None => None,
            },
    )
}

/// Turns vectors into rows of bytes.
pub fn vector_to_binary(values: &[u32], valid: &[bool], dim: usize) -> (r: Vec<Option<Vec<u8>>>)
    requires
        valid@.len() * dim <= values@.len(),
    ensures
        byte_rows(r@) == bytes_of_rows(rows_of(values@, valid@, dim as nat)),
{
    let n: usize = valid.len();
    let mut out: Vec<Option<Vec<u8>>> = Vec::new();
    let mut i: usize = 0;
    while i < n
        invariant
            i <= n,
            n == valid@.len(),
            n * dim <= values@.len(),
            out@.len() == i,
            forall|j: int|
                0 <= j < i ==> #[trigger] byte_rows(out@)[j] == bytes_of_rows(
                    rows_of(values@, valid@, dim as nat),
                )[j],
        decreases n - i,
    {
        let ghost before = out@;
        if valid[i] {
            let v = floats::row(values, dim, i, n);
            let mut bytes: Vec<u8> = Vec::new();
            let mut j: usize = 0;
            assert(le::bytes_of_u32s(v@.take(0)) =~= Seq::empty());
            while j < v.len()
                invariant
                    j <= v@.len(),
                    bytes@ == le::bytes_of_u32s(v@.take(j as int)),
                decreases v@.len() - j,
            {
                le::put_u32(&mut bytes, v[j]);
                proof {
                    assert(v@.take(j + 1) =~= v@.take(j as int).push(v@[j as int]));
                    u32s_grow(v@.take(j as int), v@[j as int]);
                }
                j = j + 1;
            }
            assert(v@.take(j as int) =~= v@);
            out.push(Some(bytes));
        } else {
            out.push(None);
        }
        assert forall|j: int| 0 <= j < i + 1 implies #[trigger] byte_rows(out@)[j]
            == bytes_of_rows(rows_of(values@, valid@, dim as nat))[j] by {
            if j < i {
                assert(byte_rows(before)[j] == byte_rows(out@)[j]);
            }
        }
        i = i + 1;
    }
    assert(byte_rows(out@) =~= bytes_of_rows(rows_of(values@, valid@, dim as nat)));
    out
}

/// Whether no row is missing.
pub open spec fn all_there(rows: Seq<Option<Vec<u8>>>) -> bool {
    forall|i: int| 0 <= i < rows.len() ==> (#[trigger] rows[i]) is Some
}

/// Tells whether no row is missing.
pub fn are_all_there(rows: &Vec<Option<Vec<u8>>>) -> (r: bool)
    ensures
        r == all_there(rows@),
{
    let mut i: usize = 0;
    while i < rows.len()
        invariant
            i <= rows@.len(),
            forall|j: int| 0 <= j < i ==> (#[trigger] rows@[j]) is Some,
        decreases rows@.len() - i,
    {
        if rows[i].is_none() {
            return false;
        }
        i = i + 1;
    }
    true
}

/// Turns rows of bytes back into vectors of `dim` components. Rows may only be missing
/// if the column is nullable.
pub fn binary_to_vector(rows: &Vec<Option<Vec<u8>>>, dim: usize, nullable: bool) -> (r: Result<
    Vec<Option<Vec<u32>>>,
    InvalidVectorLength,
>)
    requires
        nullable || all_there(rows@),
    ensures
        r is Ok <==> all_sized(byte_rows(rows@), dim as nat),
        r matches Ok(v) ==> vector_rows(v@) == rows_of_bytes(byte_rows(rows@)),
{
    let mut out: Vec<Option<Vec<u32>>> = Vec::new();
    let mut i: usize = 0;
    while i < rows.len()
        invariant
            i <= rows@.len(),
            out@.len() == i,
            forall|j: int|
                0 <= j < i ==> ((#[trigger] byte_rows(rows@)[j]) matches Some(b) ==> b.len() == 4
                    * dim),
            forall|j: int|
                0 <= j < i ==> #[trigger] vector_rows(out@)[j] == rows_of_bytes(byte_rows(rows@))[j],
        decreases rows@.len() - i,
    {
        let ghost before = out@;
        match &rows[i] {
            None => {
                out.push(None);
            },
            Some(b) => {
                assert(byte_rows(rows@)[i as int] == Some(b@));
                if b.len() as u128 != 4 * (dim as u128) {
                    return Err(InvalidVectorLength);
                }
                out.push(Some(le::get_u32s(b.as_slice())));
            },
        }
        assert forall|j: int| 0 <= j < i + 1 implies #[trigger] vector_rows(out@)[j]
            == rows_of_bytes(byte_rows(rows@))[j] by {
            if j < i {
                assert(vector_rows(before)[j] == vector_rows(out@)[j]);
            }
        }
        i = i + 1;
    }
    assert(vector_rows(out@) =~= rows_of_bytes(byte_rows(rows@)));
    Ok(out)
}

/// Vectors that were turned into bytes are those that come back.
pub proof fn vectors_round_trip(rows: Seq<Option<Seq<u32>>>, dim: nat)
    requires
        forall|i: int| 0 <= i < rows.len() ==> ((#[trigger] rows[i]) matches Some(v) ==> v.len() == dim),
    ensures
        all_sized(bytes_of_rows(rows), dim),
        rows_of_bytes(bytes_of_rows(rows)) == rows,
{
    let bytes = bytes_of_rows(rows);
    assert forall|i: int| 0 <= i < rows.len() implies rows_of_bytes(bytes)[i] == rows[i] by {
        if let Some(v) = rows[i] {
            le::u32s_round_trip(v);
        }
    }
    assert forall|i: int| 0 <= i < bytes.len() implies ((#[trigger] bytes[i]) matches Some(b) ==> b.len()
        == 4 * dim) by {
        assert(rows[i] matches Some(v) ==> v.len() == dim);
    }
    assert(rows_of_bytes(bytes) =~= rows);
}

} // verus!
