//! How a posting list (the row ids and vectors of one inverted list) is stored.
use crate::floats;
use crate::le;
use crate::num::product_u64;
use crate::uleb128;
use crate::uleb128::{decode_uleb128_u32, encode_uleb128_u32, Uleb128Error};
use vstd::prelude::*;

verus! {

broadcast use crate::le::sizes;

/// How a posting list is laid out in its chunk. All numbers are little-endian.
///
/// * `Raw`: count, row ids, vector components of 32 bits.
/// * `RowIdDeltaVarintV1`: count, first row id, differences of neighbouring row
///   ids as LEB128, components of 32 bits.
/// * `RawF16`, `RowIdDeltaVarintV1F16`: the same with components of 16 bits.
#[derive(Clone, Copy, Debug, PartialEq, Eq, Structural)]
pub enum PostingCodec {
    Raw,
    RowIdDeltaVarintV1,
    RawF16,
    RowIdDeltaVarintV1F16,
}

/// Why bytes are no posting list.
#[derive(Clone, Copy, Debug, PartialEq, Eq, Structural)]
pub enum PostingError {
    /// There is no room for the counts at the front.
    TooSmall,
    /// A row id difference is no LEB128 number.
    RowIds(Uleb128Error),
    /// The list would take `expected` bytes, the chunk has `got`.
    SizeMismatch { expected: u128, got: usize },
}

impl PostingCodec {
    /// Whether row ids are stored as differences.
    pub open spec fn is_delta(self) -> bool {
        self == PostingCodec::RowIdDeltaVarintV1 || self == PostingCodec::RowIdDeltaVarintV1F16
    }

    /// Whether components are stored in 16 bits.
    pub open spec fn is_half(self) -> bool {
        self == PostingCodec::RawF16 || self == PostingCodec::RowIdDeltaVarintV1F16
    }

    /// The bytes that one component takes.
    pub open spec fn component_size(self) -> nat {
        if self.is_half() {
            2
        } else {
            4
        }
    }

    /// The bytes in front of the row ids.
    pub open spec fn header_size(self) -> nat {
        if self.is_delta() {
            8
        } else {
            4
        }
    }

    fn delta(self) -> (r: bool)
        ensures
            r == self.is_delta(),
    {
        matches!(self, PostingCodec::RowIdDeltaVarintV1 | PostingCodec::RowIdDeltaVarintV1F16)
    }

    fn half(self) -> (r: bool)
        ensures
            r == self.is_half(),
    {
        matches!(self, PostingCodec::RawF16 | PostingCodec::RowIdDeltaVarintV1F16)
    }
}

/// The 16-bit patterns of the components `v`.
pub open spec fn all_narrowed(narrowed: spec_fn(u32) -> u16, v: Seq<u32>) -> Seq<u16> {
    Seq::new(v.len(), |i: int| narrowed(v[i]))
}

/// The 32-bit patterns that the table `wide` has for 16-bit ones.
pub open spec fn all_widened(wide: Seq<u32>, v: Seq<u16>) -> Seq<u32> {
    Seq::new(v.len(), |i: int| wide[v[i] as int])
}

/// The components that `s` holds.
pub open spec fn components_of(codec: PostingCodec, s: Seq<u8>, wide: Seq<u32>) -> Seq<u32> {
    if codec.is_half() {
        all_widened(wide, le::u16s_of(s))
    } else {
        le::u32s_of(s)
    }
}

/// The bytes of the components `v`.
pub open spec fn component_bytes(
    codec: PostingCodec,
    v: Seq<u32>,
    narrowed: spec_fn(u32) -> u16,
) -> Seq<u8> {
    if codec.is_half() {
        le::bytes_of_u16s(all_narrowed(narrowed, v))
    } else {
        le::bytes_of_u32s(v)
    }
}

/// What is left of the components `v` once they have been stored.
pub open spec fn stored_components(
    codec: PostingCodec,
    v: Seq<u32>,
    narrowed: spec_fn(u32) -> u16,
    wide: Seq<u32>,
) -> Seq<u32> {
    if codec.is_half() {
        all_widened(wide, all_narrowed(narrowed, v))
    } else {
        v
    }
}

/// `a + b`, around the end of 32 bits.
pub open spec fn wrapping_sum(a: u32, b: u32) -> u32 {
    ((a + b) % 0x1_0000_0000) as u32
}

/// The number that leads from `a` to `b`, around the end of 32 bits.
pub open spec fn wrapping_difference(b: u32, a: u32) -> u32 {
    ((b - a) % 0x1_0000_0000) as u32
}

/// The `n` row ids that follow `cur`, of which `s` holds the differences, and
/// the bytes that these take.
pub open spec fn delta_rows(s: Seq<u8>, cur: u32, n: nat) -> Result<(Seq<u32>, nat), Uleb128Error>
    decreases n,
{
    if n == 0 {
        Ok((Seq::empty(), 0))
    } else {
        match uleb128::uleb128_front(s) {
            Err(e) => Err(e),
            Ok((delta, used)) => {
                let row = wrapping_sum(cur, delta);
                match delta_rows(s.skip(used as int), row, (n - 1) as nat) {
                    Err(e) => Err(e),
                    Ok((rows, more)) => Ok((seq![row] + rows, used + more)),
                }
            },
        }
    }
}

/// The `count` row ids that start with `first`.
pub open spec fn rows_from(s: Seq<u8>, first: u32, count: nat) -> Result<
    (Seq<u32>, nat),
    Uleb128Error,
> {
    if count == 0 {
        Ok((Seq::empty(), 0))
    } else {
        match delta_rows(s, first, (count - 1) as nat) {
            Err(e) => Err(e),
            Ok((rows, used)) => Ok((seq![first] + rows, used)),
        }
    }
}

/// The bytes of the differences of neighbouring row ids.
pub open spec fn delta_bytes(rows: Seq<u32>) -> Seq<u8>
    decreases rows.len(),
{
    if rows.len() < 2 {
        Seq::empty()
    } else {
        uleb128::uleb128_bytes(wrapping_difference(rows[1], rows[0])) + delta_bytes(rows.skip(1))
    }
}

/// The list with row ids `rows`, whose components start at `at`, if the chunk
/// ends where they do.
pub open spec fn list_with_components(
    codec: PostingCodec,
    bytes: Seq<u8>,
    dim: nat,
    count: nat,
    rows: Seq<u32>,
    at: nat,
    wide: Seq<u32>,
) -> Result<(Seq<u32>, Seq<u32>), PostingError> {
    let expected = at + count * dim * codec.component_size();
    if bytes.len() != expected {
        Err(PostingError::SizeMismatch { expected: expected as u128, got: bytes.len() as usize })
    } else {
        Ok((rows, components_of(codec, bytes.skip(at as int), wide)))
    }
}

/// The posting list that `bytes` holds: row ids and vector components.
pub open spec fn posting_of(
    codec: PostingCodec,
    bytes: Seq<u8>,
    dim: nat,
    wide: Seq<u32>,
) -> Result<
    (Seq<u32>, Seq<u32>),
    PostingError,
> {
    if bytes.len() < codec.header_size() {
        Err(PostingError::TooSmall)
    } else {
        let count = le::u32_of(bytes.subrange(0, 4)) as nat;
        if codec.is_delta() {
            match rows_from(bytes.skip(8), le::u32_of(bytes.subrange(4, 8)), count) {
                Err(e) => Err(PostingError::RowIds(e)),
                Ok((rows, used)) => list_with_components(
                    codec,
                    bytes,
                    dim,
                    count,
                    rows,
                    8 + used,
                    wide,
                ),
            }
        } else {
            let end = 4 + 4 * count;
            list_with_components(
                codec,
                bytes,
                dim,
                count,
                le::u32s_of(bytes.subrange(4, end as int)),
                end,
                wide,
            )
        }
    }
}

/// The bytes of a posting list.
pub open spec fn posting_bytes(
    codec: PostingCodec,
    rows: Seq<u32>,
    vectors: Seq<u32>,
    narrowed: spec_fn(u32) -> u16,
) -> Seq<u8> {
    le::bytes_of_u32(rows.len() as u32) + (if codec.is_delta() {
        le::bytes_of_u32(
            if rows.len() == 0 {
                0
            } else {
                rows[0]
            },
        ) + delta_bytes(rows)
    } else {
        le::bytes_of_u32s(rows)
    }) + component_bytes(codec, vectors, narrowed)
}

/// As many rows come out as were asked for, from no more bytes than there are.
pub proof fn delta_rows_bound(s: Seq<u8>, cur: u32, n: nat)
    ensures
        delta_rows(s, cur, n) matches Ok((rows, used)) ==> used <= s.len() && rows.len() == n,
    decreases n,
{
    if n > 0 {
        uleb128::uleb128_front_bound(s);
        match uleb128::uleb128_front(s) {
            Ok((delta, used)) => {
                delta_rows_bound(s.skip(used as int), wrapping_sum(cur, delta), (n - 1) as nat);
            },
            Err(e) => {},
        }
    }
}

/// A list has `dim` components for each row.
pub proof fn posting_lengths(codec: PostingCodec, bytes: Seq<u8>, dim: nat, wide: Seq<u32>)
    ensures
        posting_of(codec, bytes, dim, wide) matches Ok((rows, vectors)) ==> vectors.len()
            == rows.len() * dim,
{
    if bytes.len() >= codec.header_size() {
        let count = le::u32_of(bytes.subrange(0, 4)) as nat;
        let n = count * dim;
        if codec.is_delta() && count > 0 {
            delta_rows_bound(
                bytes.skip(8),
                le::u32_of(bytes.subrange(4, 8)),
                (count - 1) as nat,
            );
        }
        assert(count * dim * codec.component_size() == n * codec.component_size());
    }
}

proof fn wrapping_round_trip(a: u32, b: u32)
    ensures
        wrapping_sum(a, wrapping_difference(b, a)) == b,
{
}

/// Reading stored differences gives back the rows behind the first, whatever
/// bytes follow.
pub proof fn delta_round_trip(rows: Seq<u32>, rest: Seq<u8>)
    requires
        rows.len() > 0,
    ensures
        delta_rows(delta_bytes(rows) + rest, rows[0], (rows.len() - 1) as nat) == Ok::<
            (Seq<u32>, nat),
            Uleb128Error,
        >((rows.skip(1), delta_bytes(rows).len())),
    decreases rows.len(),
{
    let s = delta_bytes(rows) + rest;
    if rows.len() == 1 {
        assert(rows.skip(1) =~= Seq::<u32>::empty());
    } else {
        let d = wrapping_difference(rows[1], rows[0]);
        let head = uleb128::uleb128_bytes(d);
        let tail = rows.skip(1);
        wrapping_round_trip(rows[0], rows[1]);
        assert(s =~= head + (delta_bytes(tail) + rest));
        uleb128::uleb128_round_trip(d, delta_bytes(tail) + rest);
        assert(s.skip(head.len() as int) =~= delta_bytes(tail) + rest);
        delta_round_trip(tail, rest);
        assert(tail[0] == rows[1]);
        assert(seq![rows[1]] + tail.skip(1) =~= rows.skip(1));
    }
}

/// Reading a stored posting list gives back its row ids, and its components as
/// far as the codec keeps them: all of them, or what is left of each in 16 bits.
pub proof fn posting_round_trip(
    codec: PostingCodec,
    rows: Seq<u32>,
    vectors: Seq<u32>,
    dim: nat,
    narrowed: spec_fn(u32) -> u16,
    wide: Seq<u32>,
)
    requires
        rows.len() <= u32::MAX,
        vectors.len() == rows.len() * dim,
    ensures
        posting_of(codec, posting_bytes(codec, rows, vectors, narrowed), dim, wide) == Ok::<
            (Seq<u32>, Seq<u32>),
            PostingError,
        >((rows, stored_components(codec, vectors, narrowed, wide))),
{
    let b = posting_bytes(codec, rows, vectors, narrowed);
    let c = component_bytes(codec, vectors, narrowed);
    let count = rows.len();
    le::u32_round_trip(count as u32);
    le::u32s_round_trip(vectors);
    le::u16s_round_trip(all_narrowed(narrowed, vectors));
    assert(b.subrange(0, 4) =~= le::bytes_of_u32(count as u32));
    assert(c.len() == count * dim * codec.component_size()) by {
        let n = count * dim;
        assert(c.len() == n * codec.component_size());
    }
    if codec.is_delta() {
        let first = if rows.len() == 0 {
            0
        } else {
            rows[0]
        };
        le::u32_round_trip(first);
        assert(b.subrange(4, 8) =~= le::bytes_of_u32(first));
        assert(b.skip(8) =~= delta_bytes(rows) + c);
        if count == 0 {
            assert(rows =~= Seq::<u32>::empty());
        } else {
            delta_round_trip(rows, c);
            assert(seq![first] + rows.skip(1) =~= rows);
        }
        assert(b.skip(8 + delta_bytes(rows).len() as int) =~= c);
    } else {
        le::u32s_round_trip(rows);
        assert(b.subrange(4, 4 + 4 * count as int) =~= le::bytes_of_u32s(rows));
        assert(b.skip(4 + 4 * count as int) =~= c);
    }
}

/// Reads the row ids behind the first one.
pub(crate) fn decode_rows(bytes: &[u8], first: u32, count: u32) -> (r: Result<
    (Vec<u32>, usize),
    Uleb128Error,
>)
    requires
        bytes@.len() >= 8,
    ensures
        match r {
            Ok((rows, end)) => end >= 8 && rows_from(bytes@.skip(8), first, count as nat) == Ok::<
                (Seq<u32>, nat),
                Uleb128Error,
            >((rows@, (end - 8) as nat)),
            Err(e) => rows_from(bytes@.skip(8), first, count as nat) == Err::<
                (Seq<u32>, nat),
                Uleb128Error,
            >(e),
        },
        r matches Ok((rows, end)) ==> end <= bytes@.len() && rows@.len() == count,
{
    let mut rows: Vec<u32> = Vec::new();
    let mut offset: usize = 8;
    if count == 0 {
        assert(rows@ =~= Seq::<u32>::empty());
        return Ok((rows, offset));
    }
    let mut cur: u32 = first;
    rows.push(cur);
    let mut i: u32 = 1;
    let ghost whole = delta_rows(bytes@.skip(8), first, (count - 1) as nat);
    while i < count
        invariant
            1 <= i <= count,
            8 <= offset <= bytes@.len(),
            rows@.len() == i,
            rows@[0] == first,
            whole == delta_rows(bytes@.skip(8), first, (count - 1) as nat),
            match delta_rows(bytes@.skip(offset as int), cur, (count - i) as nat) {
                Ok((more, n)) => whole == Ok::<(Seq<u32>, nat), Uleb128Error>(
                    (rows@.skip(1) + more, (offset - 8) as nat + n),
                ),
                Err(e) => whole == Err::<(Seq<u32>, nat), Uleb128Error>(e),
            },
        decreases count - i,
    {
        let ghost rest = bytes@.skip(offset as int);
        let ghost before = rows@;
        proof {
            uleb128::uleb128_front_bound(rest);
        }
        match decode_uleb128_u32(&bytes[offset..bytes.len()]) {
            Err(e) => {
                return Err(e);
            },
            Ok((delta, used)) => {
                assert(rest.skip(used as int) =~= bytes@.skip(offset + used));
                let ghost row = wrapping_sum(cur, delta);
                offset = offset + used;
                cur = cur.wrapping_add(delta);
                assert(cur == row);
                rows.push(cur);
                assert forall|more: Seq<u32>|
                    before.skip(1) + (seq![cur] + more) == #[trigger] (rows@.skip(1) + more) by {
                    assert(before.skip(1) + (seq![cur] + more) =~= rows@.skip(1) + more);
                }
                i = i + 1;
            },
        }
    }
    proof {
        assert(rows@.skip(1) + Seq::<u32>::empty() =~= rows@.skip(1));
        assert(seq![first] + rows@.skip(1) =~= rows@);
    }
    Ok((rows, offset))
}

/// Reads the components that `bytes` holds from `at` on.
fn decode_components(codec: PostingCodec, bytes: &[u8], at: usize, wide: &[u32]) -> (r: Vec<u32>)
    requires
        wide@.len() == 0x1_0000,
        at <= bytes@.len(),
        (bytes@.len() - at) % (codec.component_size() as int) == 0,
    ensures
        r@ == components_of(codec, bytes@.skip(at as int), wide@),
{
    let rest = &bytes[at..bytes.len()];
    assert(rest@ =~= bytes@.skip(at as int));
    if !codec.half() {
        return le::get_u32s(rest);
    }
    let total: usize = rest.len();
    let n: usize = total / 2;
    let mut out: Vec<u32> = Vec::new();
    let mut i: usize = 0;
    while i < n
        invariant
            wide@.len() == 0x1_0000,
            total == rest@.len(),
            n == total / 2,
            i <= n,
            out@ =~= all_widened(wide@, le::u16s_of(rest@)).take(i as int),
        decreases n - i,
    {
        let two = &rest[2 * i..2 * i + 2];
        assert(two@.subrange(0, 2) =~= rest@.subrange(2 * i as int, 2 * i as int + 2));
        out.push(wide[le::read_u16(two) as usize]);
        i = i + 1;
    }
    out
}

/// Reads the posting list that `bytes` holds: its row ids, and the components of
/// its vectors of `dim` components each, as 32-bit patterns. `wide` is the table
/// that has the 32-bit pattern for each 16-bit one.
#[verifier::spinoff_prover]
pub fn decode_posting_list(
    codec: PostingCodec,
    bytes: &[u8],
    dim: u32,
    wide: &[u32],
) -> (r: Result<
    (Vec<u32>, Vec<u32>),
    PostingError,
>)
    requires
        wide@.len() == 0x1_0000,
    ensures
        match r {
            Ok((rows, vectors)) => posting_of(codec, bytes@, dim as nat, wide@) == Ok::<
                (Seq<u32>, Seq<u32>),
                PostingError,
            >((rows@, vectors@)),
            Err(e) => posting_of(codec, bytes@, dim as nat, wide@) == Err::<
                (Seq<u32>, Seq<u32>),
                PostingError,
            >(e),
        },
{
    let header: usize = if codec.delta() {
        8
    } else {
        4
    };
    if bytes.len() < header {
        return Err(PostingError::TooSmall);
    }
    let count: u32 = le::read_u32(&bytes[0..4]);
    assert(bytes@.subrange(0, 4).subrange(0, 4) =~= bytes@.subrange(0, 4));
    let all: u128 = product_u64(count as u64, dim as u64);
    assert(all <= 0xffff_ffff * 0xffff_ffff) by {
        assert(count * dim <= 0xffff_ffff * 0xffff_ffff) by (nonlinear_arith)
            requires
                count <= 0xffff_ffff,
                dim <= 0xffff_ffff,
        ;
    }
    let components: u128 = if codec.half() {
        2 * all
    } else {
        4 * all
    };
    proof {
        let n = count as nat * dim as nat;
        assert(n == all);
        assert(n * 2 == 2 * n && n * 4 == 4 * n) by (nonlinear_arith);
        assert(components == count as nat * dim as nat * codec.component_size());
        assert((2 * n) % 2 == 0 && (4 * n) % 4 == 0);
        assert(components as int % (codec.component_size() as int) == 0);
    }
    if codec.delta() {
        let first: u32 = le::read_u32(&bytes[4..8]);
        assert(bytes@.subrange(4, 8).subrange(0, 4) =~= bytes@.subrange(4, 8));
        match decode_rows(bytes, first, count) {
            Err(e) => Err(PostingError::RowIds(e)),
            Ok((rows, end)) => {
                let expected: u128 = end as u128 + components;
                if bytes.len() as u128 != expected {
                    return Err(PostingError::SizeMismatch { expected, got: bytes.len() });
                }
                assert(bytes@.len() - end == components);
                let vectors = decode_components(codec, bytes, end, wide);
                Ok((rows, vectors))
            },
        }
    } else {
        let end: u128 = 4 + 4 * (count as u128);
        let expected: u128 = end + components;
        if bytes.len() as u128 != expected {
            return Err(PostingError::SizeMismatch { expected, got: bytes.len() });
        }
        let end: usize = end as usize;
        let rows = le::get_u32s(&bytes[4..end]);
        assert(bytes@.len() - end == components);
        let vectors = decode_components(codec, bytes, end, wide);
        Ok((rows, vectors))
    }
}

/// Appends the differences of neighbouring row ids.
pub(crate) fn encode_deltas(rows: &[u32], out: &mut Vec<u8>)
    ensures
        final(out)@ == old(out)@ + delta_bytes(rows@),
{
    let ghost front = out@;
    let mut i: usize = 1;
    assert(rows@.skip(0) =~= rows@);
    while i < rows.len()
        invariant
            1 <= i,
            rows@.len() == 0 ==> i == 1,
            rows@.len() > 0 ==> i <= rows@.len(),
            out@ + delta_bytes(rows@.skip(i - 1)) == front + delta_bytes(rows@),
        decreases rows@.len() - i,
    {
        let delta: u32 = rows[i].wrapping_sub(rows[i - 1]);
        let ghost before = out@;
        let ghost tail = rows@.skip(i - 1);
        encode_uleb128_u32(delta, out);
        proof {
            assert(delta == wrapping_difference(tail[1], tail[0]));
            assert(tail.skip(1) =~= rows@.skip(i as int));
            assert(out@ + delta_bytes(tail.skip(1)) =~= before + delta_bytes(tail));
        }
        i = i + 1;
    }
    assert(rows@.skip(i - 1).len() < 2);
    assert(out@ + Seq::<u8>::empty() =~= out@);
}

/// The bytes of the posting list with these row ids and vector components.
/// `narrow` gives the 16-bit pattern of a 32-bit one.
pub fn encode_posting_list<N: Fn(u32) -> u16>(
    codec: PostingCodec,
    rows: &[u32],
    vectors: &[u32],
    narrow: &N,
) -> (r: Vec<u8>)
    requires
        floats::is_narrowing(*narrow),
        rows@.len() <= u32::MAX,
        4 * rows@.len() <= usize::MAX,
        4 * vectors@.len() <= usize::MAX,
    ensures
        r@ == posting_bytes(codec, rows@, vectors@, |x: u32| floats::narrowed(*narrow, x)),
{
    let ghost nf = |x: u32| floats::narrowed(*narrow, x);
    let mut out: Vec<u8> = Vec::new();
    le::put_header_u32(&mut out, rows.len() as u32);
    let ghost head = out@;
    assert(head =~= le::bytes_of_u32(rows@.len() as u32));
    if codec.delta() {
        let first: u32 = if rows.len() == 0 {
            0
        } else {
            rows[0]
        };
        le::put_header_u32(&mut out, first);
        encode_deltas(rows, &mut out);
    } else {
        le::put_u32s(&mut out, rows);
    }
    let ghost front = out@;
    if codec.half() {
        let mut i: usize = 0;
        while i < vectors.len()
            invariant
                i <= vectors@.len(),
                floats::is_narrowing(*narrow),
                nf == |x: u32| floats::narrowed(*narrow, x),
                out@ =~= front + le::bytes_of_u16s(all_narrowed(nf, vectors@).take(i as int)),
            decreases vectors@.len() - i,
        {
            let ghost before = out@;
            le::put_u16(&mut out, floats::narrow(narrow, vectors[i]));
            proof {
                let a = all_narrowed(nf, vectors@);
                bytes_of_u16s_push(a.take(i as int), a[i as int]);
                assert(a.take(i as int).push(a[i as int]) =~= a.take(i + 1));
            }
            i = i + 1;
        }
        assert(all_narrowed(nf, vectors@).take(i as int) =~= all_narrowed(nf, vectors@));
    } else {
        le::put_u32s(&mut out, vectors);
    }
    assert(out@ =~= posting_bytes(codec, rows@, vectors@, nf));
    out
}

proof fn bytes_of_u16s_push(v: Seq<u16>, x: u16)
    ensures
        le::bytes_of_u16s(v.push(x)) == le::bytes_of_u16s(v) + le::bytes_of_u16(x),
{
    assert(le::bytes_of_u16s(v.push(x)) =~= le::bytes_of_u16s(v) + le::bytes_of_u16(x));
}

} // verus!
