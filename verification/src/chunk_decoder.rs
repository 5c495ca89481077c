//! Decoding chunks unit by unit: which bytes and rows are taken.
use crate::buffers;
use crate::buffers::{buffer_len, freeze, split_to};
use crate::schema::DataType;
use crate::tables::{DictionaryEncodingTable, EncUnitTable};
use bytes::{Bytes, BytesMut};
use vstd::prelude::*;

verus! {

/// Rows of a part: which part, the first row, and how many.
#[derive(Clone, Copy, Debug, PartialEq, Eq, Structural)]
pub struct Piece {
    pub part: usize,
    pub from: usize,
    pub count: usize,
}

/// How many rows the first `k` parts have.
pub open spec fn rows_upto(sizes: Seq<u64>, k: int) -> nat
    decreases k,
{
    if k <= 0 {
        0
    } else {
        rows_upto(sizes, k - 1) + sizes[k - 1] as nat
    }
}

pub open spec fn larger(a: int, b: int) -> int {
    if a > b {
        a
    } else {
        b
    }
}

pub open spec fn lesser(a: int, b: int) -> int {
    if a < b {
        a
    } else {
        b
    }
}

/// The first of the `len` rows from `start` that is in part `k` or behind it.
pub open spec fn first_row(sizes: Seq<u64>, start: int, k: int) -> int {
    larger(start, rows_upto(sizes, k) as int)
}

/// The end of the `len` rows from `start` in the parts up to `k`.
pub open spec fn end_row(sizes: Seq<u64>, start: int, len: int, k: int) -> int {
    lesser(start + len, rows_upto(sizes, k + 1) as int)
}

/// The pieces of the first `k` parts that make up the `len` rows from `start`.
pub open spec fn pieces(sizes: Seq<u64>, start: int, len: int, k: nat) -> Seq<Piece>
    decreases k,
{
    if k == 0 {
        Seq::empty()
    } else {
        let front = pieces(sizes, start, len, (k - 1) as nat);
        let from = first_row(sizes, start, k - 1);
        let end = end_row(sizes, start, len, k - 1);
        if from < end {
            front.push(
                Piece {
                    part: (k - 1) as usize,
                    from: (from - rows_upto(sizes, k - 1)) as usize,
                    count: (end - from) as usize,
                },
            )
        } else {
            front
        }
    }
}

/// How many rows pieces have.
pub open spec fn total_rows(p: Seq<Piece>) -> nat
    decreases p.len(),
{
    if p.len() == 0 {
        0
    } else {
        total_rows(p.drop_last()) + p.last().count as nat
    }
}

/// Where row `i` of the rows of pieces is: its part, and its place there.
pub open spec fn row_place(p: Seq<Piece>, i: int) -> (int, int)
    decreases p.len(),
{
    if p.len() == 0 {
        (-1, -1)
    } else {
        let front = total_rows(p.drop_last()) as int;
        if i < front {
            row_place(p.drop_last(), i)
        } else {
            (p.last().part as int, p.last().from + (i - front))
        }
    }
}

proof fn rows_upto_grows(sizes: Seq<u64>, i: int, j: int)
    requires
        0 <= i <= j,
    ensures
        rows_upto(sizes, i) <= rows_upto(sizes, j),
    decreases j - i,
{
    if i < j {
        rows_upto_grows(sizes, i, j - 1);
    }
}

/// The pieces are the rows that were asked for, as far as there are any, in their
/// order: row `i` of them is row `start + i` of all.
pub proof fn pieces_are_rows(sizes: Seq<u64>, start: int, len: int, k: nat)
    requires
        0 <= start,
        0 <= len,
        k <= sizes.len() <= usize::MAX,
        rows_upto(sizes, sizes.len() as int) <= usize::MAX,
    ensures
        total_rows(pieces(sizes, start, len, k)) == larger(
            0,
            lesser(start + len, rows_upto(sizes, k as int) as int) - start,
        ),
        forall|i: int|
            0 <= i < total_rows(pieces(sizes, start, len, k)) ==> {
                let place = #[trigger] row_place(pieces(sizes, start, len, k), i);
                &&& 0 <= place.0 < k
                &&& 0 <= place.1 < sizes[place.0]
                &&& rows_upto(sizes, place.0) + place.1 == start + i
            },
    decreases k,
{
    if k > 0 {
        pieces_are_rows(sizes, start, len, (k - 1) as nat);
        rows_upto_grows(sizes, k as int, sizes.len() as int);
        let front = pieces(sizes, start, len, (k - 1) as nat);
        let all = pieces(sizes, start, len, k);
        let from = first_row(sizes, start, k - 1);
        let end = end_row(sizes, start, len, k - 1);
        if from < end {
            assert(all.drop_last() =~= front);
            assert forall|i: int| 0 <= i < total_rows(all) implies {
                let place = #[trigger] row_place(all, i);
                &&& 0 <= place.0 < k
                &&& 0 <= place.1 < sizes[place.0]
                &&& rows_upto(sizes, place.0) + place.1 == start + i
            } by {
                if i < total_rows(front) {
                    let place = row_place(front, i);
                    assert(row_place(all, i) == place);
                }
            }
        } else {
            assert forall|i: int| 0 <= i < total_rows(all) implies {
                let place = #[trigger] row_place(all, i);
                &&& 0 <= place.0 < k
                &&& 0 <= place.1 < sizes[place.0]
                &&& rows_upto(sizes, place.0) + place.1 == start + i
            } by {
                let place = row_place(front, i);
            }
        }
    }
}

/// Which rows of which chunks make up the `len` rows of a column from `row_id`.
pub fn decode_row_at(sizes: &Vec<u64>, row_id: usize, len: usize) -> (r: Vec<Piece>)
    requires
        rows_upto(sizes@, sizes@.len() as int) <= usize::MAX,
        row_id + len <= usize::MAX,
    ensures
        r@ == pieces(sizes@, row_id as int, len as int, sizes@.len()),
{
    let mut out: Vec<Piece> = Vec::new();
    let mut base: usize = 0;
    let mut k: usize = 0;
    while k < sizes.len()
        invariant
            k <= sizes@.len(),
            rows_upto(sizes@, sizes@.len() as int) <= usize::MAX,
            row_id + len <= usize::MAX,
            base == rows_upto(sizes@, k as int),
            out@ == pieces(sizes@, row_id as int, len as int, k as nat),
        decreases sizes@.len() - k,
    {
        proof {
            rows_upto_grows(sizes@, k + 1, sizes@.len() as int);
        }
        let next: usize = base + sizes[k] as usize;
        let from: usize = if row_id > base { row_id } else { base };
        let end: usize = if row_id + len < next { row_id + len } else { next };
        if from < end {
            out.push(Piece { part: k, from: from - base, count: end - from });
        }
        base = next;
        k = k + 1;
    }
    out
}

/// Where single rows are in parts, one row behind the other; a row that is in none
/// is left out.
pub open spec fn places_of(sizes: Seq<u64>, rows: Seq<u64>) -> Seq<Piece>
    decreases rows.len(),
{
    if rows.len() == 0 {
        Seq::empty()
    } else {
        places_of(sizes, rows.drop_last()) + pieces(sizes, rows.last() as int, 1, sizes.len())
    }
}

/// Where the rows with these numbers are, in the order in which they are asked for.
pub fn decode_rows_at(sizes: &Vec<u64>, rows: &Vec<u64>) -> (r: Vec<Piece>)
    requires
        rows_upto(sizes@, sizes@.len() as int) <= usize::MAX,
        forall|i: int| 0 <= i < rows@.len() ==> #[trigger] rows@[i] < usize::MAX,
    ensures
        r@ == places_of(sizes@, rows@),
{
    let mut out: Vec<Piece> = Vec::new();
    let mut i: usize = 0;
    assert(rows@.take(0) =~= Seq::empty());
    while i < rows.len()
        invariant
            i <= rows@.len(),
            rows_upto(sizes@, sizes@.len() as int) <= usize::MAX,
            forall|i: int| 0 <= i < rows@.len() ==> #[trigger] rows@[i] < usize::MAX,
            out@ == places_of(sizes@, rows@.take(i as int)),
        decreases rows@.len() - i,
    {
        proof {
            let next = rows@.take(i + 1);
            assert(next.drop_last() =~= rows@.take(i as int));
            assert(next.last() == rows@[i as int]);
        }
        assert(rows@[i as int] < usize::MAX);
        let mut found = decode_row_at(sizes, rows[i] as usize, 1);
        out.append(&mut found);
        i = i + 1;
    }
    assert(rows@.take(i as int) =~= rows@);
    out
}

proof fn one_row_is_one_piece(sizes: Seq<u64>, row: int, k: nat)
    requires
        0 <= row,
        k <= sizes.len() <= usize::MAX,
        rows_upto(sizes, sizes.len() as int) <= usize::MAX,
    ensures
        ({
            let p = pieces(sizes, row, 1, k);
            if row < rows_upto(sizes, k as int) {
                &&& p.len() == 1
                &&& p[0].count == 1
                &&& p[0].part < k
                &&& p[0].from < sizes[p[0].part as int]
                &&& rows_upto(sizes, p[0].part as int) + p[0].from == row
            } else {
                p.len() == 0
            }
        }),
    decreases k,
{
    if k > 0 {
        one_row_is_one_piece(sizes, row, (k - 1) as nat);
        rows_upto_grows(sizes, k as int, sizes.len() as int);
    }
}

/// Rows that are there are all found, in the order in which they are asked for: the
/// `i`-th place is that of the `i`-th row.
pub proof fn places_are_rows(sizes: Seq<u64>, rows: Seq<u64>, i: int)
    requires
        sizes.len() <= usize::MAX,
        rows_upto(sizes, sizes.len() as int) <= usize::MAX,
        forall|j: int|
            0 <= j < rows.len() ==> #[trigger] rows[j] < rows_upto(sizes, sizes.len() as int),
        0 <= i < rows.len(),
    ensures
        places_of(sizes, rows).len() == rows.len(),
        ({
            let p = places_of(sizes, rows)[i];
            &&& p.count == 1
            &&& p.part < sizes.len()
            &&& p.from < sizes[p.part as int]
            &&& rows_upto(sizes, p.part as int) + p.from == rows[i]
        }),
    decreases rows.len(),
{
    let front = rows.drop_last();
    assert(rows[rows.len() - 1] == rows.last());
    one_row_is_one_piece(sizes, rows.last() as int, sizes.len());
    assert forall|j: int| 0 <= j < front.len() implies #[trigger] front[j] < rows_upto(
        sizes,
        sizes.len() as int,
    ) by {
        assert(front[j] == rows[j]);
    }
    if front.len() > 0 {
        places_are_rows(
            sizes,
            front,
            if i < front.len() {
                i
            } else {
                0
            },
        );
    } else {
        assert(places_of(sizes, front).len() == 0);
    }
    let last = pieces(sizes, rows.last() as int, 1, sizes.len());
    assert(last.len() == 1);
    assert(places_of(sizes, rows) == places_of(sizes, front) + last);
    if i < front.len() {
        assert(rows[i] == front[i]);
    }
}

/// The bytes that the first `k` units take.
pub open spec fn unit_sizes(units: Seq<EncUnitTable>, k: int) -> nat
    decreases k,
{
    if k <= 0 {
        0
    } else {
        unit_sizes(units, k - 1) + units[k - 1].size_ as nat
    }
}

/// How many rows each unit has.
pub open spec fn unit_rows(units: Seq<EncUnitTable>) -> Seq<u64> {
    units.map_values(|u: EncUnitTable| u.num_rows as u64)
}

/// More units take more bytes.
pub proof fn unit_sizes_grow(units: Seq<EncUnitTable>, i: int, j: int)
    requires
        0 <= i <= j,
    ensures
        unit_sizes(units, i) <= unit_sizes(units, j),
    decreases j - i,
{
    if i < j {
        unit_sizes_grow(units, i, j - 1);
    }
}

/// Decodes a chunk whose values are stored as they are, one unit after the other.
pub struct NoDictColDecoder {
    pub units: Vec<EncUnitTable>,
    /// How many units have been taken.
    pub taken: usize,
    /// The bytes of the units that have not been taken.
    pub encoded_chunk_buf: BytesMut,
}

/// Rows of a unit, and the bytes of the unit.
pub struct UnitRows {
    pub piece: Piece,
    pub data: Bytes,
}

impl NoDictColDecoder {
    /// The bytes that have not been taken.
    pub open spec fn bytes(self) -> Seq<u8> {
        buffers::owned_bytes(self.encoded_chunk_buf)
    }

    /// Whether the bytes of all units are there.
    pub open spec fn valid(self) -> bool {
        &&& self.taken <= self.units@.len()
        &&& unit_sizes(self.units@, self.units@.len() as int) - unit_sizes(
            self.units@,
            self.taken as int,
        ) <= self.bytes().len()
    }

    /// The bytes of a unit that has not been taken.
    pub open spec fn unit_data(self, k: int) -> Seq<u8> {
        let at = unit_sizes(self.units@, k) - unit_sizes(self.units@, self.taken as int);
        self.bytes().subrange(at, at + self.units@[k].size_)
    }

    /// Whether `after` is the decoder once `n` units have been taken.
    pub open spec fn took(self, after: NoDictColDecoder, n: int) -> bool {
        &&& after.units == self.units
        &&& after.taken == n
        &&& after.bytes() == self.bytes().skip(
            unit_sizes(self.units@, n) - unit_sizes(self.units@, self.taken as int),
        )
    }

    /// Starts with the first unit.
    pub fn new(units: Vec<EncUnitTable>, encoded_chunk_buf: BytesMut) -> (r: Self)
        requires
            unit_sizes(units@, units@.len() as int) <= buffers::owned_bytes(
                encoded_chunk_buf,
            ).len(),
        ensures
            r.valid(),
            r.units == units,
            r.taken == 0,
            r.bytes() == buffers::owned_bytes(encoded_chunk_buf),
    {
        NoDictColDecoder { units, taken: 0, encoded_chunk_buf }
    }

    /// Starts with the first unit if the bytes of all units are there.
    pub fn checked_new(units: Vec<EncUnitTable>, encoded_chunk_buf: BytesMut) -> (r: Option<Self>)
        ensures
            r is Some <==> unit_sizes(units@, units@.len() as int) <= buffers::owned_bytes(
                encoded_chunk_buf,
            ).len(),
            r matches Some(d) ==> d.valid() && d.units == units && d.taken == 0 && d.bytes()
                == buffers::owned_bytes(encoded_chunk_buf),
    {
        let total: usize = buffer_len(&encoded_chunk_buf);
        let mut left: usize = total;
        let n: usize = units.len();
        let mut i: usize = 0;
        while i < n
            invariant
                n == units@.len(),
                i <= n,
                total == buffers::owned_bytes(encoded_chunk_buf).len(),
                left == total - unit_sizes(units@, i as int),
            decreases n - i,
        {
            let size: usize = units[i].size_ as usize;
            if size > left {
                proof {
                    unit_sizes_grow(units@, i + 1, n as int);
                }
                return None;
            }
            left = left - size;
            i = i + 1;
        }
        Some(NoDictColDecoder::new(units, encoded_chunk_buf))
    }

    /// Takes the next unit, if there is one: its bytes.
    pub fn decode_batch(&mut self) -> (r: Option<Bytes>)
        requires
            old(self).valid(),
        ensures
            final(self).valid(),
            old(self).taken == old(self).units@.len() ==> r is None && old(self).took(
                *final(self),
                old(self).taken as int,
            ),
            old(self).taken < old(self).units@.len() ==> r is Some && buffers::shared_bytes(r->0)
                == old(self).unit_data(old(self).taken as int) && old(self).took(
                *final(self),
                old(self).taken + 1,
            ),
    {
        if self.taken == self.units.len() {
            assert(self.bytes().skip(0) =~= self.bytes());
            return None;
        }
        let size: usize = self.units[self.taken].size_ as usize;
        proof {
            unit_sizes_grow(self.units@, self.taken + 1, self.units@.len() as int);
        }
        let data = split_to(&mut self.encoded_chunk_buf, size);
        self.taken = self.taken + 1;
        assert(old(self).bytes().take(size as int) =~= old(self).unit_data(
            old(self).taken as int,
        ));
        Some(freeze(data))
    }

    /// Takes units until the `len` rows from `row_id`, counted from the first unit
    /// that has not been taken, are there or no unit is left; at least one unit if
    /// there is one. Returns the rows with the bytes of their units, or nothing if no
    /// unit that was taken reaches up to `row_id`.
    pub fn decode_row_at(&mut self, row_id: usize, len: usize) -> (r: Option<Vec<UnitRows>>)
        requires
            old(self).valid(),
            rows_upto(unit_rows(old(self).units@), old(self).units@.len() as int) <= usize::MAX,
            row_id + len <= usize::MAX,
        ensures
            final(self).valid(),
            old(self).taken <= final(self).taken,
            old(self).took(*final(self), final(self).taken as int),
            ({
                let rest = unit_rows(old(self).units@.skip(old(self).taken as int));
                let n = (final(self).taken - old(self).taken) as nat;
                let all = pieces(rest, row_id as int, len as int, n);
                &&& n == units_needed(rest, row_id as int, len as int, 1)
                &&& r is Some <==> n > 0 && rows_upto(rest, n as int) >= row_id
                &&& r matches Some(rows) ==> {
                    &&& rows@.len() == all.len()
                    &&& forall|j: int|
                        0 <= j < rows@.len() ==> (#[trigger] rows@[j]).piece == all[j]
                            && buffers::shared_bytes(rows@[j].data) == old(self).unit_data(
                            old(self).taken + all[j].part,
                        )
                }
            }),
    {
        let ghost begin = *self;
        let ghost t0 = self.taken as int;
        let ghost rest = unit_rows(self.units@.skip(t0));
        let mut out: Vec<UnitRows> = Vec::new();
        let mut reached = false;
        let mut base: usize = 0;
        let mut remaining: usize = len;
        let mut k: usize = 0;
        proof {
            assert(begin.bytes().skip(0) =~= begin.bytes());
            assert(self.units.len() <= usize::MAX);
            rest_rows(self.units@, t0, self.units@.len() as int);
        }
        while self.taken < self.units.len()
            invariant_except_break
                units_needed(rest, row_id as int, len as int, 1) == units_needed(
                    rest,
                    row_id as int,
                    len as int,
                    k as nat + 1,
                ),
            invariant
                begin == *old(self),
                begin.valid(),
                self.valid(),
                self.units == begin.units,
                reached == (k > 0 && base >= row_id),
                t0 == begin.taken,
                self.taken == t0 + k,
                begin.took(*self, self.taken as int),
                rest == unit_rows(begin.units@.skip(t0)),
                rest.len() == begin.units@.len() - t0,
                rest.len() <= usize::MAX,
                rows_upto(rest, rest.len() as int) <= usize::MAX,
                row_id + len <= usize::MAX,
                k <= rest.len(),
                base == rows_upto(rest, k as int),
                remaining <= len,
                remaining == len - total_rows(pieces(rest, row_id as int, len as int, k as nat)),
                out@.len() == pieces(rest, row_id as int, len as int, k as nat).len(),
                forall|j: int|
                    0 <= j < out@.len() ==> (#[trigger] out@[j]).piece == pieces(
                        rest,
                        row_id as int,
                        len as int,
                        k as nat,
                    )[j] && buffers::shared_bytes(out@[j].data) == begin.unit_data(
                        t0 + out@[j].piece.part,
                    ),
            ensures
                begin.took(*self, self.taken as int),
                self.valid(),
                self.taken == t0 + k,
                out@.len() == pieces(rest, row_id as int, len as int, k as nat).len(),
                forall|j: int|
                    0 <= j < out@.len() ==> (#[trigger] out@[j]).piece == pieces(
                        rest,
                        row_id as int,
                        len as int,
                        k as nat,
                    )[j] && buffers::shared_bytes(out@[j].data) == begin.unit_data(
                        t0 + out@[j].piece.part,
                    ),
                k == units_needed(rest, row_id as int, len as int, 1),
            decreases self.units@.len() - self.taken,
        {
            let at: usize = self.taken;
            let rows: usize = self.units[at].num_rows as usize;
            let ghost now = pieces(rest, row_id as int, len as int, k as nat);
            let ghost next = pieces(rest, row_id as int, len as int, k as nat + 1);
            proof {
                assert(rest[k as int] == rows);
                rows_upto_grows(rest, k + 1, rest.len() as int);
                unit_sizes_grow(self.units@, at + 1, self.units@.len() as int);
                unit_sizes_grow(self.units@, t0, at as int);
                pieces_are_rows(rest, row_id as int, len as int, k as nat + 1);
                pieces_are_rows(rest, row_id as int, len as int, k as nat);
            }
            let size: usize = self.units[at].size_ as usize;
            let ghost before = *self;
            let data = split_to(&mut self.encoded_chunk_buf, size);
            self.taken = at + 1;
            proof {
                let skipped = unit_sizes(begin.units@, at as int) - unit_sizes(begin.units@, t0);
                assert(before.bytes().take(size as int) =~= begin.unit_data(at as int));
                assert(self.bytes() =~= begin.bytes().skip(skipped + size));
            }
            let end_of_unit: usize = base + rows;
            let from: usize = if row_id > base { row_id } else { base };
            let end: usize = if row_id + len < end_of_unit { row_id + len } else { end_of_unit };
            if from < end {
                let piece = Piece { part: k, from: from - base, count: end - from };
                let ghost held = out@;
                out.push(UnitRows { piece, data: freeze(data) });
                remaining = remaining - (end - from);
                proof {
                    assert(next == now.push(piece));
                    assert(next.drop_last() =~= now);
                    assert forall|j: int| 0 <= j < out@.len() implies (#[trigger] out@[j]).piece
                        == next[j] && buffers::shared_bytes(out@[j].data) == begin.unit_data(
                        t0 + out@[j].piece.part,
                    ) by {
                        if j < held.len() {
                            assert(out@[j] == held[j]);
                        }
                    }
                }
            }
            base = end_of_unit;
            k = k + 1;
            reached = base >= row_id;
            if remaining == 0 {
                break;
            }
        }
        if reached {
            Some(out)
        } else {
            None
        }
    }
}

/// How many parts it takes to have the `len` rows from `row_id`, `n` or more: as few
/// as have them all, and all parts if no number of them has.
pub open spec fn units_needed(sizes: Seq<u64>, row_id: int, len: int, n: nat) -> nat
    decreases sizes.len() - n,
{
    if n >= sizes.len() {
        sizes.len()
    } else if total_rows(pieces(sizes, row_id, len, n)) == len {
        n
    } else {
        units_needed(sizes, row_id, len, n + 1)
    }
}

/// As many parts as are needed have all rows that are asked for, and fewer do not.
pub proof fn no_fewer_units_do(sizes: Seq<u64>, row_id: int, len: int, n: nat)
    requires
        1 <= n <= sizes.len(),
    ensures
        ({
            let k = units_needed(sizes, row_id, len, n);
            &&& n <= k <= sizes.len()
            &&& k == sizes.len() || total_rows(pieces(sizes, row_id, len, k)) == len
            &&& forall|m: nat|
                n <= m < k ==> total_rows(#[trigger] pieces(sizes, row_id, len, m)) != len
        }),
    decreases sizes.len() - n,
{
    if n < sizes.len() && total_rows(pieces(sizes, row_id, len, n)) != len {
        no_fewer_units_do(sizes, row_id, len, n + 1);
    }
}

/// The rows of the units behind the first `t`.
proof fn rest_rows(units: Seq<EncUnitTable>, t: int, n: int)
    requires
        0 <= t <= n <= units.len(),
    ensures
        rows_upto(unit_rows(units.skip(t)), n - t) + rows_upto(unit_rows(units), t) == rows_upto(
            unit_rows(units),
            n,
        ),
    decreases n - t,
{
    if t < n {
        rest_rows(units, t, n - 1);
        assert(unit_rows(units.skip(t))[n - 1 - t] == unit_rows(units)[n - 1]);
    }
}

/// How a chunk is decoded.
#[derive(Clone, Copy, Debug, PartialEq, Eq, Structural)]
pub enum PhysicalDecoder {
    /// The values are stored as they are.
    NoDictionary,
    /// Each dictionary is stored in front of the indexes into it.
    LocalDictionary,
    /// The indexes are into a dictionary of the file.
    SharedDictionary(usize),
}

/// Why a chunk cannot be decoded.
#[derive(Clone, Copy, Debug, PartialEq, Eq, Structural)]
pub enum PhysicalDecoderError {
    /// There are no dictionaries of the file.
    NoDictionaryCache,
    /// The dictionary is not there.
    DictionaryNotFound,
}

/// How a chunk is decoded if `cache` tells which dictionaries of the file are
/// there.
pub open spec fn decoder_for(encoding: DictionaryEncodingTable, cache: Option<Seq<bool>>) -> Result<
    PhysicalDecoder,
    PhysicalDecoderError,
> {
    match encoding {
        DictionaryEncodingTable::NoDictionary => Ok(PhysicalDecoder::NoDictionary),
        DictionaryEncodingTable::LocalDictionary(_) => Ok(PhysicalDecoder::LocalDictionary),
        DictionaryEncodingTable::SharedDictionary(idx) => match cache {
            None => Err(PhysicalDecoderError::NoDictionaryCache),
            Some(present) => if idx < present.len() && present[idx as int] {
                Ok(PhysicalDecoder::SharedDictionary(idx as usize))
            } else {
                Err(PhysicalDecoderError::DictionaryNotFound)
            },
        },
        DictionaryEncodingTable::Unknown => Err(PhysicalDecoderError::DictionaryNotFound),
    }
}

/// Tells how a chunk is decoded.
pub fn create_physical_decoder(
    encoding: &DictionaryEncodingTable,
    data_type: &DataType,
    cache: Option<&Vec<bool>>,
) -> (r: Result<PhysicalDecoder, PhysicalDecoderError>)
    requires
        data_type.is_non_nest() || data_type is List || data_type is LargeList,
        !(encoding is Unknown),
    ensures
        r == decoder_for(
            *encoding,
            match cache {
                Some(present) => Some(present@),
                None => None,
            },
        ),
{
    match encoding {
        DictionaryEncodingTable::NoDictionary => Ok(PhysicalDecoder::NoDictionary),
        DictionaryEncodingTable::LocalDictionary(_) => Ok(PhysicalDecoder::LocalDictionary),
        DictionaryEncodingTable::SharedDictionary(idx) => match cache {
            None => Err(PhysicalDecoderError::NoDictionaryCache),
            Some(present) => {
                let at: usize = *idx as usize;
                if at < present.len() && present[at] {
                    Ok(PhysicalDecoder::SharedDictionary(at))
                } else {
                    Err(PhysicalDecoderError::DictionaryNotFound)
                }
            },
        },
        DictionaryEncodingTable::Unknown => Err(PhysicalDecoderError::DictionaryNotFound),
    }
}

} // verus!
