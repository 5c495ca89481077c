//! Files of vectors: each a number of components and the components.
use crate::le;
use crate::le::{get_u32s, read_u32};
use vstd::prelude::*;

verus! {

/// Why bytes are no vectors.
#[derive(Clone, Copy, Debug, PartialEq, Eq, Structural)]
pub enum VecsError {
    /// A number of components is out of range.
    Dimension { got: u32 },
    /// A vector has another number of components than the first one.
    DimMismatch { expected: u32, got: u32 },
    /// The bytes end within a vector.
    Truncated,
}

/// The number of components of the first vector.
pub open spec fn head(b: Seq<u8>) -> u32 {
    le::u32_of(b.subrange(0, 4))
}

/// Where the first vector ends.
pub open spec fn head_end(b: Seq<u8>) -> int {
    4 + 4 * head(b)
}

/// The components of the first vector.
pub open spec fn head_row(b: Seq<u8>) -> Seq<u32> {
    le::u32s_of(b.subrange(4, head_end(b)))
}

/// A vector in front of others.
pub open spec fn in_front(
    row: Seq<u32>,
    rest: Result<Seq<Seq<u32>>, VecsError>,
) -> Result<Seq<Seq<u32>>, VecsError> {
    match rest {
        Ok(s) => Ok(seq![row] + s),
        Err(e) => Err(e),
    }
}

/// The vectors that bytes hold: `limit` at most, where there is a limit. Bytes
/// that are too few for a number of components end them.
pub open spec fn records(b: Seq<u8>, limit: Option<nat>) -> Result<Seq<Seq<u32>>, VecsError>
    decreases b.len(),
{
    if limit == Some(0nat) || b.len() < 4 {
        Ok(Seq::empty())
    } else if head(b) == 0 || head(b) > i32::MAX {
        Err(VecsError::Dimension { got: head(b) })
    } else if b.len() < head_end(b) {
        Err(VecsError::Truncated)
    } else {
        in_front(head_row(b), records(b.skip(head_end(b)), one_less(limit)))
    }
}

/// A limit when one vector has been read.
pub open spec fn one_less(limit: Option<nat>) -> Option<nat> {
    match limit {
        Some(n) => Some((n - 1) as nat),
        None => None,
    }
}

/// Some vectors in front of others.
pub open spec fn behind(
    rows: Seq<Seq<u32>>,
    rest: Result<Seq<Seq<u32>>, VecsError>,
) -> Result<Seq<Seq<u32>>, VecsError> {
    match rest {
        Ok(s) => Ok(rows + s),
        Err(e) => Err(e),
    }
}

/// The limit that `0` and other numbers stand for.
pub open spec fn limit_of(limit: usize) -> Option<nat> {
    if limit == 0 {
        None
    } else {
        Some(limit as nat)
    }
}

/// What is left of a limit.
pub open spec fn left_of(limit: usize, n: int) -> Option<nat> {
    if limit == 0 {
        None
    } else {
        Some((limit - n) as nat)
    }
}

/// The bytes of one vector.
pub open spec fn record_bytes(row: Seq<u32>) -> Seq<u8> {
    le::bytes_of_u32(row.len() as u32) + le::bytes_of_u32s(row)
}

/// The bytes of vectors.
pub open spec fn records_bytes(rows: Seq<Seq<u32>>) -> Seq<u8>
    decreases rows.len(),
{
    if rows.len() == 0 {
        Seq::empty()
    } else {
        record_bytes(rows[0]) + records_bytes(rows.drop_first())
    }
}

/// The first vector of bytes that start with one is that vector, and the rest stays.
pub proof fn head_of_record(row: Seq<u32>, rest: Seq<u8>)
    requires
        row.len() <= i32::MAX,
    ensures
        ({
            let b = record_bytes(row) + rest;
            &&& b.len() >= 4 + 4 * row.len()
            &&& head(b) == row.len()
            &&& head_row(b) == row
            &&& b.skip(head_end(b)) == rest
        }),
{
    broadcast use le::sizes;

    let b = record_bytes(row) + rest;
    le::u32_round_trip(row.len() as u32);
    le::u32s_round_trip(row);
    assert(b.subrange(0, 4) =~= le::bytes_of_u32(row.len() as u32));
    assert(b.subrange(4, head_end(b)) =~= le::bytes_of_u32s(row));
    assert(b.skip(head_end(b)) =~= rest);
}

/// Vectors that are written down are read back.
pub proof fn records_round_trip(rows: Seq<Seq<u32>>)
    requires
        forall|i: int| 0 <= i < rows.len() ==> 0 < (#[trigger] rows[i]).len() <= i32::MAX,
    ensures
        records(records_bytes(rows), None) == Ok::<Seq<Seq<u32>>, VecsError>(rows),
    decreases rows.len(),
{
    if rows.len() > 0 {
        let rest = rows.drop_first();
        assert forall|i: int| 0 <= i < rest.len() implies 0 < (#[trigger] rest[i]).len()
            <= i32::MAX by {
            assert(rest[i] == rows[i + 1]);
        }
        records_round_trip(rest);
        head_of_record(rows[0], records_bytes(rest));
        assert(seq![rows[0]] + rest =~= rows);
    } else {
        assert(rows =~= Seq::empty());
    }
}

/// With a limit the first vectors are read, as long as all can be.
pub proof fn limit_takes_first(b: Seq<u8>, n: nat)
    requires
        records(b, None) is Ok,
    ensures
        records(b, Some(n)) == Ok::<Seq<Seq<u32>>, VecsError>(
            records(b, None)->Ok_0.take(if n < records(b, None)->Ok_0.len() {
                n as int
            } else {
                records(b, None)->Ok_0.len() as int
            }),
        ),
    decreases b.len(),
{
    let all = records(b, None)->Ok_0;
    let k = if n < all.len() {
        n as int
    } else {
        all.len() as int
    };
    if n == 0 || b.len() < 4 {
        assert(all.take(k) =~= Seq::empty());
    } else {
        let rest = b.skip(head_end(b));
        limit_takes_first(rest, (n - 1) as nat);
        assert(all =~= seq![head_row(b)] + records(rest, None)->Ok_0);
        assert(seq![head_row(b)] + records(rest, None)->Ok_0.take(k - 1) =~= all.take(k));
    }
}

/// Reads the number of components of a vector at `pos`.
fn read_head(bytes: &[u8], pos: usize) -> (r: u32)
    requires
        pos + 4 <= bytes@.len(),
    ensures
        r == head(bytes@.skip(pos as int)),
{
    let n: usize = bytes.len();
    let four = &bytes[pos..pos + 4];
    assert(four@.subrange(0, 4) =~= bytes@.skip(pos as int).subrange(0, 4));
    read_u32(four)
}

/// Reads vectors: all of them if `limit` is zero, else `limit` at most.
pub fn read_records(bytes: &[u8], limit: usize) -> (r: Result<Vec<Vec<u32>>, VecsError>)
    ensures
        match r {
            Ok(v) => records(bytes@, limit_of(limit)) == Ok::<Seq<Seq<u32>>, VecsError>(
                crate::vector_index::components(v@),
            ),
            Err(e) => records(bytes@, limit_of(limit)) == Err::<Seq<Seq<u32>>, VecsError>(e),
        },
{
    let n: usize = bytes.len();
    let mut out: Vec<Vec<u32>> = Vec::new();
    let mut pos: usize = 0;
    proof {
        assert(bytes@.skip(0) =~= bytes@);
        let all = records(bytes@, limit_of(limit));
        assert(crate::vector_index::components(out@) =~= Seq::empty());
        assert(all is Ok ==> Seq::<Seq<u32>>::empty() + all->Ok_0 =~= all->Ok_0);
    }
    while (limit == 0 || out.len() < limit) && n - pos >= 4
        invariant
            n == bytes@.len(),
            pos <= n,
            limit > 0 ==> out@.len() <= limit,
            records(bytes@, limit_of(limit)) == behind(
                crate::vector_index::components(out@),
                records(bytes@.skip(pos as int), left_of(limit, out@.len() as int)),
            ),
        decreases n - pos,
    {
        let ghost rest = bytes@.skip(pos as int);
        let ghost rows = crate::vector_index::components(out@);
        let dim: u32 = read_head(bytes, pos);
        if dim == 0 || dim > 0x7fff_ffff {
            return Err(VecsError::Dimension { got: dim });
        }
        if (n - pos - 4) / 4 < dim as usize {
            return Err(VecsError::Truncated);
        }
        let end: usize = pos + 4 + 4 * dim as usize;
        let row = get_u32s(&bytes[pos + 4..end]);
        proof {
            assert(bytes@.subrange(pos + 4, end as int) =~= rest.subrange(4, head_end(rest)));
            assert(rest.skip(head_end(rest)) =~= bytes@.skip(end as int));
        }
        out.push(row);
        proof {
            let now = crate::vector_index::components(out@);
            assert(now =~= rows.push(row@));
            let left = left_of(limit, out@.len() as int);
            assert(one_less(left_of(limit, rows.len() as int)) == left);
            let more = records(bytes@.skip(end as int), left);
            if more is Ok {
                assert(rows + (seq![row@] + more->Ok_0) =~= now + more->Ok_0);
            }
        }
        pos = end;
    }
    proof {
        let rows = crate::vector_index::components(out@);
        assert(rows + Seq::<Seq<u32>>::empty() =~= rows);
    }
    Ok(out)
}

/// The largest number of components that a file of equal vectors may have.
pub const MAX_DIM: u32 = 10_000;

/// The components of up to `left` vectors with `dim` components.
pub open spec fn more_components(b: Seq<u8>, dim: u32, left: int) -> Result<Seq<u32>, VecsError>
    decreases b.len(),
{
    if left <= 0 || b.len() < 4 {
        Ok(Seq::empty())
    } else if head(b) != dim {
        Err(VecsError::DimMismatch { expected: dim, got: head(b) })
    } else if b.len() < head_end(b) {
        Err(VecsError::Truncated)
    } else {
        match more_components(b.skip(head_end(b)), dim, left - 1) {
            Ok(s) => Ok(head_row(b) + s),
            Err(e) => Err(e),
        }
    }
}

/// The components of up to `max_vectors` vectors that all have the number of
/// components of the first one. The first one is read in any case.
pub open spec fn equal_vectors(b: Seq<u8>, max_vectors: int) -> Result<
    (u32, Seq<u32>),
    VecsError,
> {
    if b.len() < 4 {
        Err(VecsError::Truncated)
    } else if head(b) == 0 || head(b) > MAX_DIM {
        Err(VecsError::Dimension { got: head(b) })
    } else if b.len() < head_end(b) {
        Err(VecsError::Truncated)
    } else {
        match more_components(b.skip(head_end(b)), head(b), max_vectors - 1) {
            Ok(s) => Ok((head(b), head_row(b) + s)),
            Err(e) => Err(e),
        }
    }
}

/// Reads vectors that all have one number of components, one behind the other.
pub fn read_fvecs(bytes: &[u8], max_vectors: usize) -> (r: Result<(usize, Vec<u32>), VecsError>)
    ensures
        match r {
            Ok((dim, v)) => dim <= u32::MAX && equal_vectors(bytes@, max_vectors as int) == Ok::<
                (u32, Seq<u32>),
                VecsError,
            >((dim as u32, v@)),
            Err(e) => equal_vectors(bytes@, max_vectors as int) == Err::<
                (u32, Seq<u32>),
                VecsError,
            >(e),
        },
{
    let n: usize = bytes.len();
    if n < 4 {
        return Err(VecsError::Truncated);
    }
    let dim: u32 = read_head(bytes, 0);
    assert(bytes@.skip(0) =~= bytes@);
    if dim == 0 || dim > MAX_DIM {
        return Err(VecsError::Dimension { got: dim });
    }
    if (n - 4) / 4 < dim as usize {
        return Err(VecsError::Truncated);
    }
    let mut pos: usize = 4 + 4 * dim as usize;
    let mut out: Vec<u32> = get_u32s(&bytes[4..pos]);
    let mut read: usize = 1;
    let ghost first = bytes@.skip(pos as int);
    proof {
        let more = more_components(first, dim, max_vectors - 1);
        assert(more is Ok ==> out@ + more->Ok_0 =~= head_row(bytes@) + more->Ok_0);
    }
    while read < max_vectors && n - pos >= 4
        invariant
            n == bytes@.len(),
            4 <= pos <= n,
            1 <= read,
            read <= max_vectors || read == 1,
            0 < dim <= MAX_DIM,
            (match more_components(bytes@.skip(pos as int), dim, max_vectors - read) {
                Ok(s) => equal_vectors(bytes@, max_vectors as int) == Ok::<
                    (u32, Seq<u32>),
                    VecsError,
                >((dim, out@ + s)),
                Err(e) => equal_vectors(bytes@, max_vectors as int) == Err::<
                    (u32, Seq<u32>),
                    VecsError,
                >(e),
            }),
        decreases n - pos,
    {
        let ghost rest = bytes@.skip(pos as int);
        let got: u32 = read_head(bytes, pos);
        if got != dim {
            return Err(VecsError::DimMismatch { expected: dim, got });
        }
        if (n - pos - 4) / 4 < dim as usize {
            return Err(VecsError::Truncated);
        }
        let end: usize = pos + 4 + 4 * dim as usize;
        let mut row = get_u32s(&bytes[pos + 4..end]);
        let ghost before = out@;
        let ghost components = row@;
        proof {
            assert(bytes@.subrange(pos + 4, end as int) =~= rest.subrange(4, head_end(rest)));
            assert(rest.skip(head_end(rest)) =~= bytes@.skip(end as int));
            let more = more_components(bytes@.skip(end as int), dim, max_vectors - read - 1);
            assert(more is Ok ==> before + (components + more->Ok_0) =~= (before + components)
                + more->Ok_0);
        }
        out.append(&mut row);
        assert(out@ =~= before + components);
        pos = end;
        read = read + 1;
    }
    assert(out@ + Seq::<u32>::empty() =~= out@);
    Ok((dim as usize, out))
}

} // verus!
