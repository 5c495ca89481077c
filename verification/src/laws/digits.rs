//! Laws of how numbers stand in bytes.
use crate::le;
use crate::postscript;
use crate::postscript::PostScript;
use crate::uleb128;
use crate::uleb128::Uleb128Error;
use vstd::prelude::*;

verus! {

broadcast use crate::le::sizes;

/// Numbers stand low byte first: each byte counts 256 times as much as the one in front
/// of it.
pub proof fn low_bytes_come_first(a: u16, b: u32, c: u64)
    ensures
        ({
            let s = le::bytes_of_u16(a);
            s.len() == 2 && a == s[0] + 0x100 * s[1]
        }),
        ({
            let s = le::bytes_of_u32(b);
            s.len() == 4 && b == s[0] + 0x100 * s[1] + 0x1_0000 * s[2] + 0x100_0000 * s[3]
        }),
        ({
            let s = le::bytes_of_u64(c);
            s.len() == 8 && c == s[0] + 0x100 * s[1] + 0x1_0000 * s[2] + 0x100_0000 * s[3]
                + 0x1_0000_0000 * s[4] + 0x100_0000_0000 * s[5] + 0x1_0000_0000_0000 * s[6]
                + 0x100_0000_0000_0000 * s[7]
        }),
{
    reveal(le::bytes_of_u16);
    reveal(le::bytes_of_u32);
    reveal(le::bytes_of_u64);
    let low = (c % 0x1_0000_0000) as u32;
    let high = (c / 0x1_0000_0000) as u32;
    let s = le::bytes_of_u64(c);
    let a = le::bytes_of_u32(low);
    let b = le::bytes_of_u32(high);
    assert(s == a + b);
    assert(s[0] == a[0] && s[1] == a[1] && s[2] == a[2] && s[3] == a[3]);
    assert(s[4] == b[0] && s[5] == b[1] && s[6] == b[2] && s[7] == b[3]);
    assert(low == a[0] + 0x100 * a[1] + 0x1_0000 * a[2] + 0x100_0000 * a[3]);
    assert(high == b[0] + 0x100 * b[1] + 0x1_0000 * b[2] + 0x100_0000 * b[3]);
    assert(c == low + 0x1_0000_0000 * high);
}

/// What bytes hold is read the same way.
pub proof fn bytes_are_read_low_first(s: Seq<u8>)
    ensures
        s.len() == 2 ==> le::u16_of(s) == s[0] + 0x100 * s[1],
        s.len() == 4 ==> le::u32_of(s) == s[0] + 0x100 * s[1] + 0x1_0000 * s[2] + 0x100_0000
            * s[3],
        s.len() == 8 ==> le::u64_of(s) == s[0] + 0x100 * s[1] + 0x1_0000 * s[2] + 0x100_0000
            * s[3] + 0x1_0000_0000 * s[4] + 0x100_0000_0000 * s[5] + 0x1_0000_0000_0000 * s[6]
            + 0x100_0000_0000_0000 * s[7],
{
    reveal(le::u16_of);
    reveal(le::u32_of);
    reveal(le::u64_of);
    if s.len() == 8 {
        let a = s.subrange(0, 4);
        let b = s.subrange(4, 8);
        assert(a[0] == s[0] && a[1] == s[1] && a[2] == s[2] && a[3] == s[3]);
        assert(b[0] == s[4] && b[1] == s[5] && b[2] == s[6] && b[3] == s[7]);
        assert(le::u32_of(a) == a[0] + 0x100 * a[1] + 0x1_0000 * a[2] + 0x100_0000 * a[3]);
        assert(le::u32_of(b) == b[0] + 0x100 * b[1] + 0x1_0000 * b[2] + 0x100_0000 * b[3]);
    }
}

/// Of several numbers the bytes of each stand behind those of the one in front of it.
pub proof fn numbers_stand_in_a_row(a: Seq<u16>, b: Seq<u32>, c: Seq<u64>, i: int)
    ensures
        le::bytes_of_u16s(a).len() == 2 * a.len(),
        le::bytes_of_u32s(b).len() == 4 * b.len(),
        le::bytes_of_u64s(c).len() == 8 * c.len(),
        0 <= i < a.len() ==> le::bytes_of_u16s(a).subrange(2 * i, 2 * i + 2) == le::bytes_of_u16(
            a[i],
        ),
        0 <= i < b.len() ==> le::bytes_of_u32s(b).subrange(4 * i, 4 * i + 4) == le::bytes_of_u32(
            b[i],
        ),
        0 <= i < c.len() ==> le::bytes_of_u64s(c).subrange(8 * i, 8 * i + 8) == le::bytes_of_u64(
            c[i],
        ),
{
    if 0 <= i < a.len() {
        assert(le::bytes_of_u16s(a).subrange(2 * i, 2 * i + 2) =~= le::bytes_of_u16(a[i]));
    }
    if 0 <= i < b.len() {
        assert(le::bytes_of_u32s(b).subrange(4 * i, 4 * i + 4) =~= le::bytes_of_u32(b[i]));
    }
    if 0 <= i < c.len() {
        assert(le::bytes_of_u64s(c).subrange(8 * i, 8 * i + 8) =~= le::bytes_of_u64(c[i]));
    }
}

/// The number that groups of seven bits spell, low groups first.
pub open spec fn spelled(s: Seq<u8>) -> nat
    decreases s.len(),
{
    if s.len() == 0 {
        0
    } else {
        (s[0] % 0x80) as nat + 0x80 * spelled(s.skip(1))
    }
}

/// Whether bytes are one number: the top bit of all but the last is set.
pub open spec fn is_one_number(s: Seq<u8>) -> bool {
    &&& s.len() > 0
    &&& s.last() < 0x80
    &&& forall|i: int| 0 <= i < s.len() - 1 ==> #[trigger] s[i] >= 0x80
}

/// A number is stored in groups of seven bits, low groups first, as one number without
/// groups that are not needed.
pub proof fn groups_of_seven_bits(v: u32)
    ensures
        is_one_number(uleb128::uleb128_bytes(v)),
        spelled(uleb128::uleb128_bytes(v)) == v,
        uleb128::uleb128_bytes(v).len() > 1 ==> uleb128::uleb128_bytes(v).last() > 0,
    decreases v,
{
    let s = uleb128::uleb128_bytes(v);
    if v < 0x80 {
        assert(spelled(s.skip(1)) == 0);
    } else {
        groups_of_seven_bits(v / 0x80);
        let rest = uleb128::uleb128_bytes(v / 0x80);
        assert(s.skip(1) =~= rest);
        assert(s.last() == rest.last());
        assert forall|i: int| 0 <= i < s.len() - 1 implies #[trigger] s[i] >= 0x80 by {
            if i > 0 {
                assert(s[i] == rest[i - 1]);
            }
        }
    }
}

proof fn groups_are_spelled(s: Seq<u8>, rest: Seq<u8>, seen: nat)
    requires
        is_one_number(s),
        s.len() + seen <= 5,
    ensures
        uleb128::uleb128_groups(s + rest, seen) == Ok::<(nat, nat), Uleb128Error>(
            (spelled(s), s.len()),
        ),
    decreases s.len(),
{
    let all = s + rest;
    assert(all[0] == s[0]);
    if s.len() == 1 {
        assert(s[0] == s.last());
        assert(spelled(s.skip(1)) == 0);
    } else {
        let t = s.skip(1);
        assert(all.skip(1) =~= t + rest);
        assert(t.last() == s.last());
        assert forall|i: int| 0 <= i < t.len() - 1 implies #[trigger] t[i] >= 0x80 by {
            assert(t[i] == s[i + 1]);
        }
        groups_are_spelled(t, rest, seen + 1);
    }
}

/// Up to five groups are read as the number that they spell, without what does not fit
/// in 32 bits, and as many bytes are taken; no matter what follows.
pub proof fn groups_are_read(s: Seq<u8>, rest: Seq<u8>)
    requires
        is_one_number(s),
        s.len() <= 5,
    ensures
        uleb128::uleb128_front(s + rest) == Ok::<(u32, nat), Uleb128Error>(
            ((spelled(s) % 0x1_0000_0000) as u32, s.len()),
        ),
{
    groups_are_spelled(s, rest, 0);
}

proof fn open_groups_go_on(s: Seq<u8>, seen: nat)
    requires
        forall|i: int| 0 <= i < s.len() ==> #[trigger] s[i] >= 0x80,
        s.len() + seen <= 5,
    ensures
        uleb128::uleb128_groups(s, seen) == Err::<(nat, nat), Uleb128Error>(
            Uleb128Error::Truncated,
        ),
    decreases s.len(),
{
    if s.len() > 0 {
        let t = s.skip(1);
        assert forall|i: int| 0 <= i < t.len() implies #[trigger] t[i] >= 0x80 by {
            assert(t[i] == s[i + 1]);
        }
        open_groups_go_on(t, seen + 1);
    }
}

/// Bytes that end before the number does are refused.
pub proof fn unfinished_numbers_are_refused(s: Seq<u8>)
    requires
        forall|i: int| 0 <= i < s.len() ==> #[trigger] s[i] >= 0x80,
        s.len() <= 5,
    ensures
        uleb128::uleb128_front(s) == Err::<(u32, nat), Uleb128Error>(Uleb128Error::Truncated),
{
    open_groups_go_on(s, 0);
}

/// Where each part of a postscript stands: the size of the metadata, that of the footer,
/// the codes of the compression and of the checksum, the checksums of the data and of the
/// schema, the versions, and `F3` at the end of 32 bytes.
pub proof fn parts_of_a_postscript(p: PostScript)
    ensures
        ({
            let b = postscript::postscript_bytes(p);
            &&& b.len() == 32
            &&& b.subrange(0, 4) == le::bytes_of_u32(p.metadata_size)
            &&& b.subrange(4, 8) == le::bytes_of_u32(p.footer_size)
            &&& b[8] == p.compression.code
            &&& b[9] == p.checksum_type.code
            &&& b.subrange(10, 18) == le::bytes_of_u64(p.data_checksum)
            &&& b.subrange(18, 26) == le::bytes_of_u64(p.schema_checksum)
            &&& b.subrange(26, 28) == le::bytes_of_u16(p.major_version)
            &&& b.subrange(28, 30) == le::bytes_of_u16(p.minor_version)
            &&& b[30] == 0x46
            &&& b[31] == 0x33
        }),
{
    let b = postscript::postscript_bytes(p);
    assert(b.subrange(0, 4) =~= le::bytes_of_u32(p.metadata_size));
    assert(b.subrange(4, 8) =~= le::bytes_of_u32(p.footer_size));
    assert(b.subrange(10, 18) =~= le::bytes_of_u64(p.data_checksum));
    assert(b.subrange(18, 26) =~= le::bytes_of_u64(p.schema_checksum));
    assert(b.subrange(26, 28) =~= le::bytes_of_u16(p.major_version));
    assert(b.subrange(28, 30) =~= le::bytes_of_u16(p.minor_version));
}

/// A postscript is read exactly if `F3` stands at the end.
pub proof fn magic_is_looked_for(b: Seq<u8>)
    requires
        b.len() == 32,
    ensures
        postscript::postscript_of(b) is Ok <==> b[30] == 0x46 && b[31] == 0x33,
{
    let end = b.subrange(30, 32);
    if b[30] == 0x46 && b[31] == 0x33 {
        assert(end =~= crate::file_format::magic());
    }
    assert(end[0] == b[30] && end[1] == b[31]);
}

} // verus!
