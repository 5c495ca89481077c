//! Unsigned LEB128 numbers: seven bits a byte, low groups first, the top bit of
//! a byte set while more groups follow.
use vstd::prelude::*;

verus! {

/// Why bytes are no LEB128 number of 32 bits.
#[derive(Clone, Copy, Debug, PartialEq, Eq, Structural)]
pub enum Uleb128Error {
    /// The bytes end before the number does.
    Truncated,
    /// A group beyond bit 32 is not zero.
    Overflow,
    /// More groups follow than a 32-bit number can have.
    TooLong,
}

/// The bytes that spell `v`.
pub open spec fn uleb128_bytes(v: u32) -> Seq<u8>
    decreases v,
{
    if v < 0x80 {
        seq![v as u8]
    } else {
        seq![(v % 0x80 + 0x80) as u8] + uleb128_bytes(v / 0x80)
    }
}

/// The number that the groups at the front of `s` spell and how many groups
/// there are, where `seen` groups went before.
pub open spec fn uleb128_groups(s: Seq<u8>, seen: nat) -> Result<(nat, nat), Uleb128Error>
    decreases s.len(),
{
    if s.len() == 0 {
        Err(Uleb128Error::Truncated)
    } else if seen >= 5 && s[0] % 0x80 != 0 {
        Err(Uleb128Error::Overflow)
    } else if s[0] < 0x80 {
        Ok((s[0] as nat, 1))
    } else if seen >= 5 {
        Err(Uleb128Error::TooLong)
    } else {
        match uleb128_groups(s.skip(1), seen + 1) {
            Ok((v, n)) => Ok(((s[0] % 0x80) as nat + 0x80 * v, n + 1)),
            Err(e) => Err(e),
        }
    }
}

/// The number at the front of `s` and the bytes it takes. Bits beyond the
/// thirty-second are dropped.
pub open spec fn uleb128_front(s: Seq<u8>) -> Result<(u32, nat), Uleb128Error> {
    match uleb128_groups(s, 0) {
        Ok((v, n)) => Ok(((v % 0x1_0000_0000) as u32, n)),
        Err(e) => Err(e),
    }
}

proof fn groups_bound(s: Seq<u8>, seen: nat)
    ensures
        uleb128_groups(s, seen) matches Ok((v, n)) ==> 1 <= n <= s.len() && n <= 6,
        seen <= 5 ==> (uleb128_groups(s, seen) matches Ok((v, n)) ==> n + seen <= 6),
    decreases s.len(),
{
    if s.len() > 0 && s[0] >= 0x80 && seen < 5 {
        groups_bound(s.skip(1), seen + 1);
    }
}

/// A number takes at least one byte, at most six, and no more than there are.
pub proof fn uleb128_front_bound(s: Seq<u8>)
    ensures
        uleb128_front(s) matches Ok((v, n)) ==> 1 <= n <= s.len() && n <= 6,
{
    groups_bound(s, 0);
}

proof fn groups_of_bytes(v: u32, rest: Seq<u8>, seen: nat)
    requires
        seen <= 4,
        seen == 4 ==> v < 0x10,
        seen == 3 ==> v < 0x800,
        seen == 2 ==> v < 0x4_0000,
        seen == 1 ==> v < 0x200_0000,
    ensures
        uleb128_groups(uleb128_bytes(v) + rest, seen) == Ok::<(nat, nat), Uleb128Error>(
            (v as nat, uleb128_bytes(v).len()),
        ),
    decreases v,
{
    let s = uleb128_bytes(v) + rest;
    if v < 0x80 {
        assert(s[0] == v as u8);
    } else {
        let b = (v % 0x80 + 0x80) as u8;
        let tail = uleb128_bytes(v / 0x80);
        assert(s[0] == b);
        assert(b % 0x80 == v % 0x80);
        assert(s.skip(1) =~= tail + rest);
        groups_of_bytes(v / 0x80, rest, seen + 1);
    }
}

/// Decoding gives back what was encoded and stops right behind it, whatever
/// bytes follow.
pub proof fn uleb128_round_trip(v: u32, rest: Seq<u8>)
    ensures
        uleb128_front(uleb128_bytes(v) + rest) == Ok::<(u32, nat), Uleb128Error>(
            (v, uleb128_bytes(v).len()),
        ),
{
    groups_of_bytes(v, rest, 0);
}

/// Reads the number at the front of `input`: its value and the bytes it takes.
pub fn decode_uleb128_u32(input: &[u8]) -> (r: Result<(u32, usize), Uleb128Error>)
    ensures
        match r {
            Ok((v, n)) => uleb128_front(input@) == Ok::<(u32, nat), Uleb128Error>((v, n as nat)),
            Err(e) => uleb128_front(input@) == Err::<(u32, nat), Uleb128Error>(e),
        },
{
    let mut value: u64 = 0;
    let mut scale: u64 = 1;
    let mut used: usize = 0;
    assert(input@.skip(0) =~= input@);
    loop
        invariant
            used <= 5,
            used <= input@.len(),
            used == 0 ==> scale == 1,
            used == 1 ==> scale == 0x80,
            used == 2 ==> scale == 0x4000,
            used == 3 ==> scale == 0x20_0000,
            used == 4 ==> scale == 0x1000_0000,
            used == 5 ==> scale == 0x8_0000_0000,
            value < scale,
            match uleb128_groups(input@.skip(used as int), used as nat) {
                Ok((v, n)) => uleb128_groups(input@, 0) == Ok::<(nat, nat), Uleb128Error>(
                    ((value + scale * v) as nat, used as nat + n),
                ),
                Err(e) => uleb128_groups(input@, 0) == Err::<(nat, nat), Uleb128Error>(e),
            },
        decreases 6 - used,
    {
        let ghost rest = input@.skip(used as int);
        if used >= input.len() {
            return Err(Uleb128Error::Truncated);
        }
        let b: u8 = input[used];
        assert(rest[0] == b);
        let low: u64 = (b % 0x80) as u64;
        if used >= 5 && low != 0 {
            return Err(Uleb128Error::Overflow);
        }
        if b < 0x80 {
            assert(scale * low <= 0x1000_0000 * 0x7f || low == 0) by (nonlinear_arith)
                requires
                    scale <= 0x1000_0000 || low == 0,
                    low <= 0x7f,
            ;
            assert(low == 0 ==> scale * low == 0) by (nonlinear_arith);
            let total: u64 = value + scale * low;
            return Ok(((total % 0x1_0000_0000) as u32, used + 1));
        }
        if used >= 5 {
            return Err(Uleb128Error::TooLong);
        }
        proof {
            assert(rest.skip(1) =~= input@.skip(used as int + 1));
            assert forall|v: nat|
                #![trigger scale * ((b % 0x80) as nat + 0x80 * v)]
                value + scale * ((b % 0x80) as nat + 0x80 * v) == (value + scale * low) + (scale
                    * 0x80) * v by {
                assert(scale * (low as nat + 0x80 * v) == scale * low + (scale * 0x80) * v)
                    by (nonlinear_arith);
            }
            assert(scale * low <= scale * 0x7f) by (nonlinear_arith)
                requires
                    low <= 0x7f,
            ;
        }
        value = value + scale * low;
        scale = scale * 0x80;
        used = used + 1;
    }
}

/// Appends the bytes that spell `v`.
pub fn encode_uleb128_u32(v: u32, out: &mut Vec<u8>)
    ensures
        final(out)@ == old(out)@ + uleb128_bytes(v),
{
    let mut rest: u32 = v;
    while rest >= 0x80
        invariant
            out@ + uleb128_bytes(rest) == old(out)@ + uleb128_bytes(v),
        decreases rest,
    {
        let ghost before = out@;
        out.push((rest % 0x80 + 0x80) as u8);
        assert(out@ + uleb128_bytes(rest / 0x80) =~= before + uleb128_bytes(rest));
        rest = rest / 0x80;
    }
    out.push(rest as u8);
    assert(out@ =~= old(out)@ + uleb128_bytes(v));
}

} // verus!
