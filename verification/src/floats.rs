//! Floating-point numbers as bit patterns.
//!
//! Vectors and distances are held as the IEEE 754 patterns of their 32-bit
//! numbers. Arithmetic on them is the caller's: functions that need a distance or
//! a narrower number take a function that computes it. What the library does with
//! patterns itself is to store them and to put them in order.
use vstd::prelude::*;

verus! {

/// Whether the pattern is that of no number.
pub open spec fn is_nan(bits: u32) -> bool {
    bits % 0x8000_0000 > 0x7f80_0000
}

/// The place of a pattern in the total order of IEEE 754: numbers in their
/// order, -0 before +0, negative NaNs first, positive NaNs last.
pub open spec fn order_key(bits: u32) -> u32 {
    if bits >= 0x8000_0000 {
        (0xffff_ffff - bits) as u32
    } else {
        (bits + 0x8000_0000) as u32
    }
}

/// Whether the number with pattern `a` is less than that with pattern `b`: false
/// if one is no number, and for the two zeros.
pub open spec fn is_below(a: u32, b: u32) -> bool {
    &&& !is_nan(a)
    &&& !is_nan(b)
    &&& !(a % 0x8000_0000 == 0 && b % 0x8000_0000 == 0)
    &&& order_key(a) < order_key(b)
}

/// The pattern of positive infinity.
pub const INFINITY: u32 = 0x7f80_0000;

/// The pattern of the largest number.
pub const MAX: u32 = 0x7f7f_ffff;

/// Different patterns have different places.
pub proof fn order_key_injective(a: u32, b: u32)
    requires
        order_key(a) == order_key(b),
    ensures
        a == b,
{
}

/// Tells NaNs from numbers.
pub fn nan(bits: u32) -> (r: bool)
    ensures
        r == is_nan(bits),
{
    bits % 0x8000_0000 > 0x7f80_0000
}

/// Where a pattern stands in the total order.
pub fn key(bits: u32) -> (r: u32)
    ensures
        r == order_key(bits),
{
    if bits >= 0x8000_0000 {
        0xffff_ffff - bits
    } else {
        bits + 0x8000_0000
    }
}

/// Compares two numbers.
pub fn below(a: u32, b: u32) -> (r: bool)
    ensures
        r == is_below(a, b),
{
    !nan(a) && !nan(b) && !(a % 0x8000_0000 == 0 && b % 0x8000_0000 == 0) && key(a) < key(b)
}

/// Vector `i` of vectors of `dim` components that stand one behind the other.
pub open spec fn row_of(v: Seq<u32>, dim: nat, i: int) -> Seq<u32> {
    v.subrange(i * dim, i * dim + dim)
}

/// A vector ends where the next one starts, within all of them.
pub proof fn row_fits(dim: nat, i: int, n: int)
    requires
        0 <= i < n,
    ensures
        0 <= i * dim,
        i * dim + dim == (i + 1) * dim,
        (i + 1) * dim <= n * dim,
{
    assert(0 <= i * dim) by (nonlinear_arith)
        requires
            0 <= i,
    ;
    assert(i * dim + dim == (i + 1) * dim) by (nonlinear_arith);
    assert((i + 1) * dim <= n * dim) by (nonlinear_arith)
        requires
            i + 1 <= n,
    ;
}

/// Vector `i` of `n` vectors.
pub fn row<'a>(v: &'a [u32], dim: usize, i: usize, n: usize) -> (r: &'a [u32])
    requires
        i < n,
        n * dim <= v@.len(),
    ensures
        r@ == row_of(v@, dim as nat, i as int),
{
    proof {
        row_fits(dim as nat, i as int, n as int);
    }
    let total: usize = v.len();
    let start: usize = i * dim;
    &v[start..start + dim]
}

/// Whether `f` computes a function of the two vectors, for all vectors.
pub open spec fn is_distance<F: Fn(&[u32], &[u32]) -> u32>(f: F) -> bool {
    &&& forall|a: &[u32], b: &[u32]| #[trigger] call_requires(f, (a, b))
    &&& forall|a: &[u32], b: &[u32], c: &[u32], d: &[u32], x: u32, y: u32|
        #[trigger] call_ensures(f, (a, b), x) && #[trigger] call_ensures(f, (c, d), y) && a@ == c@
            && b@ == d@ ==> x == y
}

/// The pattern of the distance that `f` computes between two vectors.
pub open spec fn distance<F: Fn(&[u32], &[u32]) -> u32>(f: F, a: Seq<u32>, b: Seq<u32>) -> u32 {
    choose|x: u32| measured(f, a, b, x)
}

/// Whether `x` is an answer of `f` for these vectors.
pub open spec fn measured<F: Fn(&[u32], &[u32]) -> u32>(
    f: F,
    a: Seq<u32>,
    b: Seq<u32>,
    x: u32,
) -> bool {
    exists|u: &[u32], v: &[u32]| u@ == a && v@ == b && #[trigger] call_ensures(f, (u, v), x)
}

/// Asks `f` for the distance of two vectors.
pub fn measure<F: Fn(&[u32], &[u32]) -> u32>(f: &F, a: &[u32], b: &[u32]) -> (r: u32)
    requires
        is_distance(*f),
    ensures
        r == distance(*f, a@, b@),
{
    let x: u32 = f(a, b);
    proof {
        assert(measured(*f, a@, b@, x));
        let y = distance(*f, a@, b@);
        assert(measured(*f, a@, b@, y));
        let (u, v) = choose|u: &[u32], v: &[u32]|
            u@ == a@ && v@ == b@ && #[trigger] call_ensures(*f, (u, v), y);
        assert(x == y);
    }
    x
}

/// Whether `f` computes a function of two numbers, for all patterns.
pub open spec fn is_operation<F: Fn(u32, u32) -> u32>(f: F) -> bool {
    &&& forall|a: u32, b: u32| #[trigger] call_requires(f, (a, b))
    &&& forall|a: u32, b: u32, x: u32, y: u32| #[trigger]
        call_ensures(f, (a, b), x) && #[trigger] call_ensures(f, (a, b), y) ==> x == y
}

/// The pattern that `f` gives for two.
pub open spec fn applied<F: Fn(u32, u32) -> u32>(f: F, a: u32, b: u32) -> u32 {
    choose|x: u32| call_ensures(f, (a, b), x)
}

/// Asks `f` for the pattern.
pub fn apply<F: Fn(u32, u32) -> u32>(f: &F, a: u32, b: u32) -> (r: u32)
    requires
        is_operation(*f),
    ensures
        r == applied(*f, a, b),
{
    f(a, b)
}

/// Whether `f` computes a function, for all patterns.
pub open spec fn is_narrowing<F: Fn(u32) -> u16>(f: F) -> bool {
    &&& forall|a: u32| #[trigger] call_requires(f, (a,))
    &&& forall|a: u32, x: u16, y: u16| #[trigger]
        call_ensures(f, (a,), x) && #[trigger] call_ensures(f, (a,), y) ==> x == y
}

/// The 16-bit pattern that `f` gives for a 32-bit one.
pub open spec fn narrowed<F: Fn(u32) -> u16>(f: F, a: u32) -> u16 {
    choose|x: u16| call_ensures(f, (a,), x)
}

/// Asks `f` for the 16-bit pattern.
pub fn narrow<F: Fn(u32) -> u16>(f: &F, a: u32) -> (r: u16)
    requires
        is_narrowing(*f),
    ensures
        r == narrowed(*f, a),
{
    f(a)
}

} // verus!
