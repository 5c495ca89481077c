//! Laws of bit patterns, of vectors that stand one behind the other, and of functions
//! that are handed in.
use crate::floats;
use crate::kmeans;
use vstd::prelude::*;

verus! {

/// Of two patterns without a sign the greater one comes later; of two with a sign it
/// comes earlier; and any with a sign comes in front of any without.
pub proof fn patterns_are_ordered(a: u32, b: u32)
    ensures
        a < 0x8000_0000 && b < 0x8000_0000 ==> (floats::order_key(a) < floats::order_key(b) <==> a
            < b),
        a >= 0x8000_0000 && b >= 0x8000_0000 ==> (floats::order_key(a) < floats::order_key(b)
            <==> a > b),
        a >= 0x8000_0000 && b < 0x8000_0000 ==> floats::order_key(a) < floats::order_key(b),
        floats::order_key(a) == floats::order_key(b) <==> a == b,
{
}

/// A pattern is no number if all bits of its exponent are set and some of its fraction,
/// whatever its sign is.
pub proof fn nan_patterns(sign: bool, exponent: u32, fraction: u32)
    requires
        exponent < 0x100,
        fraction < 0x80_0000,
    ensures
        ({
            let bits = (if sign {
                0x8000_0000int
            } else {
                0
            }) + exponent * 0x80_0000 + fraction;
            floats::is_nan(bits as u32) <==> exponent == 0xff && fraction > 0
        }),
{
}

/// A number is below another if it comes earlier in the order, where the two zeros are
/// the same; what is no number is neither below nor above anything.
pub proof fn below_is_an_order(a: u32, b: u32, c: u32)
    ensures
        floats::is_nan(a) || floats::is_nan(b) ==> !floats::is_below(a, b),
        !floats::is_below(a, a),
        floats::is_below(a, b) ==> !floats::is_below(b, a) && floats::order_key(a)
            < floats::order_key(b),
        floats::is_below(a, b) && floats::is_below(b, c) ==> floats::is_below(a, c),
        !floats::is_nan(a) && !floats::is_nan(b) ==> floats::is_below(a, b) || floats::is_below(
            b,
            a,
        ) || a == b || (a % 0x8000_0000 == 0 && b % 0x8000_0000 == 0),
        !floats::is_below(0, 0x8000_0000) && !floats::is_below(0x8000_0000, 0),
{
}

/// Component `j` of vector `i` stands at `i * dim + j`.
pub proof fn components_of_rows(v: Seq<u32>, dim: nat, i: int, j: int, n: int)
    requires
        0 <= i < n,
        0 <= j < dim,
        n * dim <= v.len(),
    ensures
        floats::row_of(v, dim, i).len() == dim,
        floats::row_of(v, dim, i)[j] == v[i * dim + j],
{
    floats::row_fits(dim, i, n);
}

/// The distance of two vectors is what the function that is handed in gives for them,
/// in this order.
pub proof fn distance_is_what_is_given<F: Fn(&[u32], &[u32]) -> u32>(
    f: F,
    a: &[u32],
    b: &[u32],
    x: u32,
)
    requires
        floats::is_distance(f),
        call_ensures(f, (a, b), x),
    ensures
        floats::distance(f, a@, b@) == x,
{
    assert(floats::measured(f, a@, b@, x));
    let y = floats::distance(f, a@, b@);
    assert(floats::measured(f, a@, b@, y));
    let (u, v) = choose|u: &[u32], v: &[u32]|
        u@ == a@ && v@ == b@ && #[trigger] call_ensures(f, (u, v), y);
    assert(x == y);
}

/// What comes of two numbers is what the function that is handed in gives for them, in
/// this order.
pub proof fn operation_is_what_is_given<F: Fn(u32, u32) -> u32>(f: F, a: u32, b: u32, x: u32)
    requires
        floats::is_operation(f),
        call_ensures(f, (a, b), x),
    ensures
        floats::applied(f, a, b) == x,
{
}

/// The 16-bit pattern of a number is what the function that is handed in gives for it.
pub proof fn narrowing_is_what_is_given<F: Fn(u32) -> u16>(f: F, a: u32, x: u16)
    requires
        floats::is_narrowing(f),
        call_ensures(f, (a,), x),
    ensures
        floats::narrowed(f, a) == x,
{
}

/// The average of a sum is what the function that is handed in gives for it.
pub proof fn average_is_what_is_given<M: Fn(u32, usize) -> u32>(m: M, a: u32, n: usize, x: u32)
    requires
        kmeans::is_average(m),
        call_ensures(m, (a, n), x),
    ensures
        kmeans::averaged(m, a, n) == x,
{
}

} // verus!
