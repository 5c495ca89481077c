//! Numbers to measure with.
use crate::floats::apply;
use vstd::prelude::*;

verus! {

/// The state behind another one.
pub open spec fn next_state(state: u64) -> u64 {
    ((state * 6364136223846793005 + 1442695040888963407) % 0x1_0000_0000_0000_0000) as u64
}

/// The state after `n` steps.
pub open spec fn state_after(state: u64, n: nat) -> u64
    decreases n,
{
    if n == 0 {
        state
    } else {
        next_state(state_after(state, (n - 1) as nat))
    }
}

/// The pattern of a number from one up to two, of which the state gives the
/// fraction.
pub open spec fn unit_pattern(state: u64) -> u32 {
    (0x3f80_0000 + (state / 0x1_0000_0000) % 0x80_0000) as u32
}

/// The pattern of one.
pub const ONE: u32 = 0x3f80_0000;

proof fn steps(state: u64)
    ensures
        next_state(state) == state.wrapping_mul(6364136223846793005).wrapping_add(
            1442695040888963407,
        ),
{
    let a: int = state * 6364136223846793005;
    let m: int = 0x1_0000_0000_0000_0000;
    vstd::arithmetic::div_mod::lemma_add_mod_noop(a, 1442695040888963407, m);
    assert((a % m + 1442695040888963407) % m == (a + 1442695040888963407) % m) by {
        vstd::arithmetic::div_mod::lemma_small_mod(1442695040888963407, m as nat);
    }
}

/// Numbers from zero up to one that follow from a state. `minus` subtracts.
pub fn fill_f32<M: Fn(u32, u32) -> u32>(n: usize, state: u64, minus: &M) -> (r: Vec<u32>)
    requires
        crate::floats::is_operation(*minus),
    ensures
        r@.len() == n,
        forall|i: int|
            0 <= i < n ==> #[trigger] r@[i] == crate::floats::applied(
                *minus,
                unit_pattern(state_after(state, (i + 1) as nat)),
                ONE,
            ),
{
    let mut out: Vec<u32> = Vec::new();
    let mut now: u64 = state;
    while out.len() < n
        invariant
            crate::floats::is_operation(*minus),
            out@.len() <= n,
            now == state_after(state, out@.len()),
            forall|i: int|
                0 <= i < out@.len() ==> #[trigger] out@[i] == crate::floats::applied(
                    *minus,
                    unit_pattern(state_after(state, (i + 1) as nat)),
                    ONE,
                ),
        decreases n - out@.len(),
    {
        proof {
            steps(now);
        }
        now = now.wrapping_mul(6364136223846793005).wrapping_add(1442695040888963407);
        let mantissa: u32 = ((now / 0x1_0000_0000) % 0x80_0000) as u32;
        out.push(apply(minus, ONE + mantissa, ONE));
    }
    out
}

} // verus!
