//! Blocks that are told apart by one number.
use crate::random::draw_between;
use rand::rngs::StdRng;
use vstd::prelude::*;

verus! {

/// A block of scores around a center.
#[derive(Clone, Debug, PartialEq, Eq)]
pub struct Block {
    pub center: u16,
    pub scores: Vec<u16>,
}

/// How far a score may be from the center of its block.
pub const NOISE: i16 = 60;

/// The center of block `b`.
pub open spec fn center_of(b: int) -> u16 {
    ((b * 500 + 5000) % 0x1_0000) as u16
}

/// A number moved to the nearest score there is.
pub open spec fn clamped(x: int) -> u16 {
    if x < 0 {
        0
    } else if x > 0xffff {
        0xffff
    } else {
        x as u16
    }
}

/// Whether a score is one for this center.
pub open spec fn is_score(center: u16, score: u16) -> bool {
    exists|noise: int|
        -NOISE <= noise <= NOISE && #[trigger] clamped(center + noise) == score
}

/// The score of a center and a noise.
pub fn score_of(center: u16, noise: i16) -> (r: u16)
    ensures
        r == clamped(center + noise),
{
    let raw: i32 = center as i32 + noise as i32;
    if raw < 0 {
        0
    } else if raw > 0xffff {
        0xffff
    } else {
        raw as u16
    }
}

/// Makes blocks with evenly spaced centers. The scores are drawn.
pub fn build_blocks(blocks: usize, block_size: usize, rng: &mut StdRng) -> (r: Vec<Block>)
    requires
        blocks * 500 + 5000 <= u32::MAX,
    ensures
        r@.len() == blocks,
        forall|b: int|
            0 <= b < blocks ==> (#[trigger] r@[b]).center == center_of(b) && r@[b].scores@.len()
                == block_size,
        forall|b: int, i: int|
            0 <= b < blocks && 0 <= i < block_size ==> is_score(
                center_of(b),
                #[trigger] r@[b].scores@[i],
            ),
{
    let mut out: Vec<Block> = Vec::new();
    let mut b: usize = 0;
    while b < blocks
        invariant
            blocks * 500 + 5000 <= u32::MAX,
            b <= blocks,
            out@.len() == b,
            forall|j: int|
                0 <= j < b ==> (#[trigger] out@[j]).center == center_of(j) && out@[j].scores@.len()
                    == block_size,
            forall|j: int, i: int|
                0 <= j < b && 0 <= i < block_size ==> is_score(
                    center_of(j),
                    #[trigger] out@[j].scores@[i],
                ),
        decreases blocks - b,
    {
        let wide: u32 = b as u32 * 500 + 5000;
        let center: u16 = (wide % 0x1_0000) as u16;
        let mut scores: Vec<u16> = Vec::new();
        let mut i: usize = 0;
        while i < block_size
            invariant
                i <= block_size,
                scores@.len() == i,
                forall|j: int| 0 <= j < i ==> is_score(center, #[trigger] scores@[j]),
            decreases block_size - i,
        {
            let noise: i16 = draw_between(rng, -NOISE, NOISE);
            let score: u16 = score_of(center, noise);
            assert(clamped(center + noise as int) == score);
            scores.push(score);
            i = i + 1;
        }
        out.push(Block { center, scores });
        b = b + 1;
    }
    out
}

/// Whether `r` lists the places of the `top_k` smallest keys, the smallest first
/// and of equal ones the earlier first.
pub open spec fn is_smallest(keys: Seq<u32>, top_k: nat, r: Seq<usize>) -> bool {
    &&& r.len() == (if top_k < keys.len() {
        top_k
    } else {
        keys.len()
    })
    &&& forall|i: int| 0 <= i < r.len() ==> (#[trigger] r[i]) < keys.len()
    &&& forall|i: int, j: int|
        0 <= i < j < r.len() ==> stands_before(keys, #[trigger] r[i], #[trigger] r[j])
    &&& forall|p: usize, i: int|
        #![trigger r[i], r.contains(p)]
        p < keys.len() && !r.contains(p) && 0 <= i < r.len() ==> stands_before(keys, r[i], p)
}

/// Whether place `a` comes in front of place `b`.
pub open spec fn stands_before(keys: Seq<u32>, a: usize, b: usize) -> bool {
    keys[a as int] < keys[b as int] || (keys[a as int] == keys[b as int] && a < b)
}

/// All places of keys, the smallest key first and of equal ones the earlier first.
fn order_places(keys: &[u32]) -> (r: Vec<usize>)
    ensures
        r@.len() == keys@.len(),
        forall|i: int| 0 <= i < r@.len() ==> (#[trigger] r@[i]) < keys@.len(),
        forall|i: int, j: int|
            0 <= i < j < r@.len() ==> stands_before(keys@, #[trigger] r@[i], #[trigger] r@[j]),
        forall|p: usize| p < keys@.len() ==> r@.contains(p),
{
    let mut out: Vec<usize> = Vec::new();
    let n: usize = keys.len();
    let mut p: usize = 0;
    while p < n
        invariant
            n == keys@.len(),
            p <= n,
            out@.len() == p,
            forall|i: int| 0 <= i < out@.len() ==> (#[trigger] out@[i]) < p,
            forall|i: int, j: int|
                0 <= i < j < out@.len() ==> stands_before(
                    keys@,
                    #[trigger] out@[i],
                    #[trigger] out@[j],
                ),
            forall|q: usize| q < p ==> out@.contains(q),
        decreases n - p,
    {
        let ghost old_out = out@;
        let mut at: usize = p;
        while at > 0 && keys[out[at - 1]] > keys[p]
            invariant
                n == keys@.len(),
                p < n,
                at <= p,
                out@ == old_out,
                out@.len() == p,
                forall|i: int| 0 <= i < out@.len() ==> (#[trigger] out@[i]) < p,
                forall|i: int| at <= i < p ==> stands_before(keys@, p, #[trigger] out@[i]),
            decreases at,
        {
            at = at - 1;
        }
        out.insert(at, p);
        proof {
            assert(out@ == old_out.insert(at as int, p));
            assert(at > 0 ==> stands_before(keys@, old_out[at - 1], p));
            assert forall|i: int| 0 <= i < at implies stands_before(
                keys@,
                #[trigger] old_out[i],
                p,
            ) by {
                if i < at - 1 {
                    assert(stands_before(keys@, old_out[i], old_out[at - 1]));
                }
            }
            assert forall|i: int, j: int| 0 <= i < j < out@.len() implies stands_before(
                keys@,
                #[trigger] out@[i],
                #[trigger] out@[j],
            ) by {
                let a = if i < at { i } else { i - 1 };
                let b = if j < at { j } else { j - 1 };
                if i != at && j != at {
                    assert(out@[i] == old_out[a] && out@[j] == old_out[b]);
                } else if i == at {
                    assert(out@[j] == old_out[b]);
                } else {
                    assert(out@[i] == old_out[a]);
                }
            }
            assert forall|q: usize| q < p + 1 implies out@.contains(q) by {
                if q == p {
                    assert(out@[at as int] == q);
                } else {
                    assert(old_out.contains(q));
                    let i = choose|i: int| 0 <= i < old_out.len() && old_out[i] == q;
                    assert(out@[if i < at { i } else { i + 1 }] == q);
                }
            }
        }
        p = p + 1;
    }
    out
}

/// The places of the `top_k` smallest keys.
pub fn smallest_places(keys: &[u32], top_k: usize) -> (r: Vec<usize>)
    ensures
        is_smallest(keys@, top_k as nat, r@),
{
    let mut out = order_places(keys);
    let ghost all = out@;
    let n: usize = out.len();
    let kept: usize = if top_k < n { top_k } else { n };
    out.truncate(kept);
    proof {
        assert(out@ =~= all.take(kept as int));
        assert forall|i: int, j: int| 0 <= i < j < out@.len() implies stands_before(
            keys@,
            #[trigger] out@[i],
            #[trigger] out@[j],
        ) by {
            assert(out@[i] == all[i] && out@[j] == all[j]);
        }
        assert forall|p: usize, i: int|
            #![trigger out@[i], out@.contains(p)]
            p < keys@.len() && !out@.contains(p) && 0 <= i < out@.len() implies stands_before(
            keys@,
            out@[i],
            p,
        ) by {
            assert(all.contains(p));
            assert(out@[i] == all[i]);
            let j = choose|j: int| 0 <= j < all.len() && all[j] == p;
            if j < kept {
                assert(out@[j] == p);
            }
            assert(stands_before(keys@, all[i], all[j]));
        }
    }
    out
}

/// How far the centers of blocks are from a score.
pub open spec fn gaps(score: u16, blocks: Seq<Block>) -> Seq<u32> {
    Seq::new(
        blocks.len(),
        |i: int|
            if blocks[i].center < score {
                (score - blocks[i].center) as u32
            } else {
                (blocks[i].center - score) as u32
            },
    )
}

/// The blocks whose centers are nearest to a score, the nearest first and of
/// equally near ones the earlier first.
pub fn pick_blocks(query_score: u16, blocks: &[Block], top_k: usize) -> (r: Vec<usize>)
    ensures
        is_smallest(gaps(query_score, blocks@), top_k as nat, r@),
{
    let mut keys: Vec<u32> = Vec::new();
    let n: usize = blocks.len();
    let mut i: usize = 0;
    while i < n
        invariant
            n == blocks@.len(),
            i <= n,
            keys@ =~= gaps(query_score, blocks@).take(i as int),
        decreases n - i,
    {
        let c: u16 = blocks[i].center;
        let gap: u16 = if c < query_score { query_score - c } else { c - query_score };
        keys.push(gap as u32);
        i = i + 1;
    }
    assert(keys@ =~= gaps(query_score, blocks@));
    smallest_places(keys.as_slice(), top_k)
}

} // verus!
