//! Laws of searching with a module that runs in its own memory.
use crate::artifact::ivf_flat;
use crate::artifact::ivf_flat::{ChunkType, IvfFlatArtifact};
use crate::artifact::kernel;
use crate::artifact::kernel::{
    Action, Block, BlockKind, KernelError, KernelRun, Reply, SearchCall, Stage,
};
use crate::artifact::kernel_host;
use crate::artifact::kernel_host::BatchCall;
use crate::floats;
use crate::ivf_file;
use crate::le;
use vstd::prelude::*;

verus! {

broadcast use crate::le::sizes;

/// Writing a number into memory changes its four bytes and no others.
pub proof fn a_number_is_written(mem: Seq<u8>, at: int, x: u32, p: int)
    requires
        0 <= at,
        at + 4 <= mem.len(),
        0 <= p < mem.len(),
    ensures
        ({
            let r = kernel_host::with_number(mem, at, x);
            &&& r.len() == mem.len()
            &&& r.subrange(at, at + 4) == le::bytes_of_u32(x)
            &&& p < at || p >= at + 4 ==> r[p] == mem[p]
        }),
{
    assert(kernel_host::with_number(mem, at, x).subrange(at, at + 4) =~= le::bytes_of_u32(x));
}

/// Component `j` of vector `i` of a call.
pub open spec fn component(mem: Seq<u8>, call: BatchCall, i: int, j: int) -> u32 {
    le::u32_of(
        mem.subrange(
            call.vectors_ptr + 4 * (i * call.dim + j),
            call.vectors_ptr + 4 * (i * call.dim + j) + 4,
        ),
    )
}

proof fn written_upto<F: Fn(&[u32], &[u32]) -> u32>(
    f: F,
    mem: Seq<u8>,
    call: BatchCall,
    n: nat,
    p: int,
)
    requires
        call.fits(mem.len() as int),
        n <= call.count,
    ensures
        ({
            let r = kernel_host::with_distances(f, mem, call, n);
            &&& r.len() == mem.len()
            &&& 0 <= p < mem.len() && (p < call.out_ptr || p >= call.out_ptr + 4 * n) ==> r[p]
                == mem[p]
        }),
    decreases n,
{
    if n > 0 {
        written_upto(f, mem, call, (n - 1) as nat, p);
    }
}

/// Distances go to the place that was asked for, one behind the other, and no other byte
/// changes.
pub proof fn other_bytes_stay<F: Fn(&[u32], &[u32]) -> u32>(
    f: F,
    mem: Seq<u8>,
    call: BatchCall,
    p: int,
)
    requires
        call.fits(mem.len() as int),
        0 <= p < mem.len(),
        p < call.out_ptr || p >= call.out_ptr + 4 * call.count,
    ensures
        kernel_host::with_distances(f, mem, call, call.count as nat).len() == mem.len(),
        kernel_host::with_distances(f, mem, call, call.count as nat)[p] == mem[p],
{
    written_upto(f, mem, call, call.count as nat, p);
}

/// If the distances are not written over the vectors, the `i`-th of them is that of the
/// query from the `i`-th vector, component by component.
pub proof fn distances_are_written<F: Fn(&[u32], &[u32]) -> u32>(
    f: F,
    mem: Seq<u8>,
    call: BatchCall,
    n: nat,
    i: int,
    query: Seq<u32>,
    vector: Seq<u32>,
)
    requires
        call.fits(mem.len() as int),
        n <= call.count,
        0 <= i < n,
        call.out_ptr + 4 * call.count <= call.vectors_ptr || call.vectors_ptr + 4 * (call.count
            * call.dim) <= call.out_ptr,
        query.len() == call.dim,
        forall|j: int|
            0 <= j < call.dim ==> #[trigger] query[j] == le::u32_of(
                mem.subrange(call.query_ptr + 4 * j, call.query_ptr + 4 * j + 4),
            ),
        vector.len() == call.dim,
        forall|j: int| 0 <= j < call.dim ==> #[trigger] vector[j] == component(mem, call, i, j),
    ensures
        kernel_host::with_distances(f, mem, call, n).subrange(
            call.out_ptr + 4 * i,
            call.out_ptr + 4 * i + 4,
        ) == le::bytes_of_u32(floats::distance(f, query, vector)),
    decreases n,
{
    let before = kernel_host::with_distances(f, mem, call, (n - 1) as nat);
    let after = kernel_host::with_distances(f, mem, call, n);
    written_upto(f, mem, call, (n - 1) as nat, 0);
    written_upto(f, mem, call, n, 0);
    let out = call.out_ptr as int;
    if i < n - 1 {
        distances_are_written(f, mem, call, (n - 1) as nat, i, query, vector);
        assert(after.subrange(out + 4 * i, out + 4 * i + 4) =~= before.subrange(
            out + 4 * i,
            out + 4 * i + 4,
        ));
    } else {
        let dim = call.dim as int;
        floats::row_fits(dim as nat, i, call.count as int);
        let at = call.vectors_ptr + (n - 1) * call.dim * 4;
        assert(at == call.vectors_ptr + 4 * (i * dim));
        assert(call.count * call.dim * 4 == 4 * (call.count * call.dim));
        assert(4 * (i * dim + dim) <= 4 * (call.count * dim));
        let q = kernel_host::numbers_at(mem, call.query_ptr as int, dim);
        let v = kernel_host::numbers_at(before, at, dim);
        let qs = mem.subrange(call.query_ptr as int, call.query_ptr + 4 * dim);
        let vs = before.subrange(at, at + 4 * dim);
        assert(q =~= query) by {
            assert forall|j: int| 0 <= j < dim implies q[j] == query[j] by {
                assert(qs.subrange(4 * j, 4 * j + 4) =~= mem.subrange(
                    call.query_ptr + 4 * j,
                    call.query_ptr + 4 * j + 4,
                ));
            }
        }
        assert(v =~= vector) by {
            assert forall|j: int| 0 <= j < dim implies v[j] == vector[j] by {
                let from = at + 4 * j;
                assert(from == call.vectors_ptr + 4 * (i * call.dim + j));
                assert forall|p: int| from <= p < from + 4 implies before[p] == mem[p] by {
                    written_upto(f, mem, call, (n - 1) as nat, p);
                }
                assert(vs.subrange(4 * j, 4 * j + 4) =~= mem.subrange(from, from + 4));
            }
        }
        assert(after.subrange(out + 4 * i, out + 4 * i + 4) =~= le::bytes_of_u32(
            floats::distance(f, query, vector),
        ));
    }
}

/// A list is missing if it has no chunk; the first of those is named.
pub proof fn first_missing_list_is_named(a: IvfFlatArtifact, n: nat)
    requires
        n <= u32::MAX,
    ensures
        match kernel::missing_list(a, n) {
            Some(l) => {
                &&& l < n
                &&& forall|i: int|
                    0 <= i < a.footer.chunks@.len() ==> !is_list_chunk(a, #[trigger] a.footer.chunks@[i], l)
                &&& forall|m: u32| m < l ==> #[trigger] has_list_chunk(a, m)
            },
            None => forall|m: u32| m < n ==> #[trigger] has_list_chunk(a, m),
        },
    decreases n,
{
    if n > 0 {
        first_missing_list_is_named(a, (n - 1) as nat);
        let l = (n - 1) as u32;
        let chunks = a.footer.chunks@;
        ivf_flat::chunk_place_is_first(chunks, ChunkType::PostingList, Some(l));
        let place = ivf_flat::chunk_place(chunks, ChunkType::PostingList, Some(l));
        if place is Some {
            assert(is_list_chunk(a, chunks[place->0], l));
            assert(has_list_chunk(a, l));
        } else {
            assert forall|i: int| 0 <= i < chunks.len() implies !is_list_chunk(
                a,
                #[trigger] chunks[i],
                l,
            ) by {
                assert(!ivf_flat::is_chunk(chunks[i], ChunkType::PostingList, Some(l)));
            }
        }
    }
}

/// Whether a chunk holds list `l`.
pub open spec fn is_list_chunk(a: IvfFlatArtifact, c: ivf_flat::ChunkDesc, l: u32) -> bool {
    c.chunk_type == ChunkType::PostingList && c.list_id == Some(l)
}

/// Whether there is a chunk that holds list `l`.
pub open spec fn has_list_chunk(a: IvfFlatArtifact, l: u32) -> bool {
    exists|i: int|
        0 <= i < a.footer.chunks@.len() && is_list_chunk(a, #[trigger] a.footer.chunks@[i], l)
}

/// A module is told the number of components and of lists, the number of the chunk of the
/// centroids, the number of the codec of the first list, and for each list the number of
/// its chunk, four bytes each; the chunks are the first of their kind.
pub proof fn directories_say(a: IvfFlatArtifact, l: int)
    requires
        kernel::directory_of(a) is Ok,
        a.footer.chunks@.len() <= u32::MAX,
        0 <= l < a.footer.nlist,
    ensures
        ({
            let b = kernel::directory_of(a)->Ok_0;
            let chunks = a.footer.chunks@;
            let c = le::u32_of(b.subrange(8, 12)) as int;
            let p = le::u32_of(b.subrange(16 + 4 * l, 16 + 4 * l + 4)) as int;
            &&& b.len() == 16 + 4 * a.footer.nlist
            &&& le::u32_of(b.subrange(0, 4)) == a.footer.dim
            &&& le::u32_of(b.subrange(4, 8)) == a.footer.nlist
            &&& 0 <= c < chunks.len()
            &&& chunks[c].chunk_type == ChunkType::Centroids && chunks[c].list_id is None
            &&& forall|i: int|
                0 <= i < c ==> (#[trigger] chunks[i]).chunk_type != ChunkType::Centroids
                    || chunks[i].list_id is Some
            &&& 0 <= p < chunks.len()
            &&& is_list_chunk(a, chunks[p], l as u32)
            &&& forall|i: int| 0 <= i < p ==> !is_list_chunk(a, #[trigger] chunks[i], l as u32)
            &&& l == 0 ==> le::u32_of(b.subrange(12, 16)) == kernel::codec_id(chunks[p].codec)
        }),
{
    let b = kernel::directory_of(a)->Ok_0;
    let chunks = a.footer.chunks@;
    let n = a.footer.nlist as nat;
    ivf_flat::chunk_place_is_first(chunks, ChunkType::Centroids, None);
    ivf_flat::chunk_place_is_first(chunks, ChunkType::PostingList, Some(l as u32));
    first_missing_list_is_named(a, n);
    let centroids = ivf_flat::chunk_place(chunks, ChunkType::Centroids, None)->0;
    let ids = Seq::new(n, |l: int| kernel::posting_id(a, l));
    assert(b.subrange(0, 4) =~= le::bytes_of_u32(a.footer.dim));
    assert(b.subrange(4, 8) =~= le::bytes_of_u32(a.footer.nlist));
    assert(b.subrange(8, 12) =~= le::bytes_of_u32(centroids as u32));
    assert(b.subrange(12, 16) =~= le::bytes_of_u32(kernel::codec_id(kernel::codec_of(a))));
    assert(b.subrange(16 + 4 * l, 16 + 4 * l + 4) =~= le::bytes_of_u32(ids[l]));
    le::u32_round_trip(a.footer.dim);
    le::u32_round_trip(a.footer.nlist);
    le::u32_round_trip(centroids as u32);
    le::u32_round_trip(kernel::codec_id(kernel::codec_of(a)));
    le::u32_round_trip(ids[l]);
    assert(has_list_chunk(a, l as u32));
    let q = choose|i: int|
        0 <= i < chunks.len() && is_list_chunk(a, #[trigger] chunks[i], l as u32);
    assert(ivf_flat::is_chunk(chunks[q], ChunkType::PostingList, Some(l as u32)));
    assert(ivf_flat::is_chunk(chunks[centroids], ChunkType::Centroids, None));
    let c = centroids as u32 as int;
    assert(c == centroids);
    assert forall|i: int| 0 <= i < c implies (#[trigger] chunks[i]).chunk_type
        != ChunkType::Centroids || chunks[i].list_id is Some by {
        assert(!ivf_flat::is_chunk(chunks[i], ChunkType::Centroids, None));
    }
    let p = ids[l] as int;
    assert forall|i: int| 0 <= i < p implies !is_list_chunk(a, #[trigger] chunks[i], l as u32) by {
        assert(!ivf_flat::is_chunk(chunks[i], ChunkType::PostingList, Some(l as u32)));
    }
}

/// Different codecs have different numbers, from 0 to 3.
pub proof fn codecs_have_numbers(
    a: crate::artifact::posting::PostingCodec,
    b: crate::artifact::posting::PostingCodec,
)
    ensures
        kernel::codec_id(a) == kernel::codec_id(b) ==> a == b,
        kernel::codec_id(a) <= 3,
        kernel::codec_id(crate::artifact::posting::PostingCodec::Raw) == 0,
        kernel::codec_id(crate::artifact::posting::PostingCodec::RowIdDeltaVarintV1) == 1,
        kernel::codec_id(crate::artifact::posting::PostingCodec::RawF16) == 2,
        kernel::codec_id(crate::artifact::posting::PostingCodec::RowIdDeltaVarintV1F16) == 3,
{
}

/// Whether a search that is under way is answered without a failure.
pub open spec fn goes_well(reply: Reply) -> bool {
    match reply {
        Reply::Allocated(ptr) => ptr != 0,
        Reply::Searched(ok) => ok != 0,
        Reply::Bytes(b) => b is Some,
        _ => true,
    }
}

/// A search that meets no failure takes a block for the directory and fills it, takes one
/// for the queries and fills it, takes one for the results and one for their numbers,
/// searches with these blocks, reads the numbers, reads the results, and starts to give
/// the blocks back.
pub proof fn searches_go_step_by_step(runs: Seq<KernelRun>, replies: Seq<Reply>)
    requires
        kernel::is_history(runs, replies),
        replies.len() >= 9,
        forall|i: int| 0 <= i < 9 ==> goes_well(#[trigger] replies[i]),
    ensures
        ({
            let q = runs[0].request;
            let a = Block {
                ptr: replies[0]->Allocated_0,
                len: q.dir@.len() as u32,
                align: 8,
            };
            let b = Block {
                ptr: replies[2]->Allocated_0,
                len: q.queries@.len() as u32,
                align: 4,
            };
            let c = Block {
                ptr: replies[4]->Allocated_0,
                len: (q.nq * q.k * 8) as u32,
                align: 8,
            };
            let d = Block { ptr: replies[5]->Allocated_0, len: (q.nq * 4) as u32, align: 4 };
            &&& runs[0].spec_action() == (Action::Alloc { len: a.len, align: 8 })
            &&& runs[1].spec_action() == (Action::Write { ptr: a.ptr, directory: true })
            &&& runs[2].spec_action() == (Action::Alloc { len: b.len, align: 4 })
            &&& runs[3].spec_action() == (Action::Write { ptr: b.ptr, directory: false })
            &&& runs[4].spec_action() == (Action::Alloc { len: c.len, align: 8 })
            &&& runs[5].spec_action() == (Action::Alloc { len: d.len, align: 4 })
            &&& runs[6].spec_action() == Action::Search(
                SearchCall {
                    dir_ptr: a.ptr,
                    dir_len: a.len,
                    queries_ptr: b.ptr,
                    nq: q.nq,
                    dim: q.dim,
                    k: q.k,
                    nprobe: q.nprobe,
                    out_ptr: c.ptr,
                    out_cap: q.k,
                    counts_ptr: d.ptr,
                },
            )
            &&& runs[7].spec_action() == (Action::Read { ptr: d.ptr, len: d.len })
            &&& runs[8].spec_action() == (Action::Read { ptr: c.ptr, len: c.len })
            &&& runs[9].spec_action() == Action::Free(a)
            &&& runs[9].blocks@ == seq![a, b, c, d]
            &&& runs[9].outcome matches Some(Ok(_))
        }),
{
    let q = runs[0].request;
    assert(goes_well(replies[0]) && runs[0].answered_by(replies[0]));
    assert(runs[0].steps_to(replies[0], runs[1]));
    assert(runs[1].answered_by(replies[1]) && runs[1].steps_to(replies[1], runs[2]));
    assert(goes_well(replies[2]) && runs[2].answered_by(replies[2]));
    assert(runs[2].steps_to(replies[2], runs[3]));
    assert(runs[3].answered_by(replies[3]) && runs[3].steps_to(replies[3], runs[4]));
    assert(goes_well(replies[4]) && runs[4].answered_by(replies[4]));
    assert(runs[4].steps_to(replies[4], runs[5]));
    assert(goes_well(replies[5]) && runs[5].answered_by(replies[5]));
    assert(runs[5].steps_to(replies[5], runs[6]));
    assert(goes_well(replies[6]) && runs[6].answered_by(replies[6]));
    assert(runs[6].steps_to(replies[6], runs[7]));
    assert(goes_well(replies[7]) && runs[7].answered_by(replies[7]));
    assert(runs[7].steps_to(replies[7], runs[8]));
    assert(goes_well(replies[8]) && runs[8].answered_by(replies[8]));
    assert(runs[8].steps_to(replies[8], runs[9]));
}

/// Row `i` that was found for query `q` stands eight bytes behind the one in front of it,
/// its number first and its distance behind that; each query has room for `k` rows, and
/// has as many as were counted for it.
pub proof fn results_are_read(
    r: Seq<Vec<crate::ivf_flat::SearchResult>>,
    b: Seq<u8>,
    k: int,
    counts: Seq<u32>,
    q: int,
    i: int,
)
    requires
        kernel::are_results(r, b, k, counts),
        0 <= q < counts.len(),
    ensures
        r.len() == counts.len(),
        r[q]@.len() == counts[q],
        0 <= i < counts[q] ==> r[q]@[i].row_id == le::u32_of(
            b.subrange(8 * (q * k + i), 8 * (q * k + i) + 4),
        ),
        0 <= i < counts[q] ==> r[q]@[i].distance == le::u32_of(
            b.subrange(8 * (q * k + i) + 4, 8 * (q * k + i) + 8),
        ),
{
    assert(r[q]@ == kernel::query_results(b, q, k, counts[q]));
    assert(q * k * 8 + i * 8 == 8 * (q * k + i));
}

/// How many rows were found for query `q` stands in the four bytes for it.
pub proof fn counts_are_read(b: Seq<u8>, nq: nat, q: int)
    requires
        0 <= q < nq,
    ensures
        kernel::counts_of(b, nq).len() == nq,
        kernel::counts_of(b, nq)[q] == le::u32_of(b.subrange(4 * q, 4 * q + 4)),
{
}

/// Where a block cannot be taken the search fails for want of this block, and gives the
/// others back; where the module fails, or its answer lies out of bounds, it fails for
/// that.
pub proof fn failures_are_told(run: KernelRun, reply: Reply, after: KernelRun)
    requires
        run.valid(),
        run.answered_by(reply),
        run.steps_to(reply, after),
        !goes_well(reply),
    ensures
        run.stage == Stage::Alloc ==> {
            let kind = if run.blocks@.len() == 0 {
                BlockKind::Directory
            } else if run.blocks@.len() == 1 {
                BlockKind::Queries
            } else if run.blocks@.len() == 2 {
                BlockKind::Output
            } else {
                BlockKind::Counts
            };
            &&& after.outcome matches Some(Err(e)) && e == KernelError::NoMemory(kind)
            &&& after.stage == (if run.blocks@.len() == 0 {
                Stage::Done
            } else {
                Stage::Free(0)
            })
        },
        run.stage == Stage::Search ==> after.stage == Stage::Done && (
        after.outcome matches Some(Err(e)) && e == KernelError::SearchFailed),
        run.stage == Stage::ReadCounts ==> after.stage == Stage::Done && (
        after.outcome matches Some(Err(e)) && e == KernelError::CountsOutOfBounds),
        run.stage == Stage::ReadOutput ==> after.stage == Stage::Done && (
        after.outcome matches Some(Err(e)) && e == KernelError::OutputOutOfBounds),
        after.blocks@ == run.blocks@,
{
}

/// What a module tells stands in words of eight bytes, in the order in which they are
/// named here; an older module tells only some.
pub proof fn words_of_a_module(b: Seq<u8>)
    ensures
        ({
            let s = kernel::stats_v2(b);
            &&& s.centroid_time_ns == le::u64_of(b.subrange(0, 8))
            &&& s.decode_time_ns == le::u64_of(b.subrange(8, 16))
            &&& s.dist_time_ns == le::u64_of(b.subrange(16, 24))
            &&& s.heap_time_ns == le::u64_of(b.subrange(24, 32))
            &&& s.compute_time_ns == le::u64_of(b.subrange(32, 40))
            &&& s.decoded_cache_hits == le::u64_of(b.subrange(40, 48))
            &&& s.decoded_cache_misses == le::u64_of(b.subrange(48, 56))
            &&& s.decoded_cache_bytes == le::u64_of(b.subrange(56, 64))
        }),
        ({
            let s = kernel::stats_v1(b);
            &&& s.decode_time_ns == le::u64_of(b.subrange(0, 8))
            &&& s.compute_time_ns == le::u64_of(b.subrange(8, 16))
            &&& s.decoded_cache_hits == le::u64_of(b.subrange(16, 24))
            &&& s.decoded_cache_misses == le::u64_of(b.subrange(24, 32))
            &&& s.decoded_cache_bytes == le::u64_of(b.subrange(32, 40))
            &&& s.centroid_time_ns == 0 && s.dist_time_ns == 0 && s.heap_time_ns == 0
        }),
{
}

/// The number at a place is that of the four or eight bytes there.
pub proof fn numbers_at_places(b: Seq<u8>, at: int)
    ensures
        ivf_file::u32_at(b, at) == le::u32_of(b.subrange(at, at + 4)),
        ivf_file::u64_at(b, at) == le::u64_of(b.subrange(at, at + 8)),
{
}

} // verus!
