//! What the host does for a search module: handing out chunks, and measuring
//! distances in the memory of the module.
use crate::artifact::ivf_flat::ChunkDesc;
use crate::artifact::kernel;
use crate::artifact::kernel::{FetchStats, KernelStats};
use crate::floats;
use crate::floats::measure;
use crate::le;
use std::collections::HashMap;
use vstd::prelude::*;

verus! {

broadcast use {crate::le::sizes, vstd::std_specs::hash::group_hash_axioms};

/// What the host keeps for a module.
pub struct HostState {
    /// Whether there is an artifact.
    pub has_artifact: bool,
    /// Whether its file is open.
    pub has_file: bool,
    /// The chunks that have been read.
    pub cache: HashMap<u32, Vec<u8>>,
    /// The length of each chunk once decoded.
    pub raw_lens: Vec<u64>,
    /// The length of each chunk; 0 for those too long for a module.
    pub lens: Vec<u32>,
    pub stats: FetchStats,
    pub cache_enabled: bool,
}

/// Why a chunk cannot be handed out.
#[derive(Clone, Copy, Debug, PartialEq, Eq, Structural)]
pub enum HostError {
    NoArtifact,
    NoFile,
}

/// Where a chunk comes from.
#[derive(Clone, Copy, Debug, PartialEq, Eq, Structural)]
pub enum ChunkSource {
    Cache,
    File,
}

/// The length if a module can have so many bytes, or else 0.
pub open spec fn short_len(len: int) -> u32 {
    if len <= u32::MAX {
        len as u32
    } else {
        0
    }
}

/// The statistics once a chunk has been handed out from the cache.
pub open spec fn hit(before: FetchStats, after: FetchStats, chunk_id: u32) -> bool {
    &&& after.same_counters(
        FetchStats { cache_hits: (before.cache_hits + 1) as u64, ..before },
    )
    &&& after.fetched_chunk_ids_sample@ == kernel::sampled(
        before.fetched_chunk_ids_sample@,
        chunk_id,
    )
    &&& after.cache_miss_chunk_ids_sample@ == before.cache_miss_chunk_ids_sample@
}

impl HostState {
    /// No artifact yet.
    pub fn new() -> (r: Self)
        ensures
            !r.has_artifact,
            !r.has_file,
            r.cache@ == Map::<u32, Vec<u8>>::empty(),
            r.raw_lens@.len() == 0,
            r.lens@.len() == 0,
            r.stats.is_zero(),
            !r.cache_enabled,
    {
        HostState {
            has_artifact: false,
            has_file: false,
            cache: HashMap::new(),
            raw_lens: Vec::new(),
            lens: Vec::new(),
            stats: FetchStats::default(),
            cache_enabled: false,
        }
    }

    /// Takes an artifact with these chunks; `file_open` tells whether its file
    /// could be opened. Nothing is cached, and counting starts again.
    pub fn set_artifact(&mut self, chunks: &Vec<ChunkDesc>, file_open: bool)
        ensures
            final(self).has_artifact,
            final(self).has_file == file_open,
            final(self).cache@ == Map::<u32, Vec<u8>>::empty(),
            final(self).raw_lens@ == chunks@.map_values(|c: ChunkDesc| c.raw_len),
            final(self).lens@ == chunks@.map_values(|c: ChunkDesc| short_len(c.len as int)),
            final(self).stats.is_zero(),
            final(self).cache_enabled,
    {
        let mut raw_lens: Vec<u64> = Vec::new();
        let mut lens: Vec<u32> = Vec::new();
        let mut i: usize = 0;
        while i < chunks.len()
            invariant
                i <= chunks@.len(),
                raw_lens@.len() == i,
                lens@.len() == i,
                forall|j: int| 0 <= j < i ==> #[trigger] raw_lens@[j] == chunks@[j].raw_len,
                forall|j: int|
                    0 <= j < i ==> #[trigger] lens@[j] == short_len(chunks@[j].len as int),
            decreases chunks@.len() - i,
        {
            raw_lens.push(chunks[i].raw_len);
            let len: u64 = chunks[i].len;
            lens.push(
                if len <= 0xffff_ffff {
                    len as u32
                } else {
                    0
                },
            );
            i = i + 1;
        }
        assert(raw_lens@ =~= chunks@.map_values(|c: ChunkDesc| c.raw_len));
        assert(lens@ =~= chunks@.map_values(|c: ChunkDesc| short_len(c.len as int)));
        self.raw_lens = raw_lens;
        self.lens = lens;
        self.has_file = file_open;
        self.has_artifact = true;
        self.cache = HashMap::new();
        self.stats = FetchStats::default();
        self.cache_enabled = true;
    }

    /// Lets chunks be kept, or drops those that are kept and keeps no more.
    pub fn set_cache_enabled(&mut self, enabled: bool)
        ensures
            final(self).cache_enabled == enabled,
            final(self).cache@ == (if enabled {
                old(self).cache@
            } else {
                Map::<u32, Vec<u8>>::empty()
            }),
            final(self).has_artifact == old(self).has_artifact,
            final(self).has_file == old(self).has_file,
            final(self).raw_lens == old(self).raw_lens,
            final(self).lens == old(self).lens,
            final(self).stats == old(self).stats,
    {
        self.cache_enabled = enabled;
        if !enabled {
            self.cache = HashMap::new();
        }
    }

    /// Whether nothing but the statistics has changed.
    pub open spec fn same_chunks(self, o: HostState) -> bool {
        &&& self.has_artifact == o.has_artifact
        &&& self.has_file == o.has_file
        &&& self.cache@ == o.cache@
        &&& self.raw_lens == o.raw_lens
        &&& self.lens == o.lens
        &&& self.cache_enabled == o.cache_enabled
    }

    /// The length of a chunk; 0 if there is no such chunk or it is too long. A
    /// chunk that is kept counts as handed out.
    pub fn chunk_len(&mut self, chunk_id: u32) -> (r: u32)
        requires
            old(self).stats.cache_hits < u64::MAX,
        ensures
            final(self).same_chunks(*old(self)),
            old(self).cache@.contains_key(chunk_id) ==> r == short_len(
                old(self).cache@[chunk_id]@.len() as int,
            ) && hit(old(self).stats, final(self).stats, chunk_id),
            !old(self).cache@.contains_key(chunk_id) ==> final(self).stats == old(self).stats && r
                == (if chunk_id < old(self).lens@.len() {
                old(self).lens@[chunk_id as int]
            } else {
                0
            }),
    {
        let kept: Option<usize> = match self.cache.get(&chunk_id) {
            Some(v) => Some(v.len()),
            None => None,
        };
        if let Some(len) = kept {
            self.stats.cache_hits = self.stats.cache_hits + 1;
            self.stats.note_chunk(chunk_id, false);
            return if len as u64 <= 0xffff_ffff {
                len as u32
            } else {
                0
            };
        }
        if (chunk_id as usize) < self.lens.len() {
            self.lens[chunk_id as usize]
        } else {
            0
        }
    }

    /// Tells where a chunk comes from. One that is kept counts as handed out.
    pub fn request_chunk(&mut self, chunk_id: u32) -> (r: Result<ChunkSource, HostError>)
        requires
            old(self).stats.cache_hits < u64::MAX,
        ensures
            final(self).same_chunks(*old(self)),
            old(self).cache@.contains_key(chunk_id) ==> r == Ok::<ChunkSource, HostError>(
                ChunkSource::Cache,
            ) && hit(old(self).stats, final(self).stats, chunk_id),
            !old(self).cache@.contains_key(chunk_id) ==> final(self).stats == old(self).stats && r
                == (if !old(self).has_artifact {
                Err::<ChunkSource, HostError>(HostError::NoArtifact)
            } else if !old(self).has_file {
                Err::<ChunkSource, HostError>(HostError::NoFile)
            } else {
                Ok::<ChunkSource, HostError>(ChunkSource::File)
            }),
    {
        if self.cache.contains_key(&chunk_id) {
            self.stats.cache_hits = self.stats.cache_hits + 1;
            self.stats.note_chunk(chunk_id, false);
            return Ok(ChunkSource::Cache);
        }
        if !self.has_artifact {
            return Err(HostError::NoArtifact);
        }
        if !self.has_file {
            return Err(HostError::NoFile);
        }
        Ok(ChunkSource::File)
    }

    /// The chunk, if it is kept.
    pub fn cached(&self, chunk_id: u32) -> (r: Option<&Vec<u8>>)
        ensures
            match r {
                Some(v) => self.cache@.contains_key(chunk_id) && *v == self.cache@[chunk_id],
                None => !self.cache@.contains_key(chunk_id),
            },
    {
        self.cache.get(&chunk_id)
    }

    /// How many bytes the chunk takes once decoded; none if there is no such chunk.
    pub open spec fn raw_len(self, chunk_id: u32) -> u64 {
        if chunk_id < self.raw_lens@.len() {
            self.raw_lens@[chunk_id as int]
        } else {
            0
        }
    }

    /// Notes a chunk that was read from the file in `ns`, and keeps it if chunks
    /// are kept.
    pub fn fetched(&mut self, chunk_id: u32, bytes: &[u8], ns: u64)
        requires
            old(self).stats.fetch_time_ns + ns <= u64::MAX,
            old(self).stats.chunks_fetched < u64::MAX,
            old(self).stats.compressed_bytes_in + bytes@.len() <= u64::MAX,
            old(self).stats.raw_bytes_decoded + old(self).raw_len(chunk_id) <= u64::MAX,
        ensures
            final(self).has_artifact == old(self).has_artifact,
            final(self).has_file == old(self).has_file,
            final(self).raw_lens == old(self).raw_lens,
            final(self).lens == old(self).lens,
            final(self).cache_enabled == old(self).cache_enabled,
            old(self).cache_enabled ==> final(self).cache@.dom() == old(self).cache@.dom().insert(
                chunk_id,
            ) && final(self).cache@[chunk_id]@ == bytes@,
            old(self).cache_enabled ==> forall|c: u32|
                c != chunk_id && old(self).cache@.contains_key(c) ==> #[trigger] final(self).cache@[c] == old(self).cache@[c],
            !old(self).cache_enabled ==> final(self).cache@ == old(self).cache@,
            final(self).stats.same_counters(
                (FetchStats {
                    fetch_time_ns: (old(self).stats.fetch_time_ns + ns) as u64,
                    chunks_fetched: (old(self).stats.chunks_fetched + 1) as u64,
                    compressed_bytes_in: (old(self).stats.compressed_bytes_in
                        + bytes@.len()) as u64,
                    raw_bytes_decoded: (old(self).stats.raw_bytes_decoded + old(self).raw_len(
                        chunk_id,
                    )) as u64,
                    ..old(self).stats
                }),
            ),
            final(self).stats.fetched_chunk_ids_sample@ == kernel::sampled(
                old(self).stats.fetched_chunk_ids_sample@,
                chunk_id,
            ),
            final(self).stats.cache_miss_chunk_ids_sample@ == kernel::sampled(
                old(self).stats.cache_miss_chunk_ids_sample@,
                chunk_id,
            ),
    {
        self.stats.fetch_time_ns = self.stats.fetch_time_ns + ns;
        self.stats.chunks_fetched = self.stats.chunks_fetched + 1;
        self.stats.compressed_bytes_in = self.stats.compressed_bytes_in + bytes.len() as u64;
        if (chunk_id as usize) < self.raw_lens.len() {
            self.stats.raw_bytes_decoded = self.stats.raw_bytes_decoded
                + self.raw_lens[chunk_id as usize];
        }
        self.stats.note_chunk(chunk_id, true);
        if self.cache_enabled {
            let mut copy: Vec<u8> = Vec::new();
            copy.extend_from_slice(bytes);
            assert(copy@ =~= bytes@);
            self.cache.insert(chunk_id, copy);
        }
    }
}

/// The bytes that a module may keep of decoded lists if nothing else is said.
pub const DEFAULT_DECODED_CACHE_BUDGET: u32 = 192 * 1024 * 1024;

/// A module that searches an artifact: what the host keeps for it, and how it is to
/// work.
pub struct WasmIvfFlatKernel {
    pub host: HostState,
    pub decoded_cache_budget_bytes: u32,
    pub profile_stages: bool,
    pub use_host_dist: bool,
    pub last_kernel_stats: KernelStats,
}

impl WasmIvfFlatKernel {
    /// A module for an artifact with these chunks.
    pub fn load(chunks: &Vec<ChunkDesc>, file_open: bool) -> (r: Self)
        ensures
            r.host.has_artifact,
            r.host.has_file == file_open,
            r.host.cache@ == Map::<u32, Vec<u8>>::empty(),
            r.host.raw_lens@ == chunks@.map_values(|c: ChunkDesc| c.raw_len),
            r.host.lens@ == chunks@.map_values(|c: ChunkDesc| short_len(c.len as int)),
            r.host.stats.is_zero(),
            r.host.cache_enabled,
            r.decoded_cache_budget_bytes == DEFAULT_DECODED_CACHE_BUDGET,
            !r.profile_stages,
            !r.use_host_dist,
            r.last_kernel_stats == KernelStats::nothing(),
    {
        let mut host = HostState::new();
        host.set_artifact(chunks, file_open);
        WasmIvfFlatKernel {
            host,
            decoded_cache_budget_bytes: DEFAULT_DECODED_CACHE_BUDGET,
            profile_stages: false,
            use_host_dist: false,
            last_kernel_stats: KernelStats::default(),
        }
    }

    pub fn set_decoded_cache_budget_bytes(&mut self, bytes: u32)
        ensures
            *final(self) == (WasmIvfFlatKernel { decoded_cache_budget_bytes: bytes, ..*old(self) }),
    {
        self.decoded_cache_budget_bytes = bytes;
    }

    pub fn set_profile_stages(&mut self, enabled: bool)
        ensures
            *final(self) == (WasmIvfFlatKernel { profile_stages: enabled, ..*old(self) }),
    {
        self.profile_stages = enabled;
    }

    pub fn set_use_host_dist(&mut self, enabled: bool)
        ensures
            *final(self) == (WasmIvfFlatKernel { use_host_dist: enabled, ..*old(self) }),
    {
        self.use_host_dist = enabled;
    }

    /// How the module is to work: the bytes it may keep, whether it measures its
    /// stages, and whether the host measures distances.
    pub fn settings(&self) -> (r: (u32, u32, u32))
        ensures
            r == (
                self.decoded_cache_budget_bytes,
                if self.profile_stages {
                    1u32
                } else {
                    0u32
                },
                if self.use_host_dist {
                    1u32
                } else {
                    0u32
                },
            ),
    {
        (
            self.decoded_cache_budget_bytes,
            if self.profile_stages {
                1
            } else {
                0
            },
            if self.use_host_dist {
                1
            } else {
                0
            },
        )
    }

    pub fn kernel_stats(&self) -> (r: KernelStats)
        ensures
            r == self.last_kernel_stats,
    {
        self.last_kernel_stats
    }

    /// Starts counting again.
    pub fn reset_stats(&mut self)
        ensures
            final(self).host.stats.is_zero(),
            final(self).host.same_chunks(old(self).host),
            (WasmIvfFlatKernel { host: old(self).host, ..*final(self) }) == *old(self),
    {
        self.host.stats = FetchStats::default();
    }

    /// Lets chunks be kept, or drops those that are kept and keeps no more.
    pub fn set_cache_enabled(&mut self, enabled: bool)
        ensures
            final(self).host.cache_enabled == enabled,
            final(self).host.cache@ == (if enabled {
                old(self).host.cache@
            } else {
                Map::<u32, Vec<u8>>::empty()
            }),
            final(self).host.has_artifact == old(self).host.has_artifact,
            final(self).host.has_file == old(self).host.has_file,
            final(self).host.raw_lens == old(self).host.raw_lens,
            final(self).host.lens == old(self).host.lens,
            final(self).host.stats == old(self).host.stats,
            (WasmIvfFlatKernel { host: old(self).host, ..*final(self) }) == *old(self),
    {
        self.host.set_cache_enabled(enabled);
    }

    pub fn stats(&self) -> (r: &FetchStats)
        ensures
            *r == self.host.stats,
    {
        &self.host.stats
    }

    /// Notes what the module tells of its search, as words, and how long the search
    /// took. Nothing is known if the module tells nothing.
    pub fn note_search(&mut self, words: Option<StatsWords>, total_ns: u64)
        requires
            words matches Some(StatsWords::V2(b)) ==> b@.len() == 64,
            words matches Some(StatsWords::V1(b)) ==> b@.len() == 40,
        ensures
            final(self).last_kernel_stats == (match words {
                None => KernelStats::nothing(),
                Some(StatsWords::V2(b)) => kernel::stats_v2(b@),
                Some(StatsWords::V1(b)) => kernel::stats_v1(b@),
            }),
            final(self).host.stats == (FetchStats {
                total_time_ns: total_ns,
                ..old(self).host.stats
            }),
            final(self).host.same_chunks(old(self).host),
            final(self).decoded_cache_budget_bytes == old(self).decoded_cache_budget_bytes,
            final(self).profile_stages == old(self).profile_stages,
            final(self).use_host_dist == old(self).use_host_dist,
    {
        self.host.stats.total_time_ns = total_ns;
        self.last_kernel_stats = match words {
            None => KernelStats::default(),
            Some(StatsWords::V2(b)) => KernelStats::from_words_v2(b.as_slice()),
            Some(StatsWords::V1(b)) => KernelStats::from_words_v1(b.as_slice()),
        };
    }
}

/// What a module tells of its search, as bytes.
#[derive(Debug)]
pub enum StatsWords {
    V1(Vec<u8>),
    V2(Vec<u8>),
}

/// How many bytes of a chunk are copied into a buffer of the module: all, or none
/// if they do not fit.
pub fn copy_len(len: usize, dst_len: u32) -> (r: u32)
    ensures
        r == (if len <= dst_len {
            len as u32
        } else {
            0
        }),
{
    if len as u64 <= dst_len as u64 {
        len as u32
    } else {
        0
    }
}

/// Where a module has put vectors, and wants their distances to a query.
#[derive(Clone, Copy, Debug, PartialEq, Eq, Structural)]
pub struct BatchCall {
    pub query_ptr: u32,
    pub vectors_ptr: u32,
    pub count: u32,
    pub dim: u32,
    pub out_ptr: u32,
}

impl BatchCall {
    /// Whether all of it lies in a memory of `len` bytes, at places where numbers
    /// can stand.
    pub open spec fn fits(self, len: int) -> bool {
        &&& self.query_ptr != 0 && self.vectors_ptr != 0 && self.out_ptr != 0
        &&& self.dim != 0 && self.count != 0
        &&& self.query_ptr + self.dim * 4 <= len
        &&& self.vectors_ptr + self.count * self.dim * 4 <= len
        &&& self.out_ptr + self.count * 4 <= len
        &&& self.query_ptr % 4 == 0 && self.vectors_ptr % 4 == 0 && self.out_ptr % 4 == 0
    }

    /// Tells whether all of it lies in a memory of `len` bytes.
    pub fn check(&self, len: usize) -> (r: bool)
        ensures
            r == self.fits(len as int),
    {
        if self.query_ptr == 0 || self.vectors_ptr == 0 || self.out_ptr == 0 {
            return false;
        }
        if self.dim == 0 || self.count == 0 {
            return false;
        }
        let total: u128 = crate::num::product_u64(self.count as u64, self.dim as u64);
        proof {
            let c = self.count as int;
            let d = self.dim as int;
            assert(c * d <= 0xffff_ffff * 0xffff_ffff) by (nonlinear_arith)
                requires
                    0 <= c <= 0xffff_ffff,
                    0 <= d <= 0xffff_ffff,
            ;
        }
        let len: u128 = len as u128;
        self.query_ptr as u128 + self.dim as u128 * 4 <= len && self.vectors_ptr as u128 + total * 4
            <= len && self.out_ptr as u128 + self.count as u128 * 4 <= len && self.query_ptr % 4
            == 0 && self.vectors_ptr % 4 == 0 && self.out_ptr % 4 == 0
    }
}

/// The `n` numbers at `at`.
pub open spec fn numbers_at(mem: Seq<u8>, at: int, n: int) -> Seq<u32> {
    le::u32s_of(mem.subrange(at, at + 4 * n))
}

/// Memory with a number at `at`.
pub open spec fn with_number(mem: Seq<u8>, at: int, x: u32) -> Seq<u8> {
    mem.take(at) + le::bytes_of_u32(x) + mem.skip(at + 4)
}

/// Memory once the distances of the first `n` vectors to the query have been
/// written, one after the other. A distance written over a vector is what is read
/// there afterwards.
pub open spec fn with_distances<F: Fn(&[u32], &[u32]) -> u32>(
    f: F,
    mem: Seq<u8>,
    call: BatchCall,
    n: nat,
) -> Seq<u8>
    decreases n,
{
    if n == 0 {
        mem
    } else {
        let before = with_distances(f, mem, call, (n - 1) as nat);
        let query = numbers_at(mem, call.query_ptr as int, call.dim as int);
        let vector = numbers_at(
            before,
            call.vectors_ptr + (n - 1) * call.dim * 4,
            call.dim as int,
        );
        with_number(before, call.out_ptr + 4 * (n - 1), floats::distance(f, query, vector))
    }
}

/// Writes a number into memory.
fn put_number(mem: &mut [u8], at: usize, x: u32)
    requires
        at + 4 <= old(mem)@.len(),
    ensures
        final(mem)@ == with_number(old(mem)@, at as int, x),
{
    let mut bytes: Vec<u8> = Vec::new();
    le::put_u32(&mut bytes, x);
    let ghost b = bytes@;
    assert(b =~= le::bytes_of_u32(x));
    let len: usize = mem.len();
    let mut i: usize = 0;
    while i < 4
        invariant
            i <= 4,
            len == mem@.len(),
            b == bytes@,
            b.len() == 4,
            at + 4 <= mem@.len(),
            mem@.len() == old(mem)@.len(),
            forall|j: int|
                0 <= j < mem@.len() ==> #[trigger] mem@[j] == (if at <= j < at + i {
                    b[j - at]
                } else {
                    old(mem)@[j]
                }),
        decreases 4 - i,
    {
        mem[at + i] = bytes[i];
        i = i + 1;
    }
    assert(mem@ =~= with_number(old(mem)@, at as int, x));
}

/// Writes the distances of vectors to a query into the memory of a module. Returns
/// 1; or 0, and the memory stays as it is, if something does not lie in it. `f`
/// computes distances.
pub fn host_l2_sq_batch<F: Fn(&[u32], &[u32]) -> u32>(mem: &mut [u8], call: &BatchCall, f: &F) -> (r:
    u32)
    requires
        floats::is_distance(*f),
    ensures
        r == (if call.fits(old(mem)@.len() as int) {
            1u32
        } else {
            0u32
        }),
        r == 0 ==> final(mem)@ == old(mem)@,
        r == 1 ==> final(mem)@ == with_distances(*f, old(mem)@, *call, call.count as nat),
{
    if !call.check(mem.len()) {
        return 0;
    }
    let len: usize = mem.len();
    let dim: usize = call.dim as usize;
    let start: usize = call.query_ptr as usize;
    let query = le::get_u32s(&mem[start..start + dim * 4]);
    assert(query@ == numbers_at(mem@, call.query_ptr as int, call.dim as int));
    let mut i: u32 = 0;
    while i < call.count
        invariant
            floats::is_distance(*f),
            call.fits(len as int),
            len == old(mem)@.len(),
            mem@.len() == len,
            dim == call.dim,
            query@ == numbers_at(old(mem)@, call.query_ptr as int, call.dim as int),
            i <= call.count,
            mem@ == with_distances(*f, old(mem)@, *call, i as nat),
        decreases call.count - i,
    {
        proof {
            let c = call.count as int;
            let d = dim as int;
            let k = i as int;
            assert(k * d + d <= c * d) by (nonlinear_arith)
                requires
                    0 <= k < c,
                    d >= 0,
            ;
            assert(0 <= k * d) by (nonlinear_arith)
                requires
                    0 <= k,
                    d >= 0,
            ;
        }
        let at: usize = call.vectors_ptr as usize + i as usize * dim * 4;
        let vector = le::get_u32s(&mem[at..at + dim * 4]);
        let d: u32 = measure(f, query.as_slice(), vector.as_slice());
        put_number(mem, call.out_ptr as usize + 4 * i as usize, d);
        i = i + 1;
    }
    1
}

} // verus!
