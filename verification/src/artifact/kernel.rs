//! Searching an artifact with a module that runs in its own memory: what the
//! module is told, in which order its memory is taken and given back, and what
//! its answer says.
use crate::artifact::ivf_flat;
use crate::artifact::ivf_flat::{ChunkError, ChunkType, IvfFlatArtifact};
use crate::artifact::posting::PostingCodec;
use crate::ivf_file;
use crate::ivf_file::{get_u32_at, get_u64_at};
use crate::ivf_flat::{effective_nprobe, SearchResult};
use crate::le;
use vstd::prelude::*;

verus! {

broadcast use crate::le::sizes;

/// Why the module gave no answer.
#[derive(Clone, Copy, Debug, PartialEq, Eq, Structural)]
pub enum KernelError {
    /// There are not as many components as `nq` queries have.
    QueriesLen { expected: usize, got: usize },
    Chunk(ChunkError),
    /// The directory, the queries or the results do not fit in the memory of a module.
    TooLarge,
    /// There is no memory for a block.
    NoMemory(BlockKind),
    SearchFailed,
    CountsOutOfBounds,
    OutputOutOfBounds,
}

/// What a block of the module's memory is for.
#[derive(Clone, Copy, Debug, PartialEq, Eq, Structural)]
pub enum BlockKind {
    Directory,
    Queries,
    Output,
    Counts,
}

/// A block of the module's memory.
#[derive(Clone, Copy, Debug, PartialEq, Eq, Structural)]
pub struct Block {
    pub ptr: u32,
    pub len: u32,
    pub align: u32,
}

/// The number of a codec.
pub open spec fn codec_id(c: PostingCodec) -> u32 {
    match c {
        PostingCodec::Raw => 0,
        PostingCodec::RowIdDeltaVarintV1 => 1,
        PostingCodec::RawF16 => 2,
        PostingCodec::RowIdDeltaVarintV1F16 => 3,
    }
}

/// The number of a codec.
pub fn to_codec_id(c: PostingCodec) -> (r: u32)
    ensures
        r == codec_id(c),
{
    match c {
        PostingCodec::Raw => 0,
        PostingCodec::RowIdDeltaVarintV1 => 1,
        PostingCodec::RawF16 => 2,
        PostingCodec::RowIdDeltaVarintV1F16 => 3,
    }
}

/// The first of the lists below `n` that has no chunk.
pub open spec fn missing_list(a: IvfFlatArtifact, n: nat) -> Option<u32>
    decreases n,
{
    if n == 0 {
        None
    } else {
        match missing_list(a, (n - 1) as nat) {
            Some(l) => Some(l),
            None => if ivf_flat::chunk_place(
                a.footer.chunks@,
                ChunkType::PostingList,
                Some((n - 1) as u32),
            ) is None {
                Some((n - 1) as u32)
            } else {
                None
            },
        }
    }
}

/// The number of the chunk of a list.
pub open spec fn posting_id(a: IvfFlatArtifact, list: int) -> u32 {
    (ivf_flat::chunk_place(a.footer.chunks@, ChunkType::PostingList, Some(list as u32))->0) as u32
}

/// The codec of the first list; none is raw.
pub open spec fn codec_of(a: IvfFlatArtifact) -> PostingCodec {
    match ivf_flat::chunk_place(a.footer.chunks@, ChunkType::PostingList, Some(0)) {
        Some(i) => a.footer.chunks@[i].codec,
        None => PostingCodec::Raw,
    }
}

/// What the module is told of an artifact: how many components and lists there
/// are, which chunk holds the centroids, how lists are coded, and which chunk
/// holds each list.
pub open spec fn directory_of(a: IvfFlatArtifact) -> Result<Seq<u8>, ChunkError> {
    match ivf_flat::chunk_place(a.footer.chunks@, ChunkType::Centroids, None) {
        None => Err(ChunkError::NotFound { chunk_type: ChunkType::Centroids, list_id: None }),
        Some(centroids) => match missing_list(a, a.footer.nlist as nat) {
            Some(l) => Err(
                ChunkError::NotFound { chunk_type: ChunkType::PostingList, list_id: Some(l) },
            ),
            None => Ok(
                le::bytes_of_u32(a.footer.dim) + le::bytes_of_u32(a.footer.nlist)
                    + le::bytes_of_u32(centroids as u32) + le::bytes_of_u32(codec_id(codec_of(a)))
                    + le::bytes_of_u32s(
                    Seq::new(a.footer.nlist as nat, |l: int| posting_id(a, l)),
                ),
            ),
        },
    }
}

/// What the module is told of an artifact.
pub fn directory(a: &IvfFlatArtifact) -> (r: Result<Vec<u8>, ChunkError>)
    ensures
        match r {
            Ok(v) => directory_of(*a) == Ok::<Seq<u8>, ChunkError>(v@),
            Err(e) => directory_of(*a) == Err::<Seq<u8>, ChunkError>(e),
        },
{
    let centroids: u32 = match a.find_chunk_id(ChunkType::Centroids, None) {
        Err(e) => {
            return Err(e);
        },
        Ok(i) => #[verifier::truncate]
        (i as u32),
    };
    let codec = match a.find_chunk(ChunkType::PostingList, Some(0)) {
        Ok(c) => c.codec,
        Err(_) => PostingCodec::Raw,
    };
    let nlist: u32 = a.footer.nlist;
    let mut ids: Vec<u32> = Vec::new();
    let mut l: u32 = 0;
    while l < nlist
        invariant
            l <= nlist,
            nlist == a.footer.nlist,
            ivf_flat::chunk_place(a.footer.chunks@, ChunkType::Centroids, None) is Some,
            missing_list(*a, l as nat) is None,
            ids@.len() == l,
            forall|j: int| 0 <= j < l ==> #[trigger] ids@[j] == posting_id(*a, j),
        decreases nlist - l,
    {
        match a.find_chunk_id(ChunkType::PostingList, Some(l)) {
            Err(e) => {
                proof {
                    missing_stays(*a, l as nat + 1, nlist as nat);
                }
                return Err(e);
            },
            Ok(i) => {
                ids.push(#[verifier::truncate] (i as u32));
            },
        }
        l = l + 1;
    }
    assert(ids@ =~= Seq::new(nlist as nat, |l: int| posting_id(*a, l)));
    let mut dir: Vec<u8> = Vec::new();
    le::put_u32(&mut dir, a.footer.dim);
    le::put_u32(&mut dir, nlist);
    le::put_u32(&mut dir, centroids);
    le::put_u32(&mut dir, to_codec_id(codec));
    let ghost head = dir@;
    let mut i: usize = 0;
    assert(dir@ =~= head + le::bytes_of_u32s(ids@.take(0)));
    while i < ids.len()
        invariant
            i <= ids@.len(),
            dir@ == head + le::bytes_of_u32s(ids@.take(i as int)),
        decreases ids@.len() - i,
    {
        let ghost before = dir@;
        le::put_u32(&mut dir, ids[i]);
        proof {
            let next = le::bytes_of_u32s(ids@.take(i + 1));
            assert forall|j: int| 0 <= j < next.len() implies dir@[head.len() + j]
                == #[trigger] next[j] by {
                if j < 4 * i {
                    assert(dir@[head.len() + j] == before[head.len() + j]);
                }
            }
            assert(dir@ =~= head + next);
        }
        i = i + 1;
    }
    assert(ids@.take(i as int) =~= ids@);
    assert(dir@ =~= directory_of(*a)->Ok_0);
    Ok(dir)
}

proof fn missing_stays(a: IvfFlatArtifact, i: nat, n: nat)
    requires
        i <= n,
        missing_list(a, i) is Some,
    ensures
        missing_list(a, n) == missing_list(a, i),
    decreases n,
{
    if i < n {
        missing_stays(a, i, (n - 1) as nat);
    }
}

/// What is asked: the directory of the artifact, the components of `nq` queries as
/// bytes, how many results each should have, and how many lists are searched.
#[derive(Debug)]
pub struct KernelRequest {
    pub dir: Vec<u8>,
    pub queries: Vec<u8>,
    pub nq: u32,
    pub dim: u32,
    pub k: u32,
    pub nprobe: u32,
}

impl KernelRequest {
    /// The bytes of the results.
    pub open spec fn output_len(self) -> int {
        self.nq * self.k * 8
    }

    /// Whether the blocks fit in the module's memory.
    pub open spec fn fits(self) -> bool {
        &&& self.dir@.len() <= u32::MAX
        &&& self.queries@.len() <= u32::MAX
        &&& self.k > 0
        &&& self.nq > 0
        &&& self.output_len() <= u32::MAX
    }

    /// The length and alignment of a block.
    pub open spec fn block_size(self, i: int) -> (u32, u32) {
        if i == 0 {
            (self.dir@.len() as u32, 8)
        } else if i == 1 {
            (self.queries@.len() as u32, 4)
        } else if i == 2 {
            (self.output_len() as u32, 8)
        } else {
            ((self.nq * 4) as u32, 4)
        }
    }
}

/// What block `i` is for.
pub open spec fn block_kind(i: int) -> BlockKind {
    if i == 0 {
        BlockKind::Directory
    } else if i == 1 {
        BlockKind::Queries
    } else if i == 2 {
        BlockKind::Output
    } else {
        BlockKind::Counts
    }
}

/// How far a search has come.
#[derive(Clone, Copy, Debug, PartialEq, Eq, Structural)]
pub enum Stage {
    /// The next block is taken.
    Alloc,
    /// The block taken last is filled.
    Write,
    Search,
    ReadCounts,
    ReadOutput,
    /// This block is given back.
    Free(usize),
    Done,
}

/// What is to be done with the module.
#[derive(Clone, Copy, Debug, PartialEq, Eq, Structural)]
pub enum Action {
    Alloc { len: u32, align: u32 },
    /// Write the directory, or else the queries.
    Write { ptr: u32, directory: bool },
    Search(SearchCall),
    Read { ptr: u32, len: u32 },
    Free(Block),
    Done,
}

/// The arguments of a search.
#[derive(Clone, Copy, Debug, PartialEq, Eq, Structural)]
pub struct SearchCall {
    pub dir_ptr: u32,
    pub dir_len: u32,
    pub queries_ptr: u32,
    pub nq: u32,
    pub dim: u32,
    pub k: u32,
    pub nprobe: u32,
    pub out_ptr: u32,
    pub out_cap: u32,
    pub counts_ptr: u32,
}

/// What came back.
#[derive(Debug)]
pub enum Reply {
    /// Where the block is; 0 if there is no memory.
    Allocated(u32),
    Written,
    /// 0 if the search failed.
    Searched(u32),
    /// The bytes; nothing if they are out of bounds.
    Bytes(Option<Vec<u8>>),
    Freed,
}

/// A search that is under way.
#[derive(Debug)]
pub struct KernelRun {
    pub request: KernelRequest,
    pub blocks: Vec<Block>,
    pub stage: Stage,
    pub counts: Vec<u32>,
    pub outcome: Option<Result<Vec<Vec<SearchResult>>, KernelError>>,
}

/// The number of results of each query.
pub open spec fn counts_of(b: Seq<u8>, nq: nat) -> Seq<u32> {
    Seq::new(nq, |q: int| ivf_file::u32_at(b, 4 * q))
}

/// The results of query `q`: its `count` pairs of row and distance.
pub open spec fn query_results(b: Seq<u8>, q: int, k: int, count: u32) -> Seq<SearchResult> {
    Seq::new(
        count as nat,
        |i: int|
            SearchResult {
                row_id: ivf_file::u32_at(b, q * k * 8 + i * 8),
                distance: ivf_file::u32_at(b, q * k * 8 + i * 8 + 4),
            },
    )
}

/// Whether these are the results of all queries.
pub open spec fn are_results(r: Seq<Vec<SearchResult>>, b: Seq<u8>, k: int, counts: Seq<u32>) -> bool {
    &&& r.len() == counts.len()
    &&& forall|q: int| 0 <= q < r.len() ==> (#[trigger] r[q])@ == query_results(b, q, k, counts[q])
}

/// Whether the results of all queries lie within the output.
pub open spec fn counts_fit(counts: Seq<u32>, k: int, output_len: int) -> bool {
    forall|q: int|
        0 <= q < counts.len() ==> q * k * 8 + (#[trigger] counts[q]) * 8 <= output_len
}

impl KernelRun {
    /// What holds of a search all along.
    pub open spec fn valid(self) -> bool {
        &&& self.request.fits()
        &&& self.blocks@.len() <= 4
        &&& forall|i: int|
            0 <= i < self.blocks@.len() ==> (#[trigger] self.blocks@[i]).ptr != 0 && (
            self.blocks@[i].len,
            self.blocks@[i].align,
        ) == self.request.block_size(i)
        &&& self.outcome matches Some(Ok(results)) ==> results@.len() == self.request.nq
        &&& match self.stage {
            Stage::Alloc => self.blocks@.len() < 4 && self.outcome is None,
            Stage::Write => (self.blocks@.len() == 1 || self.blocks@.len() == 2)
                && self.outcome is None,
            Stage::Search => self.blocks@.len() == 4 && self.outcome is None,
            Stage::ReadCounts => self.blocks@.len() == 4 && self.outcome is None,
            Stage::ReadOutput => self.blocks@.len() == 4 && self.outcome is None
                && self.counts@.len() == self.request.nq,
            Stage::Free(i) => i < self.blocks@.len() && self.outcome is Some,
            Stage::Done => self.outcome is Some,
        }
    }

    /// Whether a reply answers what is to be done.
    pub open spec fn answered_by(self, reply: Reply) -> bool {
        match self.stage {
            Stage::Alloc => reply is Allocated,
            Stage::Write => reply is Written,
            Stage::Search => reply is Searched,
            Stage::ReadCounts => reply matches Reply::Bytes(b) && (b matches Some(v) ==> v@.len()
                == self.request.nq * 4),
            Stage::ReadOutput => reply matches Reply::Bytes(b) && (b matches Some(v) ==> v@.len()
                == self.request.output_len() && counts_fit(
                self.counts@,
                self.request.k as int,
                self.request.output_len(),
            )),
            Stage::Free(_) => reply is Freed,
            Stage::Done => false,
        }
    }

    /// What is to be done.
    pub open spec fn spec_action(self) -> Action {
        match self.stage {
            Stage::Alloc => {
                let size = self.request.block_size(self.blocks@.len() as int);
                Action::Alloc { len: size.0, align: size.1 }
            },
            Stage::Write => Action::Write {
                ptr: self.blocks@.last().ptr,
                directory: self.blocks@.len() == 1,
            },
            Stage::Search => Action::Search(
                SearchCall {
                    dir_ptr: self.blocks@[0].ptr,
                    dir_len: self.blocks@[0].len,
                    queries_ptr: self.blocks@[1].ptr,
                    nq: self.request.nq,
                    dim: self.request.dim,
                    k: self.request.k,
                    nprobe: self.request.nprobe,
                    out_ptr: self.blocks@[2].ptr,
                    out_cap: self.request.k,
                    counts_ptr: self.blocks@[3].ptr,
                },
            ),
            Stage::ReadCounts => Action::Read {
                ptr: self.blocks@[3].ptr,
                len: self.blocks@[3].len,
            },
            Stage::ReadOutput => Action::Read {
                ptr: self.blocks@[2].ptr,
                len: self.blocks@[2].len,
            },
            Stage::Free(i) => Action::Free(self.blocks@[i as int]),
            Stage::Done => Action::Done,
        }
    }

    /// Whether `after` is this search when it has failed.
    pub open spec fn failed(self, after: KernelRun, stage: Stage, e: KernelError) -> bool {
        &&& after.blocks@ == self.blocks@
        &&& after.stage == stage
        &&& after.outcome matches Some(Err(x)) && x == e
    }

    /// Whether `after` is this search with its next stage.
    pub open spec fn moved(self, after: KernelRun, stage: Stage) -> bool {
        &&& after.blocks@ == self.blocks@
        &&& after.stage == stage
        &&& after.outcome == self.outcome
        &&& after.counts@ == self.counts@
    }

    /// Whether `after` is this search once `reply` has come. A block that cannot be
    /// taken ends the search, and the blocks taken before are given back. A failed
    /// search gives nothing back. What was found is read, counts first, and all
    /// blocks are given back.
    pub open spec fn steps_to(self, reply: Reply, after: KernelRun) -> bool {
        &&& after.request == self.request
        &&& match self.stage {
            Stage::Alloc => {
                let n = self.blocks@.len();
                let size = self.request.block_size(n as int);
                let ptr = reply->Allocated_0;
                if ptr == 0 {
                    self.failed(
                        after,
                        if n == 0 {
                            Stage::Done
                        } else {
                            Stage::Free(0)
                        },
                        KernelError::NoMemory(block_kind(n as int)),
                    )
                } else {
                    &&& after.blocks@ == self.blocks@.push(Block { ptr, len: size.0, align: size.1 })
                    &&& after.stage == (if n < 2 {
                        Stage::Write
                    } else if n == 2 {
                        Stage::Alloc
                    } else {
                        Stage::Search
                    })
                    &&& after.outcome is None
                }
            },
            Stage::Write => self.moved(after, Stage::Alloc),
            Stage::Search => if reply->Searched_0 == 0 {
                self.failed(after, Stage::Done, KernelError::SearchFailed)
            } else {
                self.moved(after, Stage::ReadCounts)
            },
            Stage::ReadCounts => match reply->Bytes_0 {
                None => self.failed(after, Stage::Done, KernelError::CountsOutOfBounds),
                Some(b) => {
                    &&& after.blocks@ == self.blocks@
                    &&& after.stage == Stage::ReadOutput
                    &&& after.outcome is None
                    &&& after.counts@ == counts_of(b@, self.request.nq as nat)
                },
            },
            Stage::ReadOutput => match reply->Bytes_0 {
                None => self.failed(after, Stage::Done, KernelError::OutputOutOfBounds),
                Some(b) => {
                    &&& after.blocks@ == self.blocks@
                    &&& after.stage == Stage::Free(0)
                    &&& after.outcome matches Some(Ok(r)) && are_results(
                        r@,
                        b@,
                        self.request.k as int,
                        self.counts@,
                    )
                },
            },
            Stage::Free(i) => self.moved(
                after,
                if i + 1 < self.blocks@.len() {
                    Stage::Free((i + 1) as usize)
                } else {
                    Stage::Done
                },
            ),
            Stage::Done => true,
        }
    }

    /// What is to be done.
    pub fn action(&self) -> (r: Action)
        requires
            self.valid(),
        ensures
            r == self.spec_action(),
    {
        let n: usize = self.blocks.len();
        match self.stage {
            Stage::Alloc => {
                let (len, align) = self.next_block();
                Action::Alloc { len, align }
            },
            Stage::Write => Action::Write { ptr: self.blocks[n - 1].ptr, directory: n == 1 },
            Stage::Search => Action::Search(
                SearchCall {
                    dir_ptr: self.blocks[0].ptr,
                    dir_len: self.blocks[0].len,
                    queries_ptr: self.blocks[1].ptr,
                    nq: self.request.nq,
                    dim: self.request.dim,
                    k: self.request.k,
                    nprobe: self.request.nprobe,
                    out_ptr: self.blocks[2].ptr,
                    out_cap: self.request.k,
                    counts_ptr: self.blocks[3].ptr,
                },
            ),
            Stage::ReadCounts => Action::Read {
                ptr: self.blocks[3].ptr,
                len: self.blocks[3].len,
            },
            Stage::ReadOutput => Action::Read {
                ptr: self.blocks[2].ptr,
                len: self.blocks[2].len,
            },
            Stage::Free(i) => Action::Free(self.blocks[i]),
            Stage::Done => Action::Done,
        }
    }

    /// The length and alignment of the next block.
    fn next_block(&self) -> (r: (u32, u32))
        requires
            self.request.fits(),
            self.blocks@.len() < 4,
        ensures
            r == self.request.block_size(self.blocks@.len() as int),
    {
        let n: usize = self.blocks.len();
        proof {
            self.request.small();
        }
        if n == 0 {
            (self.request.dir.len() as u32, 8)
        } else if n == 1 {
            (self.request.queries.len() as u32, 4)
        } else if n == 2 {
            (self.request.nq * self.request.k * 8, 8)
        } else {
            (self.request.nq * 4, 4)
        }
    }

    /// Tells whether a reply answers what is to be done.
    pub fn is_answered_by(&self, reply: &Reply) -> (r: bool)
        requires
            self.valid(),
        ensures
            r == self.answered_by(*reply),
    {
        proof {
            self.request.small();
        }
        match (self.stage, reply) {
            (Stage::Alloc, Reply::Allocated(_)) => true,
            (Stage::Write, Reply::Written) => true,
            (Stage::Search, Reply::Searched(_)) => true,
            (Stage::ReadCounts, Reply::Bytes(b)) => match b {
                None => true,
                Some(v) => v.len() == (self.request.nq * 4) as usize,
            },
            (Stage::ReadOutput, Reply::Bytes(b)) => match b {
                None => true,
                Some(v) => {
                    let len: u32 = self.request.nq * self.request.k * 8;
                    v.len() == len as usize && self.do_counts_fit(len)
                },
            },
            (Stage::Free(_), Reply::Freed) => true,
            _ => false,
        }
    }

    /// Tells whether the results of all queries lie within the output.
    fn do_counts_fit(&self, len: u32) -> (r: bool)
        requires
            self.request.fits(),
            self.counts@.len() == self.request.nq,
            len == self.request.output_len(),
        ensures
            r == counts_fit(self.counts@, self.request.k as int, len as int),
    {
        let k: u32 = self.request.k;
        let mut q: usize = 0;
        while q < self.counts.len()
            invariant
                q <= self.counts@.len(),
                k == self.request.k,
                self.request.fits(),
                self.counts@.len() == self.request.nq,
                forall|p: int| 0 <= p < q ==> p * k * 8 + (#[trigger] self.counts@[p]) * 8 <= len,
            decreases self.counts@.len() - q,
        {
            assert(q * k * 8 <= self.request.nq * k * 8) by (nonlinear_arith)
                requires
                    q <= self.request.nq,
            ;
            assert(q * k <= u32::MAX) by (nonlinear_arith)
                requires
                    q * k * 8 <= u32::MAX,
                    q >= 0,
                    k >= 0,
            ;
            let end: u64 = (q as u64) * (k as u64) * 8 + (self.counts[q] as u64) * 8;
            if end > len as u64 {
                assert(self.counts@[q as int] * 8 + q * k * 8 > len);
                return false;
            }
            q = q + 1;
        }
        true
    }

    /// Goes on once `reply` has come.
    pub fn advance(&mut self, reply: Reply)
        requires
            old(self).valid(),
            old(self).answered_by(reply),
        ensures
            final(self).valid(),
            old(self).steps_to(reply, *final(self)),
    {
        let n: usize = self.blocks.len();
        match (self.stage, reply) {
            (Stage::Alloc, Reply::Allocated(ptr)) => {
                let (len, align) = self.next_block();
                if ptr == 0 {
                    self.outcome = Some(Err(KernelError::NoMemory(kind_of(n))));
                    self.stage = if n == 0 {
                        Stage::Done
                    } else {
                        Stage::Free(0)
                    };
                } else {
                    self.blocks.push(Block { ptr, len, align });
                    self.stage = if n < 2 {
                        Stage::Write
                    } else if n == 2 {
                        Stage::Alloc
                    } else {
                        Stage::Search
                    };
                }
            },
            (Stage::Write, Reply::Written) => {
                self.stage = Stage::Alloc;
            },
            (Stage::Search, Reply::Searched(ok)) => {
                if ok == 0 {
                    self.outcome = Some(Err(KernelError::SearchFailed));
                    self.stage = Stage::Done;
                } else {
                    self.stage = Stage::ReadCounts;
                }
            },
            (Stage::ReadCounts, Reply::Bytes(b)) => match b {
                None => {
                    self.outcome = Some(Err(KernelError::CountsOutOfBounds));
                    self.stage = Stage::Done;
                },
                Some(bytes) => {
                    self.counts = read_counts(bytes.as_slice(), self.request.nq);
                    self.stage = Stage::ReadOutput;
                },
            },
            (Stage::ReadOutput, Reply::Bytes(b)) => match b {
                None => {
                    self.outcome = Some(Err(KernelError::OutputOutOfBounds));
                    self.stage = Stage::Done;
                },
                Some(bytes) => {
                    let results = read_results(bytes.as_slice(), self.request.k, &self.counts);
                    self.outcome = Some(Ok(results));
                    self.stage = Stage::Free(0);
                },
            },
            (Stage::Free(i), _) => {
                self.stage = if i + 1 < n {
                    Stage::Free(i + 1)
                } else {
                    Stage::Done
                };
            },
            _ => {},
        }
    }

    /// What came of the search, once it is done: one list of results for each query.
    pub fn finish(self) -> (r: Result<Vec<Vec<SearchResult>>, KernelError>)
        requires
            self.valid(),
            self.stage is Done,
        ensures
            Some(r) == self.outcome,
            r matches Ok(results) ==> results@.len() == self.request.nq,
    {
        self.outcome.unwrap()
    }
}

impl KernelRequest {
    proof fn small(self)
        requires
            self.fits(),
        ensures
            self.nq * self.k <= u32::MAX,
            self.nq * 8 <= u32::MAX,
            self.output_len() >= 0,
    {
        let nq = self.nq as int;
        let k = self.k as int;
        assert(nq * 8 <= nq * k * 8) by (nonlinear_arith)
            requires
                nq >= 0,
                k >= 1,
        ;
        assert(nq * k >= 0) by (nonlinear_arith)
            requires
                nq >= 0,
                k >= 1,
        ;
    }
}

/// What block `i` is for.
fn kind_of(i: usize) -> (r: BlockKind)
    ensures
        r == block_kind(i as int),
{
    if i == 0 {
        BlockKind::Directory
    } else if i == 1 {
        BlockKind::Queries
    } else if i == 2 {
        BlockKind::Output
    } else {
        BlockKind::Counts
    }
}

/// The number of results of each query.
fn read_counts(bytes: &[u8], nq: u32) -> (r: Vec<u32>)
    requires
        bytes@.len() == nq * 4,
    ensures
        r@ == counts_of(bytes@, nq as nat),
{
    let len: usize = bytes.len();
    let mut counts: Vec<u32> = Vec::new();
    let mut q: u32 = 0;
    while q < nq
        invariant
            q <= nq,
            len == bytes@.len(),
            bytes@.len() == nq * 4,
            counts@.len() == q,
            forall|p: int| 0 <= p < q ==> #[trigger] counts@[p] == ivf_file::u32_at(bytes@, 4 * p),
        decreases nq - q,
    {
        counts.push(get_u32_at(bytes, 4 * q as usize));
        q = q + 1;
    }
    assert(counts@ =~= counts_of(bytes@, nq as nat));
    counts
}

/// The results of all queries.
pub fn read_results(bytes: &[u8], k: u32, counts: &Vec<u32>) -> (r: Vec<Vec<SearchResult>>)
    requires
        counts_fit(counts@, k as int, bytes@.len() as int),
    ensures
        are_results(r@, bytes@, k as int, counts@),
{
    let len: usize = bytes.len();
    let mut results: Vec<Vec<SearchResult>> = Vec::new();
    let mut q: usize = 0;
    while q < counts.len()
        invariant
            q <= counts@.len(),
            len == bytes@.len(),
            counts_fit(counts@, k as int, bytes@.len() as int),
            results@.len() == q,
            forall|p: int|
                0 <= p < q ==> (#[trigger] results@[p])@ == query_results(
                    bytes@,
                    p,
                    k as int,
                    counts@[p],
                ),
        decreases counts@.len() - q,
    {
        let mut one: Vec<SearchResult> = Vec::new();
        let count: u32 = counts[q];
        assert(q * k * 8 + counts@[q as int] * 8 <= len);
        assert(0 <= q * k) by (nonlinear_arith)
            requires
                q >= 0,
                k >= 0,
        ;
        let base: usize = q * k as usize * 8;
        let mut i: u32 = 0;
        while i < count
            invariant
                i <= count,
                count == counts@[q as int],
                len == bytes@.len(),
                base == q * k * 8,
                base + count * 8 <= len,
                one@ =~= query_results(bytes@, q as int, k as int, i),
            decreases count - i,
        {
            let off: usize = base + i as usize * 8;
            let row_id: u32 = get_u32_at(bytes, off);
            let distance: u32 = get_u32_at(bytes, off + 4);
            one.push(SearchResult { row_id, distance });
            i = i + 1;
        }
        results.push(one);
        q = q + 1;
    }
    results
}

/// A search that starts, or the answer if nothing has to be asked.
#[derive(Debug)]
pub enum Prepared {
    Answered(Vec<Vec<SearchResult>>),
    Ask(KernelRun),
}

/// Whether the directory, `len` components of queries, and `k` results for each of
/// `nq` queries fit in the memory of a module.
pub open spec fn fits_module(nlist: nat, len: nat, nq: nat, k: nat) -> bool {
    &&& 16 + 4 * nlist <= u32::MAX
    &&& 4 * len <= u32::MAX
    &&& nq * k * 8 <= u32::MAX
}

/// Tells whether all fits in the memory of a module.
fn fits_in_module(nlist: u32, len: usize, nq: usize, k: usize) -> (r: bool)
    ensures
        r == fits_module(nlist as nat, len as nat, nq as nat, k as nat),
{
    proof {
        assert(nq * k <= u64::MAX * u64::MAX) by (nonlinear_arith)
            requires
                0 <= nq <= u64::MAX,
                0 <= k <= u64::MAX,
        ;
    }
    let results: u128 = nq as u128 * k as u128;
    16 + 4 * nlist as u64 <= u32::MAX as u64 && 4 * len as u128 <= u32::MAX as u128 && results
        <= u32::MAX as u128 / 8
}

/// Why queries are not asked.
pub open spec fn refusal(a: IvfFlatArtifact, len: nat, nq: nat, k: nat) -> Option<KernelError> {
    if nq == 0 {
        None
    } else if len != nq * a.footer.dim {
        Some(
            KernelError::QueriesLen { expected: (nq * a.footer.dim) as usize, got: len as usize },
        )
    } else if k == 0 {
        None
    } else {
        match directory_of(a) {
            Err(e) => Some(KernelError::Chunk(e)),
            Ok(_) => if fits_module(a.footer.nlist as nat, len, nq, k) {
                None
            } else {
                Some(KernelError::TooLarge)
            },
        }
    }
}

/// Whether `run` is a search that starts with this question.
pub open spec fn starts(
    run: KernelRun,
    a: IvfFlatArtifact,
    queries: Seq<u32>,
    nq: usize,
    k: usize,
    nprobe: usize,
) -> bool {
    &&& run.valid()
    &&& run.stage is Alloc
    &&& run.blocks@.len() == 0
    &&& directory_of(a) == Ok::<Seq<u8>, ChunkError>(run.request.dir@)
    &&& run.request.queries@ == le::bytes_of_u32s(queries)
    &&& run.request.nq == nq
    &&& run.request.dim == a.footer.dim
    &&& run.request.k == k
    &&& run.request.nprobe == crate::ivf_flat::probe_count(nprobe as nat, a.footer.nlist as nat)
}

/// Starts a search of an artifact for the `k` nearest to each of `nq` queries in
/// `nprobe` lists.
pub fn prepare(
    a: &IvfFlatArtifact,
    queries: &[u32],
    nq: usize,
    k: usize,
    nprobe: usize,
) -> (r: Result<Prepared, KernelError>)
    requires
        nq * a.footer.dim <= usize::MAX,
    ensures
        match refusal(*a, queries@.len(), nq as nat, k as nat) {
            Some(e) => r is Err && r->Err_0 == e,
            None => if nq == 0 || k == 0 {
                &&& r is Ok && r->Ok_0 is Answered
                &&& (r->Ok_0->Answered_0)@.len() == nq
                &&& forall|q: int|
                    0 <= q < nq ==> (#[trigger] (r->Ok_0->Answered_0)@[q])@.len() == 0
            } else {
                r is Ok && r->Ok_0 is Ask && starts(
                    r->Ok_0->Ask_0,
                    *a,
                    queries@,
                    nq,
                    k,
                    nprobe,
                )
            },
        },
{
    if nq == 0 {
        return Ok(Prepared::Answered(Vec::new()));
    }
    let expected: usize = nq * a.footer.dim as usize;
    if queries.len() != expected {
        return Err(KernelError::QueriesLen { expected, got: queries.len() });
    }
    if k == 0 {
        let mut none: Vec<Vec<SearchResult>> = Vec::new();
        let mut q: usize = 0;
        while q < nq
            invariant
                q <= nq,
                none@.len() == q,
                forall|p: int| 0 <= p < q ==> (#[trigger] none@[p])@.len() == 0,
            decreases nq - q,
        {
            none.push(Vec::new());
            q = q + 1;
        }
        return Ok(Prepared::Answered(none));
    }
    let dir = match directory(a) {
        Err(e) => {
            return Err(KernelError::Chunk(e));
        },
        Ok(dir) => dir,
    };
    if !fits_in_module(a.footer.nlist, queries.len(), nq, k) {
        return Err(KernelError::TooLarge);
    }
    let mut bytes: Vec<u8> = Vec::new();
    le::put_u32s(&mut bytes, queries);
    assert(bytes@ =~= le::bytes_of_u32s(queries@));
    let n: usize = effective_nprobe(nprobe, a.footer.nlist as usize);
    proof {
        assert(nq <= nq * k * 8 && k <= nq * k * 8) by (nonlinear_arith)
            requires
                nq >= 1,
                k >= 1,
        ;
    }
    let request = KernelRequest {
        dir,
        queries: bytes,
        nq: nq as u32,
        dim: a.footer.dim,
        k: k as u32,
        nprobe: n as u32,
    };
    Ok(
        Prepared::Ask(
            KernelRun {
                request,
                blocks: Vec::new(),
                stage: Stage::Alloc,
                counts: Vec::new(),
                outcome: None,
            },
        ),
    )
}

/// The results of a search for one query: those of the first.
pub fn first_results(batches: Vec<Vec<SearchResult>>) -> (r: Vec<SearchResult>)
    ensures
        r@ == (if batches@.len() == 0 {
            Seq::<SearchResult>::empty()
        } else {
            batches@[0]@
        }),
{
    let mut batches = batches;
    if batches.len() == 0 {
        return Vec::new();
    }
    batches.remove(0)
}

/// Whether a search went through these stages, one reply after the other, and in
/// the end was done.
pub open spec fn is_history(runs: Seq<KernelRun>, replies: Seq<Reply>) -> bool {
    &&& runs.len() == replies.len() + 1
    &&& runs[0].valid()
    &&& runs[0].stage is Alloc
    &&& runs[0].blocks@.len() == 0
    &&& forall|i: int| 0 <= i < replies.len() ==> (#[trigger] runs[i]).answered_by(replies[i])
    &&& forall|i: int|
        0 <= i < replies.len() ==> (#[trigger] runs[i]).steps_to(replies[i], runs[i + 1])
    &&& forall|i: int| 0 <= i < runs.len() ==> (#[trigger] runs[i]).valid()
}

/// A search that has failed for want of memory, or that has found something, gives
/// back all blocks that it took, in the order in which it took them, and nothing
/// else: from where the first is given back it goes on to the last, and then it is
/// done with the same outcome.
pub proof fn blocks_are_given_back(runs: Seq<KernelRun>, replies: Seq<Reply>, from: int, i: int)
    requires
        is_history(runs, replies),
        0 <= from < runs.len(),
        runs[from].stage == Stage::Free(0),
        0 <= i <= runs[from].blocks@.len(),
        from + i < runs.len(),
    ensures
        runs[from + i].blocks@ == runs[from].blocks@,
        runs[from + i].outcome == runs[from].outcome,
        i < runs[from].blocks@.len() ==> runs[from + i].spec_action() == Action::Free(
            runs[from].blocks@[i],
        ),
        i == runs[from].blocks@.len() ==> runs[from + i].spec_action() == Action::Done,
    decreases i,
{
    if i > 0 {
        blocks_are_given_back(runs, replies, from, i - 1);
        let before = runs[from + i - 1];
        assert(before.steps_to(replies[from + i - 1], runs[from + i]));
        assert(before.stage == Stage::Free((i - 1) as usize)) by {
            stage_of_freeing(runs, replies, from, i - 1);
        }
        stage_of_freeing(runs, replies, from, i);
    }
}

proof fn stage_of_freeing(runs: Seq<KernelRun>, replies: Seq<Reply>, from: int, i: int)
    requires
        is_history(runs, replies),
        0 <= from < runs.len(),
        runs[from].stage == Stage::Free(0),
        0 <= i <= runs[from].blocks@.len(),
        from + i < runs.len(),
    ensures
        runs[from + i].blocks@ == runs[from].blocks@,
        runs[from + i].stage == (if i < runs[from].blocks@.len() {
            Stage::Free(i as usize)
        } else {
            Stage::Done
        }),
    decreases i,
{
    assert(runs[from].valid());
    if i > 0 {
        stage_of_freeing(runs, replies, from, i - 1);
        assert(runs[from + i - 1].steps_to(replies[from + i - 1], runs[from + i]));
    }
}

/// What the host has handed to the module.
#[derive(Clone, Debug)]
pub struct FetchStats {
    pub cache_hits: u64,
    pub chunks_fetched: u64,
    pub compressed_bytes_in: u64,
    pub raw_bytes_decoded: u64,
    pub fetch_time_ns: u64,
    pub transfer_time_ns: u64,
    pub host_copy_time_ns: u64,
    pub total_time_ns: u64,
    /// The first chunks that were asked for.
    pub fetched_chunk_ids_sample: Vec<u32>,
    /// The first chunks that had to be read.
    pub cache_miss_chunk_ids_sample: Vec<u32>,
}

/// How many chunks are noted at most.
pub const SAMPLE_LIMIT: usize = 64;

/// The sample with one more chunk, as far as there is room.
pub open spec fn sampled(s: Seq<u32>, chunk_id: u32) -> Seq<u32> {
    if s.len() < SAMPLE_LIMIT {
        s.push(chunk_id)
    } else {
        s
    }
}

impl Default for FetchStats {
    fn default() -> (r: Self)
        ensures
            r.is_zero(),
    {
        FetchStats {
            cache_hits: 0,
            chunks_fetched: 0,
            compressed_bytes_in: 0,
            raw_bytes_decoded: 0,
            fetch_time_ns: 0,
            transfer_time_ns: 0,
            host_copy_time_ns: 0,
            total_time_ns: 0,
            fetched_chunk_ids_sample: Vec::new(),
            cache_miss_chunk_ids_sample: Vec::new(),
        }
    }
}

impl FetchStats {
    /// Whether nothing has been handed out.
    pub open spec fn is_zero(self) -> bool {
        &&& self.same_counters(
            FetchStats {
                cache_hits: 0,
                chunks_fetched: 0,
                compressed_bytes_in: 0,
                raw_bytes_decoded: 0,
                fetch_time_ns: 0,
                transfer_time_ns: 0,
                host_copy_time_ns: 0,
                total_time_ns: 0,
                ..self
            },
        )
        &&& self.fetched_chunk_ids_sample@.len() == 0
        &&& self.cache_miss_chunk_ids_sample@.len() == 0
    }

    /// Whether all counters are those of `o`.
    pub open spec fn same_counters(self, o: FetchStats) -> bool {
        &&& self.cache_hits == o.cache_hits
        &&& self.chunks_fetched == o.chunks_fetched
        &&& self.compressed_bytes_in == o.compressed_bytes_in
        &&& self.raw_bytes_decoded == o.raw_bytes_decoded
        &&& self.fetch_time_ns == o.fetch_time_ns
        &&& self.transfer_time_ns == o.transfer_time_ns
        &&& self.host_copy_time_ns == o.host_copy_time_ns
        &&& self.total_time_ns == o.total_time_ns
    }

    /// Notes that a chunk was asked for, and whether it had to be read.
    pub fn note_chunk(&mut self, chunk_id: u32, miss: bool)
        ensures
            final(self).same_counters(*old(self)),
            final(self).fetched_chunk_ids_sample@ == sampled(
                old(self).fetched_chunk_ids_sample@,
                chunk_id,
            ),
            final(self).cache_miss_chunk_ids_sample@ == (if miss {
                sampled(old(self).cache_miss_chunk_ids_sample@, chunk_id)
            } else {
                old(self).cache_miss_chunk_ids_sample@
            }),
    {
        if self.fetched_chunk_ids_sample.len() < SAMPLE_LIMIT {
            self.fetched_chunk_ids_sample.push(chunk_id);
        }
        if miss && self.cache_miss_chunk_ids_sample.len() < SAMPLE_LIMIT {
            self.cache_miss_chunk_ids_sample.push(chunk_id);
        }
    }

    /// Notes a copy into the memory of the module, and how long it and all around
    /// it took.
    pub fn note_copy(&mut self, copy_ns: u64, total_ns: u64)
        requires
            old(self).host_copy_time_ns + copy_ns <= u64::MAX,
            old(self).transfer_time_ns + total_ns <= u64::MAX,
        ensures
            final(self).same_counters(
                (FetchStats {
                    host_copy_time_ns: (old(self).host_copy_time_ns + copy_ns) as u64,
                    transfer_time_ns: (old(self).transfer_time_ns + total_ns) as u64,
                    ..*old(self)
                }),
            ),
            final(self).fetched_chunk_ids_sample == old(self).fetched_chunk_ids_sample,
            final(self).cache_miss_chunk_ids_sample == old(self).cache_miss_chunk_ids_sample,
    {
        self.host_copy_time_ns = self.host_copy_time_ns + copy_ns;
        self.transfer_time_ns = self.transfer_time_ns + total_ns;
    }
}

/// What the module tells of its last search.
#[derive(Clone, Copy, Debug, PartialEq, Eq, Structural)]
pub struct KernelStats {
    pub decode_time_ns: u64,
    pub compute_time_ns: u64,
    pub centroid_time_ns: u64,
    pub dist_time_ns: u64,
    pub heap_time_ns: u64,
    pub decoded_cache_hits: u64,
    pub decoded_cache_misses: u64,
    pub decoded_cache_bytes: u64,
}

impl Default for KernelStats {
    fn default() -> (r: Self)
        ensures
            r == KernelStats::nothing(),
    {
        KernelStats {
            decode_time_ns: 0,
            compute_time_ns: 0,
            centroid_time_ns: 0,
            dist_time_ns: 0,
            heap_time_ns: 0,
            decoded_cache_hits: 0,
            decoded_cache_misses: 0,
            decoded_cache_bytes: 0,
        }
    }
}

/// What eight words tell.
pub open spec fn stats_v2(b: Seq<u8>) -> KernelStats {
    KernelStats {
        centroid_time_ns: ivf_file::u64_at(b, 0),
        decode_time_ns: ivf_file::u64_at(b, 8),
        dist_time_ns: ivf_file::u64_at(b, 16),
        heap_time_ns: ivf_file::u64_at(b, 24),
        compute_time_ns: ivf_file::u64_at(b, 32),
        decoded_cache_hits: ivf_file::u64_at(b, 40),
        decoded_cache_misses: ivf_file::u64_at(b, 48),
        decoded_cache_bytes: ivf_file::u64_at(b, 56),
    }
}

/// What five words of an older module tell.
pub open spec fn stats_v1(b: Seq<u8>) -> KernelStats {
    KernelStats {
        decode_time_ns: ivf_file::u64_at(b, 0),
        compute_time_ns: ivf_file::u64_at(b, 8),
        decoded_cache_hits: ivf_file::u64_at(b, 16),
        decoded_cache_misses: ivf_file::u64_at(b, 24),
        decoded_cache_bytes: ivf_file::u64_at(b, 32),
        ..KernelStats::nothing()
    }
}

impl KernelStats {
    /// Nothing was told.
    pub open spec fn nothing() -> KernelStats {
        KernelStats {
            decode_time_ns: 0,
            compute_time_ns: 0,
            centroid_time_ns: 0,
            dist_time_ns: 0,
            heap_time_ns: 0,
            decoded_cache_hits: 0,
            decoded_cache_misses: 0,
            decoded_cache_bytes: 0,
        }
    }

    /// What eight words tell.
    pub fn from_words_v2(b: &[u8]) -> (r: Self)
        requires
            b@.len() == 64,
        ensures
            r == stats_v2(b@),
    {
        KernelStats {
            centroid_time_ns: get_u64_at(b, 0),
            decode_time_ns: get_u64_at(b, 8),
            dist_time_ns: get_u64_at(b, 16),
            heap_time_ns: get_u64_at(b, 24),
            compute_time_ns: get_u64_at(b, 32),
            decoded_cache_hits: get_u64_at(b, 40),
            decoded_cache_misses: get_u64_at(b, 48),
            decoded_cache_bytes: get_u64_at(b, 56),
        }
    }

    /// What five words of an older module tell.
    pub fn from_words_v1(b: &[u8]) -> (r: Self)
        requires
            b@.len() == 40,
        ensures
            r == stats_v1(b@),
    {
        KernelStats {
            decode_time_ns: get_u64_at(b, 0),
            compute_time_ns: get_u64_at(b, 8),
            centroid_time_ns: 0,
            dist_time_ns: 0,
            heap_time_ns: 0,
            decoded_cache_hits: get_u64_at(b, 16),
            decoded_cache_misses: get_u64_at(b, 24),
            decoded_cache_bytes: get_u64_at(b, 32),
        }
    }
}

} // verus!
