//! The artifact of an inverted-file index with product-quantised vectors.
use crate::artifact::frame;
use crate::artifact::frame::start_artifact;
use crate::artifact::pq;
use crate::artifact::pq::{
    decode_pq_posting_list, encode_pq_posting_list, encode_vectors, PqPostingError,
};
use crate::floats;
use crate::ivf_flat::IvfFlatIndex;
use crate::le;
use crate::manifest::{BaseFileBinding, BaseMismatch, IndexKind};
use vstd::prelude::*;

verus! {

broadcast use crate::le::sizes;

/// The digit in the magic of these artifacts: `2`.
pub const IVF_PQ_GENERATION: u8 = 0x32;

#[derive(Clone, Copy, Debug, PartialEq, Eq, Structural)]
pub enum ChunkType {
    Codebooks,
    Centroids,
    ListOffsets,
    PostingList,
}

#[derive(Clone, Copy, Debug, PartialEq, Eq, Structural)]
pub enum PostingCodec {
    IvfPq,
}

/// Where a chunk is and what it holds.
#[derive(Clone, Copy, Debug, PartialEq, Eq, Structural)]
pub struct ChunkDesc {
    pub chunk_type: ChunkType,
    pub list_id: Option<u32>,
    pub offset: u64,
    pub len: u64,
    pub raw_len: u64,
    pub codec: PostingCodec,
}

/// What the footer says. `build_params` holds JSON text.
#[derive(Clone, Debug)]
pub struct IvfPqArtifactFooter {
    pub base: BaseFileBinding,
    pub index_name: String,
    pub kind: IndexKind,
    pub vector_leaf_index: u32,
    pub dim: u32,
    pub nlist: u32,
    pub num_subspaces: u32,
    pub subspace_dim: u32,
    pub metric: String,
    pub build_params: String,
    pub chunks: Vec<ChunkDesc>,
}

/// An opened artifact: where it is, and its footer.
#[derive(Clone, Debug)]
pub struct IvfPqArtifact {
    pub path: String,
    pub footer: IvfPqArtifactFooter,
}

/// How an artifact is built.
#[derive(Clone, Copy, Debug, PartialEq, Eq, Structural)]
pub struct IvfPqArtifactBuildOptions {
    pub seed: u64,
    pub train_sample: usize,
    pub max_kmeans_iters: usize,
    pub num_subspaces: u32,
    pub subspace_dim: u32,
}

impl Default for IvfPqArtifactBuildOptions {
    fn default() -> (r: Self)
        ensures
            r.seed == 42,
            r.train_sample == 1000,
            r.max_kmeans_iters == 10,
            r.num_subspaces == 16,
            r.subspace_dim == 8,
    {
        IvfPqArtifactBuildOptions {
            seed: 42,
            train_sample: 1000,
            max_kmeans_iters: 10,
            num_subspaces: 16,
            subspace_dim: 8,
        }
    }
}

/// Why a chunk cannot be read.
#[derive(Clone, Copy, Debug, PartialEq, Eq, Structural)]
pub enum ChunkError {
    NotFound { chunk_type: ChunkType, list_id: Option<u32> },
    IdOutOfRange(u32),
    /// The chunk does not hold whole numbers.
    NotAligned,
    Posting(PqPostingError),
}

/// Whether a chunk is the one asked for.
pub open spec fn is_chunk(c: ChunkDesc, chunk_type: ChunkType, list_id: Option<u32>) -> bool {
    c.chunk_type == chunk_type && c.list_id == list_id
}

/// The place of the first chunk asked for.
pub open spec fn chunk_place(
    chunks: Seq<ChunkDesc>,
    chunk_type: ChunkType,
    list_id: Option<u32>,
) -> Option<int>
    decreases chunks.len(),
{
    if chunks.len() == 0 {
        None
    } else {
        match chunk_place(chunks.drop_last(), chunk_type, list_id) {
            Some(i) => Some(i),
            None => if is_chunk(chunks.last(), chunk_type, list_id) {
                Some(chunks.len() - 1)
            } else {
                None
            },
        }
    }
}

/// The place found is that of the first chunk asked for; where none is found
/// there is none.
pub proof fn chunk_place_is_first(
    chunks: Seq<ChunkDesc>,
    chunk_type: ChunkType,
    list_id: Option<u32>,
)
    ensures
        match chunk_place(chunks, chunk_type, list_id) {
            Some(i) => 0 <= i < chunks.len() && is_chunk(chunks[i], chunk_type, list_id)
                && forall|j: int|
                0 <= j < i ==> !is_chunk(#[trigger] chunks[j], chunk_type, list_id),
            None => forall|j: int|
                0 <= j < chunks.len() ==> !is_chunk(#[trigger] chunks[j], chunk_type, list_id),
        },
    decreases chunks.len(),
{
    if chunks.len() > 0 {
        let front = chunks.drop_last();
        chunk_place_is_first(front, chunk_type, list_id);
        assert forall|j: int| 0 <= j < front.len() implies front[j] == #[trigger] chunks[j] by {}
    }
}

proof fn chunk_place_unique(
    chunks: Seq<ChunkDesc>,
    chunk_type: ChunkType,
    list_id: Option<u32>,
    i: int,
)
    requires
        0 <= i < chunks.len(),
        is_chunk(chunks[i], chunk_type, list_id),
        forall|j: int| 0 <= j < i ==> !is_chunk(#[trigger] chunks[j], chunk_type, list_id),
    ensures
        chunk_place(chunks, chunk_type, list_id) == Some(i),
{
    chunk_place_is_first(chunks, chunk_type, list_id);
}

/// Compares two list ids.
fn same_list(a: Option<u32>, b: Option<u32>) -> (r: bool)
    ensures
        r == (a == b),
{
    match (a, b) {
        (None, None) => true,
        (Some(x), Some(y)) => x == y,
        _ => false,
    }
}

impl IvfPqArtifact {
    pub fn path(&self) -> (r: &str)
        ensures
            r@ == self.path@,
    {
        self.path.as_str()
    }

    pub fn footer(&self) -> (r: &IvfPqArtifactFooter)
        ensures
            *r == self.footer,
    {
        &self.footer
    }

    /// Holds the size of the base file, as found now, against the one it had.
    pub fn validate_base(&self, actual_size: u64) -> (r: Result<(), BaseMismatch>)
        ensures
            r == self.footer.base.size_check(actual_size),
    {
        self.footer.base.validate_size(actual_size)
    }

    /// Holds the checksums of the base file, as found now, against those it had.
    pub fn validate_base_checksums(&self, schema_checksum: u64, data_checksum: u64) -> (r: Result<
        (),
        BaseMismatch,
    >)
        ensures
            r == self.footer.base.checksum_check(schema_checksum, data_checksum),
    {
        self.footer.base.validate_checksums(schema_checksum, data_checksum)
    }

    /// The number of the first chunk of this type and list.
    pub fn find_chunk_id(&self, chunk_type: ChunkType, list_id: Option<u32>) -> (r: Result<
        usize,
        ChunkError,
    >)
        ensures
            match r {
                Ok(i) => i < self.footer.chunks@.len() && chunk_place(
                    self.footer.chunks@,
                    chunk_type,
                    list_id,
                ) == Some(i as int),
                Err(e) => chunk_place(self.footer.chunks@, chunk_type, list_id) == None::<int> && e
                    == (ChunkError::NotFound { chunk_type, list_id }),
            },
    {
        let chunks = &self.footer.chunks;
        let mut i: usize = 0;
        while i < chunks.len()
            invariant
                i <= chunks@.len(),
                chunks@ == self.footer.chunks@,
                forall|j: int| 0 <= j < i ==> !is_chunk(#[trigger] chunks@[j], chunk_type, list_id),
            decreases chunks@.len() - i,
        {
            if chunks[i].chunk_type == chunk_type && same_list(chunks[i].list_id, list_id) {
                proof {
                    chunk_place_unique(chunks@, chunk_type, list_id, i as int);
                }
                return Ok(i);
            }
            i = i + 1;
        }
        proof {
            chunk_place_is_first(chunks@, chunk_type, list_id);
        }
        Err(ChunkError::NotFound { chunk_type, list_id })
    }

    /// The first chunk of this type and list.
    pub fn find_chunk(&self, chunk_type: ChunkType, list_id: Option<u32>) -> (r: Result<
        ChunkDesc,
        ChunkError,
    >)
        ensures
            match r {
                Ok(c) => chunk_place(self.footer.chunks@, chunk_type, list_id) matches Some(i) && c
                    == self.footer.chunks@[i],
                Err(e) => chunk_place(self.footer.chunks@, chunk_type, list_id) == None::<int> && e
                    == (ChunkError::NotFound { chunk_type, list_id }),
            },
    {
        match self.find_chunk_id(chunk_type, list_id) {
            Ok(i) => Ok(self.footer.chunks[i]),
            Err(e) => Err(e),
        }
    }

    /// The chunk with this number.
    pub fn chunk_by_index(&self, chunk_id: u32) -> (r: Result<ChunkDesc, ChunkError>)
        ensures
            r == (if chunk_id < self.footer.chunks@.len() {
                Ok::<ChunkDesc, ChunkError>(self.footer.chunks@[chunk_id as int])
            } else {
                Err::<ChunkDesc, ChunkError>(ChunkError::IdOutOfRange(chunk_id))
            }),
    {
        if (chunk_id as usize) < self.footer.chunks.len() {
            Ok(self.footer.chunks[chunk_id as usize])
        } else {
            Err(ChunkError::IdOutOfRange(chunk_id))
        }
    }

    /// The length of the chunk with this number, 0 if it does not fit in 32 bits.
    pub fn chunk_len_by_index(&self, chunk_id: u32) -> (r: Result<u32, ChunkError>)
        ensures
            r == (if chunk_id >= self.footer.chunks@.len() {
                Err::<u32, ChunkError>(ChunkError::IdOutOfRange(chunk_id))
            } else if self.footer.chunks@[chunk_id as int].len > u32::MAX {
                Ok::<u32, ChunkError>(0)
            } else {
                Ok::<u32, ChunkError>(self.footer.chunks@[chunk_id as int].len as u32)
            }),
    {
        match self.chunk_by_index(chunk_id) {
            Err(e) => Err(e),
            Ok(desc) => if desc.len > 0xffff_ffff {
                Ok(0)
            } else {
                Ok(desc.len as u32)
            },
        }
    }

    /// The posting list in `bytes`, the bytes of its chunk, which has to end with
    /// it.
    pub fn read_posting_list(&self, bytes: &[u8]) -> (r: Result<(Vec<u32>, Vec<u8>), ChunkError>)
        ensures
            match r {
                Ok((rows, codes)) => pq::pq_posting_of(
                    bytes@,
                    self.footer.num_subspaces as nat,
                    true,
                ) == Ok::<(Seq<u32>, Seq<u8>), PqPostingError>((rows@, codes@)),
                Err(e) => e matches ChunkError::Posting(p) && pq::pq_posting_of(
                    bytes@,
                    self.footer.num_subspaces as nat,
                    true,
                ) == Err::<(Seq<u32>, Seq<u8>), PqPostingError>(p),
            },
    {
        match decode_pq_posting_list(bytes, self.footer.num_subspaces, true) {
            Ok(list) => Ok(list),
            Err(e) => Err(ChunkError::Posting(e)),
        }
    }

    /// The posting list at the front of `bytes`, the bytes of its chunk.
    pub fn read_posting_list_from_file(&self, bytes: &[u8]) -> (r: Result<
        (Vec<u32>, Vec<u8>),
        ChunkError,
    >)
        ensures
            match r {
                Ok((rows, codes)) => pq::pq_posting_of(
                    bytes@,
                    self.footer.num_subspaces as nat,
                    false,
                ) == Ok::<(Seq<u32>, Seq<u8>), PqPostingError>((rows@, codes@)),
                Err(e) => e matches ChunkError::Posting(p) && pq::pq_posting_of(
                    bytes@,
                    self.footer.num_subspaces as nat,
                    false,
                ) == Err::<(Seq<u32>, Seq<u8>), PqPostingError>(p),
            },
    {
        match decode_pq_posting_list(bytes, self.footer.num_subspaces, false) {
            Ok(list) => Ok(list),
            Err(e) => Err(ChunkError::Posting(e)),
        }
    }
}

/// The components in the bytes of the codebook chunk.
pub fn read_codebooks_f32(bytes: &[u8]) -> (r: Result<Vec<u32>, ChunkError>)
    ensures
        match r {
            Ok(v) => bytes@.len() % 4 == 0 && v@ == le::u32s_of(bytes@),
            Err(e) => bytes@.len() % 4 != 0 && e == ChunkError::NotAligned,
        },
{
    if bytes.len() % 4 != 0 {
        return Err(ChunkError::NotAligned);
    }
    Ok(le::get_u32s(bytes))
}

/// The offsets in the bytes of the list offset chunk.
pub fn read_list_offsets_u64(bytes: &[u8]) -> (r: Result<Vec<u64>, ChunkError>)
    ensures
        match r {
            Ok(v) => bytes@.len() % 8 == 0 && v@ == le::u64s_of(bytes@),
            Err(e) => bytes@.len() % 8 != 0 && e == ChunkError::NotAligned,
        },
{
    if bytes.len() % 8 != 0 {
        return Err(ChunkError::NotAligned);
    }
    Ok(le::get_u64s(bytes))
}

/// Header and chunks of an artifact, and the descriptions of the chunks.
pub struct Layout {
    pub bytes: Seq<u8>,
    pub chunks: Seq<ChunkDesc>,
}

/// `layout` with one more chunk behind it.
pub open spec fn with_chunk(
    layout: Layout,
    chunk_type: ChunkType,
    list_id: Option<u32>,
    chunk: Seq<u8>,
    raw_len: nat,
) -> Layout {
    Layout {
        bytes: layout.bytes + chunk,
        chunks: layout.chunks.push(
            ChunkDesc {
                chunk_type,
                list_id,
                offset: layout.bytes.len() as u64,
                len: chunk.len() as u64,
                raw_len: raw_len as u64,
                codec: PostingCodec::IvfPq,
            },
        ),
    }
}

/// All codebooks, one behind the other.
pub open spec fn flattened(codebooks: Seq<Vec<u32>>) -> Seq<u32>
    decreases codebooks.len(),
{
    if codebooks.len() == 0 {
        Seq::empty()
    } else {
        flattened(codebooks.drop_last()) + codebooks.last()@
    }
}

/// The codes of list `c`.
pub open spec fn list_codes<F: Fn(&[u32], &[u32]) -> u32, S: Fn(u32, u32) -> u32>(
    f: F,
    minus: S,
    index: IvfFlatIndex,
    codebooks: Seq<Vec<u32>>,
    d: nat,
    c: int,
) -> Seq<u8> {
    pq::codes_upto(
        f,
        minus,
        index.list_vectors(c),
        floats::row_of(index.centroids@, index.dim as nat, c),
        codebooks,
        d,
        index.list_rows(c).len(),
    )
}

/// The header, the codebooks, the centroids and the first `n` posting lists.
pub open spec fn layout_upto<F: Fn(&[u32], &[u32]) -> u32, S: Fn(u32, u32) -> u32>(
    f: F,
    minus: S,
    index: IvfFlatIndex,
    codebooks: Seq<Vec<u32>>,
    d: nat,
    n: nat,
) -> Layout
    decreases n,
{
    if n == 0 {
        let start = Layout { bytes: frame::open_header(IVF_PQ_GENERATION), chunks: Seq::empty() };
        let books = le::bytes_of_u32s(flattened(codebooks));
        let centroids = le::bytes_of_u32s(index.centroids@);
        with_chunk(
            with_chunk(start, ChunkType::Codebooks, None, books, books.len()),
            ChunkType::Centroids,
            None,
            centroids,
            centroids.len(),
        )
    } else {
        let c = n - 1;
        with_chunk(
            layout_upto(f, minus, index, codebooks, d, c as nat),
            ChunkType::PostingList,
            Some(c as u32),
            pq::pq_posting_bytes(
                index.list_rows(c),
                list_codes(f, minus, index, codebooks, d, c),
            ),
            4 * index.list_vectors(c).len(),
        )
    }
}

/// Appends a chunk and its description.
fn put_chunk(
    out: &mut Vec<u8>,
    chunks: &mut Vec<ChunkDesc>,
    chunk_type: ChunkType,
    list_id: Option<u32>,
    chunk: &Vec<u8>,
    raw_len: u64,
)
    ensures
        (Layout { bytes: final(out)@, chunks: final(chunks)@ }) == with_chunk(
            Layout { bytes: old(out)@, chunks: old(chunks)@ },
            chunk_type,
            list_id,
            chunk@,
            raw_len as nat,
        ),
{
    let offset: u64 = out.len() as u64;
    le::put_bytes(out, chunk.as_slice());
    chunks.push(
        ChunkDesc {
            chunk_type,
            list_id,
            offset,
            len: chunk.len() as u64,
            raw_len,
            codec: PostingCodec::IvfPq,
        },
    );
}

/// Puts all codebooks one behind the other.
fn flatten(codebooks: &Vec<Vec<u32>>) -> (r: Vec<u32>)
    ensures
        r@ == flattened(codebooks@),
{
    let mut out: Vec<u32> = Vec::new();
    let mut i: usize = 0;
    assert(codebooks@.take(0) =~= Seq::<Vec<u32>>::empty());
    while i < codebooks.len()
        invariant
            i <= codebooks@.len(),
            out@ == flattened(codebooks@.take(i as int)),
        decreases codebooks@.len() - i,
    {
        out.extend_from_slice(codebooks[i].as_slice());
        proof {
            let next = codebooks@.take(i + 1);
            assert(next.drop_last() =~= codebooks@.take(i as int));
            assert(next.last() == codebooks@[i as int]);
            assert(out@ =~= flattened(next));
        }
        i = i + 1;
    }
    assert(codebooks@.take(i as int) =~= codebooks@);
    out
}

/// The header and all chunks of the artifact of an index, and the descriptions
/// of the chunks for its footer. Vectors are cut into as many parts as there are
/// codebooks, of `d` components each. `f` computes distances, `minus` differences.
pub fn write_ivf_pq_content<F: Fn(&[u32], &[u32]) -> u32, S: Fn(u32, u32) -> u32>(
    index: &IvfFlatIndex,
    codebooks: &Vec<Vec<u32>>,
    d: usize,
    f: &F,
    minus: &S,
) -> (r: (Vec<u8>, Vec<ChunkDesc>))
    requires
        floats::is_distance(*f),
        floats::is_operation(*minus),
        index.searchable(),
        d > 0,
        index.dim == codebooks@.len() * d,
        index.nlist <= u32::MAX,
        index.row_ids@.len() <= u32::MAX,
        4 * index.centroids@.len() <= usize::MAX,
        4 * index.vectors@.len() <= usize::MAX,
        4 * flattened(codebooks@).len() <= usize::MAX,
        forall|sub: int|
            0 <= sub < codebooks@.len() ==> (#[trigger] codebooks@[sub])@.len() / (d as nat) <= 256,
    ensures
        (Layout { bytes: r.0@, chunks: r.1@ }) == layout_upto(
            *f,
            *minus,
            *index,
            codebooks@,
            d as nat,
            index.nlist as nat,
        ),
{
    let mut out = start_artifact(IVF_PQ_GENERATION);
    let mut chunks: Vec<ChunkDesc> = Vec::new();
    let flat = flatten(codebooks);
    let mut buf: Vec<u8> = Vec::new();
    le::put_u32s(&mut buf, flat.as_slice());
    assert(buf@ =~= le::bytes_of_u32s(flattened(codebooks@)));
    let len: u64 = buf.len() as u64;
    put_chunk(&mut out, &mut chunks, ChunkType::Codebooks, None, &buf, len);
    let mut buf: Vec<u8> = Vec::new();
    le::put_u32s(&mut buf, index.centroids.as_slice());
    assert(buf@ =~= le::bytes_of_u32s(index.centroids@));
    let len: u64 = buf.len() as u64;
    put_chunk(&mut out, &mut chunks, ChunkType::Centroids, None, &buf, len);
    let mut c: usize = 0;
    while c < index.nlist
        invariant
            floats::is_distance(*f),
            floats::is_operation(*minus),
            index.searchable(),
            d > 0,
            index.dim == codebooks@.len() * d,
            index.nlist <= u32::MAX,
            index.row_ids@.len() <= u32::MAX,
            4 * index.vectors@.len() <= usize::MAX,
            forall|sub: int|
                0 <= sub < codebooks@.len() ==> (#[trigger] codebooks@[sub])@.len() / (d as nat)
                    <= 256,
            c <= index.nlist,
            (Layout { bytes: out@, chunks: chunks@ }) == layout_upto(
                *f,
                *minus,
                *index,
                codebooks@,
                d as nat,
                c as nat,
            ),
        decreases index.nlist - c,
    {
        let (rows, vectors) = index.list(c);
        proof {
            index.list_bounds(c as int);
            floats::row_fits(index.dim as nat, c as int, index.nlist as int);
        }
        let centroid = floats::row(index.centroids.as_slice(), index.dim, c, index.nlist);
        let codes = encode_vectors(vectors, rows.len(), centroid, codebooks, d, f, minus);
        let encoded = encode_pq_posting_list(rows, codes.as_slice());
        let raw_len: u64 = 4 * (vectors.len() as u64);
        put_chunk(
            &mut out,
            &mut chunks,
            ChunkType::PostingList,
            Some(c as u32),
            &encoded,
            raw_len,
        );
        c = c + 1;
    }
    (out, chunks)
}

/// Whether list `c` is stored behind the two chunks in front, in a chunk that
/// lies where its description says.
pub open spec fn list_stored<F: Fn(&[u32], &[u32]) -> u32, S: Fn(u32, u32) -> u32>(
    f: F,
    minus: S,
    index: IvfFlatIndex,
    codebooks: Seq<Vec<u32>>,
    d: nat,
    l: Layout,
    c: int,
) -> bool {
    let desc = l.chunks[c + 2];
    &&& is_chunk(desc, ChunkType::PostingList, Some(c as u32))
    &&& 20 <= desc.offset
    &&& desc.offset + desc.len <= l.bytes.len()
    &&& l.bytes.subrange(desc.offset as int, desc.offset + desc.len) == pq::pq_posting_bytes(
        index.list_rows(c),
        list_codes(f, minus, index, codebooks, d, c),
    )
}

/// Every list is stored where the description of its chunk says.
proof fn lists_are_stored<F: Fn(&[u32], &[u32]) -> u32, S: Fn(u32, u32) -> u32>(
    f: F,
    minus: S,
    index: IvfFlatIndex,
    codebooks: Seq<Vec<u32>>,
    d: nat,
    n: nat,
)
    requires
        layout_upto(f, minus, index, codebooks, d, n).bytes.len() <= u64::MAX,
    ensures
        ({
            let l = layout_upto(f, minus, index, codebooks, d, n);
            &&& l.bytes.len() >= 20
            &&& l.chunks.len() == n + 2
            &&& l.chunks[0].chunk_type == ChunkType::Codebooks
            &&& l.chunks[1].chunk_type == ChunkType::Centroids
            &&& forall|c: int|
                0 <= c < n ==> #[trigger] list_stored(f, minus, index, codebooks, d, l, c)
        }),
    decreases n,
{
    let m = layout_upto(f, minus, index, codebooks, d, n);
    if n > 0 {
        let l = layout_upto(f, minus, index, codebooks, d, (n - 1) as nat);
        let b = pq::pq_posting_bytes(
            index.list_rows(n - 1),
            list_codes(f, minus, index, codebooks, d, n - 1),
        );
        assert(m.bytes =~= l.bytes + b);
        lists_are_stored(f, minus, index, codebooks, d, (n - 1) as nat);
        assert forall|c: int| 0 <= c < n implies #[trigger] list_stored(
            f,
            minus,
            index,
            codebooks,
            d,
            m,
            c,
        ) by {
            if c < n - 1 {
                assert(list_stored(f, minus, index, codebooks, d, l, c));
                assert(m.chunks[c + 2] == l.chunks[c + 2]);
                let at = l.chunks[c + 2].offset as int;
                let to = at + l.chunks[c + 2].len;
                assert(m.bytes.subrange(at, to) =~= l.bytes.subrange(at, to));
            } else {
                let at = l.bytes.len() as int;
                assert(m.chunks[c + 2].offset == at && m.chunks[c + 2].len == b.len());
                assert(m.bytes.subrange(at, at + b.len()) =~= b);
            }
        }
    }
}

/// An artifact gives back every list that was stored in it: the chunk found for
/// the list holds its row ids and the codes of its vectors.
pub proof fn artifact_round_trip<F: Fn(&[u32], &[u32]) -> u32, S: Fn(u32, u32) -> u32>(
    f: F,
    minus: S,
    index: IvfFlatIndex,
    codebooks: Seq<Vec<u32>>,
    d: nat,
    text: Seq<u8>,
    c: u32,
    exact: bool,
)
    requires
        index.searchable(),
        index.row_ids@.len() <= u32::MAX,
        index.nlist <= u32::MAX,
        layout_upto(f, minus, index, codebooks, d, index.nlist as nat).bytes.len() <= u64::MAX,
        c < index.nlist,
    ensures
        ({
            let l = layout_upto(f, minus, index, codebooks, d, index.nlist as nat);
            let file = frame::sealed(l.bytes, text);
            let place = chunk_place(l.chunks, ChunkType::PostingList, Some(c));
            let desc = l.chunks[place->0];
            &&& place is Some
            &&& desc.offset + desc.len <= file.len()
            &&& pq::pq_posting_of(
                file.subrange(desc.offset as int, desc.offset + desc.len),
                codebooks.len(),
                exact,
            ) == Ok::<(Seq<u32>, Seq<u8>), PqPostingError>(
                (
                    index.list_rows(c as int),
                    list_codes(f, minus, index, codebooks, d, c as int),
                ),
            )
        }),
{
    let l = layout_upto(f, minus, index, codebooks, d, index.nlist as nat);
    lists_are_stored(f, minus, index, codebooks, d, index.nlist as nat);
    index.list_bounds(c as int);
    let place = chunk_place(l.chunks, ChunkType::PostingList, Some(c));
    chunk_place_is_first(l.chunks, ChunkType::PostingList, Some(c));
    assert(list_stored(f, minus, index, codebooks, d, l, c as int));
    assert(place == Some(c as int + 2)) by {
        let i = place->0;
        if i >= 2 && i != c as int + 2 {
            assert(list_stored(f, minus, index, codebooks, d, l, i - 2));
        }
    }
    let e = l.chunks[c as int + 2];
    frame::sealed_keeps_chunks(l.bytes, text, e.offset as int, e.offset + e.len);
    pq::codes_len(
        f,
        minus,
        index.list_vectors(c as int),
        floats::row_of(index.centroids@, index.dim as nat, c as int),
        codebooks,
        d,
        index.list_rows(c as int).len(),
    );
    pq::pq_posting_round_trip(
        index.list_rows(c as int),
        list_codes(f, minus, index, codebooks, d, c as int),
        codebooks.len(),
        exact,
    );
}

} // verus!
