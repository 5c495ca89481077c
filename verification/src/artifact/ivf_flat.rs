//! The artifact of an inverted-file index with whole vectors in its lists.
use crate::artifact::frame;
use crate::artifact::frame::start_artifact;
use crate::artifact::posting;
use crate::artifact::posting::{
    decode_posting_list, encode_posting_list, PostingCodec, PostingError,
};
use crate::floats;
use crate::ivf_flat::IvfFlatIndex;
use crate::le;
use crate::manifest::{BaseFileBinding, BaseMismatch, IndexKind};
use vstd::prelude::*;

verus! {

broadcast use crate::le::sizes;

/// The digit in the magic of these artifacts: `1`.
pub const IVF_FLAT_GENERATION: u8 = 0x31;

#[derive(Clone, Copy, Debug, PartialEq, Eq, Structural)]
pub enum ChunkType {
    Centroids,
    ListOffsets,
    PostingList,
}

/// Where a chunk is and what it holds.
#[derive(Clone, Copy, Debug, PartialEq, Eq, Structural)]
pub struct ChunkDesc {
    pub chunk_type: ChunkType,
    pub list_id: Option<u32>,
    pub offset: u64,
    pub len: u64,
    pub raw_len: u64,
    pub codec: PostingCodec,
}

/// What the footer says. `build_params` holds JSON text.
#[derive(Clone, Debug)]
pub struct IvfFlatArtifactFooter {
    pub base: BaseFileBinding,
    pub index_name: String,
    pub kind: IndexKind,
    pub vector_leaf_index: u32,
    pub dim: u32,
    pub nlist: u32,
    pub metric: String,
    pub build_params: String,
    pub chunks: Vec<ChunkDesc>,
}

/// An opened artifact: where it is, and its footer.
#[derive(Clone, Debug)]
pub struct IvfFlatArtifact {
    pub path: String,
    pub footer: IvfFlatArtifactFooter,
}

/// How an artifact is built.
#[derive(Clone, Copy, Debug, PartialEq, Eq, Structural)]
pub struct IvfFlatArtifactBuildOptions {
    pub posting_codec: PostingCodec,
}

impl Default for IvfFlatArtifactBuildOptions {
    fn default() -> (r: Self)
        ensures
            r.posting_codec == PostingCodec::Raw,
    {
        IvfFlatArtifactBuildOptions { posting_codec: PostingCodec::Raw }
    }
}

/// Why a chunk cannot be read.
#[derive(Clone, Copy, Debug, PartialEq, Eq, Structural)]
pub enum ChunkError {
    NotFound { chunk_type: ChunkType, list_id: Option<u32> },
    IdOutOfRange(u32),
    /// The chunk does not hold whole numbers.
    NotAligned,
    Posting(PostingError),
}

/// Whether a chunk is the one asked for.
pub open spec fn is_chunk(c: ChunkDesc, chunk_type: ChunkType, list_id: Option<u32>) -> bool {
    c.chunk_type == chunk_type && c.list_id == list_id
}

/// The place of the first chunk asked for.
pub open spec fn chunk_place(
    chunks: Seq<ChunkDesc>,
    chunk_type: ChunkType,
    list_id: Option<u32>,
) -> Option<int>
    decreases chunks.len(),
{
    if chunks.len() == 0 {
        None
    } else {
        match chunk_place(chunks.drop_last(), chunk_type, list_id) {
            Some(i) => Some(i),
            None => if is_chunk(chunks.last(), chunk_type, list_id) {
                Some(chunks.len() - 1)
            } else {
                None
            },
        }
    }
}

/// The place found is that of the first chunk asked for; where none is found
/// there is none.
pub proof fn chunk_place_is_first(
    chunks: Seq<ChunkDesc>,
    chunk_type: ChunkType,
    list_id: Option<u32>,
)
    ensures
        match chunk_place(chunks, chunk_type, list_id) {
            Some(i) => 0 <= i < chunks.len() && is_chunk(chunks[i], chunk_type, list_id)
                && forall|j: int|
                0 <= j < i ==> !is_chunk(#[trigger] chunks[j], chunk_type, list_id),
            None => forall|j: int|
                0 <= j < chunks.len() ==> !is_chunk(#[trigger] chunks[j], chunk_type, list_id),
        },
    decreases chunks.len(),
{
    if chunks.len() > 0 {
        let front = chunks.drop_last();
        chunk_place_is_first(front, chunk_type, list_id);
        assert forall|j: int| 0 <= j < front.len() implies front[j] == #[trigger] chunks[j] by {}
    }
}

proof fn chunk_place_unique(
    chunks: Seq<ChunkDesc>,
    chunk_type: ChunkType,
    list_id: Option<u32>,
    i: int,
)
    requires
        0 <= i < chunks.len(),
        is_chunk(chunks[i], chunk_type, list_id),
        forall|j: int| 0 <= j < i ==> !is_chunk(#[trigger] chunks[j], chunk_type, list_id),
    ensures
        chunk_place(chunks, chunk_type, list_id) == Some(i),
{
    chunk_place_is_first(chunks, chunk_type, list_id);
}

/// Compares two list ids.
fn same_list(a: Option<u32>, b: Option<u32>) -> (r: bool)
    ensures
        r == (a == b),
{
    match (a, b) {
        (None, None) => true,
        (Some(x), Some(y)) => x == y,
        _ => false,
    }
}

impl IvfFlatArtifact {
    pub fn path(&self) -> (r: &str)
        ensures
            r@ == self.path@,
    {
        self.path.as_str()
    }

    pub fn footer(&self) -> (r: &IvfFlatArtifactFooter)
        ensures
            *r == self.footer,
    {
        &self.footer
    }

    /// Holds the size of the base file, as found now, against the one it had.
    pub fn validate_base(&self, actual_size: u64) -> (r: Result<(), BaseMismatch>)
        ensures
            r == self.footer.base.size_check(actual_size),
    {
        self.footer.base.validate_size(actual_size)
    }

    /// Holds the checksums of the base file, as found now, against those it had.
    pub fn validate_base_checksums(&self, schema_checksum: u64, data_checksum: u64) -> (r: Result<
        (),
        BaseMismatch,
    >)
        ensures
            r == self.footer.base.checksum_check(schema_checksum, data_checksum),
    {
        self.footer.base.validate_checksums(schema_checksum, data_checksum)
    }

    /// The number of the first chunk of this type and list.
    pub fn find_chunk_id(&self, chunk_type: ChunkType, list_id: Option<u32>) -> (r: Result<
        usize,
        ChunkError,
    >)
        ensures
            match r {
                Ok(i) => i < self.footer.chunks@.len() && chunk_place(
                    self.footer.chunks@,
                    chunk_type,
                    list_id,
                ) == Some(i as int),
                Err(e) => chunk_place(self.footer.chunks@, chunk_type, list_id) == None::<int> && e
                    == (ChunkError::NotFound { chunk_type, list_id }),
            },
    {
        let chunks = &self.footer.chunks;
        let mut i: usize = 0;
        while i < chunks.len()
            invariant
                i <= chunks@.len(),
                chunks@ == self.footer.chunks@,
                forall|j: int| 0 <= j < i ==> !is_chunk(#[trigger] chunks@[j], chunk_type, list_id),
            decreases chunks@.len() - i,
        {
            if chunks[i].chunk_type == chunk_type && same_list(chunks[i].list_id, list_id) {
                proof {
                    chunk_place_unique(chunks@, chunk_type, list_id, i as int);
                }
                return Ok(i);
            }
            i = i + 1;
        }
        proof {
            chunk_place_is_first(chunks@, chunk_type, list_id);
        }
        Err(ChunkError::NotFound { chunk_type, list_id })
    }

    /// The first chunk of this type and list.
    pub fn find_chunk(&self, chunk_type: ChunkType, list_id: Option<u32>) -> (r: Result<
        ChunkDesc,
        ChunkError,
    >)
        ensures
            match r {
                Ok(c) => chunk_place(self.footer.chunks@, chunk_type, list_id) matches Some(i) && c
                    == self.footer.chunks@[i],
                Err(e) => chunk_place(self.footer.chunks@, chunk_type, list_id) == None::<int> && e
                    == (ChunkError::NotFound { chunk_type, list_id }),
            },
    {
        match self.find_chunk_id(chunk_type, list_id) {
            Ok(i) => Ok(self.footer.chunks[i]),
            Err(e) => Err(e),
        }
    }

    /// The chunk with this number.
    pub fn chunk_by_index(&self, chunk_id: u32) -> (r: Result<ChunkDesc, ChunkError>)
        ensures
            r == (if chunk_id < self.footer.chunks@.len() {
                Ok::<ChunkDesc, ChunkError>(self.footer.chunks@[chunk_id as int])
            } else {
                Err::<ChunkDesc, ChunkError>(ChunkError::IdOutOfRange(chunk_id))
            }),
    {
        if (chunk_id as usize) < self.footer.chunks.len() {
            Ok(self.footer.chunks[chunk_id as usize])
        } else {
            Err(ChunkError::IdOutOfRange(chunk_id))
        }
    }

    /// The length of the chunk with this number, 0 if it does not fit in 32 bits.
    pub fn chunk_len_by_index(&self, chunk_id: u32) -> (r: Result<u32, ChunkError>)
        ensures
            r == (if chunk_id >= self.footer.chunks@.len() {
                Err::<u32, ChunkError>(ChunkError::IdOutOfRange(chunk_id))
            } else if self.footer.chunks@[chunk_id as int].len > u32::MAX {
                Ok::<u32, ChunkError>(0)
            } else {
                Ok::<u32, ChunkError>(self.footer.chunks@[chunk_id as int].len as u32)
            }),
    {
        match self.chunk_by_index(chunk_id) {
            Err(e) => Err(e),
            Ok(desc) => if desc.len > 0xffff_ffff {
                Ok(0)
            } else {
                Ok(desc.len as u32)
            },
        }
    }

    /// The posting list in `bytes`, the bytes of the chunk `desc`. `wide` has the
    /// 32-bit pattern of each 16-bit one.
    pub fn read_posting_list(&self, desc: &ChunkDesc, bytes: &[u8], wide: &[u32]) -> (r: Result<
        (Vec<u32>, Vec<u32>),
        ChunkError,
    >)
        requires
            wide@.len() == 0x1_0000,
        ensures
            match r {
                Ok((rows, vectors)) => posting::posting_of(
                    desc.codec,
                    bytes@,
                    self.footer.dim as nat,
                    wide@,
                ) == Ok::<(Seq<u32>, Seq<u32>), PostingError>((rows@, vectors@)),
                Err(e) => e matches ChunkError::Posting(p) && posting::posting_of(
                    desc.codec,
                    bytes@,
                    self.footer.dim as nat,
                    wide@,
                ) == Err::<(Seq<u32>, Seq<u32>), PostingError>(p),
            },
    {
        match decode_posting_list(desc.codec, bytes, self.footer.dim, wide) {
            Ok(list) => Ok(list),
            Err(e) => Err(ChunkError::Posting(e)),
        }
    }
}

/// The components in the bytes of the centroid chunk.
pub fn read_centroids_f32(bytes: &[u8]) -> (r: Result<Vec<u32>, ChunkError>)
    ensures
        match r {
            Ok(v) => bytes@.len() % 4 == 0 && v@ == le::u32s_of(bytes@),
            Err(e) => bytes@.len() % 4 != 0 && e == ChunkError::NotAligned,
        },
{
    if bytes.len() % 4 != 0 {
        return Err(ChunkError::NotAligned);
    }
    Ok(le::get_u32s(bytes))
}

/// The offsets in the bytes of the list offset chunk.
pub fn read_list_offsets_u64(bytes: &[u8]) -> (r: Result<Vec<u64>, ChunkError>)
    ensures
        match r {
            Ok(v) => bytes@.len() % 8 == 0 && v@ == le::u64s_of(bytes@),
            Err(e) => bytes@.len() % 8 != 0 && e == ChunkError::NotAligned,
        },
{
    if bytes.len() % 8 != 0 {
        return Err(ChunkError::NotAligned);
    }
    Ok(le::get_u64s(bytes))
}

/// Header and chunks of an artifact, and the descriptions of the chunks.
pub struct Layout {
    pub bytes: Seq<u8>,
    pub chunks: Seq<ChunkDesc>,
}

/// `layout` with one more chunk behind it.
pub open spec fn with_chunk(
    layout: Layout,
    chunk_type: ChunkType,
    list_id: Option<u32>,
    chunk: Seq<u8>,
    raw_len: nat,
    codec: PostingCodec,
) -> Layout {
    Layout {
        bytes: layout.bytes + chunk,
        chunks: layout.chunks.push(
            ChunkDesc {
                chunk_type,
                list_id,
                offset: layout.bytes.len() as u64,
                len: chunk.len() as u64,
                raw_len: raw_len as u64,
                codec,
            },
        ),
    }
}

/// The bytes of list `c`.
pub open spec fn list_chunk(
    index: IvfFlatIndex,
    codec: PostingCodec,
    narrowed: spec_fn(u32) -> u16,
    c: int,
) -> Seq<u8> {
    posting::posting_bytes(codec, index.list_rows(c), index.list_vectors(c), narrowed)
}

/// The header, the centroids, the list offsets and the first `n` posting lists.
pub open spec fn layout_upto(
    index: IvfFlatIndex,
    codec: PostingCodec,
    narrowed: spec_fn(u32) -> u16,
    n: nat,
) -> Layout
    decreases n,
{
    if n == 0 {
        let start = Layout {
            bytes: frame::open_header(IVF_FLAT_GENERATION),
            chunks: Seq::empty(),
        };
        let centroids = le::bytes_of_u32s(index.centroids@);
        let offsets = le::bytes_of_u64s(index.list_offsets@);
        with_chunk(
            with_chunk(
                start,
                ChunkType::Centroids,
                None,
                centroids,
                centroids.len(),
                PostingCodec::Raw,
            ),
            ChunkType::ListOffsets,
            None,
            offsets,
            offsets.len(),
            PostingCodec::Raw,
        )
    } else {
        let c = n - 1;
        with_chunk(
            layout_upto(index, codec, narrowed, c as nat),
            ChunkType::PostingList,
            Some(c as u32),
            list_chunk(index, codec, narrowed, c),
            4 + 4 * index.list_rows(c).len() + 4 * index.list_vectors(c).len(),
            codec,
        )
    }
}

/// The header and all chunks of the artifact of an index.
pub open spec fn layout_of(
    index: IvfFlatIndex,
    codec: PostingCodec,
    narrowed: spec_fn(u32) -> u16,
) -> Layout {
    layout_upto(index, codec, narrowed, index.nlist as nat)
}

/// Appends a chunk and its description.
fn put_chunk(
    out: &mut Vec<u8>,
    chunks: &mut Vec<ChunkDesc>,
    chunk_type: ChunkType,
    list_id: Option<u32>,
    chunk: &Vec<u8>,
    raw_len: u64,
    codec: PostingCodec,
)
    ensures
        (Layout { bytes: final(out)@, chunks: final(chunks)@ }) == with_chunk(
            Layout { bytes: old(out)@, chunks: old(chunks)@ },
            chunk_type,
            list_id,
            chunk@,
            raw_len as nat,
            codec,
        ),
{
    let offset: u64 = out.len() as u64;
    le::put_bytes(out, chunk.as_slice());
    chunks.push(ChunkDesc { chunk_type, list_id, offset, len: chunk.len() as u64, raw_len, codec });
}

/// The header and all chunks of the artifact of an index, and the descriptions
/// of the chunks for its footer. `narrow` gives the 16-bit pattern of a 32-bit one.
pub fn write_ivf_flat_artifact<N: Fn(u32) -> u16>(
    index: &IvfFlatIndex,
    options: &IvfFlatArtifactBuildOptions,
    narrow: &N,
) -> (r: (Vec<u8>, Vec<ChunkDesc>))
    requires
        floats::is_narrowing(*narrow),
        index.searchable(),
        index.nlist <= u32::MAX,
        index.row_ids@.len() <= u32::MAX,
        4 * index.centroids@.len() <= usize::MAX,
        8 * index.list_offsets@.len() <= usize::MAX,
        4 + 4 * index.row_ids@.len() + 4 * index.vectors@.len() <= usize::MAX,
    ensures
        (Layout { bytes: r.0@, chunks: r.1@ }) == layout_of(
            *index,
            options.posting_codec,
            |x: u32| floats::narrowed(*narrow, x),
        ),
{
    let ghost nf = |x: u32| floats::narrowed(*narrow, x);
    let codec = options.posting_codec;
    let mut out = start_artifact(IVF_FLAT_GENERATION);
    let mut chunks: Vec<ChunkDesc> = Vec::new();
    let mut buf: Vec<u8> = Vec::new();
    le::put_u32s(&mut buf, index.centroids.as_slice());
    assert(buf@ =~= le::bytes_of_u32s(index.centroids@));
    let len: u64 = buf.len() as u64;
    put_chunk(
        &mut out,
        &mut chunks,
        ChunkType::Centroids,
        None,
        &buf,
        len,
        PostingCodec::Raw,
    );
    let mut buf: Vec<u8> = Vec::new();
    le::put_u64s(&mut buf, index.list_offsets.as_slice());
    assert(buf@ =~= le::bytes_of_u64s(index.list_offsets@));
    let len: u64 = buf.len() as u64;
    put_chunk(
        &mut out,
        &mut chunks,
        ChunkType::ListOffsets,
        None,
        &buf,
        len,
        PostingCodec::Raw,
    );
    let mut c: usize = 0;
    while c < index.nlist
        invariant
            floats::is_narrowing(*narrow),
            nf == |x: u32| floats::narrowed(*narrow, x),
            index.searchable(),
            index.nlist <= u32::MAX,
            index.row_ids@.len() <= u32::MAX,
            4 + 4 * index.row_ids@.len() + 4 * index.vectors@.len() <= usize::MAX,
            c <= index.nlist,
            (Layout { bytes: out@, chunks: chunks@ }) == layout_upto(*index, codec, nf, c as nat),
        decreases index.nlist - c,
    {
        let (rows, vectors) = index.list(c);
        proof {
            index.list_bounds(c as int);
        }
        let encoded = encode_posting_list(codec, rows, vectors, narrow);
        let raw_len: u64 = 4 + 4 * (rows.len() as u64) + 4 * (vectors.len() as u64);
        put_chunk(
            &mut out,
            &mut chunks,
            ChunkType::PostingList,
            Some(c as u32),
            &encoded,
            raw_len,
            codec,
        );
        c = c + 1;
    }
    (out, chunks)
}

} // verus!
