//! The file that holds an inverted-file index.
use crate::ivf_flat::IvfFlatIndex;
use crate::le;
use crate::manifest::BaseFileBinding;
use crate::num::{product, product_u64};
use vstd::prelude::*;

verus! {

broadcast use crate::le::sizes;

/// The version of the file layout.
pub const IVF_FLAT_VERSION: u32 = 1;

/// The bytes in front of the centroids.
pub const IVF_FLAT_HEADER_SIZE: usize = 72;

/// The first eight bytes of the file: `F3IVFF1` and a zero.
pub open spec fn ivf_flat_magic() -> Seq<u8> {
    seq![0x46, 0x33, 0x49, 0x56, 0x46, 0x46, 0x31, 0x00]
}

/// Why bytes are no index file.
#[derive(Clone, Copy, Debug, PartialEq, Eq, Structural)]
pub enum IvfFlatFileError {
    /// The file ends too early.
    Truncated,
    MagicMismatch,
    UnsupportedVersion(u32),
    DimZero,
    NlistZero,
    CentroidsLen { expected: u128, got: u64 },
    ListOffsetsLen { expected: u128, got: u64 },
    VectorsLen { expected: u128, got: u64 },
}

/// Why an index cannot be stored.
#[derive(Clone, Copy, Debug, PartialEq, Eq, Structural)]
pub enum IvfFlatWriteError {
    ListOffsetsLen { expected: u128, got: usize },
    CentroidsLen { expected: u128, got: usize },
    VectorsNotAligned { dim: usize, got: usize },
    VectorsLen { rows: usize, row_ids: usize },
    DimTooLarge(usize),
    NlistTooLarge(usize),
    VectorLeafIndexTooLarge(usize),
}

/// How an index file is stored.
#[derive(Clone, Copy, Debug, PartialEq, Eq, Structural)]
pub enum IndexFileFormat {
    /// The layout of this module.
    Binary,
    /// A table in an F3 file.
    Table,
    /// There are less than eight bytes.
    TooSmall,
}

/// The contents of an index file.
pub struct IvfFlatFile {
    pub dim: nat,
    pub nlist: nat,
    pub centroids: Seq<u32>,
    pub list_offsets: Seq<u64>,
    pub row_ids: Seq<u32>,
    pub vectors: Seq<u32>,
}

impl IvfFlatIndex {
    pub open spec fn contents(self) -> IvfFlatFile {
        IvfFlatFile {
            dim: self.dim as nat,
            nlist: self.nlist as nat,
            centroids: self.centroids@,
            list_offsets: self.list_offsets@,
            row_ids: self.row_ids@,
            vectors: self.vectors@,
        }
    }
}

/// The number of four bytes at `at`.
pub open spec fn u32_at(b: Seq<u8>, at: int) -> u32 {
    le::u32_of(b.subrange(at, at + 4))
}

/// The number of eight bytes at `at`.
pub open spec fn u64_at(b: Seq<u8>, at: int) -> u64 {
    le::u64_of(b.subrange(at, at + 8))
}

/// Where the four parts of the file end, from the lengths in the header.
pub open spec fn part_ends(b: Seq<u8>) -> (int, int, int, int) {
    let centroids = 72 + 4 * u64_at(b, 40);
    let offsets = centroids + 8 * u64_at(b, 48);
    let rows = offsets + 4 * u64_at(b, 56);
    let vectors = rows + 4 * u64_at(b, 64);
    (centroids, offsets, rows, vectors)
}

/// The index that the bytes of a file hold. Bytes behind it do not matter.
pub open spec fn ivf_flat_file_of(b: Seq<u8>) -> Result<IvfFlatFile, IvfFlatFileError> {
    if b.len() < 8 {
        Err(IvfFlatFileError::Truncated)
    } else if b.subrange(0, 8) != ivf_flat_magic() {
        Err(IvfFlatFileError::MagicMismatch)
    } else if b.len() < 12 {
        Err(IvfFlatFileError::Truncated)
    } else if u32_at(b, 8) != IVF_FLAT_VERSION {
        Err(IvfFlatFileError::UnsupportedVersion(u32_at(b, 8)))
    } else if b.len() < 72 {
        Err(IvfFlatFileError::Truncated)
    } else {
        let dim = u32_at(b, 12) as nat;
        let nlist = u32_at(b, 16) as nat;
        let centroids_len = u64_at(b, 40);
        let list_offsets_len = u64_at(b, 48);
        let row_ids_len = u64_at(b, 56);
        let vectors_len = u64_at(b, 64);
        let (e1, e2, e3, e4) = part_ends(b);
        if dim == 0 {
            Err(IvfFlatFileError::DimZero)
        } else if nlist == 0 {
            Err(IvfFlatFileError::NlistZero)
        } else if centroids_len != nlist * dim {
            Err(
                IvfFlatFileError::CentroidsLen {
                    expected: (nlist * dim) as u128,
                    got: centroids_len,
                },
            )
        } else if list_offsets_len != nlist + 1 {
            Err(
                IvfFlatFileError::ListOffsetsLen {
                    expected: (nlist + 1) as u128,
                    got: list_offsets_len,
                },
            )
        } else if vectors_len != row_ids_len * dim {
            Err(
                IvfFlatFileError::VectorsLen {
                    expected: (row_ids_len * dim) as u128,
                    got: vectors_len,
                },
            )
        } else if b.len() < e4 {
            Err(IvfFlatFileError::Truncated)
        } else {
            Ok(
                IvfFlatFile {
                    dim,
                    nlist,
                    centroids: le::u32s_of(b.subrange(72, e1)),
                    list_offsets: le::u64s_of(b.subrange(e1, e2)),
                    row_ids: le::u32s_of(b.subrange(e2, e3)),
                    vectors: le::u32s_of(b.subrange(e3, e4)),
                },
            )
        }
    }
}

/// The header of the file.
pub open spec fn ivf_flat_header(
    index: IvfFlatFile,
    schema_checksum: u64,
    data_checksum: u64,
    vector_leaf_index: nat,
) -> Seq<u8> {
    ivf_flat_magic() + le::bytes_of_u32(IVF_FLAT_VERSION) + le::bytes_of_u32(index.dim as u32)
        + le::bytes_of_u32(index.nlist as u32) + le::bytes_of_u32(vector_leaf_index as u32)
        + le::bytes_of_u64(schema_checksum) + le::bytes_of_u64(data_checksum) + le::bytes_of_u64(
        index.centroids.len() as u64,
    ) + le::bytes_of_u64(index.list_offsets.len() as u64) + le::bytes_of_u64(
        index.row_ids.len() as u64,
    ) + le::bytes_of_u64(index.vectors.len() as u64)
}

/// The bytes of the file.
pub open spec fn ivf_flat_file_bytes(
    index: IvfFlatFile,
    schema_checksum: u64,
    data_checksum: u64,
    vector_leaf_index: nat,
) -> Seq<u8> {
    ivf_flat_header(index, schema_checksum, data_checksum, vector_leaf_index) + le::bytes_of_u32s(
        index.centroids,
    ) + le::bytes_of_u64s(index.list_offsets) + le::bytes_of_u32s(index.row_ids)
        + le::bytes_of_u32s(index.vectors)
}

/// Whether an index can be stored, else why not. An index of no dimension cannot
/// be checked.
pub open spec fn write_check(index: IvfFlatIndex, vector_leaf_index: usize) -> Result<
    (),
    IvfFlatWriteError,
> {
    if index.list_offsets@.len() != index.nlist + 1 {
        Err(
            IvfFlatWriteError::ListOffsetsLen {
                expected: (index.nlist + 1) as u128,
                got: index.list_offsets@.len() as usize,
            },
        )
    } else if index.centroids@.len() != index.nlist * index.dim {
        Err(
            IvfFlatWriteError::CentroidsLen {
                expected: (index.nlist * index.dim) as u128,
                got: index.centroids@.len() as usize,
            },
        )
    } else if index.vectors@.len() % (index.dim as nat) != 0 {
        Err(
            IvfFlatWriteError::VectorsNotAligned {
                dim: index.dim,
                got: index.vectors@.len() as usize,
            },
        )
    } else if index.vectors@.len() / (index.dim as nat) != index.row_ids@.len() {
        Err(
            IvfFlatWriteError::VectorsLen {
                rows: (index.vectors@.len() / (index.dim as nat)) as usize,
                row_ids: index.row_ids@.len() as usize,
            },
        )
    } else if index.dim > u32::MAX {
        Err(IvfFlatWriteError::DimTooLarge(index.dim))
    } else if index.nlist > u32::MAX {
        Err(IvfFlatWriteError::NlistTooLarge(index.nlist))
    } else if vector_leaf_index > u32::MAX {
        Err(IvfFlatWriteError::VectorLeafIndexTooLarge(vector_leaf_index))
    } else {
        Ok(())
    }
}

/// Whether the parts of an index have the lengths that its numbers ask for.
pub open spec fn is_consistent(index: IvfFlatFile) -> bool {
    &&& 0 < index.dim <= u32::MAX
    &&& 0 < index.nlist <= u32::MAX
    &&& index.centroids.len() == index.nlist * index.dim
    &&& index.list_offsets.len() == index.nlist + 1
    &&& index.vectors.len() == index.row_ids.len() * index.dim
    &&& index.row_ids.len() <= u64::MAX
    &&& index.vectors.len() <= u64::MAX
    &&& index.centroids.len() <= u64::MAX
}

/// Reading a stored index gives back the index, whatever bytes follow it.
#[verifier::rlimit(60)]
pub proof fn ivf_flat_file_round_trip(
    index: IvfFlatFile,
    schema_checksum: u64,
    data_checksum: u64,
    vector_leaf_index: nat,
    rest: Seq<u8>,
)
    requires
        is_consistent(index),
    ensures
        ivf_flat_file_of(
            ivf_flat_file_bytes(index, schema_checksum, data_checksum, vector_leaf_index) + rest,
        ) == Ok::<IvfFlatFile, IvfFlatFileError>(index),
{
    let h = ivf_flat_header(index, schema_checksum, data_checksum, vector_leaf_index);
    let b = ivf_flat_file_bytes(index, schema_checksum, data_checksum, vector_leaf_index) + rest;
    header_fields(index, schema_checksum, data_checksum, vector_leaf_index);
    assert(h.len() == 72);
    assert(b.subrange(0, 8) =~= h.subrange(0, 8));
    assert(b.subrange(8, 12) =~= h.subrange(8, 12));
    assert(b.subrange(12, 16) =~= h.subrange(12, 16));
    assert(b.subrange(16, 20) =~= h.subrange(16, 20));
    assert(b.subrange(40, 48) =~= h.subrange(40, 48));
    assert(b.subrange(48, 56) =~= h.subrange(48, 56));
    assert(b.subrange(56, 64) =~= h.subrange(56, 64));
    assert(b.subrange(64, 72) =~= h.subrange(64, 72));
    let (e1, e2, e3, e4) = part_ends(b);
    assert(b.subrange(72, e1) =~= le::bytes_of_u32s(index.centroids));
    assert(b.subrange(e1, e2) =~= le::bytes_of_u64s(index.list_offsets));
    assert(b.subrange(e2, e3) =~= le::bytes_of_u32s(index.row_ids));
    assert(b.subrange(e3, e4) =~= le::bytes_of_u32s(index.vectors));
    le::u32s_round_trip(index.centroids);
    le::u64s_round_trip(index.list_offsets);
    le::u32s_round_trip(index.row_ids);
    le::u32s_round_trip(index.vectors);
}

#[verifier::rlimit(60)]
proof fn header_fields(
    index: IvfFlatFile,
    schema_checksum: u64,
    data_checksum: u64,
    vector_leaf_index: nat,
)
    ensures
        ({
            let h = ivf_flat_header(index, schema_checksum, data_checksum, vector_leaf_index);
            &&& h.len() == 72
            &&& h.subrange(0, 8) == ivf_flat_magic()
            &&& le::u32_of(h.subrange(8, 12)) == IVF_FLAT_VERSION
            &&& le::u32_of(h.subrange(12, 16)) == index.dim as u32
            &&& le::u32_of(h.subrange(16, 20)) == index.nlist as u32
            &&& le::u64_of(h.subrange(40, 48)) == index.centroids.len() as u64
            &&& le::u64_of(h.subrange(48, 56)) == index.list_offsets.len() as u64
            &&& le::u64_of(h.subrange(56, 64)) == index.row_ids.len() as u64
            &&& le::u64_of(h.subrange(64, 72)) == index.vectors.len() as u64
        }),
{
    let h = ivf_flat_header(index, schema_checksum, data_checksum, vector_leaf_index);
    le::u32_round_trip(IVF_FLAT_VERSION);
    le::u32_round_trip(index.dim as u32);
    le::u32_round_trip(index.nlist as u32);
    le::u32_round_trip(vector_leaf_index as u32);
    le::u64_round_trip(schema_checksum);
    le::u64_round_trip(data_checksum);
    le::u64_round_trip(index.centroids.len() as u64);
    le::u64_round_trip(index.list_offsets.len() as u64);
    le::u64_round_trip(index.row_ids.len() as u64);
    le::u64_round_trip(index.vectors.len() as u64);
    assert(h.subrange(0, 8) =~= ivf_flat_magic());
    assert(h.subrange(8, 12) =~= le::bytes_of_u32(IVF_FLAT_VERSION));
    assert(h.subrange(12, 16) =~= le::bytes_of_u32(index.dim as u32));
    assert(h.subrange(16, 20) =~= le::bytes_of_u32(index.nlist as u32));
    assert(h.subrange(40, 48) =~= le::bytes_of_u64(index.centroids.len() as u64));
    assert(h.subrange(48, 56) =~= le::bytes_of_u64(index.list_offsets.len() as u64));
    assert(h.subrange(56, 64) =~= le::bytes_of_u64(index.row_ids.len() as u64));
    assert(h.subrange(64, 72) =~= le::bytes_of_u64(index.vectors.len() as u64));
}

/// Tells whether `bytes` starts with the magic of this layout.
fn has_magic(bytes: &[u8]) -> (r: bool)
    requires
        bytes@.len() >= 8,
    ensures
        r == (bytes@.subrange(0, 8) == ivf_flat_magic()),
{
    let r = bytes[0] == 0x46 && bytes[1] == 0x33 && bytes[2] == 0x49 && bytes[3] == 0x56 && bytes[4]
        == 0x46 && bytes[5] == 0x46 && bytes[6] == 0x31 && bytes[7] == 0x00;
    proof {
        let s = bytes@.subrange(0, 8);
        let m = ivf_flat_magic();
        if r {
            assert(s =~= m);
        } else if s == m {
            assert(s[0] == m[0] && s[1] == m[1] && s[2] == m[2] && s[3] == m[3] && s[4] == m[4]
                && s[5] == m[5] && s[6] == m[6] && s[7] == m[7]);
        }
    }
    r
}

/// Tells how an index file is stored, by its first bytes.
pub fn index_file_format(head: &[u8]) -> (r: IndexFileFormat)
    ensures
        r == (if head@.len() < 8 {
            IndexFileFormat::TooSmall
        } else if head@.subrange(0, 8) == ivf_flat_magic() {
            IndexFileFormat::Binary
        } else {
            IndexFileFormat::Table
        }),
{
    if head.len() < 8 {
        return IndexFileFormat::TooSmall;
    }
    if has_magic(head) {
        IndexFileFormat::Binary
    } else {
        IndexFileFormat::Table
    }
}

/// The number of four bytes at `at`.
pub(crate) fn get_u32_at(b: &[u8], at: usize) -> (r: u32)
    requires
        at + 4 <= b@.len(),
    ensures
        r == u32_at(b@, at as int),
{
    let n: usize = b.len();
    let four = &b[at..at + 4];
    assert(four@.subrange(0, 4) =~= b@.subrange(at as int, at + 4));
    le::read_u32(four)
}

/// The number of eight bytes at `at`.
pub(crate) fn get_u64_at(b: &[u8], at: usize) -> (r: u64)
    requires
        at + 8 <= b@.len(),
    ensures
        r == u64_at(b@, at as int),
{
    let n: usize = b.len();
    let eight = &b[at..at + 8];
    assert(eight@.subrange(0, 8) =~= b@.subrange(at as int, at + 8));
    le::read_u64(eight)
}

/// Reads the index that the bytes of a file hold.
pub fn load_ivf_flat_index_binary(bytes: &[u8]) -> (r: Result<IvfFlatIndex, IvfFlatFileError>)
    ensures
        match r {
            Ok(index) => ivf_flat_file_of(bytes@) == Ok::<IvfFlatFile, IvfFlatFileError>(
                index.contents(),
            ),
            Err(e) => ivf_flat_file_of(bytes@) == Err::<IvfFlatFile, IvfFlatFileError>(e),
        },
{
    if bytes.len() < 8 {
        return Err(IvfFlatFileError::Truncated);
    }
    if !has_magic(bytes) {
        return Err(IvfFlatFileError::MagicMismatch);
    }
    if bytes.len() < 12 {
        return Err(IvfFlatFileError::Truncated);
    }
    let version: u32 = get_u32_at(bytes, 8);
    if version != IVF_FLAT_VERSION {
        return Err(IvfFlatFileError::UnsupportedVersion(version));
    }
    if bytes.len() < IVF_FLAT_HEADER_SIZE {
        return Err(IvfFlatFileError::Truncated);
    }
    let dim: u32 = get_u32_at(bytes, 12);
    let nlist: u32 = get_u32_at(bytes, 16);
    let centroids_len: u64 = get_u64_at(bytes, 40);
    let list_offsets_len: u64 = get_u64_at(bytes, 48);
    let row_ids_len: u64 = get_u64_at(bytes, 56);
    let vectors_len: u64 = get_u64_at(bytes, 64);
    if dim == 0 {
        return Err(IvfFlatFileError::DimZero);
    }
    if nlist == 0 {
        return Err(IvfFlatFileError::NlistZero);
    }
    let expected: u128 = product_u64(nlist as u64, dim as u64);
    if centroids_len as u128 != expected {
        return Err(IvfFlatFileError::CentroidsLen { expected, got: centroids_len });
    }
    if list_offsets_len != nlist as u64 + 1 {
        return Err(
            IvfFlatFileError::ListOffsetsLen {
                expected: nlist as u128 + 1,
                got: list_offsets_len,
            },
        );
    }
    let expected: u128 = product_u64(row_ids_len, dim as u64);
    if vectors_len as u128 != expected {
        return Err(IvfFlatFileError::VectorsLen { expected, got: vectors_len });
    }
    let e1: u128 = 72 + 4 * (centroids_len as u128);
    let e2: u128 = e1 + 8 * (list_offsets_len as u128);
    let e3: u128 = e2 + 4 * (row_ids_len as u128);
    let e4: u128 = e3 + 4 * (vectors_len as u128);
    if (bytes.len() as u128) < e4 {
        return Err(IvfFlatFileError::Truncated);
    }
    let e1: usize = e1 as usize;
    let e2: usize = e2 as usize;
    let e3: usize = e3 as usize;
    let e4: usize = e4 as usize;
    Ok(
        IvfFlatIndex {
            dim: dim as usize,
            nlist: nlist as usize,
            centroids: le::get_u32s(&bytes[72..e1]),
            list_offsets: le::get_u64s(&bytes[e1..e2]),
            row_ids: le::get_u32s(&bytes[e2..e3]),
            vectors: le::get_u32s(&bytes[e3..e4]),
        },
    )
}

/// The bytes of the file that holds the index.
pub fn write_ivf_flat_index(
    base: &BaseFileBinding,
    vector_leaf_index: usize,
    index: &IvfFlatIndex,
) -> (r: Result<Vec<u8>, IvfFlatWriteError>)
    requires
        index.dim > 0,
        4 * index.centroids@.len() <= usize::MAX,
        8 * index.list_offsets@.len() <= usize::MAX,
        4 * index.row_ids@.len() <= usize::MAX,
        4 * index.vectors@.len() <= usize::MAX,
    ensures
        match r {
            Ok(b) => write_check(*index, vector_leaf_index) is Ok && b@ == ivf_flat_file_bytes(
                index.contents(),
                base.schema_checksum,
                base.data_checksum,
                vector_leaf_index as nat,
            ),
            Err(e) => write_check(*index, vector_leaf_index) == Err::<(), IvfFlatWriteError>(e),
        },
{
    let expected: u128 = index.nlist as u128 + 1;
    if index.list_offsets.len() as u128 != expected {
        return Err(
            IvfFlatWriteError::ListOffsetsLen { expected, got: index.list_offsets.len() },
        );
    }
    let expected: u128 = product(index.nlist, index.dim);
    if index.centroids.len() as u128 != expected {
        return Err(IvfFlatWriteError::CentroidsLen { expected, got: index.centroids.len() });
    }
    if index.vectors.len() % index.dim != 0 {
        return Err(
            IvfFlatWriteError::VectorsNotAligned { dim: index.dim, got: index.vectors.len() },
        );
    }
    if index.vectors.len() / index.dim != index.row_ids.len() {
        return Err(
            IvfFlatWriteError::VectorsLen {
                rows: index.vectors.len() / index.dim,
                row_ids: index.row_ids.len(),
            },
        );
    }
    if index.dim > 0xffff_ffff {
        return Err(IvfFlatWriteError::DimTooLarge(index.dim));
    }
    if index.nlist > 0xffff_ffff {
        return Err(IvfFlatWriteError::NlistTooLarge(index.nlist));
    }
    if vector_leaf_index > 0xffff_ffff {
        return Err(IvfFlatWriteError::VectorLeafIndexTooLarge(vector_leaf_index));
    }
    let mut out: Vec<u8> = vec![0x46, 0x33, 0x49, 0x56, 0x46, 0x46, 0x31, 0x00];
    assert(out@ =~= ivf_flat_magic());
    le::put_u32(&mut out, IVF_FLAT_VERSION);
    le::put_u32(&mut out, index.dim as u32);
    le::put_u32(&mut out, index.nlist as u32);
    le::put_u32(&mut out, vector_leaf_index as u32);
    le::put_u64(&mut out, base.schema_checksum);
    le::put_u64(&mut out, base.data_checksum);
    le::put_u64(&mut out, index.centroids.len() as u64);
    le::put_u64(&mut out, index.list_offsets.len() as u64);
    le::put_u64(&mut out, index.row_ids.len() as u64);
    le::put_u64(&mut out, index.vectors.len() as u64);
    le::put_u32s(&mut out, index.centroids.as_slice());
    le::put_u64s(&mut out, index.list_offsets.as_slice());
    le::put_u32s(&mut out, index.row_ids.as_slice());
    le::put_u32s(&mut out, index.vectors.as_slice());
    Ok(out)
}

} // verus!
