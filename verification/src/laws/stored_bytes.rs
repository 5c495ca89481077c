//! Laws of what is read of stored bytes, and of what is refused.
use crate::artifact::kernel;
use crate::artifact::kernel::{KernelError, KernelRequest};
use crate::artifact::ivf_flat::IvfFlatArtifact;
use crate::artifact::pq;
use crate::artifact::pq::PqPostingError;
use crate::artifact::pq_build;
use crate::artifact::pq_build::IvfPqBuildError;
use crate::file_format::EncodingType;
use crate::footer;
use crate::footer::EncodingVersion;
use crate::ivf_file;
use crate::ivf_file::{IvfFlatFileError, IvfFlatWriteError};
use crate::ivf_flat::IvfFlatIndex;
use crate::le;
use crate::manifest;
use crate::manifest::{BaseFileBinding, IndexFile};
use crate::training::{TrainingError, TrainingSet};
use crate::ude_wasm::exports;
use crate::vector;
use crate::vector::{MicroBlobError, MicroIndexBlob};
use vstd::prelude::*;

verus! {

broadcast use crate::le::sizes;

/// An index is read from a file that starts as it should, has version one, components,
/// lists, and parts that fit together and lie in the file; the parts are read one behind
/// the other.
pub proof fn index_files_are_read(bytes: &[u8], r: Result<IvfFlatIndex, IvfFlatFileError>)
    requires
        call_ensures(ivf_file::load_ivf_flat_index_binary, (bytes,), r),
        bytes@.len() >= 72,
    ensures
        ({
            let b = bytes@;
            let dim = ivf_file::u32_at(b, 12) as int;
            let nlist = ivf_file::u32_at(b, 16) as int;
            let a = ivf_file::u64_at(b, 40) as int;
            let c = ivf_file::u64_at(b, 48) as int;
            let d = ivf_file::u64_at(b, 56) as int;
            let e = ivf_file::u64_at(b, 64) as int;
            let magic = b.subrange(0, 8) == seq![0x46u8, 0x33, 0x49, 0x56, 0x46, 0x46, 0x31, 0x00];
            let version = magic && ivf_file::u32_at(b, 8) == 1;
            let fits = dim > 0 && nlist > 0 && a == nlist * dim && c == nlist + 1 && e == d * dim;
            let end = 72 + 4 * a + 8 * c + 4 * d + 4 * e;
            &&& r is Ok <==> version && fits && b.len() >= end
            &&& r is Err && r->Err_0 is MagicMismatch <==> !magic
            &&& r is Err && r->Err_0 is UnsupportedVersion <==> magic && !version
            &&& r is Err && r->Err_0 is DimZero <==> version && dim == 0
            &&& r is Err && r->Err_0 is NlistZero <==> version && dim > 0 && nlist == 0
            &&& r is Err && r->Err_0 is Truncated <==> version && fits && b.len() < end
            &&& r is Ok ==> {
                let x = r->Ok_0;
                &&& x.dim == dim
                &&& x.nlist == nlist
                &&& x.centroids@ == le::u32s_of(b.subrange(72, 72 + 4 * a))
                &&& x.list_offsets@ == le::u64s_of(b.subrange(72 + 4 * a, 72 + 4 * a + 8 * c))
                &&& x.row_ids@ == le::u32s_of(
                    b.subrange(72 + 4 * a + 8 * c, 72 + 4 * a + 8 * c + 4 * d),
                )
                &&& x.vectors@ == le::u32s_of(b.subrange(72 + 4 * a + 8 * c + 4 * d, end))
            }
        }),
{
    assert(ivf_file::ivf_flat_magic() =~= seq![
        0x46u8,
        0x33,
        0x49,
        0x56,
        0x46,
        0x46,
        0x31,
        0x00,
    ]);
}

/// An index is written if its parts fit together and its numbers fit in the header; the
/// first thing that is wrong is told.
pub proof fn index_files_are_written(
    base: &BaseFileBinding,
    leaf: usize,
    index: &IvfFlatIndex,
    r: Result<Vec<u8>, IvfFlatWriteError>,
)
    requires
        index.dim > 0,
        call_ensures(ivf_file::write_ivf_flat_index, (base, leaf, index), r),
    ensures
        ({
            let offsets = index.list_offsets@.len() == index.nlist + 1;
            let centroids = index.centroids@.len() == index.nlist * index.dim;
            let vectors = index.vectors@.len() == index.row_ids@.len() * index.dim;
            &&& r is Ok <==> offsets && centroids && vectors && index.dim <= u32::MAX
                && index.nlist <= u32::MAX && leaf <= u32::MAX
            &&& r is Err && r->Err_0 is ListOffsetsLen <==> !offsets
            &&& r is Err && r->Err_0 is CentroidsLen <==> offsets && !centroids
            &&& r is Err && (r->Err_0 is VectorsNotAligned || r->Err_0 is VectorsLen) <==> offsets
                && centroids && !vectors
            &&& r is Ok ==> r->Ok_0@ == ivf_file::ivf_flat_file_bytes(
                index.contents(),
                base.schema_checksum,
                base.data_checksum,
                leaf as nat,
            )
        }),
{
    let n = index.vectors@.len() as int;
    let d = index.dim as int;
    let k = index.row_ids@.len() as int;
    vstd::arithmetic::div_mod::lemma_fundamental_div_mod(n, d);
    if n == k * d {
        vstd::arithmetic::div_mod::lemma_fundamental_div_mod_converse(n, d, k, 0);
    }
    assert(n % d == 0 && n / d == k ==> n == k * d) by (nonlinear_arith)
        requires
            n == d * (n / d) + n % d,
    ;
}

/// What an index is in a file is what it is in memory.
pub proof fn contents_are_parts(index: IvfFlatIndex)
    ensures
        index.contents().dim == index.dim,
        index.contents().nlist == index.nlist,
        index.contents().centroids == index.centroids@,
        index.contents().list_offsets == index.list_offsets@,
        index.contents().row_ids == index.row_ids@,
        index.contents().vectors == index.vectors@,
{
}

/// A small index is read if it starts with `MIVF` and version one, has room for its
/// centroids, and room for each of its runs.
pub proof fn small_indexes_are_read(buf: &[u8], r: Result<MicroIndexBlob, MicroBlobError>)
    requires
        call_ensures(vector::parse_micro_blob, (buf,), r),
    ensures
        ({
            let b = buf@;
            let dim = ivf_file::u32_at(b, 8) as int;
            let k = ivf_file::u32_at(b, 12) as int;
            let end = 16 + 4 * (dim * k);
            let magic = b.len() >= 16 && b.subrange(0, 4) == seq![0x4du8, 0x49, 0x56, 0x46];
            let version = magic && ivf_file::u32_at(b, 4) == 1;
            &&& r is Err && r->Err_0 is TooSmall <==> b.len() < 16
            &&& r is Err && r->Err_0 is Magic <==> b.len() >= 16 && !magic
            &&& r is Err && r->Err_0 is Version <==> magic && !version
            &&& r is Err && r->Err_0 is TruncatedCentroids <==> version && b.len() < end
            &&& r is Ok ==> {
                let x = r->Ok_0@;
                &&& x.dim == dim
                &&& x.k == k
                &&& x.centroids == le::u32s_of(b.subrange(16, end))
                &&& x.bucket_spans.len() == k
            }
        }),
{
    assert(vector::magic_bytes() =~= seq![0x4du8, 0x49, 0x56, 0x46]);
    let k = ivf_file::u32_at(buf@, 12) as nat;
    let dim = ivf_file::u32_at(buf@, 8) as int;
    buckets_are_read(buf@, 16 + 4 * (dim * k), k);
}

/// The buckets of a small index stand one behind the other, each with as many runs as the
/// number in front of them says; each run is two numbers.
pub proof fn buckets_are_read(buf: Seq<u8>, at: int, k: nat)
    ensures
        vector::buckets_at(buf, at, k) is Ok ==> vector::buckets_at(buf, at, k)->Ok_0.0.len() == k,
        vector::buckets_at(buf, at, k) is Err ==> !(vector::buckets_at(buf, at, k)->Err_0 is TooSmall)
            && !(vector::buckets_at(buf, at, k)->Err_0 is Magic) && !(vector::buckets_at(
            buf,
            at,
            k,
        )->Err_0 is Version) && !(vector::buckets_at(buf, at, k)->Err_0 is TruncatedCentroids),
        vector::buckets_at(buf, at, k + 1) is Ok ==> {
            let (front, from) = vector::buckets_at(buf, at, k)->Ok_0;
            let (all, end) = vector::buckets_at(buf, at, k + 1)->Ok_0;
            let count = ivf_file::u32_at(buf, from);
            &&& vector::buckets_at(buf, at, k) is Ok
            &&& all.drop_last() == front
            &&& all.last().len() == count
            &&& end == from + 4 + 8 * count
            &&& end <= buf.len()
            &&& forall|i: int|
                0 <= i < count ==> (#[trigger] all.last()[i]).0 == ivf_file::u32_at(
                    buf,
                    from + 4 + 8 * i,
                ) && all.last()[i].1 == ivf_file::u32_at(buf, from + 8 + 8 * i)
        },
    decreases k,
{
    if k > 0 {
        buckets_are_read(buf, at, (k - 1) as nat);
    }
    if vector::buckets_at(buf, at, k + 1) is Ok {
        let (front, from) = vector::buckets_at(buf, at, k)->Ok_0;
        let (all, end) = vector::buckets_at(buf, at, k + 1)->Ok_0;
        assert(all.drop_last() =~= front);
    }
}

/// The digits of a number spell it, and none is missing or too much.
pub proof fn digits_of_numbers(n: nat)
    ensures
        exports::spelled(footer::decimal(n)) == n,
        exports::all_digits(footer::decimal(n)),
        footer::decimal(n).len() > 0,
        n > 0 ==> footer::decimal(n)[0] != '0',
    decreases n,
{
    let s = footer::decimal(n);
    if n < 10 {
        assert(s.drop_last() =~= Seq::<char>::empty());
        assert(exports::spelled(Seq::empty()) == 0);
        assert(s.last() as nat == 48 + n);
    } else {
        digits_of_numbers(n / 10);
        let front = footer::decimal(n / 10);
        assert(s.drop_last() =~= front);
        assert(s.last() as nat == 48 + n % 10);
        assert forall|i: int| 0 <= i < s.len() implies '0' <= #[trigger] s[i] <= '9' by {
            if i < front.len() {
                assert(s[i] == front[i]);
            }
        }
        assert(s[0] == front[0]);
    }
}

/// The versions of encodings that are written are 0.21.0 for cascades and 1.0.0 for modules.
pub proof fn versions_that_are_written(r: Vec<EncodingVersion>)
    requires
        call_ensures(footer::create_default_encoding_versions, (), r),
    ensures
        r@.len() == 2,
        r@[0].encoding_type == EncodingType::CASCADE,
        r@[0].version.major == 0 && r@[0].version.minor == 21 && r@[0].version.patch == 0,
        r@[1].encoding_type == EncodingType::CUSTOM_WASM,
        r@[1].version.major == 1 && r@[1].version.minor == 0 && r@[1].version.patch == 0,
{
}

/// The name of a file of an index starts with that of the index, and files of different
/// kinds have different names.
pub proof fn names_of_files(name: &str, a: IndexFile, b: IndexFile, x: String, y: String)
    requires
        call_ensures(manifest::index_file_name, (name, a), x),
        call_ensures(manifest::index_file_name, (name, b), y),
    ensures
        exports::starts_with(x@, name@),
        a is IvfFlat ==> x@ == name@ + ".ivf_flat"@,
        a is IvfFlatArtifact ==> x@ == name@ + ".ivf_flat.artifact"@,
        a is IvfPq ==> x@ == name@ + ".ivf_pq"@,
        x@ == y@ ==> a == b,
{
    reveal_strlit(".ivf_flat");
    reveal_strlit(".ivf_flat.artifact");
    reveal_strlit(".ivf_pq");
    assert(x@.take(name@.len() as int) =~= name@);
    let p = manifest::suffix_of(a);
    let q = manifest::suffix_of(b);
    assert(x@.len() == name@.len() + p.len());
    assert(y@.len() == name@.len() + q.len());
    assert(".ivf_flat"@.len() == 9 && ".ivf_flat.artifact"@.len() == 18 && ".ivf_pq"@.len() == 7);
}

/// A list of codes is read if it is long enough, and as long as it should be if that is
/// asked for; a list without rows ends behind its count.
pub proof fn code_lists_are_read(
    bytes: &[u8],
    m: u32,
    exact: bool,
    r: Result<(Vec<u32>, Vec<u8>), PqPostingError>,
)
    requires
        call_ensures(pq::decode_pq_posting_list, (bytes, m, exact), r),
    ensures
        ({
            let b = bytes@;
            let count = le::u32_of(b.subrange(0, 4)) as int;
            &&& r is Err && r->Err_0 is TooSmall <==> b.len() < 4
            &&& b.len() >= 4 && count == 0 && !exact ==> r is Ok
            &&& b.len() >= 4 && count == 0 ==> (r is Ok <==> !exact || b.len() == 4)
            &&& b.len() >= 4 && count == 0 && r is Ok ==> r->Ok_0.0@.len() == 0
                && r->Ok_0.1@.len() == 0
            &&& r is Err && r->Err_0 is TooSmallForRowIds <==> 4 <= b.len() < 8 && count > 0
            &&& r is Ok ==> r->Ok_0.1@.len() == count * m
        }),
{
    let count = le::u32_of(bytes@.subrange(0, 4)) as int;
    assert(0 * (m as int) == 0);
    assert(count * m >= 0) by (nonlinear_arith)
        requires
            count >= 0,
            m >= 0,
    ;
}

/// The blocks that a search module needs are for the directory, the queries, the results and
/// their counts; results are eight bytes each, and counts four.
pub proof fn blocks_of_a_search(request: KernelRequest)
    requires
        request.nq * request.k * 8 <= u32::MAX,
        request.nq * 4 <= u32::MAX,
        request.dir@.len() <= u32::MAX,
        request.queries@.len() <= u32::MAX,
    ensures
        request.block_size(0).0 == request.dir@.len(),
        request.block_size(1).0 == request.queries@.len(),
        request.block_size(2).0 == 8 * (request.nq * request.k),
        request.block_size(3).0 == 4 * request.nq,
        request.block_size(0).1 == 8 && request.block_size(2).1 == 8,
        request.block_size(1).1 == 4 && request.block_size(3).1 == 4,
        kernel::block_kind(0) is Directory,
        kernel::block_kind(1) is Queries,
        kernel::block_kind(2) is Output,
        kernel::block_kind(3) is Counts,
{
}

/// A search is refused if there are queries and they have another number of components than
/// all together should, if the directory cannot be made, or if it is too large for a module.
pub proof fn searches_of_artifacts_are_refused(a: IvfFlatArtifact, len: nat, nq: nat, k: nat)
    ensures
        nq == 0 ==> kernel::refusal(a, len, nq, k) is None,
        nq > 0 && len != nq * a.footer.dim <==> kernel::refusal(a, len, nq, k) is Some
            && kernel::refusal(a, len, nq, k)->0 is QueriesLen,
        nq > 0 && len == nq * a.footer.dim && k == 0 ==> kernel::refusal(a, len, nq, k) is None,
        nq > 0 && len == nq * a.footer.dim && k > 0 ==> {
            let r = kernel::refusal(a, len, nq, k);
            let small = 16 + 4 * a.footer.nlist <= u32::MAX && 4 * len <= u32::MAX && nq * k * 8
                <= u32::MAX;
            &&& r is None <==> kernel::directory_of(a) is Ok && small
            &&& r is Some && r->0 is TooLarge <==> kernel::directory_of(a) is Ok && !small
            &&& kernel::directory_of(a) is Err ==> r == Some(
                KernelError::Chunk(kernel::directory_of(a)->Err_0),
            )
        },
{
}

/// Lists can be trained if there are vectors, a sample, lists, and no fewer sampled vectors
/// than lists.
pub proof fn training_is_checked(set: &TrainingSet, nlist: usize, r: Result<(), TrainingError>)
    requires
        call_ensures(TrainingSet::check, (set, nlist), r),
    ensures
        ({
            let sampled = if set.seen() < set.limit() {
                set.seen()
            } else {
                set.limit()
            };
            &&& r is Ok <==> set.seen() > 0 && set.limit() > 0 && nlist > 0 && sampled >= nlist
            &&& r is Err && r->Err_0 is NoVectors <==> set.seen() == 0
            &&& r is Err && r->Err_0 is NoTrainingVectors <==> set.seen() > 0 && set.limit() == 0
            &&& r is Err && r->Err_0 is NlistZero <==> set.seen() > 0 && set.limit() > 0 && nlist
                == 0
            &&& r is Err && r->Err_0 is SampleTooSmall <==> set.seen() > 0 && set.limit() > 0
                && nlist > 0 && sampled < nlist
        }),
{
}

/// Codes can be trained if lists can, the parts of vectors have all their components
/// together, and there are no fewer sampled vectors than entries of a codebook.
pub proof fn training_of_codes_is_checked(set: TrainingSet, nlist: nat, m: u32, d: u32)
    ensures
        ({
            let r = pq_build::refusal(set, nlist, m, d);
            let ready = set.readiness(nlist) is Ok;
            &&& r is None <==> ready && m * d == set.spec_dim() && set.sampled() >= 256
            &&& !ready ==> r == Some(IvfPqBuildError::Training(set.readiness(nlist)->Err_0))
            &&& r is Some && r->0 is Params <==> ready && m * d != set.spec_dim()
            &&& r is Some && r->0 is CodebookSample <==> ready && m * d == set.spec_dim()
                && set.sampled() < 256
        }),
{
}

} // verus!
