use fff::artifact::frame::{
    read_footer_len, read_footer_offset, read_footer_text, seal_artifact, start_artifact,
    ArtifactError,
};
use fff::artifact::ivf_flat as flat;
use fff::artifact::ivf_pq as product;
use fff::artifact::kernel::{
    directory, first_results, prepare, read_results, Action, BlockKind, FetchStats, KernelError,
    KernelRun, KernelStats, Prepared, Reply,
};
use fff::artifact::kernel_host::{
    copy_len, host_l2_sq_batch, BatchCall, ChunkSource, HostError, HostState, StatsWords,
    WasmIvfFlatKernel,
};
use fff::artifact::posting::{
    decode_posting_list, encode_posting_list, PostingCodec, PostingError,
};
use fff::artifact::pq::{
    check_pq_params, decode_pq_posting_list, encode_pq_posting_list, encode_vectors,
    residual_samples, subspace_samples, PqParamsMismatch, PqPostingError,
};
use fff::ivf_flat::{IvfFlatIndex, SearchResult};
use fff::manifest::{BaseFileBinding, IndexKind};
use fff::uleb128::{decode_uleb128_u32, encode_uleb128_u32, Uleb128Error};

fn bits(v: &[f32]) -> Vec<u32> {
    v.iter().map(|x| x.to_bits()).collect()
}

fn l2(a: &[u32], b: &[u32]) -> u32 {
    let mut acc = 0.0f32;
    for i in 0..a.len().min(b.len()) {
        let d = f32::from_bits(a[i]) - f32::from_bits(b[i]);
        acc += d * d;
    }
    acc.to_bits()
}

fn minus(a: u32, b: u32) -> u32 {
    (f32::from_bits(a) - f32::from_bits(b)).to_bits()
}

fn half(x: u32) -> u16 {
    half::f16::from_f32(f32::from_bits(x)).to_bits()
}

fn wide_table() -> Vec<u32> {
    (0..=u16::MAX).map(|h| half::f16::from_bits(h).to_f32().to_bits()).collect()
}

fn base() -> BaseFileBinding {
    BaseFileBinding { path: "b".to_string(), size: 1, schema_checksum: 2, data_checksum: 3 }
}

#[test]
fn numbers_are_written_in_groups_of_seven_bits() {
    for (v, bytes) in [
        (0u32, vec![0u8]),
        (127, vec![127]),
        (128, vec![0x80, 1]),
        (300, vec![0xac, 2]),
        (u32::MAX, vec![0xff, 0xff, 0xff, 0xff, 0x0f]),
    ] {
        let mut out = vec![9];
        encode_uleb128_u32(v, &mut out);
        assert_eq!(&out[1..], &bytes[..]);
        assert_eq!(decode_uleb128_u32(&bytes), Ok((v, bytes.len())));
    }
    assert_eq!(decode_uleb128_u32(&[]), Err(Uleb128Error::Truncated));
    assert_eq!(decode_uleb128_u32(&[0x80]), Err(Uleb128Error::Truncated));
    let long = |last: u8| decode_uleb128_u32(&[0x80, 0x80, 0x80, 0x80, 0x80, last]);
    assert_eq!(long(1), Err(Uleb128Error::Overflow));
    assert_eq!(long(0x80), Err(Uleb128Error::TooLong));
    assert_eq!(long(0), Ok((0, 6)));
}

#[test]
fn posting_lists_are_read_back_in_every_codec() {
    let rows = vec![5, 2, 900, 901];
    let vectors = bits(&[1.0, -2.0, 0.5, 3.0, 0.25, 8.0, 1.5, -1.0]);
    for codec in [
        PostingCodec::Raw,
        PostingCodec::RowIdDeltaVarintV1,
        PostingCodec::RawF16,
        PostingCodec::RowIdDeltaVarintV1F16,
    ] {
        let bytes = encode_posting_list(codec, &rows, &vectors, &half);
        let back = decode_posting_list(codec, &bytes, 2, &wide_table()).unwrap();
        assert_eq!(back, (rows.clone(), vectors.clone()), "{:?}", codec);
        assert!(decode_posting_list(codec, &bytes[..bytes.len() - 1], 2, &wide_table()).is_err());
    }
    assert_eq!(
        decode_posting_list(PostingCodec::Raw, &[1, 2], 2, &wide_table()).unwrap_err(),
        PostingError::TooSmall
    );
    let bytes = encode_posting_list(PostingCodec::Raw, &rows, &vectors, &half);
    assert_eq!(
        decode_posting_list(PostingCodec::Raw, &bytes, 3, &wide_table()).unwrap_err(),
        PostingError::SizeMismatch { expected: 4 + 16 + 48, got: bytes.len() }
    );
    let halves = encode_posting_list(PostingCodec::RawF16, &rows, &vectors, &half);
    assert_eq!(halves.len(), 4 + 16 + 16);
    assert_eq!(&halves[20..22], &half::f16::from_f32(1.0).to_bits().to_le_bytes());
}

#[test]
fn frames_hold_their_footer() {
    let mut body = start_artifact(b'1');
    body.extend_from_slice(b"chunks");
    let end = body.len() as u64;
    let file = seal_artifact(body, b"{}").unwrap();
    assert_eq!(read_footer_offset(b'1', &file).unwrap(), end);
    assert_eq!(read_footer_len(&file[end as usize..]).unwrap(), 2);
    assert_eq!(read_footer_text(b'1', &file).unwrap(), b"{}".to_vec());
    assert_eq!(read_footer_text(b'2', &file).unwrap_err(), ArtifactError::MagicMismatch);
    assert_eq!(read_footer_text(b'1', &file[..10]).unwrap_err(), ArtifactError::Truncated);
    assert_eq!(
        read_footer_text(b'1', &file[..file.len() - 1]).unwrap_err(),
        ArtifactError::Truncated
    );
    let unsealed = start_artifact(b'1');
    assert!(read_footer_text(b'1', &unsealed).is_err());
}

#[test]
fn product_quantised_lists_are_read_back() {
    let rows = vec![7, 9, 8];
    let codes = vec![1, 2, 3, 4, 5, 6];
    let bytes = encode_pq_posting_list(&rows, &codes);
    assert_eq!(decode_pq_posting_list(&bytes, 2, true).unwrap(), (rows.clone(), codes.clone()));
    let mut longer = bytes.clone();
    longer.push(0);
    assert_eq!(decode_pq_posting_list(&longer, 2, false).unwrap(), (rows, codes));
    assert_eq!(
        decode_pq_posting_list(&longer, 2, true).unwrap_err(),
        PqPostingError::LengthMismatch { expected: bytes.len() as u128, got: longer.len() }
    );
    assert_eq!(decode_pq_posting_list(&[1], 2, true).unwrap_err(), PqPostingError::TooSmall);
    assert_eq!(
        decode_pq_posting_list(&[1, 0, 0, 0], 2, true).unwrap_err(),
        PqPostingError::TooSmallForRowIds
    );
    assert_eq!(decode_pq_posting_list(&[0, 0, 0, 0], 2, true).unwrap(), (vec![], vec![]));
}

#[test]
fn vectors_are_coded_by_their_nearest_parts() {
    // Two parts of one component; the books are the same numbers.
    let books = vec![bits(&[0.0, 1.0, 2.0]), bits(&[0.0, -1.0])];
    let codes =
        encode_vectors(&bits(&[10.9, 19.2, 12.1, 20.0]), 2, &bits(&[10.0, 20.0]), &books, 1, &l2, &minus);
    assert_eq!(codes, vec![1, 1, 2, 0]);
    assert_eq!(check_pq_params(2, 4, 8), Ok(()));
    assert_eq!(
        check_pq_params(3, 4, 8),
        Err(PqParamsMismatch { num_subspaces: 3, subspace_dim: 4, dim: 8 })
    );
    let residuals =
        residual_samples(&bits(&[1.0, 1.5, 9.0, 9.0]), &bits(&[1.0, 1.0, 10.0, 10.0]), 2, &l2, &minus);
    assert_eq!(residuals, bits(&[0.0, 0.5, -1.0, -1.0]));
    assert_eq!(subspace_samples(&residuals, 2, 1, 1), bits(&[0.5, -1.0]));
}

fn index() -> IvfFlatIndex {
    IvfFlatIndex {
        dim: 2,
        nlist: 2,
        centroids: bits(&[0.0, 0.0, 10.0, 10.0]),
        list_offsets: vec![0, 1, 3],
        row_ids: vec![4, 0, 2],
        vectors: bits(&[0.5, 0.0, 10.0, 9.0, 11.0, 10.0]),
    }
}

#[test]
fn product_quantised_artifacts_hold_their_chunks() {
    let books = vec![bits(&[0.0, 0.5, 1.0]), bits(&[0.0, -1.0])];
    let (bytes, chunks) = product::write_ivf_pq_content(&index(), &books, 1, &l2, &minus);
    let artifact = product::IvfPqArtifact {
        path: "p".to_string(),
        footer: product::IvfPqArtifactFooter {
            base: base(),
            index_name: "pq".to_string(),
            kind: IndexKind::IvfPq,
            vector_leaf_index: 0,
            dim: 2,
            nlist: 2,
            num_subspaces: 2,
            subspace_dim: 1,
            metric: "l2".to_string(),
            build_params: "{}".to_string(),
            chunks,
        },
    };
    let part = |t: product::ChunkType, id: Option<u32>| {
        let c = artifact.find_chunk(t, id).unwrap();
        bytes[c.offset as usize..(c.offset + c.len) as usize].to_vec()
    };
    let all: Vec<u32> = books.concat();
    assert_eq!(
        product::read_codebooks_f32(&part(product::ChunkType::Codebooks, None)).unwrap(),
        all
    );
    let (rows, codes) =
        artifact.read_posting_list(&part(product::ChunkType::PostingList, Some(1))).unwrap();
    assert_eq!(rows, vec![0, 2]);
    assert_eq!(codes, vec![0, 1, 2, 0]);
    let (rows, codes) =
        artifact.read_posting_list(&part(product::ChunkType::PostingList, Some(0))).unwrap();
    assert_eq!(rows, vec![4]);
    assert_eq!(codes, vec![1, 0]);
    let mut longer = part(product::ChunkType::PostingList, Some(0));
    longer.push(9);
    let (rows, codes) = artifact.read_posting_list_from_file(&longer).unwrap();
    assert_eq!((rows, codes), (vec![4], vec![1, 0]));
    assert!(artifact.read_posting_list(&longer).is_err());
    artifact.validate_base(1).unwrap();
    artifact.validate_base_checksums(2, 3).unwrap();
    assert_eq!(artifact.chunk_by_index(77).unwrap_err(), product::ChunkError::IdOutOfRange(77));
}

fn flat_artifact() -> (flat::IvfFlatArtifact, Vec<u8>) {
    let options = flat::IvfFlatArtifactBuildOptions { posting_codec: PostingCodec::Raw };
    let (bytes, chunks) = flat::write_ivf_flat_artifact(&index(), &options, &half);
    let footer = flat::IvfFlatArtifactFooter {
        base: base(),
        index_name: "flat".to_string(),
        kind: IndexKind::IvfFlat,
        vector_leaf_index: 0,
        dim: 2,
        nlist: 2,
        metric: "l2".to_string(),
        build_params: "{}".to_string(),
        chunks,
    };
    (flat::IvfFlatArtifact { path: "f".to_string(), footer }, bytes)
}

fn words(bytes: &[u8]) -> Vec<u32> {
    bytes.chunks(4).map(|b| u32::from_le_bytes(b.try_into().unwrap())).collect()
}

#[test]
fn the_directory_lists_the_chunks() {
    let (artifact, _) = flat_artifact();
    let dir = words(&directory(&artifact).unwrap());
    let id = |t, l| artifact.find_chunk_id(t, l).unwrap() as u32;
    assert_eq!(
        dir,
        vec![
            2,
            2,
            id(flat::ChunkType::Centroids, None),
            0,
            id(flat::ChunkType::PostingList, Some(0)),
            id(flat::ChunkType::PostingList, Some(1)),
        ]
    );
    let (mut missing, _) = flat_artifact();
    missing.footer.chunks.pop();
    assert!(directory(&missing).is_err());
}

fn asked(nq: usize, k: usize) -> KernelRun {
    let (artifact, _) = flat_artifact();
    let queries = vec![0u32; 2 * nq];
    match prepare(&artifact, &queries, nq, k, 1).unwrap() {
        Prepared::Ask(run) => run,
        Prepared::Answered(_) => panic!("nothing was asked"),
    }
}

/// Runs a kernel whose memory starts at 64 and has room for some blocks; gives
/// what was allocated and freed.
fn drive(mut run: KernelRun, status: u32, counts: &[u32], out: &[(u32, f32)], room: usize) -> (
    Result<Vec<Vec<SearchResult>>, KernelError>,
    Vec<(u32, u32)>,
    Vec<(u32, u32)>,
) {
    let mut next = 64u32;
    let mut taken = Vec::new();
    let mut freed = Vec::new();
    let mut reads = 0;
    loop {
        let reply = match run.action() {
            Action::Alloc { len, .. } => {
                let ptr = if taken.len() < room { next } else { 0 };
                next += len;
                if ptr != 0 {
                    taken.push((ptr, len));
                }
                Reply::Allocated(ptr)
            }
            Action::Write { .. } => Reply::Written,
            Action::Search(call) => {
                assert_eq!(call.nprobe, 1);
                Reply::Searched(status)
            }
            Action::Read { len, .. } => {
                let mut bytes: Vec<u8> = if reads == 0 {
                    counts.iter().flat_map(|c| c.to_le_bytes()).collect()
                } else {
                    let pairs = out.iter();
                    pairs.flat_map(|(r, d)| [r.to_le_bytes(), d.to_le_bytes()].concat()).collect()
                };
                reads += 1;
                bytes.resize(len as usize, 0);
                Reply::Bytes(Some(bytes))
            }
            Action::Free(block) => {
                freed.push((block.ptr, block.len));
                Reply::Freed
            }
            Action::Done => break,
        };
        assert!(run.is_answered_by(&reply));
        run.advance(reply);
    }
    (run.finish(), taken, freed)
}

#[test]
fn a_kernel_answers_and_gives_its_memory_back() {
    let (answer, mut taken, mut freed) = drive(
        asked(2, 2),
        1,
        &[1, 2],
        &[(4, 0.25), (0, 0.0), (0, 1.0), (2, 5.0)],
        4,
    );
    let answer = answer.unwrap();
    assert_eq!(answer.len(), 2);
    assert_eq!(answer[0], vec![SearchResult { row_id: 4, distance: 0.25f32.to_bits() }]);
    assert_eq!(answer[1].len(), 2);
    assert_eq!(answer[1][1], SearchResult { row_id: 2, distance: 5.0f32.to_bits() });
    assert_eq!(first_results(answer.clone()), answer[0]);
    taken.sort();
    freed.sort();
    assert_eq!(taken.len(), 4);
    assert_eq!(taken, freed);
}

#[test]
fn a_kernel_without_memory_gives_back_what_it_has() {
    let (answer, taken, freed) = drive(asked(1, 2), 1, &[0], &[], 0);
    assert_eq!(answer.unwrap_err(), KernelError::NoMemory(BlockKind::Directory));
    assert!(taken.is_empty() && freed.is_empty());
    let (answer, taken, freed) = drive(asked(1, 2), 1, &[0], &[], 2);
    assert_eq!(answer.unwrap_err(), KernelError::NoMemory(BlockKind::Output));
    assert_eq!(taken.len(), 2);
    assert_eq!(taken, freed);
    let (answer, _, _) = drive(asked(1, 2), 0, &[0], &[], 4);
    assert_eq!(answer.unwrap_err(), KernelError::SearchFailed);
}

#[test]
fn kernels_are_asked_only_if_there_is_something_to_ask() {
    let (artifact, _) = flat_artifact();
    match prepare(&artifact, &[], 0, 5, 1).unwrap() {
        Prepared::Answered(v) => assert!(v.is_empty()),
        Prepared::Ask(_) => panic!("there are no queries"),
    }
    match prepare(&artifact, &[0, 0], 1, 0, 1).unwrap() {
        Prepared::Answered(v) => assert_eq!(v, vec![vec![]]),
        Prepared::Ask(_) => panic!("there are no results to give"),
    }
    assert_eq!(
        prepare(&artifact, &[0], 1, 5, 1).err(),
        Some(KernelError::QueriesLen { expected: 2, got: 1 })
    );
    let most = u32::MAX as usize / 8;
    assert!(matches!(prepare(&artifact, &[0, 0], 1, most, 1), Ok(Prepared::Ask(_))));
    assert_eq!(prepare(&artifact, &[0, 0], 1, most + 1, 1).err(), Some(KernelError::TooLarge));
    assert_eq!(prepare(&artifact, &[0, 0], 1, usize::MAX, 1).err(), Some(KernelError::TooLarge));
    match prepare(&artifact, &[], 0, usize::MAX, 1).unwrap() {
        Prepared::Answered(v) => assert!(v.is_empty()),
        Prepared::Ask(_) => panic!("there are no queries"),
    }
    let (mut missing, _) = flat_artifact();
    missing.footer.chunks.pop();
    assert!(matches!(
        prepare(&missing, &[0, 0], 1, usize::MAX, 1),
        Err(KernelError::Chunk(_))
    ));
    let results = read_results(&[7, 0, 0, 0, 1, 0, 0, 0], 1, &vec![1]);
    assert_eq!(results, vec![vec![SearchResult { row_id: 7, distance: 1 }]]);
}

#[test]
fn hosts_keep_chunks_if_they_may() {
    let (artifact, file) = flat_artifact();
    let mut host = HostState::new();
    assert_eq!(host.request_chunk(0).unwrap_err(), HostError::NoArtifact);
    host.set_artifact(&artifact.footer.chunks, false);
    assert_eq!(host.request_chunk(0).unwrap_err(), HostError::NoFile);
    host.set_artifact(&artifact.footer.chunks, true);
    host.set_cache_enabled(true);
    let c = &artifact.footer.chunks[0];
    assert_eq!(host.chunk_len(0), c.len as u32);
    assert_eq!(host.chunk_len(99), 0);
    assert!(matches!(host.request_chunk(0), Ok(ChunkSource::File)));
    let bytes = &file[c.offset as usize..(c.offset + c.len) as usize];
    host.fetched(0, bytes, 5);
    assert_eq!(host.stats.chunks_fetched, 1);
    assert_eq!(host.stats.compressed_bytes_in, c.len);
    assert!(matches!(host.request_chunk(0), Ok(ChunkSource::Cache)));
    assert_eq!(host.cached(0).unwrap(), bytes);
    assert_eq!(host.stats.cache_hits, 1);
    host.set_cache_enabled(false);
    assert!(host.cached(0).is_none());
}

#[test]
fn statistics_are_read_from_words() {
    let v2: Vec<u8> = (1u64..=8).flat_map(|w| w.to_le_bytes()).collect();
    let all = KernelStats::from_words_v2(&v2);
    assert_eq!(all.decode_time_ns, 2);
    let old = KernelStats::from_words_v1(&v2[..40]);
    assert_eq!(old.decode_time_ns, 1);
    let mut kernel = WasmIvfFlatKernel::load(&flat_artifact().0.footer.chunks, true);
    kernel.set_use_host_dist(true);
    kernel.set_profile_stages(true);
    kernel.set_decoded_cache_budget_bytes(1 << 20);
    assert_eq!(kernel.settings(), (1 << 20, 1, 1));
    kernel.note_search(Some(StatsWords::V2(v2)), 77);
    assert_eq!(kernel.kernel_stats(), all);
    assert_eq!(kernel.stats().total_time_ns, 77);
    kernel.reset_stats();
    assert_eq!(kernel.stats().total_time_ns, 0);
    let mut stats = FetchStats::default();
    for id in 0..100 {
        stats.note_chunk(id, id % 2 == 0);
    }
    assert!(stats.fetched_chunk_ids_sample.len() < 100);
    assert_eq!(stats.fetched_chunk_ids_sample[1], 1);
    assert_eq!(stats.cache_miss_chunk_ids_sample[1], 2);
    assert_eq!(copy_len(10, 4), 0);
    assert_eq!(copy_len(3, 4), 3);
}

#[test]
fn hosts_measure_many_vectors_at_once() {
    let mut mem: Vec<u8> = bits(&[7.0, 1.0, 1.0, 1.0, 2.0, 4.0, 5.0, 0.0, 0.0])
        .iter()
        .flat_map(|w| w.to_le_bytes())
        .collect();
    let call = BatchCall { query_ptr: 4, vectors_ptr: 12, count: 2, dim: 2, out_ptr: 28 };
    assert!(call.check(mem.len()));
    assert_eq!(host_l2_sq_batch(&mut mem, &call, &l2), 1);
    assert_eq!(words(&mem[28..]), bits(&[1.0, 25.0]));
    let before = mem.clone();
    for wrong in [
        BatchCall { count: 3, ..call },
        BatchCall { query_ptr: 0, ..call },
        BatchCall { out_ptr: 29, ..call },
        BatchCall { dim: 0, ..call },
    ] {
        assert!(!wrong.check(mem.len()));
        assert_eq!(host_l2_sq_batch(&mut mem, &wrong, &l2), 0);
        assert_eq!(mem, before);
    }
}
