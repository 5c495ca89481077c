use fff::artifact::frame::{read_footer_text, seal_artifact};
use fff::artifact::ivf_flat::{
    read_centroids_f32, read_list_offsets_u64, write_ivf_flat_artifact, ChunkError, ChunkType,
    IvfFlatArtifact, IvfFlatArtifactBuildOptions, IvfFlatArtifactFooter,
};
use fff::artifact::posting::PostingCodec;
use fff::artifact::search::{
    search_ivf_flat_artifact_native, ArtifactSearchError, IvfFlatArtifactSearcher,
    IvfFlatSearchStageStats,
};
use fff::footer::GroupedColumnMetadata;
use fff::ivf_assign::{assign_ivf_flat, VectorsLenMismatch};
use fff::ivf_build::build_ivf_flat;
use fff::ivf_columns::{
    load_ivf_flat_index_f3, scan_vectors_from_f3, ArrayData, ColumnBatch, ColumnIndexError,
    IndexColumn, ListValues, NamedColumn, ScanError,
};
use fff::ivf_file::{
    index_file_format, load_ivf_flat_index_binary, write_ivf_flat_index, IndexFileFormat,
    IvfFlatFileError, IvfFlatWriteError,
};
use fff::ivf_flat::{
    search_ivf_flat, IvfFlatBuildOptions, IvfFlatIndex, SearchError, SearchResult,
};
use fff::manifest::{
    index_dir, index_file_name, BaseFileBinding, BaseMismatch, IndexEntry, IndexFile, IndexKind,
    IndexManifest,
};
use fff::selection::{process_selection, Selection};
use fff::training::{TrainingError, TrainingSet};
use rand::rngs::StdRng;
use rand::{Rng, SeedableRng};

fn bits(v: &[f32]) -> Vec<u32> {
    v.iter().map(|x| x.to_bits()).collect()
}

fn l2(a: &[u32], b: &[u32]) -> u32 {
    let mut acc = 0.0f32;
    for i in 0..a.len().min(b.len()) {
        let d = f32::from_bits(a[i]) - f32::from_bits(b[i]);
        acc += d * d;
    }
    acc.to_bits()
}

fn plus(a: u32, b: u32) -> u32 {
    (f32::from_bits(a) + f32::from_bits(b)).to_bits()
}

fn average(sum: u32, n: usize) -> u32 {
    (f32::from_bits(sum) * (1.0 / n as f32)).to_bits()
}

fn half(x: u32) -> u16 {
    half::f16::from_f32(f32::from_bits(x)).to_bits()
}

fn wide_table() -> Vec<u32> {
    (0..=u16::MAX).map(|h| half::f16::from_bits(h).to_f32().to_bits()).collect()
}

fn binding() -> BaseFileBinding {
    BaseFileBinding {
        path: "base.f3".to_string(),
        size: 4096,
        schema_checksum: 11,
        data_checksum: 22,
    }
}

fn build(vectors: &[f32], dim: usize, options: &IvfFlatBuildOptions) -> IvfFlatIndex {
    let mut rng = StdRng::seed_from_u64(options.seed);
    let mut set = TrainingSet::new(dim, options.train_sample);
    set.add_batch(&bits(vectors), &mut rng);
    build_ivf_flat(
        &set,
        options.nlist,
        options.max_kmeans_iters,
        &mut rng,
        &l2,
        &plus,
        &average,
    )
    .unwrap()
}

const VECTORS: [f32; 8] = [0.0, 0.1, 1.0, 1.1, 2.0, 2.1, 3.0, 3.1];

fn options() -> IvfFlatBuildOptions {
    IvfFlatBuildOptions { nlist: 1, train_sample: 4, seed: 1, max_kmeans_iters: 2 }
}

fn entry(name: &str, dim: u32) -> IndexEntry {
    IndexEntry {
        name: name.to_string(),
        path: index_file_name(name, IndexFile::IvfFlat),
        kind: IndexKind::IvfFlat,
        vector_leaf_index: 0,
        dim,
        metric: "l2".to_string(),
        build_params: "{}".to_string(),
        quantization: None,
    }
}

#[test]
fn ivf_flat_build_load_search_roundtrip() {
    let dim = 2usize;
    let index_name = "test_ivf_flat";
    let built = build(&VECTORS, dim, &options());
    let file = write_ivf_flat_index(&binding(), 0, &built).unwrap();

    assert_eq!(index_dir("base.f3"), "base.f3.vindex");
    let manifest = IndexManifest::with_index(None, binding(), entry(index_name, dim as u32));
    let found = manifest.get_by_name(index_name).unwrap();
    assert_eq!(found.vector_leaf_index, 0);
    assert_eq!(found.dim, dim as u32);

    let index = load_ivf_flat_index_binary(&file).unwrap();
    assert_eq!(index.dim, dim);
    assert_eq!(index.nlist, 1);
    assert_eq!(index.list_offsets.len(), 2);
    assert_eq!(index.row_ids.len(), 4);
    assert_eq!(index.vectors.len(), 4 * dim);

    let query = bits(&[2.0, 2.05]);
    assert!(index.is_searchable());
    let results = search_ivf_flat(&index, &query, 2, 1, &l2).unwrap();
    assert_eq!(results.len(), 2);
    assert_eq!(results[0].row_id, 2);
    assert!(f32::from_bits(results[0].distance) >= 0.0);

    let row_indexes: Vec<u64> = results.iter().map(|r| r.row_id as u64).collect();
    let groups = vec![GroupedColumnMetadata {
        column_metadatas: vec![],
        row_count: 4,
        _offset: 0,
        _size: 0,
    }];
    let picked = process_selection(&Selection::RowIndexes(row_indexes), &groups);
    let ids = [10, 11, 12, 13];
    let mut fetched_ids: Vec<i32> = Vec::new();
    for (_, rows) in &picked {
        match rows {
            Selection::All => fetched_ids.extend_from_slice(&ids),
            Selection::RowIndexes(v) => {
                for i in v {
                    fetched_ids.push(ids[*i as usize]);
                }
            }
        }
    }
    assert_eq!(fetched_ids.len(), results.len());
    assert_eq!(fetched_ids, vec![12, 11]);
}

fn artifact_of(index: &IvfFlatIndex, codec: PostingCodec, name: &str) -> (IvfFlatArtifact, Vec<u8>) {
    let (body, chunks) =
        write_ivf_flat_artifact(index, &IvfFlatArtifactBuildOptions { posting_codec: codec }, &half);
    let footer = IvfFlatArtifactFooter {
        base: binding(),
        index_name: name.to_string(),
        kind: IndexKind::IvfFlat,
        vector_leaf_index: 0,
        dim: index.dim as u32,
        nlist: index.nlist as u32,
        metric: "l2".to_string(),
        build_params: "{}".to_string(),
        chunks,
    };
    let file = seal_artifact(body, b"footer text").unwrap();
    (IvfFlatArtifact { path: "base.f3.vindex/a".to_string(), footer }, file)
}

#[test]
fn ivf_flat_artifact_build_load_search_roundtrip() {
    let sidecar = build(&VECTORS, 2, &options());
    let query = bits(&[2.0, 2.05]);
    let expected = search_ivf_flat(&sidecar, &query, 2, 1, &l2).unwrap();

    let (artifact, file) =
        artifact_of(&sidecar, IvfFlatArtifactBuildOptions::default().posting_codec, "test_ivf_flat");
    assert_eq!(read_footer_text(b'1', &file).unwrap(), b"footer text".to_vec());
    artifact.validate_base(4096).unwrap();
    artifact.validate_base_checksums(11, 22).unwrap();

    let results =
        search_ivf_flat_artifact_native(&artifact, &file, &wide_table(), &query, 2, 1, &l2).unwrap();
    assert_eq!(results.len(), expected.len());
    assert_eq!(results[0].row_id, expected[0].row_id);
    assert!(f32::from_bits(results[0].distance) >= 0.0);
}

#[test]
fn ivf_flat_artifact_rowid_delta_varint_codec_roundtrip() {
    let sidecar = build(&VECTORS, 2, &options());
    let query = bits(&[2.0, 2.05]);
    let expected = search_ivf_flat(&sidecar, &query, 2, 1, &l2).unwrap();

    let (artifact, file) =
        artifact_of(&sidecar, PostingCodec::RowIdDeltaVarintV1, "test_ivf_flat_delta");
    let results =
        search_ivf_flat_artifact_native(&artifact, &file, &wide_table(), &query, 2, 1, &l2).unwrap();
    assert_eq!(results.len(), expected.len());
    assert_eq!(results[0].row_id, expected[0].row_id);
}

#[test]
fn half_precision_codecs_find_the_same_rows() {
    let sidecar = build(&VECTORS, 2, &options());
    let query = bits(&[2.0, 2.05]);
    for codec in [PostingCodec::RawF16, PostingCodec::RowIdDeltaVarintV1F16] {
        let (artifact, file) = artifact_of(&sidecar, codec, "halves");
        let results =
            search_ivf_flat_artifact_native(&artifact, &file, &wide_table(), &query, 2, 1, &l2)
                .unwrap();
        let rows: Vec<u32> = results.iter().map(|r| r.row_id).collect();
        assert_eq!(rows, vec![2, 1]);
    }
}

#[test]
fn artifact_chunks_hold_the_parts_of_the_index() {
    let index = build(&VECTORS, 2, &options());
    let (artifact, file) = artifact_of(&index, PostingCodec::Raw, "parts");
    let (_, centroids) = artifact.find_bytes(&file, ChunkType::Centroids, None).unwrap();
    assert_eq!(read_centroids_f32(centroids).unwrap(), index.centroids);
    let (_, offsets) = artifact.find_bytes(&file, ChunkType::ListOffsets, None).unwrap();
    assert_eq!(read_list_offsets_u64(offsets).unwrap(), index.list_offsets);
    let (rows, vectors) = artifact.posting_list(&file, &wide_table(), 0).unwrap();
    assert_eq!(rows, index.row_ids);
    assert_eq!(vectors, index.vectors);
    assert_eq!(
        artifact.find_chunk_id(ChunkType::PostingList, Some(9)).unwrap_err(),
        ChunkError::NotFound { chunk_type: ChunkType::PostingList, list_id: Some(9) }
    );
    assert_eq!(artifact.chunk_by_index(99).unwrap_err(), ChunkError::IdOutOfRange(99));
    assert_eq!(read_centroids_f32(&[1, 2, 3]).unwrap_err(), ChunkError::NotAligned);
}

#[test]
fn artifact_of_another_base_is_refused() {
    let index = build(&VECTORS, 2, &options());
    let (artifact, file) = artifact_of(&index, PostingCodec::Raw, "other");
    assert_eq!(
        artifact.validate_base(4097).unwrap_err(),
        BaseMismatch::Size { expected: 4096, got: 4097 }
    );
    assert_eq!(
        artifact.validate_base_checksums(12, 22).unwrap_err(),
        BaseMismatch::SchemaChecksum { expected: 11, got: 12 }
    );
    assert_eq!(
        artifact.validate_base_checksums(11, 23).unwrap_err(),
        BaseMismatch::DataChecksum { expected: 22, got: 23 }
    );
    let short = &file[..40];
    match search_ivf_flat_artifact_native(&artifact, short, &wide_table(), &bits(&[0.0, 0.0]), 1, 1, &l2) {
        Err(ArtifactSearchError::Truncated) => {}
        other => panic!("{:?}", other),
    }
    match search_ivf_flat_artifact_native(&artifact, &file, &wide_table(), &bits(&[0.0]), 1, 1, &l2) {
        Err(ArtifactSearchError::Search(SearchError::QueryDim { expected: 2, got: 1 })) => {}
        other => panic!("{:?}", other),
    }
}

#[test]
fn searcher_answers_as_the_plain_search_and_uses_its_cache() {
    let index = build(&VECTORS, 2, &options());
    let (artifact, file) = artifact_of(&index, PostingCodec::Raw, "searcher");
    let query = bits(&[0.9, 1.0]);
    let expected =
        search_ivf_flat_artifact_native(&artifact, &file, &wide_table(), &query, 3, 1, &l2).unwrap();
    let mut searcher = IvfFlatArtifactSearcher::open(artifact.clone(), index.centroids.clone());
    searcher.clear_posting_cache();
    let mut stats = IvfFlatSearchStageStats::default();
    let mut cached = IvfFlatArtifactSearcher::open_with_options(artifact, index.centroids, true);
    for (round, misses, hits) in [(1, 1, 0), (2, 1, 1)] {
        let mut run = cached.begin(&query, 3, 1, &l2).unwrap();
        while let Some(list) = run.next_list() {
            let read = if cached.needs_read(list) {
                Some(cached.artifact().posting_list(&file, &wide_table(), list).unwrap())
            } else {
                None
            };
            cached.scan(&mut run, &query, read, &mut stats, &l2).unwrap();
        }
        assert_eq!(run.finish(), expected, "round {}", round);
        assert_eq!(stats.posting_cache_misses, misses);
        assert_eq!(stats.posting_cache_hits, hits);
    }
}

#[test]
fn kept_lists_change_no_answer() {
    let index = build(&VECTORS, 2, &IvfFlatBuildOptions { nlist: 2, ..options() });
    let (artifact, file) = artifact_of(&index, PostingCodec::RowIdDeltaVarintV1, "kept");
    let wide = wide_table();
    let query = bits(&[1.2, 1.0]);
    let plain =
        search_ivf_flat_artifact_native(&artifact, &file, &wide, &query, 3, 2, &l2).unwrap();
    for keeps in [true, false] {
        let (artifact, _) = artifact_of(&index, PostingCodec::RowIdDeltaVarintV1, "kept");
        let mut searcher = IvfFlatArtifactSearcher::open_bytes(artifact, &file, keeps).unwrap();
        let mut stats = IvfFlatSearchStageStats::default();
        for round in 1..4u64 {
            let found = searcher
                .search_profiled(&file, &wide, &query, 3, 2, &mut stats, &l2)
                .unwrap();
            let pairs = |v: &[SearchResult]| -> Vec<(u32, u32)> {
                v.iter().map(|r| (r.row_id, r.distance)).collect()
            };
            assert_eq!(pairs(&found), pairs(&plain));
            let counts = (stats.posting_cache_hits, stats.posting_cache_misses);
            assert_eq!(counts, if keeps { (2 * (round - 1), 2) } else { (0, 2 * round) });
        }
        assert_eq!(searcher.search(&file, &wide, &query, 0, 2, &l2).unwrap().len(), 0);
        assert!(searcher.search(&file, &wide, &query[..1], 3, 2, &l2).is_err());
    }
    let cut = &file[..10];
    assert_eq!(
        IvfFlatArtifactSearcher::open_bytes(artifact, cut, true).err(),
        Some(ArtifactSearchError::Truncated)
    );
}

#[test]
fn index_files_are_told_apart() {
    let index = build(&VECTORS, 2, &options());
    let file = write_ivf_flat_index(&binding(), 0, &index).unwrap();
    assert_eq!(index_file_format(&file[..8]), IndexFileFormat::Binary);
    assert_eq!(index_file_format(&[1, 2, 3]), IndexFileFormat::TooSmall);
    assert_eq!(index_file_format(b"12345678"), IndexFileFormat::Table);
}

#[test]
fn damaged_index_files_are_refused() {
    let index = build(&VECTORS, 2, &options());
    let file = write_ivf_flat_index(&binding(), 0, &index).unwrap();
    for n in 0..file.len() {
        assert!(load_ivf_flat_index_binary(&file[..n]).is_err(), "{} bytes", n);
    }
    let mut wrong = file.clone();
    wrong[0] ^= 1;
    assert_eq!(load_ivf_flat_index_binary(&wrong).unwrap_err(), IvfFlatFileError::MagicMismatch);
    let mut newer = file.clone();
    newer[8] = 9;
    match load_ivf_flat_index_binary(&newer).unwrap_err() {
        IvfFlatFileError::UnsupportedVersion(_) => {}
        other => panic!("{:?}", other),
    }
}

#[test]
fn indexes_whose_parts_disagree_are_not_written() {
    let mut index = build(&VECTORS, 2, &options());
    index.list_offsets.push(4);
    assert_eq!(
        write_ivf_flat_index(&binding(), 0, &index).unwrap_err(),
        IvfFlatWriteError::ListOffsetsLen { expected: 2, got: 3 }
    );
    index.list_offsets.pop();
    index.vectors.pop();
    assert_eq!(
        write_ivf_flat_index(&binding(), 0, &index).unwrap_err(),
        IvfFlatWriteError::VectorsNotAligned { dim: 2, got: 7 }
    );
    index.vectors.pop();
    assert_eq!(
        write_ivf_flat_index(&binding(), 0, &index).unwrap_err(),
        IvfFlatWriteError::VectorsLen { rows: 3, row_ids: 4 }
    );
    index.centroids.pop();
    assert_eq!(
        write_ivf_flat_index(&binding(), 0, &index).unwrap_err(),
        IvfFlatWriteError::CentroidsLen { expected: 2, got: 1 }
    );
}

#[test]
fn vectors_go_to_the_nearest_centroid() {
    let centroids = bits(&[0.0, 10.0]);
    let vectors = bits(&[9.0, 1.0, 11.0, -1.0]);
    let index = assign_ivf_flat(&centroids, 1, 2, &[5, 6, 7, 8], &vectors, &l2).unwrap();
    assert_eq!(index.list_offsets, vec![0, 2, 4]);
    assert_eq!(index.row_ids, vec![6, 8, 5, 7]);
    assert_eq!(index.vectors, bits(&[1.0, -1.0, 9.0, 11.0]));
    assert_eq!(
        assign_ivf_flat(&centroids, 1, 2, &[5, 6], &vectors, &l2).unwrap_err(),
        VectorsLenMismatch
    );
}

#[test]
fn probing_more_lists_finds_more() {
    let centroids = bits(&[0.0, 10.0]);
    let vectors = bits(&[4.9, 5.1, 0.0, 10.0]);
    let index = assign_ivf_flat(&centroids, 1, 2, &[0, 1, 2, 3], &vectors, &l2).unwrap();
    let query = bits(&[4.8]);
    let one: Vec<u32> =
        search_ivf_flat(&index, &query, 2, 1, &l2).unwrap().iter().map(|r| r.row_id).collect();
    let all: Vec<u32> =
        search_ivf_flat(&index, &query, 2, 2, &l2).unwrap().iter().map(|r| r.row_id).collect();
    assert_eq!(one, vec![0, 2]);
    assert_eq!(all, vec![0, 1]);
}

#[test]
fn distances_that_are_no_numbers_are_reported() {
    let index = build(&VECTORS, 2, &options());
    assert_eq!(
        search_ivf_flat(&index, &bits(&[f32::NAN, 0.0]), 1, 1, &l2).unwrap_err(),
        SearchError::NanDistance
    );
    assert_eq!(
        search_ivf_flat(&index, &bits(&[0.0]), 1, 1, &l2).unwrap_err(),
        SearchError::QueryDim { expected: 2, got: 1 }
    );
}

#[test]
fn training_needs_enough_vectors() {
    let empty = TrainingSet::collect(2, 4, 1, &[]);
    assert_eq!(empty.check(1).unwrap_err(), TrainingError::NoVectors);
    let set = TrainingSet::collect(2, 4, 1, &bits(&VECTORS));
    assert_eq!(set.row_ids(), &[0, 1, 2, 3]);
    assert_eq!(set.vectors(), &bits(&VECTORS)[..]);
    assert_eq!(set.check(0).unwrap_err(), TrainingError::NlistZero);
    assert_eq!(set.check(5).unwrap_err(), TrainingError::SampleTooSmall { have: 4, nlist: 5 });
    set.check(4).unwrap();
}

#[test]
fn a_training_sample_keeps_its_size() {
    let vectors: Vec<f32> = (0..200).map(|i| i as f32).collect();
    let set = TrainingSet::collect(2, 10, 3, &bits(&vectors));
    assert_eq!(set.sample().len(), 20);
    assert_eq!(set.vectors().len(), 200);
    for pair in set.sample().chunks(2) {
        let a = f32::from_bits(pair[0]);
        assert_eq!(f32::from_bits(pair[1]), a + 1.0);
        assert_eq!(a % 2.0, 0.0);
    }
    assert!(set.is_full());
}

#[test]
fn an_index_entry_takes_the_place_of_its_namesake() {
    let mut manifest = IndexManifest::with_index(None, binding(), entry("a", 2));
    manifest.add_or_replace_index(entry("b", 3));
    manifest.add_or_replace_index(entry("a", 4));
    assert_eq!(manifest.indexes.len(), 2);
    assert_eq!(manifest.get_by_name("a").unwrap().dim, 4);
    assert_eq!(manifest.get_by_name("b").unwrap().dim, 3);
    assert_eq!(manifest.get_by_name("c").unwrap_err().name, "c");
    manifest.validate_base(4096).unwrap();
    assert!(manifest.validate_base(1).is_err());
}

fn list_column(name: &str, offsets: Vec<i32>, values: ListValues) -> NamedColumn {
    NamedColumn {
        name: name.to_string(),
        data: ArrayData::List { offsets, null_count: 0, values },
    }
}

fn index_batch() -> ColumnBatch {
    ColumnBatch {
        num_rows: 2,
        columns: vec![
            NamedColumn {
                name: "centroids".to_string(),
                data: ArrayData::FixedSizeList {
                    value_length: 1,
                    null_count: 0,
                    values: bits(&[0.0, 10.0]),
                },
            },
            list_column("postings_row_ids", vec![0, 2, 4], ListValues::UInt32(vec![6, 8, 5, 7])),
            list_column(
                "postings_vectors",
                vec![0, 2, 4],
                ListValues::Float32(bits(&[1.0, -1.0, 9.0, 11.0])),
            ),
        ],
    }
}

#[test]
fn an_index_can_be_read_from_columns() {
    let batch = index_batch();
    let index = load_ivf_flat_index_f3(Some(&batch)).unwrap();
    assert_eq!(index.dim, 1);
    assert_eq!(index.nlist, 2);
    assert_eq!(index.list_offsets, vec![0, 2, 4]);
    assert_eq!(index.row_ids, vec![6, 8, 5, 7]);
    let found = search_ivf_flat(&index, &bits(&[9.4]), 1, 2, &l2).unwrap();
    assert_eq!(found[0].row_id, 5);

    assert_eq!(load_ivf_flat_index_f3(None).unwrap_err(), ColumnIndexError::NoBatches);
    let mut missing = index_batch();
    missing.columns.pop();
    assert_eq!(
        load_ivf_flat_index_f3(Some(&missing)).unwrap_err(),
        ColumnIndexError::Missing(IndexColumn::Vectors)
    );
    let mut wrong = index_batch();
    wrong.columns[1].data = ArrayData::Other;
    assert_eq!(
        load_ivf_flat_index_f3(Some(&wrong)).unwrap_err(),
        ColumnIndexError::WrongType(IndexColumn::RowIds)
    );
}

#[test]
fn vectors_are_scanned_from_a_column() {
    let batch = index_batch();
    assert_eq!(scan_vectors_from_f3(&batch, 0, 1).unwrap(), &bits(&[0.0, 10.0])[..]);
    assert_eq!(
        scan_vectors_from_f3(&batch, 3, 1).unwrap_err(),
        ScanError::OutOfRange { index: 3, columns: 3 }
    );
    assert_eq!(scan_vectors_from_f3(&batch, 1, 1).unwrap_err(), ScanError::NotFixedSizeList);
    assert_eq!(
        scan_vectors_from_f3(&batch, 0, 2).unwrap_err(),
        ScanError::DimMismatch { expected: 2, got: 1 }
    );
}

#[test]
fn ivf_flat_recall_at_k_is_high() {
    let dim = 8usize;
    let clusters = 10usize;
    let per_cluster = 20usize;
    let n = clusters * per_cluster;
    let k = 5usize;
    let nprobe = 3usize;
    let mut rng = StdRng::seed_from_u64(123);

    let mut vectors = vec![0.0f32; n * dim];
    for c in 0..clusters {
        let base = (c as f32) * 100.0;
        for j in 0..per_cluster {
            let row = c * per_cluster + j;
            for d in 0..dim {
                let noise = rng.gen_range(-0.05f32..=0.05f32);
                vectors[row * dim + d] = base + (d as f32) * 0.01 + noise;
            }
        }
    }
    let built = build(
        &vectors,
        dim,
        &IvfFlatBuildOptions { nlist: clusters, train_sample: n, seed: 7, max_kmeans_iters: 30 },
    );
    let file = write_ivf_flat_index(&binding(), 0, &built).unwrap();
    let index = load_ivf_flat_index_binary(&file).unwrap();

    let queries = 30usize;
    let mut total_recall = 0.0f32;
    for _ in 0..queries {
        let qi = rng.gen_range(0..n);
        let query = bits(&vectors[qi * dim..(qi + 1) * dim]);
        let approx: Vec<u32> = search_ivf_flat(&index, &query, k, nprobe, &l2)
            .unwrap()
            .iter()
            .map(|r| r.row_id)
            .collect();
        let exact =
            fff::bench::recall::exact_topk_row_ids(&bits(&vectors), dim, &query, k, &l2);
        let hit = fff::bench::recall::common_count(&approx, &exact);
        total_recall += (hit as f32) / (k as f32);
    }
    let avg_recall = total_recall / (queries as f32);
    assert!(avg_recall >= 0.99, "avg_recall@{} too low: {}", k, avg_recall);
}
