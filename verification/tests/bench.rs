use fff::bench::blocks::{build_blocks, pick_blocks, score_of, Block};
use fff::bench::disk;
use fff::bench::fill::fill_f32;
use fff::bench::pipeline::{
    algorithm_label, check_run, parse_algorithm, plan_variant, PipelineAlgorithm, PipelineError,
    RunRequest,
};
use fff::bench::recall::{
    build_expected_set, common_count, count_hits, evaluate_recall, evaluate_recall_batch,
    exact_topk_row_ids, next_batch, EvaluationError, Tally,
};
use fff::bench::vecs::{read_fvecs, read_records, VecsError};
use fff::ivf_columns::{
    read_all_vectors, read_first_vectors, ArrayData, ColumnBatch, NamedColumn, ReadAllError,
    ReadFirstError, ScanError,
};
use fff::vector_index::{VectorIndexAlgorithm, VectorSearchResult};
use rand::rngs::StdRng;
use rand::SeedableRng;

fn bits(v: &[f32]) -> Vec<u32> {
    v.iter().map(|x| x.to_bits()).collect()
}

fn l2(a: &[u32], b: &[u32]) -> u32 {
    let mut acc = 0.0f32;
    for i in 0..a.len().min(b.len()) {
        let d = f32::from_bits(a[i]) - f32::from_bits(b[i]);
        acc += d * d;
    }
    acc.to_bits()
}

fn minus(a: u32, b: u32) -> u32 {
    (f32::from_bits(a) - f32::from_bits(b)).to_bits()
}

fn gap(a: u32, b: u32) -> u32 {
    (f32::from_bits(a) - f32::from_bits(b)).abs().to_bits()
}

#[test]
fn offsets_are_rounded_up() {
    assert_eq!(fff::align_up(0, 4096), 0);
    assert_eq!(fff::align_up(1, 4096), 4096);
    assert_eq!(fff::align_up(4096, 4096), 4096);
    assert_eq!(fff::align_up(4097, 4096), 8192);
}

#[test]
fn the_nearest_blocks_are_picked() {
    let blocks: Vec<Block> = [5000u16, 5500, 6000, 6500]
        .iter()
        .map(|c| Block { center: *c, scores: vec![] })
        .collect();
    assert_eq!(pick_blocks(5600, &blocks, 2), vec![1, 2]);
    assert_eq!(pick_blocks(5250, &blocks, 3), vec![0, 1, 2]);
    assert_eq!(pick_blocks(0, &blocks, 9), vec![0, 1, 2, 3]);
    assert_eq!(pick_blocks(0, &blocks, 0), Vec::<usize>::new());
}

#[test]
fn blocks_are_built_around_their_centers() {
    let mut rng = StdRng::seed_from_u64(42);
    let blocks = build_blocks(200, 16, &mut rng);
    assert_eq!(blocks.len(), 200);
    assert_eq!(blocks[1].center, 5500);
    assert_eq!(blocks[150].center, ((150 * 500 + 5000) % 65536) as u16);
    let mut different = false;
    for b in &blocks {
        assert_eq!(b.scores.len(), 16);
        for s in &b.scores {
            assert!((*s as i32 - b.center as i32).abs() <= 60);
            different |= *s != b.center;
        }
    }
    assert!(different);
    assert_eq!(score_of(30, -60), 0);
    assert_eq!(score_of(65535, 60), 65535);
    assert_eq!(score_of(100, -60), 40);
}

#[test]
fn clusters_stand_one_behind_the_other() {
    let (meta, end) = disk::place_block(10, 4096, 4, 5000.0f32.to_bits(), 6, vec![1, 0, 5]);
    assert_eq!(meta.block_offset, 4096);
    assert_eq!(meta.centroids_offset, 4096);
    assert_eq!(meta.data_offset, 4096 + 3 * 4 * 4);
    assert_eq!(disk::cluster_span(&meta, 4, 0), (meta.data_offset, 16));
    assert_eq!(disk::cluster_span(&meta, 4, 1), (meta.data_offset + 16, 0));
    assert_eq!(disk::cluster_span(&meta, 4, 2), (meta.data_offset + 16, 80));
    assert_eq!(end, meta.data_offset + 96);
    assert_eq!(disk::query_place(100), 128);
    assert_eq!(disk::chosen_cluster(2, 3), 2);
    assert_eq!(disk::chosen_cluster(3, 3), 2);
    assert_eq!(disk::chosen_cluster(-1, 3), 2);
}

#[test]
fn blocks_on_disk_are_picked_by_their_center() {
    let metas: Vec<disk::BlockMeta> = [5000.0f32, 5050.0, 5100.0]
        .iter()
        .map(|c| disk::place_block(0, 64, 1, c.to_bits(), 1, vec![1]).0)
        .collect();
    assert_eq!(disk::pick_blocks(&bits(&[5060.0, 1.0]), &metas, 2, &gap), Some(vec![1, 2]));
    assert_eq!(disk::pick_blocks(&[], &metas, 1, &gap), Some(vec![0]));
    assert_eq!(disk::pick_blocks(&bits(&[f32::NAN]), &metas, 2, &gap), None);
    assert_eq!(disk::pick_blocks(&bits(&[f32::NAN]), &metas[..1], 2, &gap), Some(vec![0]));
}

fn record(values: &[f32]) -> Vec<u8> {
    let mut out = (values.len() as i32).to_le_bytes().to_vec();
    for v in values {
        out.extend_from_slice(&v.to_le_bytes());
    }
    out
}

#[test]
fn files_of_vectors_are_read() {
    let mut file = record(&[1.0, 2.0]);
    file.extend(record(&[3.0]));
    file.extend(record(&[4.0, 5.0, 6.0]));
    let all = vec![bits(&[1.0, 2.0]), bits(&[3.0]), bits(&[4.0, 5.0, 6.0])];
    assert_eq!(read_records(&file, 0).unwrap(), all);
    assert_eq!(read_records(&file, 2).unwrap(), all[..2].to_vec());
    assert_eq!(read_records(&file, 7).unwrap(), all);
    assert_eq!(read_records(&file[..file.len() - 1], 0).unwrap_err(), VecsError::Truncated);
    file.extend_from_slice(&[1, 2]);
    assert_eq!(read_records(&file, 0).unwrap(), all);
    assert_eq!(read_records(&[0, 0, 0, 0], 0).unwrap_err(), VecsError::Dimension { got: 0 });
    assert_eq!(
        read_records(&[255, 255, 255, 255], 0).unwrap_err(),
        VecsError::Dimension { got: u32::MAX }
    );
}

#[test]
fn files_of_equal_vectors_are_read() {
    let mut file = record(&[1.0, 2.0]);
    file.extend(record(&[3.0, 4.0]));
    file.extend(record(&[5.0, 6.0]));
    assert_eq!(read_fvecs(&file, 2).unwrap(), (2, bits(&[1.0, 2.0, 3.0, 4.0])));
    assert_eq!(read_fvecs(&file, 9).unwrap().1.len(), 6);
    assert_eq!(read_fvecs(&file, 0).unwrap(), (2, bits(&[1.0, 2.0])));
    assert_eq!(read_fvecs(&[], 1).unwrap_err(), VecsError::Truncated);
    file.extend(record(&[7.0]));
    assert_eq!(
        read_fvecs(&file, 9).unwrap_err(),
        VecsError::DimMismatch { expected: 2, got: 1 }
    );
    assert_eq!(
        read_fvecs(&10_001i32.to_le_bytes(), 1).unwrap_err(),
        VecsError::Dimension { got: 10_001 }
    );
}

fn found(rows: &[u64]) -> Vec<VectorSearchResult> {
    rows.iter().map(|r| VectorSearchResult { row_id: *r, distance: 0 }).collect()
}

#[test]
fn expected_neighbours_are_the_first_available_ones() {
    let sorted = |mut v: Vec<u32>| {
        v.sort();
        v
    };
    assert_eq!(sorted(build_expected_set(&[9, 3, 7, 1], 2, 8)), vec![3, 7]);
    assert_eq!(sorted(build_expected_set(&[3, 3, 1], 2, 8)), vec![3]);
    assert_eq!(sorted(build_expected_set(&[1, 2, 9], 0, 8)), vec![1, 2]);
    assert_eq!(build_expected_set(&[9, 1, 2], 0, 8), Vec::<u32>::new());
    assert_eq!(build_expected_set(&[9, 10], 5, 8), Vec::<u32>::new());
}

#[test]
fn hits_are_counted() {
    assert_eq!(count_hits(&found(&[1, 5, 1, 9]), &[1, 9]), 3);
    let truth = vec![vec![1, 2], vec![3, 4], vec![5, 6]];
    let results = vec![found(&[1, 2]), found(&[3, 9]), found(&[0, 9])];
    let sum = evaluate_recall(&results, &truth, 2, 10).unwrap();
    assert_eq!(sum, Tally { hits: 3, targets: 6 });
    assert_eq!(evaluate_recall(&[], &truth, 2, 10).unwrap_err(), EvaluationError::NoQueries);
    assert_eq!(
        evaluate_recall(&results, &truth[..2], 2, 10).unwrap_err(),
        EvaluationError::TruthTooShort { truth: 2, queries: 3 }
    );
    let batches = vec![vec![found(&[1, 2]), found(&[3, 9])], vec![found(&[0, 9])]];
    assert_eq!(evaluate_recall_batch(3, &batches, &truth, 2, 10, 2).unwrap(), sum);
    assert_eq!(
        evaluate_recall_batch(3, &batches, &truth, 2, 10, 0).unwrap_err(),
        EvaluationError::ZeroBatch
    );
    assert_eq!(
        evaluate_recall_batch(3, &batches, &truth, 2, 10, 1).unwrap_err(),
        EvaluationError::BatchCount { results: 2, queries: 1 }
    );
    assert_eq!(next_batch(0, 2, 3), 2);
    assert_eq!(next_batch(2, 2, 3), 3);
    assert_eq!(next_batch(1, usize::MAX, 3), 3);
}

#[test]
fn common_numbers_are_counted_once() {
    assert_eq!(common_count(&[1, 1, 2, 3], &[3, 1, 4, 1]), 2);
    assert_eq!(common_count(&[], &[3]), 0);
}

#[test]
fn exact_search_finds_the_nearest_rows() {
    let vectors = bits(&[0.0, 3.0, 1.0, 3.0, -1.0]);
    assert_eq!(exact_topk_row_ids(&vectors, 1, &bits(&[2.9]), 3, &l2), vec![1, 3, 2]);
    assert_eq!(exact_topk_row_ids(&vectors, 1, &bits(&[0.0]), 9, &l2), vec![0, 2, 4, 1, 3]);
    assert_eq!(exact_topk_row_ids(&vectors, 2, &bits(&[1.0, 3.0]), 1, &l2), vec![1]);
}

#[test]
fn names_of_algorithms_are_read_in_any_case() {
    assert_eq!(parse_algorithm("Brute-Force"), Some(PipelineAlgorithm::Brute));
    assert_eq!(parse_algorithm("bruteforce"), Some(PipelineAlgorithm::Brute));
    assert_eq!(parse_algorithm("HNSW"), Some(PipelineAlgorithm::Hnsw));
    assert_eq!(parse_algorithm("hnsw-native"), Some(PipelineAlgorithm::Hnsw));
    assert_eq!(parse_algorithm("cusTOM"), Some(PipelineAlgorithm::Wasm));
    assert_eq!(parse_algorithm("ivf"), None);
    assert_eq!(algorithm_label(PipelineAlgorithm::Wasm), "wasm-hnsw");
    assert_eq!(algorithm_label(PipelineAlgorithm::Brute), "brute-force");
    assert_eq!(algorithm_label(PipelineAlgorithm::Hnsw), "native-hnsw");
}

#[test]
fn measurements_are_checked() {
    let base = vec![vec![0, 0]];
    let request =
        RunRequest { algorithm: "wasm", compare_native: true, has_module: true, batch_size: 4 };
    assert_eq!(check_run(&base, &base, &request), Ok(PipelineAlgorithm::Wasm));
    assert_eq!(check_run(&[], &base, &request), Err(PipelineError::NoVectors));
    assert_eq!(check_run(&base, &[], &request), Err(PipelineError::NoQueries));
    assert_eq!(
        check_run(&base, &[vec![0]], &request),
        Err(PipelineError::DimMismatch { base: 2, query: 1 })
    );
    let with = |f: fn(&mut RunRequest<'static>)| {
        let mut r =
            RunRequest { algorithm: "wasm", compare_native: true, has_module: true, batch_size: 4 };
        f(&mut r);
        check_run(&[vec![0, 0]], &[vec![0, 0]], &r)
    };
    assert_eq!(with(|r| r.batch_size = 0), Err(PipelineError::ZeroBatch));
    assert_eq!(with(|r| r.algorithm = "x"), Err(PipelineError::UnknownAlgorithm));
    assert_eq!(with(|r| r.algorithm = "hnsw"), Err(PipelineError::NothingToCompare));
    assert_eq!(with(|r| r.has_module = false), Err(PipelineError::NoModule));
    let plan = plan_variant(PipelineAlgorithm::Wasm, true, 2).unwrap();
    assert!(plan.batched && plan.graph);
    assert_eq!(plan.algorithm, VectorIndexAlgorithm::CustomWasm);
    assert!(!plan_variant(PipelineAlgorithm::Hnsw, false, 2).unwrap().batched);
    assert!(!plan_variant(PipelineAlgorithm::Brute, false, 2).unwrap().graph);
    assert_eq!(
        plan_variant(PipelineAlgorithm::Wasm, false, 2),
        Err(PipelineError::NoModule)
    );
}

#[test]
fn filled_numbers_follow_from_the_state() {
    let filled = fill_f32(1000, 7, &minus);
    let mut state = 7u64;
    for x in &filled {
        state = state.wrapping_mul(6364136223846793005).wrapping_add(1442695040888963407);
        let mantissa = ((state >> 32) as u32) & 0x007f_ffff;
        let expected = f32::from_bits(0x3f80_0000 | mantissa) - 1.0;
        assert_eq!(f32::from_bits(*x), expected);
        assert!((0.0..1.0).contains(&expected));
    }
}

fn vectors_batch(values: &[f32], null_count: usize) -> ColumnBatch {
    ColumnBatch {
        num_rows: values.len() / 2,
        columns: vec![
            NamedColumn {
                name: "v".to_string(),
                data: ArrayData::FixedSizeList { value_length: 2, null_count, values: bits(values) },
            },
            NamedColumn { name: "id".to_string(), data: ArrayData::Other },
        ],
    }
}

#[test]
fn columns_of_vectors_are_read() {
    let batches = vec![vectors_batch(&[1.0, 2.0], 0), vectors_batch(&[3.0, 4.0, 5.0, 6.0], 0)];
    assert_eq!(read_all_vectors(&batches, 0, 2).unwrap().len(), 6);
    assert_eq!(
        read_all_vectors(&batches, 1, 2).unwrap_err(),
        ReadAllError::Scan(ScanError::NotFixedSizeList)
    );
    assert_eq!(
        read_all_vectors(&[vectors_batch(&[1.0, 2.0], 1)], 0, 2).unwrap_err(),
        ReadAllError::Scan(ScanError::Nulls)
    );
    assert_eq!(
        read_all_vectors(&[], 0, 0).unwrap_err(),
        ReadAllError::NotDivisible { len: 0, dim: 0 }
    );
    let first = read_first_vectors(Some(&batches[1]), 0, 2, 1).unwrap();
    assert_eq!(first, bits(&[3.0, 4.0]));
    assert_eq!(
        read_first_vectors(Some(&batches[0]), 0, 2, 2).unwrap_err(),
        ReadFirstError::TooFewValues { wanted: 4, have: 2 }
    );
    assert_eq!(read_first_vectors(None, 0, 2, 2).unwrap_err(), ReadFirstError::NoBatches);
    assert_eq!(
        read_first_vectors(Some(&batches[0]), 5, 2, 1).unwrap_err(),
        ReadFirstError::OutOfRange { index: 5, columns: 2 }
    );
    assert_eq!(
        read_first_vectors(Some(&batches[0]), 0, 3, 1).unwrap_err(),
        ReadFirstError::DimMismatch { expected: 3, got: 2 }
    );
}
