use fff::vector_index::brute_force::{encode_bruteforce_index, BruteForceIndex};
use fff::vector_index::hnsw_build::{degree, HnswBuilder};
use fff::vector_index::hnsw_file::encode_hnsw_index;
use fff::vector_index::hnsw_index::HnswIndex;
use fff::vector_index::runtime::{KnnBatchStep, KnnStep, VectorIndexRuntime};
use fff::vector_index::wasm::{
    decode_wasm_batch_results, decode_wasm_results, WasmVectorIndex,
};
use fff::vector_index::{
    QuantizationMethod, QuantizationMethodCode, QuantizationSegment, QuantizationSpec,
    VectorDistanceMetric, VectorDistanceMetricCode, VectorIndexAlgorithm,
    VectorIndexAlgorithmCode, VectorIndexDescriptor, VectorIndexError, VectorSearchResult,
};

fn bits(v: &[f32]) -> Vec<u32> {
    v.iter().map(|x| x.to_bits()).collect()
}

fn all_bits(v: &[Vec<f32>]) -> Vec<Vec<u32>> {
    v.iter().map(|x| bits(x)).collect()
}

fn l2(a: &[u32], b: &[u32]) -> u32 {
    let mut acc = 0.0f32;
    for i in 0..a.len().min(b.len()) {
        let d = f32::from_bits(a[i]) - f32::from_bits(b[i]);
        acc += d * d;
    }
    acc.to_bits()
}

fn grid() -> Vec<Vec<f32>> {
    (0..100).map(|i| vec![(i % 10) as f32, (i / 10) as f32 * 1.01]).collect()
}

fn exact(vectors: &[Vec<f32>], query: &[f32], k: usize) -> Vec<u64> {
    let mut all: Vec<(f32, u64)> = vectors
        .iter()
        .enumerate()
        .map(|(i, v)| (f32::from_bits(l2(&bits(v), &bits(query))), i as u64))
        .collect();
    all.sort_by(|a, b| a.0.total_cmp(&b.0).then(a.1.cmp(&b.1)));
    all.into_iter().take(k).map(|x| x.1).collect()
}

fn rows(results: &[VectorSearchResult]) -> Vec<u64> {
    results.iter().map(|r| r.row_id).collect()
}

fn descriptor(algorithm: VectorIndexAlgorithm, metric: VectorDistanceMetric) -> VectorIndexDescriptor {
    VectorIndexDescriptor {
        index_id: 1,
        column: "v".to_string(),
        algorithm,
        distance_metric: metric,
        priority: 0,
        usage_hint: None,
        quantization: QuantizationSpec { dimension: 2, segments: vec![] },
        custom_params: vec![],
        data_section: None,
        wasm_section: None,
    }
}

#[test]
fn brute_force_indexes_are_read_back() {
    let vectors = grid();
    let bytes = encode_bruteforce_index(&all_bits(&vectors)).unwrap();
    let index = BruteForceIndex::from_bytes(&bytes).unwrap();
    assert_eq!(index.dimension, 2);
    assert_eq!(index.num_vectors, 100);
    let query = [3.4f32, 7.2];
    let found = index.knn_l2(&bits(&query), 7, &l2).unwrap();
    assert_eq!(rows(&found), exact(&vectors, &query, 7));
    assert_eq!(index.knn_l2(&bits(&[1.0]), 7, &l2).unwrap_err(), VectorIndexError::QueryDimension);
    assert_eq!(
        index.knn_l2(&bits(&[f32::NAN, 0.0]), 7, &l2).unwrap_err(),
        VectorIndexError::NanDistance
    );
}

#[test]
fn vectors_that_cannot_be_indexed_are_refused() {
    assert_eq!(encode_bruteforce_index(&[]).unwrap_err(), VectorIndexError::NoVectors);
    assert_eq!(encode_bruteforce_index(&[vec![]]).unwrap_err(), VectorIndexError::ZeroDimension);
    assert_eq!(
        encode_bruteforce_index(&[vec![0], vec![0, 0]]).unwrap_err(),
        VectorIndexError::DimensionMismatch
    );
    assert_eq!(
        encode_hnsw_index(&[vec![0]], 0, 5, &[0], &l2).unwrap_err(),
        VectorIndexError::ZeroNeighbors
    );
    assert_eq!(
        encode_hnsw_index(&[vec![0]], 5, 0, &[0], &l2).unwrap_err(),
        VectorIndexError::ZeroSearch
    );
}

#[test]
fn damaged_brute_force_indexes_are_refused() {
    let bytes = encode_bruteforce_index(&[vec![0, 1], vec![2, 3]]).unwrap();
    for n in 0..bytes.len() {
        assert!(BruteForceIndex::from_bytes(&bytes[..n]).is_err());
    }
    assert_eq!(
        BruteForceIndex::from_bytes(&[0, 0]).unwrap_err(),
        VectorIndexError::HeaderTruncated
    );
    let mut longer = bytes;
    longer.push(0);
    assert_eq!(BruteForceIndex::from_bytes(&longer).unwrap_err(), VectorIndexError::SizeMismatch);
}

#[test]
fn hnsw_indexes_find_near_vectors() {
    let vectors = grid();
    let levels: Vec<usize> = (0..100).map(|i| if i % 16 == 0 { 2 } else if i % 4 == 0 { 1 } else { 0 }).collect();
    let bytes = encode_hnsw_index(&all_bits(&vectors), 16, 64, &levels, &l2).unwrap();
    let index = HnswIndex::from_bytes(&bytes).unwrap();
    assert_eq!(index.dimension, 2);
    assert_eq!(index.nodes.len(), 100);
    for query in [[3.4f32, 7.2], [0.0, 0.0], [9.0, 9.5], [5.1, 4.9]] {
        let found = index.knn_l2(&bits(&query), 5, &l2).unwrap();
        assert_eq!(rows(&found), exact(&vectors, &query, 5));
    }
    assert_eq!(index.knn_l2(&bits(&[1.0]), 7, &l2).unwrap_err(), VectorIndexError::QueryDimension);
}

#[test]
fn damaged_hnsw_indexes_are_refused() {
    let vectors = grid();
    let bytes =
        encode_hnsw_index(&all_bits(&vectors[..8]), 3, 8, &[0, 1, 0, 0, 2, 0, 0, 0], &l2).unwrap();
    HnswIndex::from_bytes(&bytes).unwrap();
    for n in 0..bytes.len() {
        assert!(HnswIndex::from_bytes(&bytes[..n]).is_err(), "{} bytes", n);
    }
    let mut longer = bytes;
    longer.push(0);
    assert_eq!(HnswIndex::from_bytes(&longer).unwrap_err(), VectorIndexError::TrailingBytes);
}

#[test]
fn a_builder_links_no_node_to_more_than_its_share() {
    let vectors = grid();
    let mut builder = HnswBuilder::new(2, 4, 16);
    for (i, v) in vectors.iter().enumerate() {
        builder.add_vector(&bits(v), if i % 8 == 0 { 1 } else { 0 }, &l2).unwrap();
    }
    assert_eq!(builder.nodes.len(), 100);
    for node in &builder.nodes {
        for (level, list) in node.iter().enumerate() {
            let most = if level == 0 { builder.m0 } else { builder.m };
            assert!(list.len() <= most);
            for n in list {
                assert!(*n < 100);
            }
        }
    }
    assert_eq!(
        builder.add_vector(&bits(&[1.0]), 0, &l2).unwrap_err(),
        VectorIndexError::DimensionMismatch
    );
}

#[test]
fn a_distance_that_is_no_number_cannot_be_put_in_order_with_others() {
    let nan = bits(&[f32::NAN, 0.0]);
    let one = encode_hnsw_index(&[bits(&[1.0, 2.0])], 4, 8, &[0], &l2).unwrap();
    let one = HnswIndex::from_bytes(&one).unwrap();
    let found = one.knn_l2(&nan, 3, &l2).unwrap();
    assert_eq!(rows(&found), vec![0]);
    assert!(f32::from_bits(found[0].distance).is_nan());
    assert!(one.knn_l2(&nan, 0, &l2).unwrap().is_empty());

    let two = encode_hnsw_index(&all_bits(&grid()[..2]), 4, 8, &[0, 0], &l2).unwrap();
    let two = HnswIndex::from_bytes(&two).unwrap();
    assert_eq!(two.knn_l2(&nan, 1, &l2).unwrap_err(), VectorIndexError::NanDistance);

    let narrow = encode_hnsw_index(&all_bits(&grid()[..2]), 4, 1, &[0, 0], &l2).unwrap();
    let narrow = HnswIndex::from_bytes(&narrow).unwrap();
    assert_eq!(narrow.knn_l2(&nan, 1, &l2).unwrap().len(), 1);

    let single = encode_hnsw_index(&[nan.clone()], 4, 8, &[0], &l2).unwrap();
    assert!(HnswIndex::from_bytes(&single).is_ok());
    let pair = [nan.clone(), bits(&[0.0, 0.0])];
    let pair = encode_hnsw_index(&pair, 4, 8, &[0, 0], &l2).unwrap();
    assert!(HnswIndex::from_bytes(&pair).is_ok());
    let many = [nan, bits(&[0.0, 0.0]), bits(&[1.0, 0.0])];
    assert_eq!(
        encode_hnsw_index(&many, 4, 8, &[0, 0, 0], &l2).unwrap_err(),
        VectorIndexError::NanDistance
    );
}

#[test]
fn a_batch_fails_as_its_first_failing_query_does() {
    let bytes = encode_hnsw_index(&all_bits(&grid()[..4]), 4, 8, &[0; 4], &l2).unwrap();
    let desc = descriptor(VectorIndexAlgorithm::Hnsw, VectorDistanceMetric::L2);
    let runtime = VectorIndexRuntime::from_descriptor(&desc, &bytes, None).unwrap();
    let fine = bits(&[1.0, 1.0]);
    let nan = bits(&[f32::NAN, 0.0]);
    let short = bits(&[1.0]);
    assert_eq!(
        runtime.knn_l2_batch(&[fine.clone(), nan.clone(), short.clone()], 2, &l2).err(),
        Some(VectorIndexError::NanDistance)
    );
    assert_eq!(
        runtime.knn_l2_batch(&[fine, short, nan], 2, &l2).err(),
        Some(VectorIndexError::QueryDimension)
    );
}

#[test]
fn numbers_of_neighbors_are_kept_within_limits() {
    assert_eq!((degree(1), degree(2), degree(16), degree(64), degree(1000)), (2, 2, 16, 64, 64));
}

#[test]
fn runtimes_follow_the_descriptor() {
    let vectors = grid();
    let brute = encode_bruteforce_index(&all_bits(&vectors)).unwrap();
    let desc = descriptor(VectorIndexAlgorithm::BruteForce, VectorDistanceMetric::L2);
    let runtime = VectorIndexRuntime::from_descriptor(&desc, &brute, None).unwrap();
    match runtime.knn_l2(&bits(&[1.0, 1.0]), 2, &l2).unwrap() {
        KnnStep::Found(v) => assert_eq!(rows(&v), exact(&vectors, &[1.0, 1.0], 2)),
        KnnStep::Ask(_) => panic!("there is no module"),
    }
    let queries = vec![bits(&[1.0, 1.0]), bits(&[8.0, 0.0])];
    match runtime.knn_l2_batch(&queries, 3, &l2).unwrap() {
        KnnBatchStep::Found(v) => {
            assert_eq!(v.len(), 2);
            assert_eq!(rows(&v[1]), exact(&vectors, &[8.0, 0.0], 3));
        }
        KnnBatchStep::Ask(_) => panic!("there is no module"),
    }
    let ivf = descriptor(VectorIndexAlgorithm::Ivf, VectorDistanceMetric::L2);
    assert_eq!(
        VectorIndexRuntime::from_descriptor(&ivf, &brute, None).err(),
        Some(VectorIndexError::UnsupportedAlgorithm)
    );
    let wasm = descriptor(VectorIndexAlgorithm::CustomWasm, VectorDistanceMetric::L2);
    assert_eq!(
        VectorIndexRuntime::from_descriptor(&wasm, &brute, None).err(),
        Some(VectorIndexError::MissingModule)
    );
    let runtime = VectorIndexRuntime::from_descriptor(&wasm, &brute, Some(b"module")).unwrap();
    match runtime.knn_l2(&bits(&[1.0, 1.0]), 2, &l2).unwrap() {
        KnnStep::Ask(question) => {
            let mut expected = 2u32.to_le_bytes().to_vec();
            expected.extend_from_slice(&2u32.to_le_bytes());
            expected.extend_from_slice(&1.0f32.to_le_bytes());
            expected.extend_from_slice(&1.0f32.to_le_bytes());
            assert_eq!(question, expected);
        }
        KnnStep::Found(_) => panic!("the module was not asked"),
    }
}

fn answer(lists: &[&[(u64, f32)]]) -> Vec<u8> {
    let mut out = Vec::new();
    for list in lists {
        out.extend_from_slice(&(list.len() as u32).to_le_bytes());
        for (row, distance) in list.iter() {
            out.extend_from_slice(&row.to_le_bytes());
            out.extend_from_slice(&distance.to_le_bytes());
        }
    }
    out
}

#[test]
fn answers_of_modules_are_read() {
    let one = answer(&[&[(7, 0.5), (9, 1.5)]]);
    let results = decode_wasm_results(&one).unwrap();
    assert_eq!(rows(&results), vec![7, 9]);
    assert_eq!(results[1].distance, 1.5f32.to_bits());
    assert_eq!(decode_wasm_results(&one[..3]).unwrap_err(), VectorIndexError::AnswerTooSmall);
    assert_eq!(
        decode_wasm_results(&one[..one.len() - 1]).unwrap_err(),
        VectorIndexError::AnswerSizeMismatch
    );

    let mut batch = 2u32.to_le_bytes().to_vec();
    batch.extend(answer(&[&[(7, 0.5)], &[(1, 2.0), (2, 3.0)]]));
    let lists = decode_wasm_batch_results(&batch, 2).unwrap();
    assert_eq!(rows(&lists[0]), vec![7]);
    assert_eq!(rows(&lists[1]), vec![1, 2]);
    assert_eq!(
        decode_wasm_batch_results(&batch, 3).unwrap_err(),
        VectorIndexError::BatchCountMismatch
    );
    batch.push(0);
    assert_eq!(
        decode_wasm_batch_results(&batch, 2).unwrap_err(),
        VectorIndexError::BatchTrailingBytes
    );
}

#[test]
fn only_modules_with_euclidean_distance_are_asked() {
    assert_eq!(
        WasmVectorIndex::new(VectorDistanceMetric::Cosine).err(),
        Some(VectorIndexError::UnsupportedMetric)
    );
    let index = WasmVectorIndex::new(VectorDistanceMetric::L2).unwrap();
    assert!(index.knn_batch_request(&[], 3).unwrap().is_none());
}

#[test]
fn descriptors_are_read_back() {
    let mut d = descriptor(VectorIndexAlgorithm::Hnsw, VectorDistanceMetric::Dot);
    d.usage_hint = Some("hint".to_string());
    d.custom_params = vec![1, 2, 3];
    d.quantization.segments = vec![QuantizationSegment {
        start_dim: 0,
        end_dim: 2,
        method: QuantizationMethod::Product,
        bits: 8,
        params: vec![9],
    }];
    let back = VectorIndexDescriptor::from_fb(d.to_fb());
    assert_eq!(back.algorithm, d.algorithm);
    assert_eq!(back.distance_metric, d.distance_metric);
    assert_eq!(back.usage_hint, d.usage_hint);
    assert_eq!(back.custom_params, d.custom_params);
    assert_eq!(back.quantization.segments.len(), 1);
    assert_eq!(back.quantization.segments[0].method, QuantizationMethod::Product);
    assert_eq!(back.quantization.segments[0].params, vec![9]);
}

#[test]
fn unknown_codes_have_a_meaning() {
    assert_eq!(VectorIndexAlgorithmCode::Unknown.to_algorithm(), VectorIndexAlgorithm::BruteForce);
    assert_eq!(VectorDistanceMetricCode::Unknown.to_metric(), VectorDistanceMetric::L2);
    assert_eq!(QuantizationMethodCode::Unknown.to_method(), QuantizationMethod::Unquantized);
    for a in [VectorIndexAlgorithm::BruteForce, VectorIndexAlgorithm::Ivf] {
        assert_eq!(a.to_code().to_algorithm(), a);
    }
}
