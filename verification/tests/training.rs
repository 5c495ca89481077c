use fff::artifact::frame::seal_artifact;
use fff::artifact::ivf_flat::{
    write_ivf_flat_artifact, IvfFlatArtifact, IvfFlatArtifactBuildOptions, IvfFlatArtifactFooter,
};
use fff::artifact::ivf_pq::write_ivf_pq_content;
use fff::artifact::posting::PostingCodec;
use fff::artifact::pq::PqParamsMismatch;
use fff::artifact::pq_build::{build_ivf_pq, train_pq_codebooks, IvfPqBuildError};
use fff::artifact::search::search_ivf_flat_artifact_native;
use fff::bench::recall::exact_topk_row_ids;
use fff::ivf_build::build_ivf_flat;
use fff::ivf_flat::{search_ivf_flat, IvfFlatIndex};
use fff::kmeans::{kmeans_l2, FirstCentroids, TooFewSamples};
use fff::manifest::{BaseFileBinding, IndexKind};
use fff::training::{TrainingError, TrainingSet};
use fff::vector_index::brute_force::{encode_bruteforce_index, BruteForceIndex};
use rand::rngs::StdRng;
use rand::{Rng, SeedableRng};

fn bits(v: &[f32]) -> Vec<u32> {
    v.iter().map(|x| x.to_bits()).collect()
}

fn l2(a: &[u32], b: &[u32]) -> u32 {
    let mut acc = 0.0f32;
    for i in 0..a.len().min(b.len()) {
        let d = f32::from_bits(a[i]) - f32::from_bits(b[i]);
        acc += d * d;
    }
    acc.to_bits()
}

fn plus(a: u32, b: u32) -> u32 {
    (f32::from_bits(a) + f32::from_bits(b)).to_bits()
}

fn minus(a: u32, b: u32) -> u32 {
    (f32::from_bits(a) - f32::from_bits(b)).to_bits()
}

fn average(sum: u32, n: usize) -> u32 {
    (f32::from_bits(sum) * (1.0 / n as f32)).to_bits()
}

fn half(x: u32) -> u16 {
    half::f16::from_f32(f32::from_bits(x)).to_bits()
}

fn wide_table() -> Vec<u32> {
    (0..=u16::MAX).map(|h| half::f16::from_bits(h).to_f32().to_bits()).collect()
}

fn set_of(vectors: &[f32], dim: usize, sample: usize) -> TrainingSet {
    TrainingSet::collect(dim, sample, 7, &bits(vectors))
}

fn random_vectors(n: usize, dim: usize) -> Vec<f32> {
    let mut rng = StdRng::seed_from_u64(5);
    (0..n * dim).map(|_| rng.gen_range(-1.0f32..1.0)).collect()
}

fn built(vectors: &[f32], dim: usize, nlist: usize) -> IvfFlatIndex {
    let set = set_of(vectors, dim, 1000);
    let mut rng = StdRng::seed_from_u64(11);
    build_ivf_flat(&set, nlist, 5, &mut rng, &l2, &plus, &average).unwrap()
}

#[test]
fn first_centroids_are_drawn_until_they_differ() {
    let mut rng = StdRng::seed_from_u64(3);
    let mut first = FirstCentroids::new(5, 5).unwrap();
    first.draw_all(&mut rng);
    assert!(first.done());
    let samples = bits(&[10.0, 11.0, 12.0, 13.0, 14.0]);
    let mut drawn = first.centroids(&samples, 1);
    drawn.sort();
    assert_eq!(drawn, samples);
}

#[test]
fn two_groups_have_their_means_as_centroids() {
    let samples = bits(&[0.0, 2.0, 100.0, 102.0]);
    let mut rng = StdRng::seed_from_u64(1);
    let mut found = kmeans_l2(&samples, 1, 2, 10, &mut rng, &l2, &plus, &average).unwrap();
    found.sort();
    assert_eq!(found, bits(&[1.0, 101.0]));
}

#[test]
fn one_centroid_is_the_mean_of_all() {
    let samples = bits(&[1.0, 2.0, 3.0, 6.0]);
    let mut rng = StdRng::seed_from_u64(1);
    let found = kmeans_l2(&samples, 2, 1, 1, &mut rng, &l2, &plus, &average).unwrap();
    assert_eq!(found, bits(&[2.0, 4.0]));
    let few = kmeans_l2(&samples, 2, 3, 1, &mut rng, &l2, &plus, &average);
    assert_eq!(few.err(), Some(TooFewSamples));
}

#[test]
fn without_rounds_the_centroids_are_vectors_of_the_sample() {
    let samples = bits(&[5.0, 6.0, 7.0]);
    let mut rng = StdRng::seed_from_u64(9);
    let found = kmeans_l2(&samples, 1, 2, 0, &mut rng, &l2, &plus, &average).unwrap();
    assert_eq!(found.len(), 2);
    assert_ne!(found[0], found[1]);
    assert!(found.iter().all(|c| samples.contains(c)));
}

#[test]
fn every_vector_is_in_one_list() {
    let vectors = random_vectors(200, 4);
    let index = built(&vectors, 4, 8);
    assert_eq!(index.nlist, 8);
    assert_eq!(index.list_offsets.len(), 9);
    assert_eq!(index.list_offsets[8], 200);
    let mut rows = index.row_ids.clone();
    rows.sort();
    assert_eq!(rows, (0..200).collect::<Vec<u32>>());
    for (at, row) in index.row_ids.iter().enumerate() {
        let r = *row as usize;
        assert_eq!(index.vectors[at * 4..at * 4 + 4], bits(&vectors[r * 4..r * 4 + 4])[..]);
    }
}

/// The sample when the numbers come from a generator like that of the set.
fn expected_sample(vectors: &[u32], dim: usize, limit: usize, seed: u64) -> Vec<u32> {
    let mut rng = StdRng::seed_from_u64(seed);
    let mut sample: Vec<u32> = Vec::new();
    for (i, v) in vectors.chunks_exact(dim).enumerate() {
        if i < limit {
            sample.extend_from_slice(v);
        } else {
            let at = rng.gen_range(0..i as u64 + 1) as usize;
            if at < limit {
                sample[at * dim..at * dim + dim].copy_from_slice(v);
            }
        }
    }
    sample
}

#[test]
fn a_sample_with_room_is_all_vectors() {
    let vectors = bits(&random_vectors(20, 3));
    let set = TrainingSet::collect(3, 20, 7, &vectors);
    assert_eq!(set.sample(), &vectors[..]);
    assert_eq!(set.draw_bound(), 21);
    assert!(set.is_full());
    let mut two = TrainingSet::new(3, 30);
    let mut rng = StdRng::seed_from_u64(1);
    assert_eq!(two.draw_bound(), 1);
    two.add_batch(&vectors[..21], &mut rng);
    two.add_batch(&vectors[21..], &mut rng);
    assert_eq!(two.sample(), &vectors[..]);
    // Nothing was drawn.
    let mut fresh = StdRng::seed_from_u64(1);
    assert_eq!(rng.gen::<u64>(), fresh.gen::<u64>());
}

#[test]
fn a_full_sample_takes_the_places_that_are_drawn() {
    let vectors = bits(&random_vectors(200, 2));
    let set = TrainingSet::collect(2, 10, 7, &vectors);
    assert_eq!(set.sample(), &expected_sample(&vectors, 2, 10, 7)[..]);
    assert_ne!(set.sample(), &vectors[..20]);
    assert_eq!(set.vectors(), &vectors[..]);
    let mut one = TrainingSet::new(1, 2);
    one.add_vector(&[5], 9);
    one.add_vector(&[6], 9);
    one.add_vector(&[7], 2);
    assert_eq!(one.sample(), &[5, 6]);
    one.add_vector(&[8], 0);
    assert_eq!(one.sample(), &[8, 6]);
    assert_eq!(one.row_ids(), &[0, 1, 2, 3]);
}

#[test]
fn indexes_need_lists_and_vectors() {
    let mut rng = StdRng::seed_from_u64(1);
    let none = TrainingSet::new(2, 10);
    let r = build_ivf_flat(&none, 1, 1, &mut rng, &l2, &plus, &average);
    assert_eq!(r.err(), Some(TrainingError::NoVectors));
    let set = set_of(&[0.0, 1.0, 2.0, 3.0], 2, 10);
    let r = build_ivf_flat(&set, 0, 1, &mut rng, &l2, &plus, &average);
    assert_eq!(r.err(), Some(TrainingError::NlistZero));
    let r = build_ivf_flat(&set, 3, 1, &mut rng, &l2, &plus, &average);
    assert_eq!(r.err(), Some(TrainingError::SampleTooSmall { have: 2, nlist: 3 }));
}

#[test]
fn probing_all_lists_is_exact() {
    let vectors = random_vectors(150, 3);
    let index = built(&vectors, 3, 10);
    let query = bits(&[0.1, -0.3, 0.7]);
    let found = search_ivf_flat(&index, &query, 12, 10, &l2).unwrap();
    let mut ids: Vec<u32> = found.iter().map(|r| r.row_id).collect();
    let mut exact = exact_topk_row_ids(&bits(&vectors), 3, &query, 12, &l2);
    ids.sort();
    exact.sort();
    assert_eq!(ids, exact);
}

#[test]
fn brute_force_is_exact() {
    let vectors = random_vectors(90, 5);
    let rows: Vec<Vec<u32>> = vectors.chunks(5).map(bits).collect();
    let bytes = encode_bruteforce_index(&rows).unwrap();
    let index = BruteForceIndex::from_bytes(&bytes).unwrap();
    let query = bits(&[0.0, 0.5, -0.5, 0.25, 0.1]);
    let found = index.knn_l2(&query, 7, &l2).unwrap();
    let ids: Vec<u32> = found.iter().map(|r| r.row_id as u32).collect();
    assert_eq!(ids, exact_topk_row_ids(&bits(&vectors), 5, &query, 7, &l2));
}

#[test]
fn an_artifact_answers_as_its_index() {
    let vectors = random_vectors(120, 4);
    let index = built(&vectors, 4, 6);
    let query = bits(&[0.2, 0.2, -0.9, 0.0]);
    for codec in [PostingCodec::Raw, PostingCodec::RowIdDeltaVarintV1] {
        let options = IvfFlatArtifactBuildOptions { posting_codec: codec };
        let (body, chunks) = write_ivf_flat_artifact(&index, &options, &half);
        let file = seal_artifact(body, b"{}").unwrap();
        let artifact = IvfFlatArtifact {
            path: "a".to_string(),
            footer: IvfFlatArtifactFooter {
                base: BaseFileBinding {
                    path: "b".to_string(),
                    size: 1,
                    schema_checksum: 2,
                    data_checksum: 3,
                },
                index_name: "i".to_string(),
                kind: IndexKind::IvfFlat,
                vector_leaf_index: 0,
                dim: 4,
                nlist: 6,
                metric: "l2".to_string(),
                build_params: "{}".to_string(),
                chunks,
            },
        };
        let wide = wide_table();
        for nprobe in [1, 3, 6] {
            let a = search_ivf_flat_artifact_native(&artifact, &file, &wide, &query, 9, nprobe, &l2)
                .unwrap();
            let b = search_ivf_flat(&index, &query, 9, nprobe, &l2).unwrap();
            let pairs = |v: &[fff::ivf_flat::SearchResult]| -> Vec<(u32, u32)> {
                v.iter().map(|r| (r.row_id, r.distance)).collect()
            };
            assert_eq!(pairs(&a), pairs(&b));
        }
    }
}

#[test]
fn each_part_of_the_residuals_has_a_codebook() {
    let residuals = bits(&[0.0, 10.0, 4.0, 20.0]);
    let mut rng = StdRng::seed_from_u64(2);
    let books = train_pq_codebooks(&residuals, 2, 1, 1, 1, &mut rng, &l2, &plus, &average).unwrap();
    assert_eq!(books, vec![bits(&[2.0]), bits(&[15.0])]);
    let few = train_pq_codebooks(&residuals, 2, 1, 3, 1, &mut rng, &l2, &plus, &average);
    assert_eq!(few.err(), Some(TooFewSamples));
}

#[test]
fn product_quantised_indexes_are_built() {
    let vectors = random_vectors(300, 4);
    let set = set_of(&vectors, 4, 300);
    let mut rng = StdRng::seed_from_u64(4);
    let parts =
        build_ivf_pq(&set, 2, 2, 2, 2, 1, &mut rng, &l2, &plus, &average, &minus).unwrap();
    assert_eq!(parts.codebooks.len(), 2);
    assert!(parts.codebooks.iter().all(|c| c.len() == 512));
    assert_eq!(parts.index.row_ids.len(), 300);
    let (body, chunks) = write_ivf_pq_content(&parts.index, &parts.codebooks, 2, &l2, &minus);
    assert_eq!(chunks.len(), 4);
    assert!(body.len() > 4 * 1024);
}

#[test]
fn product_quantised_indexes_need_a_sample_and_fitting_parts() {
    let mut rng = StdRng::seed_from_u64(4);
    let set = set_of(&random_vectors(255, 4), 4, 255);
    let r = build_ivf_pq(&set, 2, 1, 2, 2, 1, &mut rng, &l2, &plus, &average, &minus);
    assert_eq!(r.err(), Some(IvfPqBuildError::CodebookSample));
    let r = build_ivf_pq(&set, 2, 1, 3, 2, 1, &mut rng, &l2, &plus, &average, &minus);
    let mismatch = PqParamsMismatch { num_subspaces: 3, subspace_dim: 2, dim: 4 };
    assert_eq!(r.err(), Some(IvfPqBuildError::Params(mismatch)));
    let r = build_ivf_pq(&set, 0, 1, 2, 2, 1, &mut rng, &l2, &plus, &average, &minus);
    assert_eq!(r.err(), Some(IvfPqBuildError::Training(TrainingError::NlistZero)));
}
