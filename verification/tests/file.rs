use bytes::BytesMut;
use fff::chunk_decoder::{decode_rows_at, NoDictColDecoder};
use fff::decoder::{verify_chunk, ChunkChecksumError, LogicalColDecoder};
use fff::encoded_chunk::{EncodedColumnChunk, SerializedEncUnit};
use fff::encoder::{
    count_all_written, count_written, create_logical_encoder, LogicalColEncoder, LogicalId,
};
use fff::file_footer::{
    column_spans, footer_start, parse_footer, parse_footer_with, Footer, FooterError, FooterNode,
    ParsedFooter, SchemaMessage,
};
use fff::file_format::{ChecksumType, CompressionType, EncodingType};
use fff::file_writer::{FileWriter, FinishParts};
use fff::footer::{Encoding, GroupedColumnMetadata};
use fff::options::FileWriterOptions;
use fff::postscript::{read_base_checksums, read_postscript, write_postscript, MagicMismatch, PostScript};
use fff::read_plan::plan_read;
use fff::reader::{
    get_avg_io_unit_size, get_max_chunk_size, get_metadata_span, load_vector_index_blob,
    load_vector_index_wasm, vector_knn_l2, IndexLoad, IndexLoadError, WasmSpan,
};
use fff::schema::{field_to_view, ColumnIndexSequence, DataType, Field, Schema};
use fff::selection::{Projection, Selection};
use fff::tables::ColumnMetadataTable;
use fff::vector::{binary_to_vector, vector_to_binary, InvalidVectorLength};
use fff::vector_encoder::{extract_items, extract_validity};
use fff::vector_index::brute_force::encode_bruteforce_index;
use fff::vector_index::runtime::{KnnStep, VectorIndexRuntime};
use fff::vector_index::{
    QuantizationMethod, QuantizationSegment, QuantizationSpec, VectorDistanceMetric,
    VectorIndexAlgorithm, VectorIndexBuildAlgorithm, VectorIndexBuildConfig, VectorIndexConfig,
    VectorIndexDescriptor, VectorSearchResult,
};
use xxhash_rust::xxh64::xxh64;

fn field(name: &str, data_type: DataType, nullable: bool) -> Field {
    Field { name: name.to_string(), data_type, nullable }
}

fn bits(v: &[f32]) -> Vec<u32> {
    v.iter().map(|x| x.to_bits()).collect()
}

fn all_bits(v: &[Vec<f32>]) -> Vec<Vec<u32>> {
    v.iter().map(|x| bits(x)).collect()
}

fn l2(a: &[u32], b: &[u32]) -> u32 {
    let mut acc = 0.0f32;
    for i in 0..a.len().min(b.len()) {
        let d = f32::from_bits(a[i]) - f32::from_bits(b[i]);
        acc += d * d;
    }
    acc.to_bits()
}

fn i32_bytes(v: &[i32]) -> Vec<u8> {
    v.iter().flat_map(|x| x.to_le_bytes()).collect()
}

fn unit(bytes: Vec<u8>, rows: u32) -> SerializedEncUnit {
    SerializedEncUnit::from_vec(
        bytes,
        rows,
        Encoding::try_new(EncodingType::PLAIN, None).unwrap(),
        CompressionType::uncompressed(),
    )
}

fn chunk(units: Vec<SerializedEncUnit>, rows: usize) -> EncodedColumnChunk {
    let mut builder = EncodedColumnChunk::builder();
    builder.encunits = units;
    builder.num_rows = rows;
    builder.build()
}

const SCHEMA_MESSAGE: &[u8] = b"names and types of the columns";
const MODULES_TABLE: &[u8] = b"table of modules";
const FOOTER: &[u8] = b"what the footer says";

struct Written {
    file: Vec<u8>,
    node: FooterNode,
    columns: Vec<Vec<ColumnMetadataTable>>,
    column_bytes: Vec<Vec<Vec<u8>>>,
    modules: Vec<fff::footer::MetadataSection>,
}

/// Writes one batch: for each column the bytes of its physical columns, all with
/// the given numbers of rows.
fn write(
    schema: Schema,
    outputs: Vec<Vec<(Vec<u8>, usize)>>,
    num_rows: u32,
    mut options: FileWriterOptions,
) -> Written {
    let mut writer = FileWriter::try_new(
        schema,
        options.row_group_size(),
        options.enable_io_unit_checksum(),
        options.enable_micro_index(),
        false,
    );
    let mut chunks = Vec::new();
    for (encoder, parts) in writer.column_encoders.iter().zip(outputs) {
        let made = parts
            .into_iter()
            .map(|(bytes, rows)| vec![chunk(vec![unit(bytes, rows as u32)], rows)])
            .collect();
        chunks.extend(encoder.label(made).unwrap());
    }
    writer.write_batch(chunks, num_rows);
    let finishing = writer.finish(FinishParts {
        pending: vec![],
        dicts: vec![],
        merge_peers: vec![],
        dict_types: vec![],
        modules: vec![b"a module".to_vec()],
        micro_module: None,
        vector_indexes: options.take_vector_indexes(),
        schema_message: SCHEMA_MESSAGE.to_vec(),
    });
    let modules = finishing.module_sections.clone();
    let ready = finishing.write_modules_table(MODULES_TABLE).unwrap();
    let mut columns = Vec::new();
    let mut column_bytes = Vec::new();
    for (g, group) in ready.state.row_groups_table.row_group_metadata().iter().enumerate() {
        let tables: Vec<ColumnMetadataTable> =
            group.col_metadatas().iter().map(|c| c.to_fb()).collect();
        column_bytes.push(
            (0..tables.len()).map(|c| format!("group {} column {}", g, c).into_bytes()).collect(),
        );
        columns.push(tables);
    }
    let mut ready = ready.write_columns(&column_bytes).unwrap();
    assert_eq!(ready.node.schema.as_deref(), Some(SCHEMA_MESSAGE));
    let node = std::mem::replace(&mut ready.node, empty_node());
    let (file, _) = ready.write_footer(FOOTER).unwrap();
    Written { file, node, columns, column_bytes, modules }
}

struct Opened {
    file: Vec<u8>,
    postscript: PostScript,
    parsed: ParsedFooter,
    footer: Footer,
}

fn open(written: Written, fields: fn() -> Vec<Field>) -> Opened {
    let file = written.file;
    let n = file.len();
    let postscript = read_postscript(&file[n - 32..]).unwrap();
    let (start, size) = get_metadata_span(n as u64, &postscript).unwrap();
    let metadata = &file[start as usize..start as usize + size as usize];
    assert!(postscript.footer_size <= postscript.metadata_size);
    assert_eq!(&metadata[footer_start(&postscript)..], FOOTER);
    let parsed = parse_footer(written.node, |message| {
        assert_eq!(&message[..], SCHEMA_MESSAGE);
        SchemaMessage::Schema(Schema { fields: fields() })
    })
    .unwrap();
    let spans = column_spans(&parsed.row_groups, n as u64, &postscript).unwrap();
    for (g, group) in spans.iter().enumerate() {
        for (c, (from, to)) in group.iter().enumerate() {
            assert_eq!(&metadata[*from..*to], &written.column_bytes[g][c][..]);
        }
    }
    let footer =
        Footer::try_new(Schema { fields: fields() }, &parsed.row_groups, written.columns).unwrap();
    let module = &written.modules[0];
    assert_eq!(&file[module.offset as usize..][..module.size as usize], b"a module");
    Opened { file, postscript, parsed, footer }
}

/// The bytes of a physical column of a row group, one unit.
fn column_bytes(opened: &Opened, group: usize, column: usize) -> (Vec<fff::tables::EncUnitTable>, Vec<u8>) {
    let table = &opened.footer.row_group_metadatas()[group].column_metadatas[column];
    let chunk = &table.column_chunks.as_ref().unwrap()[0];
    let bytes = opened.file[chunk.offset as usize..][..chunk.size_ as usize].to_vec();
    verify_chunk(&bytes, chunk.checksum, chunk.checksum.is_some()).unwrap();
    (chunk.encunits.clone().unwrap(), bytes)
}

/// The rows that a selection picks of a physical column whose rows all have
/// `width` bytes.
fn read_rows(opened: &Opened, selection: Selection, column: usize, width: usize) -> Vec<Vec<u8>> {
    let schema = opened.footer.schema();
    let groups = opened.footer.row_group_metadatas();
    let plans = plan_read(&schema.fields, groups, &Projection::All, &selection, false).unwrap();
    let mut out = Vec::new();
    for plan in &plans {
        let g = groups.iter().position(|g| std::ptr::eq(g, plan.group)).unwrap();
        let (units, bytes) = column_bytes(opened, g, column);
        let sizes: Vec<u64> = units.iter().map(|u| u.num_rows as u64).collect();
        let mut decoder =
            NoDictColDecoder::checked_new(units, BytesMut::from(&bytes[..])).unwrap();
        let mut parts = Vec::new();
        while let Some(data) = decoder.decode_batch() {
            parts.push(data);
        }
        for place in decode_rows_at(&sizes, &plan.rows()) {
            let from = place.from * width;
            out.push(parts[place.part].as_ref()[from..from + place.count * width].to_vec());
        }
    }
    out
}

/// In how many parts the selected rows are read.
fn parts_read(opened: &Opened, selection: Selection) -> usize {
    plan_read(
        &opened.footer.schema().fields,
        opened.footer.row_group_metadatas(),
        &Projection::All,
        &selection,
        false,
    )
    .unwrap()
    .len()
}

#[test]
fn test_footer_roundtrip() {
    let fields = || {
        vec![field("a", DataType::Int32, false), field("b", DataType::Int32, true)]
    };
    let schema_checksum = xxh64(SCHEMA_MESSAGE, 0);
    let written = write(
        Schema { fields: fields() },
        vec![
            vec![(i32_bytes(&[1, 2, 3, 4, 5]), 5)],
            vec![(i32_bytes(&[5, 4, 3, 2, 1]), 5)],
        ],
        5,
        FileWriterOptions::default(),
    );
    let opened = open(written, fields);
    assert_eq!(opened.postscript.checksum_type, ChecksumType::xx_hash());
    assert_eq!(opened.postscript.schema_checksum, schema_checksum);
    let footer = &opened.footer;
    assert_eq!(footer.schema().fields.len(), 2);
    assert_eq!(footer.schema().fields[0].name, "a");
    let column_chunk =
        &footer.row_group_metadatas()[0].column_metadatas[0].column_chunks.as_ref().unwrap()[0];
    assert_eq!(column_chunk.offset, 0);
    assert_eq!(column_chunk.num_rows, 5);
    let row_groups = &opened.parsed.row_groups;
    assert_eq!(row_groups.row_counts.as_ref().unwrap(), &vec![5]);
    assert_eq!(row_groups.offsets.as_ref().unwrap(), &vec![0]);
    assert_eq!(
        row_groups.row_group_metadatas.as_ref().unwrap()[0].col_metadatas.as_ref().unwrap().len(),
        2
    );
    let n = opened.file.len();
    assert_eq!(
        opened.postscript.data_checksum,
        xxh64(&opened.file[..n - 32], 0),
        "the checksum covers everything in front of the postscript"
    );
    assert_eq!(
        read_base_checksums(&opened.file[n - 32..]).unwrap(),
        (opened.postscript.schema_checksum, opened.postscript.data_checksum)
    );
    let sections = opened.parsed.optional_sections.as_ref().unwrap();
    assert_eq!(sections.names, vec!["WASMBinaries".to_string()]);
    assert_eq!(
        &opened.file[sections.offsets[0] as usize..][..sections.sizes[0] as usize],
        MODULES_TABLE
    );
}

#[test]
fn test_selection_multiple_row_indexes_preserve_order() {
    let fields = || vec![field("a", DataType::Int32, false)];
    let values: Vec<i32> = (0..10).collect();
    let written = write(
        Schema { fields: fields() },
        vec![vec![(i32_bytes(&values), 10)]],
        10,
        FileWriterOptions::default(),
    );
    let opened = open(written, fields);
    assert_eq!(parts_read(&opened, Selection::RowIndexes(vec![3, 1, 4])), 1);
    let rows = read_rows(&opened, Selection::RowIndexes(vec![3, 1, 4]), 0, 4);
    assert_eq!(rows.len(), 3);
    let values: Vec<i32> =
        rows.iter().map(|b| i32::from_le_bytes([b[0], b[1], b[2], b[3]])).collect();
    assert_eq!(values, vec![3, 1, 4]);
    assert_eq!(read_rows(&opened, Selection::All, 0, 4).len(), 10);
}

#[test]
fn test_fixed_size_list_roundtrip_and_selection() {
    let dim = 2i32;
    let fields = || {
        vec![field(
            "v",
            DataType::FixedSizeList(Box::new(field("item", DataType::Float32, false)), 2),
            false,
        )]
    };
    let values = bits(&[0.0, 0.1, 1.0, 1.1, 2.0, 2.1, 3.0, 3.1]);
    let rows = vector_to_binary(&values, &[true; 4], dim as usize);
    let bytes: Vec<u8> = rows.into_iter().flat_map(|r| r.unwrap()).collect();
    let written = write(
        Schema { fields: fields() },
        vec![vec![(bytes, 4)]],
        4,
        FileWriterOptions::default(),
    );
    let opened = open(written, fields);
    assert_eq!(parts_read(&opened, Selection::RowIndexes(vec![2, 0])), 1);
    let rows = read_rows(&opened, Selection::RowIndexes(vec![2, 0]), 0, 4 * dim as usize);
    assert_eq!(rows.len(), 2);
    let plans = plan_read(
        &opened.footer.schema().fields,
        opened.footer.row_group_metadatas(),
        &Projection::All,
        &Selection::All,
        true,
    )
    .unwrap();
    match &plans[0].decoders[0] {
        LogicalColDecoder::Vector(v) => {
            assert_eq!(v.dim, dim);
            assert!(matches!(v.inner.primitive_type, DataType::Binary));
            assert!(v.inner.verify);
        }
        _ => panic!("no decoder of vectors"),
    }
    let rows: Vec<Option<Vec<u8>>> = rows.into_iter().map(Some).collect();
    let out: Vec<f32> = binary_to_vector(&rows, dim as usize, false)
        .unwrap()
        .into_iter()
        .flat_map(|v| v.unwrap())
        .map(f32::from_bits)
        .collect();
    assert_eq!(out, vec![2.0, 2.1, 0.0, 0.1]);
}

#[test]
fn test_list_encoder() {
    let list = field(
        "a",
        DataType::List(Box::new(field("item", DataType::Int32, true))),
        true,
    );
    // [1, 2, 3], [4, 5], [null], [6, 7, 8, 9]
    let offsets: Vec<i64> = vec![0, 3, 5, 6, 10];
    assert_eq!(extract_items(&offsets, 0, 4), (0, 10));
    assert_eq!(extract_validity(None, 4), vec![true; 4]);
    let mut column_idx = ColumnIndexSequence::default();
    let (encoder, tree) = create_logical_encoder(&list, &mut column_idx, false, false);
    assert_eq!(tree.id, LogicalId::List);
    assert_eq!(encoder.columns(), vec![0, 1]);
    let offset_bytes: Vec<u8> = offsets.iter().flat_map(|x| x.to_le_bytes()).collect();
    let chunks = encoder
        .label(vec![
            vec![chunk(vec![unit(offset_bytes, 4)], 4)],
            vec![chunk(vec![unit(i32_bytes(&[1, 2, 3, 4, 5, 0, 6, 7, 8, 9]), 10)], 10)],
        ])
        .unwrap();

    assert_eq!(chunks.len(), 2);
    let offsets_chunk = &chunks[0];
    let values_chunk = &chunks[1];
    assert_eq!(offsets_chunk.encunits.len(), 1);
    assert_eq!(values_chunk.encunits.len(), 1);
    assert_eq!(offsets_chunk.column_index, 0);
    assert_eq!(values_chunk.column_index, 1);
}

/// Answers a query through an index that is embedded in a file.
fn ask(opened: &Opened, index_id: u32, query: &[f32], k: usize) -> Vec<VectorSearchResult> {
    let indexes: &Vec<VectorIndexDescriptor> = &opened.parsed.vector_indexes;
    match vector_knn_l2(indexes, index_id, false).unwrap() {
        IndexLoad::Cached => panic!("nothing was loaded"),
        IndexLoad::Read { index, blob_offset, blob_size, wasm } => {
            assert_eq!(wasm, WasmSpan::Absent);
            let blob = &opened.file[blob_offset as usize..][..blob_size as usize];
            let runtime = VectorIndexRuntime::from_descriptor(&indexes[index], blob, None).unwrap();
            match runtime.knn_l2(&bits(query), k, &l2).unwrap() {
                KnnStep::Found(results) => results,
                KnnStep::Ask(_) => panic!("there is no module"),
            }
        }
    }
}

#[test]
fn vector_index_metadata_roundtrip() {
    let fields = || vec![field("values", DataType::Int32, false)];
    let vector_data = encode_bruteforce_index(&all_bits(&[
        vec![0.0, 0.0],
        vec![1.0, 0.0],
        vec![0.0, 1.0],
        vec![1.0, 1.0],
    ]))
    .unwrap();
    let vector_config = VectorIndexConfig {
        index_id: 7,
        column: "values".to_string(),
        algorithm: VectorIndexAlgorithm::BruteForce,
        distance_metric: VectorDistanceMetric::L2,
        priority: 1,
        usage_hint: Some("unit-test".to_string()),
        quantization: QuantizationSpec {
            dimension: 2,
            segments: vec![QuantizationSegment {
                start_dim: 0,
                end_dim: 2,
                method: QuantizationMethod::Unquantized,
                bits: 0,
                params: vec![],
            }],
        },
        custom_params: vec![42, 0, 13],
        data: vector_data.clone(),
        wasm_module: None,
    };
    let options = FileWriterOptions::builder().add_vector_index(vector_config).build();
    let written = write(
        Schema { fields: fields() },
        vec![vec![(i32_bytes(&[10, 20, 30, 40]), 4)]],
        4,
        options,
    );
    let opened = open(written, fields);

    let indexes = &opened.parsed.vector_indexes;
    assert_eq!(indexes.len(), 1);
    let descriptor = &indexes[0];
    assert_eq!(descriptor.index_id, 7);
    assert_eq!(descriptor.column, "values");
    assert_eq!(descriptor.usage_hint.as_deref(), Some("unit-test"));
    assert_eq!(descriptor.custom_params, vec![42, 0, 13]);
    assert_eq!(descriptor.quantization.dimension, 2, "quantization metadata preserved");

    let (offset, size) =
        load_vector_index_blob(indexes, 7).unwrap().expect("vector blob present");
    assert_eq!(&opened.file[offset as usize..][..size as usize], &vector_data[..]);

    let wasm_blob = load_vector_index_wasm(indexes, 7).unwrap();
    assert!(wasm_blob.is_none(), "Wasm blob should be absent for this test");

    let results = ask(&opened, 7, &[0.9, 0.1], 2);
    assert_eq!(results.len(), 2);
    assert_eq!(results[0].row_id, 1);
    let recall_at_1: f32 = if results[0].row_id == 1 { 1.0 } else { 0.0 };
    assert!(
        (recall_at_1 - 1.0_f32).abs() < f32::EPSILON,
        "recall@1 should be 1.0 for brute-force index"
    );

    assert!(matches!(vector_knn_l2(indexes, 8, false), Err(IndexLoadError::NotFound(8))));
    assert!(matches!(vector_knn_l2(indexes, 7, true), Ok(IndexLoad::Cached)));
    assert_eq!(load_vector_index_blob(indexes, 8).unwrap(), None);
}

fn brute_force_knn(vectors: &[Vec<f32>], query: &[f32], k: usize) -> Vec<(usize, f32)> {
    let mut pairs: Vec<(usize, f32)> = vectors
        .iter()
        .enumerate()
        .map(|(idx, vec)| {
            let dist = vec
                .iter()
                .zip(query.iter())
                .map(|(a, b)| {
                    let diff = a - b;
                    diff * diff
                })
                .sum();
            (idx, dist)
        })
        .collect();
    pairs.sort_by(|a, b| a.1.partial_cmp(&b.1).unwrap());
    pairs.truncate(k.min(pairs.len()));
    pairs
}

fn list_outputs(vectors: &[Vec<f32>]) -> Vec<(Vec<u8>, usize)> {
    let mut offsets: Vec<u8> = 0i64.to_le_bytes().to_vec();
    let mut values: Vec<u8> = Vec::new();
    let mut total = 0i64;
    for v in vectors {
        total += v.len() as i64;
        offsets.extend_from_slice(&total.to_le_bytes());
        for x in v {
            values.extend_from_slice(&x.to_le_bytes());
        }
    }
    vec![(offsets, vectors.len()), (values, total as usize)]
}

fn list_field() -> Field {
    field(
        "vecs",
        DataType::List(Box::new(field("item", DataType::Float32, true))),
        false,
    )
}

#[test]
fn vector_column_with_bruteforce_index_build() {
    let source_vectors = vec![
        vec![0.0, 0.0],
        vec![1.0, 0.0],
        vec![0.0, 1.0],
        vec![1.0, 1.0],
        vec![0.5, 0.5],
        vec![0.2, 0.9],
        vec![0.9, 0.2],
        vec![0.3, 0.3],
    ];
    let fields = || vec![list_field(), field("values", DataType::Int32, false)];
    let build_cfg = VectorIndexBuildConfig {
        index_id: 7,
        column: "vecs".to_string(),
        algorithm: VectorIndexBuildAlgorithm::BruteForce,
        distance_metric: VectorDistanceMetric::L2,
        priority: 0,
        usage_hint: Some("build-brute".to_string()),
        quantization: QuantizationSpec { dimension: 0, segments: vec![] },
        custom_params: vec![],
    };
    let options = FileWriterOptions::builder().add_vector_index_build(build_cfg).build();
    let mut options = options;
    let builds = std::mem::take(&mut options.vector_index_builds);
    assert_eq!(builds.len(), 1);
    for b in builds {
        let config = b.build(&all_bits(&source_vectors), &[0; 8], &l2).unwrap();
        options.vector_indexes.push(config);
    }
    let mut outputs = vec![list_outputs(&source_vectors)];
    outputs.push(vec![(i32_bytes(&[10, 20, 30, 40, 50, 60, 70, 80]), 8)]);
    let written = write(Schema { fields: fields() }, outputs, 8, options);
    let opened = open(written, fields);

    let indexes = &opened.parsed.vector_indexes;
    assert_eq!(indexes.len(), 1);
    assert_eq!(indexes[0].index_id, 7);
    assert_eq!(indexes[0].column, "vecs");
    assert_eq!(indexes[0].algorithm, VectorIndexAlgorithm::BruteForce);
    assert_eq!(indexes[0].quantization.dimension, 2);

    let (_, size) = load_vector_index_blob(indexes, 7).unwrap().unwrap();
    assert!(size > 0);

    let query = [0.9_f32, 0.1_f32];
    let actual = ask(&opened, 7, &query, 3);
    let expected = brute_force_knn(&source_vectors, &query, 3);
    assert_eq!(actual.len(), 3);
    for (res, exp) in actual.iter().zip(expected.iter()) {
        assert_eq!(res.row_id, exp.0 as u64);
        assert!((f32::from_bits(res.distance) - exp.1).abs() < 1e-6);
    }

    assert_eq!(parts_read(&opened, Selection::All), 1);
    let (_, offsets) = column_bytes(&opened, 0, 0);
    let (_, values) = column_bytes(&opened, 0, 1);
    let offsets: Vec<usize> = offsets
        .chunks(8)
        .map(|b| i64::from_le_bytes(b.try_into().unwrap()) as usize)
        .collect();
    let floats: Vec<f32> =
        values.chunks(4).map(|b| f32::from_le_bytes(b.try_into().unwrap())).collect();
    let vecs_back: Vec<Vec<f32>> =
        (0..8).map(|i| floats[offsets[i]..offsets[i + 1]].to_vec()).collect();
    assert_eq!(vecs_back, source_vectors);
}

#[test]
fn vector_column_with_hnsw_index_build() {
    let source_vectors = vec![
        vec![0.0, 0.0],
        vec![1.0, 0.0],
        vec![0.0, 1.0],
        vec![1.0, 1.0],
        vec![0.5, 0.5],
        vec![0.2, 0.9],
        vec![0.9, 0.2],
        vec![0.3, 0.3],
        vec![0.8, 0.75],
        vec![0.15, 0.2],
    ];
    let fields = || vec![list_field()];
    let build_cfg = VectorIndexBuildConfig {
        index_id: 11,
        column: "vecs".to_string(),
        algorithm: VectorIndexBuildAlgorithm::Hnsw {
            max_neighbors: source_vectors.len() - 1,
            ef_search: source_vectors.len(),
        },
        distance_metric: VectorDistanceMetric::L2,
        priority: 0,
        usage_hint: Some("build-hnsw".to_string()),
        quantization: QuantizationSpec { dimension: 0, segments: vec![] },
        custom_params: vec![],
    };
    let mut options = FileWriterOptions::builder().add_vector_index_build(build_cfg).build();
    for b in std::mem::take(&mut options.vector_index_builds) {
        let config = b
            .build(&all_bits(&source_vectors), &[0, 0, 1, 0, 2, 0, 0, 1, 0, 0], &l2)
            .unwrap();
        options.vector_indexes.push(config);
    }
    let written = write(
        Schema { fields: fields() },
        vec![list_outputs(&source_vectors)],
        10,
        options,
    );
    let opened = open(written, fields);

    let indexes = &opened.parsed.vector_indexes;
    assert_eq!(indexes.len(), 1);
    assert_eq!(indexes[0].algorithm, VectorIndexAlgorithm::Hnsw);

    let query = [0.9_f32, 0.1_f32];
    let actual = ask(&opened, 11, &query, 3);
    let expected = brute_force_knn(&source_vectors, &query, 3);
    assert_eq!(actual.len(), 3);
    for (res, exp) in actual.iter().zip(expected.iter()) {
        assert_eq!(res.row_id, exp.0 as u64);
        assert!((f32::from_bits(res.distance) - exp.1).abs() < 1e-6);
    }
}

#[test]
fn row_groups_are_cut_when_they_are_full() {
    let mut writer = FileWriter::try_new(
        Schema { fields: vec![field("a", DataType::Int32, false)] },
        4,
        true,
        false,
        false,
    );
    for start in [0, 3, 6] {
        let bytes = i32_bytes(&[start, start + 1, start + 2]);
        let chunks =
            writer.column_encoders[0].label(vec![vec![chunk(vec![unit(bytes, 3)], 3)]]).unwrap();
        if writer.write_batch(chunks, 3) {
            writer.end_row_group(vec![]);
        }
    }
    let finishing = writer.finish(FinishParts {
        pending: vec![],
        dicts: vec![],
        merge_peers: vec![],
        dict_types: vec![],
        modules: vec![],
        micro_module: None,
        vector_indexes: vec![],
        schema_message: vec![],
    });
    let table = &finishing.state.row_groups_table;
    assert_eq!(table.row_counts().iter().sum::<u32>(), 9);
    assert_eq!(table.row_counts(), &[6, 3]);
    assert_eq!(table.offsets(), &[0, 24]);
    assert_eq!(table.sizes(), &[24, 12]);
    let first = table.row_group_metadata()[0].col_metadatas()[0].to_fb();
    let chunks = first.column_chunks.unwrap();
    assert_eq!(chunks[0].checksum, Some(xxh64(&i32_bytes(&[0, 1, 2]), 0)));
    assert_eq!(chunks[1].offset, 12);
}

#[test]
fn new_files_are_empty() {
    let writer = FileWriter::try_new(
        Schema { fields: vec![field("a", DataType::Int32, false), field("b", DataType::Int32, true)] },
        4,
        true,
        false,
        false,
    );
    let state = &writer.state;
    assert_eq!(state.num_rows_in_file, 0);
    assert_eq!(state.num_rows_in_cur_row_group, 0);
    assert_eq!(state.start_offset_of_cur_row_group, 0);
    assert_eq!(state.stream_position(), 0);
    assert_eq!(state.rows_written_in_cur_row_group, vec![0, 0]);
    assert_eq!(state.column_metadatas_in_cur_row_group.len(), 2);
    assert!(state.column_metadatas_in_cur_row_group.iter().all(|c| c.column_chunks.is_empty()));
    assert!(state.row_groups_table.row_counts().is_empty());
}

#[test]
fn a_batch_may_make_a_row_group_larger_than_it_has_to_be() {
    let mut writer = FileWriter::try_new(
        Schema { fields: vec![field("a", DataType::Int32, false)] },
        1000,
        false,
        false,
        false,
    );
    assert!(!writer.write_batch(vec![], 900));
    assert!(writer.write_batch(vec![], 200));
    writer.end_row_group(vec![]);
    assert_eq!(writer.state.row_groups_table.row_counts(), &[1100]);
    assert_eq!(writer.state.num_rows_in_file, 1100);
    assert_eq!(writer.state.num_rows_in_cur_row_group, 0);
}

#[test]
fn chunks_are_found_where_they_are_noted() {
    let mut writer = FileWriter::try_new(
        Schema { fields: vec![field("a", DataType::Int32, false)] },
        4,
        true,
        false,
        false,
    );
    let made = |v: &[i32]| {
        let n = v.len();
        chunk(vec![unit(i32_bytes(v), n as u32)], n)
    };
    let one = writer.column_encoders[0].label(vec![vec![made(&[1, 2, 3])]]).unwrap();
    let two = writer.column_encoders[0].label(vec![vec![made(&[4, 5])]]).unwrap();
    let three = writer.column_encoders[0].label(vec![vec![made(&[6])]]).unwrap();
    let four = writer.column_encoders[0].label(vec![vec![made(&[7, 8])]]).unwrap();
    assert!(!writer.write_batch(one, 3));
    let mut file = writer.state.take_bytes();
    assert!(writer.write_batch(two, 3));
    writer.end_row_group(three);
    assert!(!writer.write_batch(vec![], 2));
    file.extend(writer.state.take_bytes());
    let finishing = writer.finish(FinishParts {
        pending: four,
        dicts: vec![],
        merge_peers: vec![],
        dict_types: vec![],
        modules: vec![],
        micro_module: None,
        vector_indexes: vec![],
        schema_message: vec![],
    });
    let ready = finishing.write_modules_table(MODULES_TABLE).unwrap();
    let groups: Vec<Vec<fff::tables::ChunkTable>> = ready
        .state
        .row_groups_table
        .row_group_metadata()
        .iter()
        .map(|g| g.col_metadatas()[0].to_fb().column_chunks.unwrap())
        .collect();
    assert_eq!(ready.state.row_groups_table.row_counts(), &[6, 2]);
    let ready = ready.write_columns(&vec![vec![b"a".to_vec()], vec![b"b".to_vec()]]).unwrap();
    let (end, p) = ready.write_footer(FOOTER).unwrap();
    file.extend(end);
    let n = file.len();
    assert_eq!(p.data_checksum, xxh64(&file[..n - 32], 0));
    assert_eq!(read_postscript(&file[n - 32..]).unwrap(), p);
    assert_eq!(&file[n - 2..], b"F3");
    let stored: Vec<Vec<Vec<u8>>> = groups
        .iter()
        .map(|g| {
            g.iter().map(|c| file[c.offset as usize..][..c.size_ as usize].to_vec()).collect()
        })
        .collect();
    assert_eq!(
        stored,
        vec![
            vec![i32_bytes(&[1, 2, 3]), i32_bytes(&[4, 5]), i32_bytes(&[6])],
            vec![i32_bytes(&[7, 8])],
        ]
    );
}

#[test]
fn physical_columns_are_counted() {
    let list = DataType::List(Box::new(field(
        "s",
        DataType::Struct(vec![
            field("x", DataType::Int32, true),
            field("y", DataType::Int32, true),
            field("z", DataType::Int32, true),
        ]),
        true,
    )));
    let fields = vec![field("a", DataType::Int32, false), field("l", list, true)];
    assert_eq!(count_all_written(&fields, false), Some(6));
    assert_eq!(count_all_written(&fields, true), Some(4));
    assert_eq!(count_written(&fields[1], false), Some(5));
    assert_eq!(count_all_written(&vec![], false), Some(0));
}

#[test]
fn damaged_chunks_are_noticed() {
    let stored = Some(xxh64(b"abc", 0));
    assert_eq!(verify_chunk(b"abc", stored, true), Ok(()));
    assert_eq!(verify_chunk(b"abd", stored, true), Err(ChunkChecksumError::Mismatch));
    assert_eq!(verify_chunk(b"abd", stored, false), Ok(()));
    assert_eq!(verify_chunk(b"abc", None, true), Err(ChunkChecksumError::Missing));
}

#[test]
fn postscripts_are_read_back() {
    let p = PostScript {
        metadata_size: 1000,
        footer_size: 300,
        compression: CompressionType::uncompressed(),
        checksum_type: ChecksumType::xx_hash(),
        data_checksum: 0x0102_0304_0506_0708,
        schema_checksum: 0xa1a2_a3a4_a5a6_a7a8,
        major_version: 0x1122,
        minor_version: 0x3344,
    };
    let bytes = write_postscript(&p);
    assert_eq!(bytes.len(), 32);
    assert_eq!(&bytes[0..4], &[0xe8, 3, 0, 0]);
    assert_eq!(&bytes[30..], b"F3");
    assert_eq!(read_postscript(&bytes).unwrap(), p);
    let mut wrong = bytes.clone();
    wrong[31] = b'4';
    assert_eq!(read_postscript(&wrong).unwrap_err(), MagicMismatch);
    assert_eq!(read_base_checksums(&wrong).unwrap_err(), MagicMismatch);
}

fn empty_node() -> FooterNode {
    FooterNode {
        schema: Some(vec![1]),
        logical_tree: Some(fff::encoder::LogicalTreeNode { id: LogicalId::Struct, children: None }),
        row_groups: None,
        shared_dictionary_table: None,
        optional_sections: None,
        encoding_versions: None,
        vector_indexes: None,
    }
}

#[test]
fn incomplete_footers_are_refused() {
    let schema = || SchemaMessage::Schema(Schema { fields: vec![] });
    let mut node = empty_node();
    node.schema = None;
    assert_eq!(parse_footer_with(node, schema()).err(), Some(FooterError::SchemaNotFound));
    let mut node = empty_node();
    node.schema = None;
    let read = |_: &Vec<u8>| -> SchemaMessage { panic!("there is no message") };
    assert_eq!(parse_footer(node, read).err(), Some(FooterError::SchemaNotFound));
    assert_eq!(
        parse_footer(empty_node(), |_| SchemaMessage::Unreadable).err(),
        Some(FooterError::MessageUnreadable)
    );
    assert_eq!(
        parse_footer(empty_node(), |_| SchemaMessage::OtherHeader).err(),
        Some(FooterError::NoSchemaMessage)
    );
    assert_eq!(
        parse_footer(empty_node(), |_| schema()).err(),
        Some(FooterError::RowGroupsNotFound)
    );
}

fn group(rows: u32, sizes: &[(u32, u64)]) -> GroupedColumnMetadata {
    let chunks = sizes
        .iter()
        .map(|(size, rows)| fff::tables::ChunkTable {
            offset: 0,
            size_: *size,
            num_rows: *rows,
            encoding: fff::tables::DictionaryEncodingTable::NoDictionary,
            encunits: Some(vec![]),
            checksum: None,
        })
        .collect();
    GroupedColumnMetadata {
        column_metadatas: vec![ColumnMetadataTable { column_chunks: Some(chunks) }],
        row_count: rows,
        _offset: 0,
        _size: 0,
    }
}

#[test]
fn chunk_sizes_are_summed_up() {
    let groups = vec![group(5, &[(10, 3), (40, 2)]), group(1, &[(22, 1)])];
    assert_eq!(get_max_chunk_size(&groups), 40);
    assert_eq!(get_avg_io_unit_size(&groups, 0), 24);
}

#[test]
fn views_take_the_place_of_strings() {
    let f = field_to_view(field("s", DataType::Utf8, true));
    assert!(matches!(f.data_type, DataType::Utf8View));
    let g = field_to_view(field("b", DataType::LargeBinary, false));
    assert!(matches!(g.data_type, DataType::BinaryView));
    assert_eq!(g.name, "b");
    assert!(!g.nullable);
    let h = field_to_view(field("i", DataType::Int32, false));
    assert!(matches!(h.data_type, DataType::Int32));
}

#[test]
fn vectors_of_the_wrong_length_are_refused() {
    let rows = vec![Some(vec![0u8; 8]), None];
    assert_eq!(binary_to_vector(&rows, 2, true).unwrap(), vec![Some(vec![0, 0]), None]);
    assert_eq!(binary_to_vector(&rows, 3, true).unwrap_err(), InvalidVectorLength);
    assert_eq!(
        vector_to_binary(&bits(&[1.0, 2.0]), &[false], 2),
        vec![None]
    );
}

#[test]
fn structs_have_a_column_for_themselves_and_one_for_each_field() {
    let s = field(
        "s",
        DataType::Struct(vec![
            field("x", DataType::Int32, true),
            field("y", DataType::Utf8, true),
        ]),
        true,
    );
    let mut column_idx = ColumnIndexSequence::default();
    let (encoder, tree) = create_logical_encoder(&s, &mut column_idx, false, false);
    assert_eq!(encoder.columns(), vec![0, 1, 2]);
    let types: Vec<(String, bool)> =
        encoder.types().iter().map(|t| (format!("{:?}", t.data_type), t.nullable)).collect();
    let told = |t: &str, nullable: bool| (t.to_string(), nullable);
    assert_eq!(types, vec![told("Boolean", false), told("Int32", true), told("Utf8", true)]);
    assert_eq!(tree.id, LogicalId::Struct);
    assert_eq!(tree.children.len(), 2);
    assert_eq!(column_idx.get_current_index(), 3);
    assert!(matches!(encoder, LogicalColEncoder::Struct(_)));
}
