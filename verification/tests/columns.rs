use fff::assemble::{
    checked_decode_group, count_batches, decode_group, pair_structs, struct_nulls, Array,
    GroupError, Unit,
};
use fff::decoder::NoChunks;
use fff::encoded_chunk::EncodedColumnChunk;
use fff::encoder::VectorColEncoder;
use fff::footer::GroupedColumnMetadata;
use fff::read_plan::{plan_read, point_access_list_struct, project_columns};
use fff::schema::{DataType, Field};
use fff::selection::{Projection, Selection};
use fff::tables::ColumnMetadataTable;
use fff::vector::{parse_micro_blob, InvalidVectorLength};

fn field(name: &str, data_type: DataType) -> Field {
    Field { name: name.to_string(), data_type, nullable: true }
}

fn group(columns: usize) -> GroupedColumnMetadata {
    GroupedColumnMetadata {
        column_metadatas: (0..columns)
            .map(|_| ColumnMetadataTable { column_chunks: Some(vec![]) })
            .collect(),
        row_count: 2,
        _offset: 0,
        _size: 0,
    }
}

fn fields() -> Vec<Field> {
    let point = DataType::Struct(vec![field("x", DataType::Int32), field("y", DataType::Utf8)]);
    let item = field("item", DataType::Float32);
    vec![
        field("a", DataType::Int32),
        field("l", DataType::List(Box::new(field("item", point)))),
        field("v", DataType::FixedSizeList(Box::new(item), 1)),
    ]
}

fn vector(v: f32) -> Vec<u8> {
    v.to_le_bytes().to_vec()
}

fn columns(bytes: Vec<u8>) -> Vec<Vec<Unit<&'static str>>> {
    vec![
        vec![Unit::Other("a0"), Unit::Other("a1")],
        vec![
            Unit::Lists { offsets: vec![0, 2], nulls: None },
            Unit::Lists { offsets: vec![0, 0, 1], nulls: Some(vec![false, true]) },
        ],
        vec![Unit::Booleans(vec![true, false]), Unit::Booleans(vec![])],
        vec![Unit::Other("x0"), Unit::Other("x1")],
        vec![Unit::Other("y0"), Unit::Other("y1")],
        vec![Unit::Binary(vec![Some(bytes), None]), Unit::Other("v1")],
    ]
}

#[test]
fn columns_are_put_together_batch_by_batch() {
    let groups = vec![group(6)];
    let plans = plan_read(&fields(), &groups, &Projection::All, &Selection::All, false).unwrap();
    let batches = decode_group(&plans[0].decoders, columns(vector(1.5))).unwrap();
    assert_eq!(batches.len(), 2);
    assert!(matches!(&batches[0][0], Array::Flat(Unit::Other("a0"))));
    match &batches[0][1] {
        Array::List { offsets, values, nulls } => {
            assert_eq!((offsets, nulls), (&vec![0, 2], &None));
            match &**values {
                Array::Struct { children, nulls } => {
                    assert_eq!(nulls, &Some(vec![true, false]));
                    assert!(matches!(&children[0], Array::Flat(Unit::Other("x0"))));
                    assert!(matches!(&children[1], Array::Flat(Unit::Other("y0"))));
                }
                _ => panic!("no structs"),
            }
        }
        _ => panic!("no lists"),
    }
    match &batches[0][2] {
        Array::Vectors(rows) => assert_eq!(rows, &vec![Some(vec![1.5f32.to_bits()]), None]),
        _ => panic!("no vectors"),
    }
    match &batches[1][1] {
        Array::List { offsets, values, nulls } => {
            assert_eq!(offsets, &vec![0, 0, 1]);
            assert_eq!(nulls, &Some(vec![false, true]));
            assert!(matches!(&**values, Array::Struct { nulls: None, .. }));
        }
        _ => panic!("no lists"),
    }
    assert!(matches!(&batches[1][2], Array::Flat(Unit::Other("v1"))));
}

#[test]
fn vectors_of_another_length_are_refused() {
    let groups = vec![group(6)];
    let plans = plan_read(&fields(), &groups, &Projection::All, &Selection::All, false).unwrap();
    let refused = decode_group(&plans[0].decoders, columns(vec![1, 2, 3]));
    assert_eq!(refused.err(), Some(InvalidVectorLength));
    let column = plans[0].decoders[2].decode_batch(columns(vec![1, 2, 3]));
    assert_eq!(column.err(), Some(InvalidVectorLength));
    assert_eq!(plans[0].decoders[0].decode_batch(columns(vec![])).unwrap().len(), 2);
}

#[test]
fn columns_that_lack_rows_are_not_put_together() {
    let groups = vec![group(6)];
    let plans = plan_read(&fields(), &groups, &Projection::All, &Selection::All, false).unwrap();
    let decoders = &plans[0].decoders;
    let refused = |cols| checked_decode_group(decoders, cols).err();
    assert_eq!(refused(columns(vector(1.5))), None);
    assert_eq!(refused(columns(vec![1, 2, 3])), Some(GroupError::InvalidVectorLength));
    let mut cols = columns(vector(1.5));
    cols[1][0] = Unit::Other("no lists");
    assert_eq!(count_batches(&decoders[1], &cols), None);
    assert_eq!(count_batches(&decoders[0], &cols), Some(2));
    assert_eq!(refused(cols), Some(GroupError::NotReadable));
    let mut cols = columns(vector(1.5));
    cols[2][1] = Unit::Other("no truth values");
    assert_eq!(refused(cols), Some(GroupError::NotReadable));
    // The last column has fewer batches than the first.
    let mut cols = columns(vector(1.5));
    cols[5].pop();
    assert_eq!(count_batches(&decoders[2], &cols), Some(1));
    assert_eq!(refused(cols), Some(GroupError::NotReadable));
    // A row is missing in a column that is not nullable.
    let mut strict = fields();
    strict[2].nullable = false;
    let plans = plan_read(&strict, &groups, &Projection::All, &Selection::All, false).unwrap();
    assert_eq!(
        checked_decode_group(&plans[0].decoders, columns(vector(1.5))).err(),
        Some(GroupError::NotReadable)
    );
    let none: Vec<fff::decoder::LogicalColDecoder> = vec![];
    assert!(matches!(
        checked_decode_group(&none, columns(vec![])),
        Err(GroupError::NotReadable)
    ));
}

#[test]
fn the_shorter_column_ends_the_batches() {
    let groups = vec![group(6)];
    let plans = plan_read(&fields(), &groups, &Projection::All, &Selection::All, false).unwrap();
    let mut cols = columns(vector(0.0));
    cols[1].pop();
    assert_eq!(plans[0].decoders[1].decode_batch(cols).unwrap().len(), 1);
    assert_eq!(struct_nulls(vec![]), None);
    let pairs = pair_structs(vec![vec![true], vec![], vec![false]], vec!["p", "q"]);
    assert_eq!(pairs, vec![(Some(vec![true]), "p"), (None, "q")]);
}

#[test]
fn projected_columns_are_read_from_their_own_physical_columns() {
    assert_eq!(project_columns(&fields(), &Projection::All), vec![0, 1, 2, 3, 4, 5]);
    let last_and_lists = Projection::LeafColumnIndexes(vec![2, 1]);
    assert_eq!(project_columns(&fields(), &last_and_lists), vec![5, 1, 2, 3, 4]);
    let twice = Projection::LeafColumnIndexes(vec![0, 0]);
    assert_eq!(project_columns(&fields(), &twice), vec![0, 0]);
    assert!(project_columns(&fields(), &Projection::LeafColumnIndexes(vec![])).is_empty());
}

#[test]
fn rows_of_structs_in_lists_are_read_from_every_row_group() {
    let lists = &fields()[1];
    let plain = point_access_list_struct(lists, &[group(4), group(5)], false).unwrap();
    assert_eq!(plain.len(), 2);
    assert_eq!(plain[1].columns_of_field(1), vec![0, 1, 3]);
    let pushed = point_access_list_struct(lists, &[group(2)], true).unwrap();
    assert_eq!(pushed[0].columns_of_field(1), vec![1]);
    let mut unknown = group(4);
    unknown.column_metadatas[3].column_chunks = None;
    assert_eq!(
        point_access_list_struct(lists, &[group(4), unknown], false).err(),
        Some(NoChunks)
    );
}

fn l2(a: &[u32], b: &[u32]) -> u32 {
    let mut acc = 0.0f32;
    for i in 0..a.len() {
        let d = f32::from_bits(a[i]) - f32::from_bits(b[i]);
        acc += d * d;
    }
    acc.to_bits()
}

fn rows(n: usize) -> EncodedColumnChunk {
    let mut builder = EncodedColumnChunk::builder();
    builder.num_rows = n;
    builder.build()
}

fn vector_encoder(enable_micro_index: bool) -> VectorColEncoder {
    VectorColEncoder {
        column_index: 3,
        nullable: true,
        dim: 2,
        enable_micro_index,
        pending_vectors: vec![],
        pending_rows: 0,
    }
}

#[test]
fn each_chunk_of_vectors_gets_the_index_of_its_rows() {
    let bits = |v: &[f32]| -> Vec<u32> { v.iter().map(|x| x.to_bits()).collect() };
    let mut encoder = vector_encoder(true);
    encoder.take_in(&bits(&[1.0, 2.0, 3.0, 4.0, 5.0, 6.0]), &[true, false, true]);
    assert_eq!(encoder.pending_vectors, bits(&[1.0, 2.0, 0.0, 0.0, 5.0, 6.0]));
    let chunks = encoder.attach(vec![rows(2)], &l2).unwrap();
    assert_eq!((chunks.len(), chunks[0].column_index), (1, 3));
    assert_eq!((encoder.pending_rows, encoder.pending_vectors.len()), (1, 2));
    let aux = chunks[0].micro_index_aux.as_ref().unwrap();
    assert_eq!(aux.reserved, vec![2, 2]);
    let blob = parse_micro_blob(&aux.bytes).unwrap();
    assert_eq!(blob.centroids, bits(&[1.0, 2.0, 0.0, 0.0]));
    assert_eq!(blob.bucket_spans, vec![vec![(0, 1)], vec![(1, 1)]]);
    let chunks = encoder.attach(vec![rows(1), rows(0)], &l2).unwrap();
    let blob = parse_micro_blob(&chunks[0].micro_index_aux.as_ref().unwrap().bytes).unwrap();
    assert_eq!(blob.centroids, bits(&[5.0, 6.0]));
    assert!(chunks[1].micro_index_aux.is_none());
    assert_eq!(encoder.pending_rows, 0);
    assert!(encoder.attach(vec![], &l2).is_none());
}

#[test]
fn vectors_are_indexed_only_if_they_are_to_be() {
    let mut encoder = vector_encoder(false);
    encoder.take_in(&[0, 0], &[true]);
    assert_eq!(encoder.pending_rows, 0);
    let chunks = encoder.attach(vec![rows(1)], &l2).unwrap();
    assert!(chunks[0].micro_index_aux.is_none());
    assert_eq!(chunks[0].column_index, 3);
}
