use bytes::BytesMut;
use fff::checksum::create_checksum;
use fff::chunk_decoder::{
    create_physical_decoder, decode_row_at, decode_rows_at, NoDictColDecoder, PhysicalDecoder,
    PhysicalDecoderError,
};
use fff::column_reader::{ChunkDecoder, ChunkError, SharedDictionary};
use fff::column_stats::collect_stats;
use fff::decoder::{
    create_list_struct_decoder, create_logical_decoder, slice_offsets, transpose,
    ChunkChecksumError, ListStructDecoder, LogicalColDecoder, PrimitiveColDecoder,
};
use fff::dict_decoder::{
    dict_index_to_data, index_width, is_dictionary_type, DictColDecoder, DictValuesError,
    IncorrectIndexType, IndexWidth, SharedDictColDecoder,
};
use fff::dict_sharing::{get_shared_dict_sizes, referenced_dicts};
use fff::encoded_chunk::EncodedColumnChunk;
use fff::encoder::create_logical_encoder;
use fff::file_format::{
    ChecksumType, CompressionType, EncodingType, MicroIndex, MicroIndexNode, VectorBlock, VectorBlockNode,
    VectorColumn, VectorColumnNode,
};
use fff::footer::{
    create_default_encoding_versions, Chunk, ColumnMetadata, DictionaryEncoding, EncUnit, Encoding,
    GroupedColumnMetadata, IndirectRowGroupMetadata, MetadataSection, RowGroupMetadata,
    WASMEncoding,
};
use fff::kmeans::{kmeans_rounds, move_centroids, FirstCentroids, TooFewSamples};
use fff::options::{
    CustomEncodingOptions, DictionaryTypeOptions, FileWriterOptions, WasmContextKind, WasmLib,
};
use fff::row_groups::RowGroupsTable;
use fff::schema::{advance_column_index, ColumnIndexSequence, DataType, Field, TimeUnit};
use fff::selection::{process_selection, Selection};
use fff::tables::{ChunkTable, ColumnMetadataTable, DictionaryEncodingTable, EncUnitTable, SemVer};
use fff::vector::{
    build_mini_ivf, parse_micro_blob, serialize_micro_blob, MicroBlobError, MicroIndexBlob,
};
use fff::vector_encoder::extract_validity;
use fff::writer_finish::{batch_slices, dictionary_positions, BatchTooSmall};
use rand::rngs::StdRng;
use rand::SeedableRng;
use std::collections::HashMap;

fn bits(v: &[f32]) -> Vec<u32> {
    v.iter().map(|x| x.to_bits()).collect()
}

fn l2(a: &[u32], b: &[u32]) -> u32 {
    let mut acc = 0.0f32;
    for i in 0..a.len().min(b.len()) {
        let d = f32::from_bits(a[i]) - f32::from_bits(b[i]);
        acc += d * d;
    }
    acc.to_bits()
}

fn plus(a: u32, b: u32) -> u32 {
    (f32::from_bits(a) + f32::from_bits(b)).to_bits()
}

fn average(sum: u32, n: usize) -> u32 {
    (f32::from_bits(sum) * (1.0 / n as f32)).to_bits()
}

fn field(name: &str, data_type: DataType) -> Field {
    Field { name: name.to_string(), data_type, nullable: true }
}

fn chunk_table(size: u32, rows: u64, encoding: DictionaryEncodingTable) -> ChunkTable {
    ChunkTable {
        offset: 0,
        size_: size,
        num_rows: rows,
        encoding,
        encunits: Some(vec![]),
        checksum: None,
    }
}

fn group(rows: u32, columns: Vec<Vec<ChunkTable>>) -> GroupedColumnMetadata {
    GroupedColumnMetadata {
        column_metadatas: columns
            .into_iter()
            .map(|c| ColumnMetadataTable { column_chunks: Some(c) })
            .collect(),
        row_count: rows,
        _offset: 0,
        _size: 0,
    }
}

#[test]
fn checksums_do_not_depend_on_the_pieces() {
    let mut a = create_checksum();
    a.update(b"hello world");
    let mut b = create_checksum();
    b.update(b"hello");
    b.update(b" ");
    b.update(b"world");
    assert_eq!(a.finalize(), b.finalize());
    assert_eq!(a.finalize(), xxhash_rust::xxh64::xxh64(b"hello world", 0));
    assert_eq!(create_checksum().finalize(), xxhash_rust::xxh64::xxh64(b"", 0));
}

#[test]
fn versions_of_encodings_are_semantic() {
    let versions = create_default_encoding_versions();
    assert!(!versions.is_empty());
    let last = versions.last().unwrap();
    assert_eq!(last.encoding_type, EncodingType::CUSTOM_WASM);
    assert_eq!(last.version, SemVer { major: 1, minor: 0, patch: 0 });
    assert_eq!(last.to_fb().version, last.version);
    assert!(versions.iter().any(|v| v.version == SemVer { major: 0, minor: 21, patch: 0 }));
}

#[test]
fn encodings_are_read_back() {
    let plain = Encoding::try_new(EncodingType::PLAIN, None).unwrap();
    assert!(plain.wasm_encoding().is_none());
    let wasm = WASMEncoding::new(3, vec![1, 2]);
    let e = Encoding::try_new(EncodingType::CUSTOM_WASM, Some(wasm)).unwrap();
    assert_eq!(e.encoding_type(), EncodingType::CUSTOM_WASM);
    assert_eq!(e.wasm_encoding().unwrap().wasm_id, 3);
    let back = Encoding::from_fb(&e.to_fb());
    assert_eq!(back.encoding_type(), EncodingType::CUSTOM_WASM);
    assert_eq!(back.wasm_encoding().unwrap().mini_encunit_sizes, vec![1, 2]);
}

#[test]
fn chunks_are_turned_into_tables() {
    let unit = EncUnit::new(10, 3, Encoding::default(), CompressionType::uncompressed());
    let chunk =
        Chunk::new(100, 10, 3, DictionaryEncoding::Dictionary(vec![4]), vec![unit], Some(5));
    assert_eq!(chunk.offset(), 100);
    let mut column = ColumnMetadata::default();
    column.add_chunk(chunk);
    let table = column.to_fb();
    let chunks = table.column_chunks.unwrap();
    assert_eq!(chunks.len(), 1);
    assert_eq!((chunks[0].offset, chunks[0].size_, chunks[0].num_rows), (100, 10, 3));
    assert_eq!(chunks[0].checksum, Some(5));
    assert!(matches!(&chunks[0].encoding, DictionaryEncodingTable::LocalDictionary(v) if v == &vec![4]));
    assert_eq!(chunks[0].encunits.as_ref().unwrap()[0].size_, 10);
}

#[test]
fn row_groups_tell_where_their_columns_are() {
    let mut table = RowGroupsTable::default();
    table.add_meta(5, 0, 50, RowGroupMetadata::new(vec![ColumnMetadata::default()]));
    table.add_meta(6, 50, 60, RowGroupMetadata::new(vec![ColumnMetadata::default()]));
    assert_eq!(table.row_counts(), &[5, 6]);
    assert_eq!(table.offsets(), &[0, 50]);
    assert_eq!(table.sizes(), &[50, 60]);
    let columns = vec![vec![b"abc".to_vec(), b"de".to_vec()], vec![b"f".to_vec()]];
    let bytes = table.to_indirect_and_flush(1000, &columns);
    assert_eq!(bytes, b"abcdef".to_vec());
    let places: Vec<(u64, u32)> = table
        .indirect_row_group_metadata()
        .iter()
        .flat_map(|g| g.col_metadatas.iter().map(|s| (s.offset, s.size)))
        .collect();
    assert_eq!(places, vec![(1000, 3), (1003, 2), (1005, 1)]);
    let first = &table.indirect_row_group_metadata()[0];
    let back = IndirectRowGroupMetadata::from_fb(&first.to_fb());
    assert_eq!(back.col_metadatas.len(), 2);
}

#[test]
fn rows_of_row_groups_stay_in_order() {
    let mut table = RowGroupsTable::default();
    table.add_meta(5, 0, 50, RowGroupMetadata::default());
    table.to_indirect_and_flush(1000, &vec![vec![b"abc".to_vec()]]);
    table.add_meta(7, 50, 60, RowGroupMetadata::default());
    table.apply_micro_index_offset(1, 2, (0, 1));
    table.add_meta(6, 110, 60, RowGroupMetadata::default());
    assert_eq!(table.row_counts(), &[5, 7, 6]);
    assert_eq!(table.row_group_metadata().len(), 3);
    assert!(RowGroupMetadata::default().col_metadatas().is_empty());
}

#[test]
fn missing_lists_are_empty() {
    let node = VectorColumnNode {
        blocks: Some(vec![VectorBlockNode {
            offset: 1,
            size: 2,
            row_start: 3,
            row_count: 4,
            align: 5,
            micro_index: None,
        }]),
        io_hint_bytes: 6,
    };
    let column = VectorColumn::from_fb(node);
    assert_eq!(column.io_hint_bytes, 6);
    assert_eq!(column.blocks[0].row_start, 3);
    assert_eq!(column.blocks[0].micro_index.wasm_size, 0);
    assert!(VectorColumn::from_fb(VectorColumnNode { blocks: None, io_hint_bytes: 0 }).blocks.is_empty());
    let index = MicroIndex::from_fb(MicroIndexNode {
        wasm_offset: 1,
        wasm_size: 2,
        abi_major: 3,
        abi_minor: 4,
        aux_offset: 5,
        aux_size: 6,
        reserved: None,
    });
    assert_eq!((index.abi_major, index.aux_size), (3, 6));
    assert!(index.reserved.is_empty());
}

#[test]
fn modules_are_noted_in_blocks_of_vectors() {
    let mut column = ColumnMetadata::default();
    column.add_vector_block(
        VectorBlock {
            offset: 0,
            size: 10,
            row_start: 0,
            row_count: 1,
            align: 64,
            micro_index: MicroIndex::none(),
        },
        4096,
    );
    assert_eq!(column.io_hint_bytes, 4096);
    let mut table = RowGroupsTable::default();
    table.add_meta(1, 0, 10, RowGroupMetadata::new(vec![column]));
    table.apply_micro_index_offset(500, 20, (0, 1));
    let block = &table.row_group_metadata()[0].col_metadatas()[0].vector_blocks[0];
    assert_eq!(block.size, 10);
    let sections = IndirectRowGroupMetadata::new(vec![MetadataSection {
        offset: 1,
        size: 2,
        compression_type: CompressionType::uncompressed(),
    }]);
    assert_eq!(sections.to_fb().col_metadatas.unwrap()[0].size, 2);
}

#[test]
fn rows_of_later_groups_are_counted_from_their_start() {
    let groups = vec![group(4, vec![]), group(6, vec![])];
    let picked = process_selection(&Selection::RowIndexes(vec![9, 1, 4, 4]), &groups);
    let mut by_group: Vec<(u32, Vec<u64>)> = Vec::new();
    for (g, s) in &picked {
        match s {
            Selection::RowIndexes(v) => by_group.push((g.row_count, v.clone())),
            Selection::All => panic!("rows were asked for"),
        }
    }
    assert_eq!(by_group, vec![(4, vec![1]), (6, vec![5, 0, 0])]);
    let whole = process_selection(&Selection::All, &groups);
    assert_eq!(whole.len(), 2);
}

#[test]
fn rows_are_read_over_several_units() {
    let pieces = decode_row_at(&vec![3, 2, 5], 2, 4);
    let found: Vec<(usize, usize, usize)> =
        pieces.iter().map(|p| (p.part, p.from, p.count)).collect();
    assert_eq!(found, vec![(0, 2, 1), (1, 0, 2), (2, 0, 1)]);
    assert!(decode_row_at(&vec![3, 2], 9, 1).is_empty());
    let places = decode_rows_at(&vec![3, 2, 5], &vec![9, 0, 4, 4, 10]);
    let found: Vec<(usize, usize, usize)> =
        places.iter().map(|p| (p.part, p.from, p.count)).collect();
    assert_eq!(found, vec![(2, 4, 1), (0, 0, 1), (1, 1, 1), (1, 1, 1)]);
}

#[test]
fn as_few_units_are_taken_as_have_the_rows() {
    let start = || {
        NoDictColDecoder::checked_new(
            units(&[(1, 2), (2, 3), (1, 0), (3, 2)]),
            BytesMut::from(&b"abbcddd"[..]),
        )
        .unwrap()
    };
    let told = |d: &mut NoDictColDecoder, row_id: usize, len: usize| {
        d.decode_row_at(row_id, len).map(|rows| {
            rows.iter()
                .map(|r| (r.piece.part, r.piece.from, r.piece.count, r.data.to_vec()))
                .collect::<Vec<_>>()
        })
    };
    let mut d = start();
    assert_eq!(
        told(&mut d, 1, 3),
        Some(vec![(0, 1, 1, b"a".to_vec()), (1, 0, 2, b"bb".to_vec())])
    );
    assert_eq!(d.taken, 2);
    // Counted from the first unit that is left.
    assert_eq!(told(&mut d, 1, 1), Some(vec![(1, 1, 1, b"ddd".to_vec())]));
    assert_eq!(told(&mut d, 0, 1), None);
    // No rows still take one unit: an empty array if it reaches the row, else nothing.
    let mut d = start();
    assert_eq!(told(&mut d, 2, 0), Some(vec![]));
    assert_eq!(d.taken, 1);
    let mut d = start();
    assert_eq!(told(&mut d, 3, 0), None);
    assert_eq!(d.taken, 1);
    // All units end right in front of the row, or before it.
    let mut d = start();
    assert_eq!(told(&mut d, 7, 1), Some(vec![]));
    assert_eq!(d.taken, 4);
    assert_eq!(told(&mut start(), 8, 1), None);
}

fn units(sizes: &[(u32, u32)]) -> Vec<EncUnitTable> {
    sizes
        .iter()
        .map(|(size, rows)| EncUnitTable {
            size_: *size,
            num_rows: *rows,
            encoding: None,
            compression: CompressionType::uncompressed(),
        })
        .collect()
}

#[test]
fn units_are_taken_one_after_the_other() {
    let mut d =
        NoDictColDecoder::checked_new(units(&[(3, 1), (2, 1), (0, 0)]), BytesMut::from(&b"abcdeX"[..]))
            .unwrap();
    assert_eq!(d.decode_batch().unwrap().as_ref(), b"abc");
    assert_eq!(d.decode_batch().unwrap().as_ref(), b"de");
    assert_eq!(d.decode_batch().unwrap().as_ref(), b"");
    assert!(d.decode_batch().is_none());
    assert!(NoDictColDecoder::checked_new(units(&[(3, 1), (4, 1)]), BytesMut::from(&b"abcdeX"[..]))
        .is_none());

    let chunk =
        NoDictColDecoder::checked_new(units(&[(3, 1), (2, 7)]), BytesMut::from(&b"abcde"[..])).unwrap();
    let mut d = DictColDecoder::new(chunk);
    let both = d.decode_batch().unwrap().unwrap();
    assert_eq!((both.dict.as_ref(), both.indices.as_ref()), (&b"abc"[..], &b"de"[..]));
    assert_eq!((both.dict_rows, both.index_rows), (1, 7));
    assert_eq!(both.dict_len(), 1);
    assert!(d.decode_batch().unwrap().is_none());
    let chunk =
        NoDictColDecoder::checked_new(units(&[(3, 1)]), BytesMut::from(&b"abc"[..])).unwrap();
    assert!(DictColDecoder::new(chunk).decode_batch().is_err());
    let chunk =
        NoDictColDecoder::checked_new(units(&[(0, 0), (2, 4)]), BytesMut::from(&b"ab"[..])).unwrap();
    let empty = DictColDecoder::new(chunk).decode_batch().unwrap().unwrap();
    assert_eq!((empty.dict_len(), empty.indices.as_ref()), (1, &b"ab"[..]));
}

#[test]
fn indexes_into_dictionaries_have_the_width_that_is_needed() {
    assert_eq!(index_width(255), IndexWidth::Bits8);
    assert_eq!(index_width(256), IndexWidth::Bits16);
    assert_eq!(index_width(65536), IndexWidth::Bits32);
    assert_eq!(index_width(1 << 32), IndexWidth::Bits64);
    let rows = vec![Some(1), None, Some(0)];
    assert_eq!(
        dict_index_to_data(2, IndexWidth::Bits8, &rows).unwrap(),
        vec![Some(1), None, Some(0)]
    );
    assert_eq!(
        dict_index_to_data(2, IndexWidth::Bits16, &rows).unwrap_err(),
        IncorrectIndexType
    );
    assert!(is_dictionary_type(&DataType::Int32));
    assert!(is_dictionary_type(&DataType::Boolean));
    assert!(!is_dictionary_type(&DataType::Binary));

    let chunk = NoDictColDecoder::checked_new(units(&[(2, 3)]), BytesMut::from(&b"xy"[..])).unwrap();
    let mut shared = SharedDictColDecoder::new(chunk, 300, DataType::Utf8);
    assert_eq!(shared.decode_batch().unwrap().as_ref(), b"xy");
    assert!(shared.decode_batch().is_none());
    let rows = vec![Some(299), None];
    assert_eq!(shared.values(IndexWidth::Bits16, &rows).unwrap(), vec![Some(299), None]);
    assert_eq!(
        shared.values(IndexWidth::Bits8, &rows).unwrap_err(),
        DictValuesError::IncorrectIndexType
    );
    shared.dict_type = DataType::Binary;
    assert_eq!(
        shared.values(IndexWidth::Bits16, &rows).unwrap_err(),
        DictValuesError::UnsupportedType
    );
}

#[test]
fn decoders_follow_the_encoding_of_the_chunk() {
    let shared = DictionaryEncodingTable::SharedDictionary(1);
    assert_eq!(
        create_physical_decoder(&shared, &DataType::Int32, None).err(),
        Some(PhysicalDecoderError::NoDictionaryCache)
    );
    assert_eq!(
        create_physical_decoder(&shared, &DataType::Int32, Some(&vec![true])).err(),
        Some(PhysicalDecoderError::DictionaryNotFound)
    );
    assert!(matches!(
        create_physical_decoder(&shared, &DataType::Int32, Some(&vec![false, true])),
        Ok(PhysicalDecoder::SharedDictionary(1))
    ));
    assert!(matches!(
        create_physical_decoder(&DictionaryEncodingTable::NoDictionary, &DataType::Int32, None),
        Ok(PhysicalDecoder::NoDictionary)
    ));
}

fn columns(n: usize) -> Vec<ColumnMetadataTable> {
    (0..n)
        .map(|_| ColumnMetadataTable {
            column_chunks: Some(vec![chunk_table(1, 1, DictionaryEncodingTable::NoDictionary)]),
        })
        .collect()
}

fn told(t: &DataType) -> String {
    format!("{t:?}")
}

#[test]
fn what_is_decoded_is_what_is_encoded() {
    let vectors = DataType::FixedSizeList(Box::new(field("x", DataType::Float32)), 4);
    let inner = DataType::Struct(vec![
        field("v", vectors),
        field("t", DataType::LargeUtf8),
        field("d", DataType::Decimal128(10, 2)),
        field("z", DataType::Timestamp(TimeUnit::Second, Some("UTC".to_string()))),
    ]);
    let column = field("c", DataType::LargeList(Box::new(field("item", inner))));
    let mut idx = ColumnIndexSequence::default();
    let (encoder, _) = create_logical_encoder(&column, &mut idx, true, false);
    let mut idx = ColumnIndexSequence::default();
    let decoder = create_logical_decoder(&column, &columns(6), &mut idx, true).unwrap();
    let written: Vec<String> = encoder.types().iter().map(|t| told(&t.data_type)).collect();
    let read: Vec<String> =
        decoder.physical().iter().map(|p| told(&p.primitive_type)).collect();
    assert_eq!(written, read);
    assert_eq!(read[0], told(&column.data_type));
    assert_eq!(
        read[1..],
        [
            "Boolean",
            "Binary",
            "LargeUtf8",
            "Decimal128(10, 2)",
            "Timestamp(Second, Some(\"UTC\"))"
        ]
    );
    let numbers: Vec<u32> = decoder.physical().iter().map(|p| p.column_index).collect();
    assert_eq!(numbers, encoder.columns());
    assert!(decoder.physical().iter().all(|p| p.verify));

    let flat = DataType::Struct(vec![field("x", DataType::Int8), field("y", DataType::Date32)]);
    let lists = field("s", DataType::List(Box::new(field("item", flat))));
    let mut idx = ColumnIndexSequence::default();
    let (encoder, _) = create_logical_encoder(&lists, &mut idx, false, true);
    let mut idx = ColumnIndexSequence::default();
    match create_list_struct_decoder(&lists, &columns(2), &mut idx, true).unwrap() {
        ListStructDecoder::OffsetPushdown(v) => {
            for (t, p) in encoder.types().iter().zip(&v) {
                assert_eq!(told(&t.data_type), told(&p.primitive_type));
            }
        }
        ListStructDecoder::Plain { .. } => panic!("lists go with the fields"),
    }
    assert_eq!(told(&column.data_type.copy()), told(&column.data_type));
}

#[test]
fn chunks_are_opened_after_their_checksum() {
    let column = |verify: bool| PrimitiveColDecoder {
        column_index: 0,
        primitive_type: DataType::Int32,
        verify,
    };
    let chunk = |sum: Option<u64>, encoding: DictionaryEncodingTable| ChunkTable {
        offset: 0,
        size_: 5,
        num_rows: 3,
        encoding,
        encunits: Some(units(&[(3, 2), (2, 1)])),
        checksum: sum,
    };
    let bytes = || BytesMut::from(&b"abcde"[..]);
    let plain = DictionaryEncodingTable::NoDictionary;
    let sum = xxhash_rust::xxh64::xxh64(b"abcde", 0);
    match column(true).open_chunk(chunk(Some(sum), plain.clone()), bytes(), None) {
        Ok(ChunkDecoder::NoDictionary(mut d)) => {
            assert_eq!(d.decode_batch().unwrap().as_ref(), b"abc");
            assert_eq!(d.decode_batch().unwrap().as_ref(), b"de");
        }
        _ => panic!("no plain values"),
    }
    let refused = |verify: bool, c: ChunkTable, dicts: Option<&Vec<Option<SharedDictionary>>>| {
        column(verify).open_chunk(c, bytes(), dicts).err()
    };
    assert_eq!(
        refused(true, chunk(None, plain.clone()), None),
        Some(ChunkError::Checksum(ChunkChecksumError::Missing))
    );
    assert_eq!(
        refused(true, chunk(Some(sum + 1), plain.clone()), None),
        Some(ChunkError::Checksum(ChunkChecksumError::Mismatch))
    );
    assert_eq!(refused(false, chunk(Some(sum + 1), plain.clone()), None), None);
    let mut none = chunk(None, plain.clone());
    none.encunits = None;
    assert_eq!(refused(false, none, None), Some(ChunkError::NoUnits));
    let mut long = chunk(None, plain);
    long.encunits = Some(units(&[(6, 1)]));
    assert_eq!(refused(false, long, None), Some(ChunkError::UnitsTooLong));
    let shared = || chunk(None, DictionaryEncodingTable::SharedDictionary(1));
    assert_eq!(
        refused(false, shared(), None),
        Some(ChunkError::Decoder(PhysicalDecoderError::NoDictionaryCache))
    );
    assert_eq!(
        refused(false, shared(), Some(&vec![None, None])),
        Some(ChunkError::Decoder(PhysicalDecoderError::DictionaryNotFound))
    );
    let dicts = vec![None, Some(SharedDictionary { len: 7, data_type: DataType::Int64 })];
    match column(false).open_chunk(shared(), bytes(), Some(&dicts)) {
        Ok(ChunkDecoder::SharedDictionary(d)) => {
            assert_eq!(d.dict_len, 7);
            assert!(matches!(d.dict_type, DataType::Int64));
        }
        _ => panic!("no indexes into a dictionary"),
    }
    let local = chunk(None, DictionaryEncodingTable::LocalDictionary(vec![]));
    assert!(matches!(
        column(false).open_chunk(local, bytes(), None),
        Ok(ChunkDecoder::LocalDictionary(_))
    ));
}

#[test]
fn decoders_follow_the_nesting_of_the_column() {
    let list = field("l", DataType::List(Box::new(field("item", DataType::Int32))));
    let mut idx = ColumnIndexSequence::default();
    match create_logical_decoder(&list, &columns(2), &mut idx, true).unwrap() {
        LogicalColDecoder::List(l) => {
            assert_eq!(l.validity_offsets_decoder.column_index, 0);
            assert_eq!(told(&l.validity_offsets_decoder.primitive_type), told(&list.data_type));
            match *l.values_decoder {
                LogicalColDecoder::Primitive(p) => {
                    assert_eq!(p.column_index, 1);
                    assert!(matches!(p.primitive_type, DataType::Int32));
                    assert!(p.verify);
                }
                _ => panic!("no values"),
            }
        }
        _ => panic!("no list"),
    }
    assert_eq!(idx.get_current_index(), 2);
    let inner = DataType::Struct(vec![field("x", DataType::Int32), field("y", DataType::Int32)]);
    let lists = field("s", DataType::List(Box::new(field("item", inner))));
    let mut idx = ColumnIndexSequence::default();
    match create_list_struct_decoder(&lists, &columns(4), &mut idx, false).unwrap() {
        ListStructDecoder::Plain {
            validity_offsets_decoder,
            struct_validity_decoder,
            children,
        } => {
            assert_eq!(told(&validity_offsets_decoder.primitive_type), told(&lists.data_type));
            assert!(matches!(struct_validity_decoder.primitive_type, DataType::Boolean));
            assert_eq!(children.len(), 2);
            assert!(matches!(children[1].primitive_type, DataType::Int32));
            assert!(!children[1].verify);
        }
        ListStructDecoder::OffsetPushdown(_) => panic!("nothing was pushed down"),
    }
    let mut idx = ColumnIndexSequence::default();
    match create_list_struct_decoder(&lists, &columns(2), &mut idx, true).unwrap() {
        ListStructDecoder::OffsetPushdown(v) => {
            assert_eq!(v.len(), 2);
            let one = DataType::Struct(vec![field("y", DataType::Int32)]);
            let with_y = DataType::List(Box::new(field("item", one)));
            assert_eq!(told(&v[1].primitive_type), told(&with_y));
            assert!(!v[1].verify);
        }
        ListStructDecoder::Plain { .. } => panic!("lists go with the fields"),
    }
    let mut idx = ColumnIndexSequence::default();
    let empty = vec![ColumnMetadataTable { column_chunks: None }];
    assert!(create_logical_decoder(&field("a", DataType::Int32), &empty, &mut idx, false).is_err());
}

#[test]
fn offsets_are_moved_to_zero() {
    assert_eq!(slice_offsets(&[3, 5, 9, 10], 2), (vec![0, 2, 6], 3, 6));
    assert_eq!(transpose(vec![vec![1, 2], vec![3, 4], vec![5, 6]]), vec![vec![1, 3, 5], vec![2, 4, 6]]);
    assert_eq!(extract_validity(Some(&vec![true, false]), 2), vec![true, false]);
}

#[test]
fn sizes_of_columns_are_summed_over_row_groups() {
    let none = || DictionaryEncodingTable::NoDictionary;
    let groups = vec![
        group(1, vec![vec![chunk_table(10, 1, none())], vec![chunk_table(7, 1, none())], vec![chunk_table(5, 1, none())]]),
        group(1, vec![vec![chunk_table(20, 1, none())], vec![chunk_table(1, 1, none())], vec![chunk_table(6, 1, none())]]),
    ];
    let fields = vec![
        field("a", DataType::Int32),
        field("l", DataType::List(Box::new(field("item", DataType::Int32)))),
    ];
    let stats = collect_stats(&fields, &groups);
    let total: usize = stats.iter().map(|s| s.size).sum();
    assert_eq!(total, 10 + 7 + 5 + 20 + 1 + 6);
    assert_eq!(stats[0].field.name, "a");
}

#[test]
fn shared_dictionaries_are_counted_for_each_column() {
    let shared = DictionaryEncodingTable::SharedDictionary;
    let groups = vec![group(
        1,
        vec![
            vec![chunk_table(10, 1, shared(0)), chunk_table(10, 1, shared(0))],
            vec![chunk_table(7, 1, shared(1))],
            vec![chunk_table(5, 1, DictionaryEncodingTable::NoDictionary)],
        ],
    )];
    assert_eq!(referenced_dicts(&groups, 3), vec![vec![0], vec![1], vec![]]);
    let (sizes, peers) =
        get_shared_dict_sizes(&groups, 3, &vec![100, 30], &vec![vec![0], vec![0, 1]], &vec![100, 130]);
    assert_eq!(sizes, vec![100, 130, 0]);
    assert_eq!(peers, vec![vec![(1, 100)], vec![(0, 100)], vec![]]);
}

#[test]
fn options_have_defaults() {
    let o = FileWriterOptions::default();
    assert_eq!(o.compression_type(), CompressionType::uncompressed());
    assert!(o.vector_indexes().is_empty());
    assert_eq!(o.encunit_len_of(0), None);
    let custom: HashMap<usize, usize> = HashMap::from([(2, 77)]);
    let o = FileWriterOptions::builder()
        .set_row_group_size(10)
        .set_iounit_size(20)
        .set_encoding_unit_len(30)
        .set_custom_encunit_len(custom)
        .set_dictionary_type(DictionaryTypeOptions::NoDictionary)
        .enable_io_unit_checksum(true)
        .write_built_in_wasm(false)
        .build();
    assert_eq!((o.row_group_size(), o.iounit_size(), o.encoding_unit_len()), (10, 20, 30));
    assert_eq!(o.encunit_len_of(2), Some(77));
    assert_eq!(o.dictionary_type(), DictionaryTypeOptions::NoDictionary);
    assert!(o.enable_io_unit_checksum());
    assert!(matches!(o.wasm_context(), WasmContextKind::Empty));
    let libs = HashMap::from([(
        1u32,
        WasmLib { encode_lib_path: "e".to_string(), decode_wasm_path: "d".to_string() },
    )]);
    let custom = CustomEncodingOptions::new(libs, vec![(DataType::Int32, 1)]);
    assert_eq!(custom.len(), 1);
    let o = FileWriterOptions::builder()
        .write_built_in_wasm(false)
        .set_custom_encoding_options(custom)
        .build();
    assert!(matches!(o.wasm_context(), WasmContextKind::Custom));
    let mut o = FileWriterOptions::builder()
        .set_custom_encoding_options(CustomEncodingOptions::new(HashMap::new(), vec![(DataType::Int8, 4)]))
        .set_checksum_type(ChecksumType { code: 7 })
        .set_compression_type(CompressionType { code: 2 })
        .build();
    assert_eq!((o.checksum_type().code, o.compression_type().code), (7, 2));
    assert_eq!(o.take_custom_encoding_options().data_type_to_wasm_id.len(), 1);
    assert_eq!(o.take_custom_encoding_options().data_type_to_wasm_id.len(), 0);
}

#[test]
fn columns_are_passed_over_one_by_one() {
    let mut idx = ColumnIndexSequence::default();
    advance_column_index(&field("a", DataType::Int32), &mut idx);
    advance_column_index(&field("l", DataType::List(Box::new(field("i", DataType::Int8)))), &mut idx);
    assert_eq!(idx.get_current_index(), 2);
    let chunk = EncodedColumnChunk::builder()
        .set_dict_encoding(DictionaryEncoding::SharedDictionary(5))
        .build();
    assert!(matches!(chunk.dict_encoding, DictionaryEncoding::SharedDictionary(5)));
}

#[test]
fn small_indexes_are_read_back() {
    let blob = MicroIndexBlob {
        dim: 2,
        k: 2,
        centroids: bits(&[0.0, 1.0, 2.0, 3.0]),
        bucket_spans: vec![vec![(0, 2), (5, 1)], vec![(2, 3)]],
    };
    let bytes = serialize_micro_blob(&blob);
    assert_eq!(&bytes[..4], b"MIVF");
    let back = parse_micro_blob(&bytes).unwrap();
    assert_eq!((back.dim, back.k), (2, 2));
    assert_eq!(back.centroids, blob.centroids);
    assert_eq!(back.bucket_spans, blob.bucket_spans);
    assert_eq!(parse_micro_blob(&bytes[..8]).unwrap_err(), MicroBlobError::TooSmall);
    assert_eq!(parse_micro_blob(&bytes[..20]).unwrap_err(), MicroBlobError::TruncatedCentroids);
    let mut wrong = bytes.clone();
    wrong[0] = b'X';
    assert_eq!(parse_micro_blob(&wrong).unwrap_err(), MicroBlobError::Magic);
    let mut newer = bytes.clone();
    newer[4] = 9;
    assert_eq!(parse_micro_blob(&newer).unwrap_err(), MicroBlobError::Version);
    assert_eq!(
        parse_micro_blob(&bytes[..bytes.len() - 1]).unwrap_err(),
        MicroBlobError::TruncatedSpanEntries
    );
}

#[test]
fn small_indexes_cover_all_rows() {
    let vectors = bits(&[0.0, 0.1, 5.0, 5.1, 0.2, 5.2]);
    let blob = build_mini_ivf(1, &vectors, 6, &l2);
    assert_eq!(blob.centroids.len(), (blob.dim * blob.k) as usize);
    let mut rows: Vec<u32> =
        blob.bucket_spans.iter().flatten().flat_map(|(s, n)| *s..*s + *n).collect();
    rows.sort();
    assert_eq!(rows, vec![0, 1, 2, 3, 4, 5]);
}

#[test]
fn batches_are_cut_into_slices() {
    assert_eq!(batch_slices(10, None).unwrap(), vec![(0, 10)]);
    assert_eq!(batch_slices(10, Some(5)).unwrap(), vec![(0, 5), (5, 5)]);
    assert_eq!(batch_slices(3, Some(4)).unwrap_err(), BatchTooSmall);
}

#[test]
fn dictionaries_that_were_merged_start_with_the_chunk_of_their_peer() {
    let positions = dictionary_positions(&vec![2, 0, 1], &vec![None, Some(0), None]);
    assert_eq!(positions.len(), 3);
    assert_eq!(positions[0], vec![0, 1]);
    assert_eq!(positions[1], vec![0]);
    assert_eq!(positions[2], vec![2]);
}

#[test]
fn first_centroids_are_different_samples() {
    assert_eq!(FirstCentroids::new(2, 3).err(), Some(TooFewSamples));
    let mut first = FirstCentroids::new(3, 2).unwrap();
    first.offer(1);
    first.offer(1);
    assert!(!first.done());
    first.offer(0);
    assert!(first.done());
    assert_eq!(first.centroids(&bits(&[5.0, 6.0, 7.0]), 1), bits(&[6.0, 5.0]));
}

#[test]
fn centroids_move_to_the_middle_of_their_vectors() {
    let samples = bits(&[0.0, 2.0, 10.0]);
    let moved = move_centroids(&samples, 1, 3, &vec![0, 0, 2], &vec![1, 1, 1], &plus, &average);
    assert_eq!(moved, bits(&[1.0, 2.0, 10.0]));
    let mut rng = StdRng::seed_from_u64(1);
    let found = kmeans_rounds(
        &bits(&[0.0, 0.2, 9.8, 10.0]),
        1,
        bits(&[0.0, 0.2]),
        2,
        10,
        &mut rng,
        &l2,
        &plus,
        &average,
    );
    assert_eq!(f32::from_bits(found[0]), 0.1);
    assert_eq!(f32::from_bits(found[1]), 9.9);
}
