//! Laws of what tables say that metadata is stored in.
use crate::file_footer;
use crate::file_footer::{FooterError, FooterNode, ParsedFooter, RowGroupsNode, SchemaMessage};
use crate::file_format;
use crate::file_format::EncodingType;
use crate::footer;
use crate::footer::{Chunk, DictionaryEncoding, EncUnit, Encoding, MetadataSection, WASMEncoding};
use crate::manifest;
use crate::manifest::{BaseFileBinding, BaseMismatch, IndexEntry};
use crate::schema::Schema;
use crate::tables;
use crate::tables::{
    ChunkTable, ColumnMetadataTable, DictionaryEncodingTable, EncUnitTable, EncodingTable,
    EncodingVersionTable,
};
use crate::vector_index;
use crate::vector_index::{
    QuantizationMethod, QuantizationMethodCode, QuantizationSegment, QuantizationSegmentNode,
    QuantizationSpec, QuantizationSpecNode, VectorDistanceMetric, VectorDistanceMetricCode,
    VectorIndexAlgorithm, VectorIndexAlgorithmCode, VectorIndexConfig, VectorIndexDescriptor,
    VectorIndexDescriptorNode,
};
use vstd::prelude::*;

verus! {

/// What is known of an encoding unit: its size, its rows, its encoding and how it is
/// compressed; and the same is read of its table.
pub proof fn units_say(u: EncUnit, t: EncUnitTable, w: WASMEncoding, e: Encoding, x: EncodingTable)
    ensures
        u@.size == u.size && u@.num_rows == u.num_rows && u@.encoding == u.encoding@
            && u@.compression == u.compression,
        t.encoding is Some ==> t.meaning().size == t.size_ && t.meaning().num_rows == t.num_rows
            && t.meaning().encoding == t.encoding->0.meaning() && t.meaning().compression
            == t.compression,
        w@.wasm_id == w.wasm_id && w@.mini_encunit_sizes == w.mini_encunit_sizes@,
        e@.encoding_type == e.encoding_type && (e.wasm_encoding is None
            <==> e@.wasm_encoding is None) && (e.wasm_encoding is Some ==> e@.wasm_encoding->0
            == e.wasm_encoding->0@),
        x.meaning().encoding_type == x.type_ && (x.wasm_encoding is None
            <==> x.meaning().wasm_encoding is None),
        x.wasm_encoding is Some ==> x.meaning().wasm_encoding->0.wasm_id
            == x.wasm_encoding->0.wasm_id && x.meaning().wasm_encoding->0.mini_encunit_sizes
            == file_format::or_empty(x.wasm_encoding->0.mini_encunit_sizes),
{
}

/// What is known of a chunk: where it is, its size, its rows, its dictionary, its units in
/// their order, and its checksum; and the same is read of its table.
pub proof fn chunks_say(c: Chunk, t: ChunkTable, i: int)
    ensures
        c@.offset == c.offset && c@.size == c.size && c@.num_rows == c.num_rows && c@.encoding
            == c.encoding@ && c@.checksum == c.checksum,
        c@.units.len() == c.blocks@.len(),
        0 <= i < c.blocks@.len() ==> c@.units[i] == c.blocks@[i]@,
        t.meaning().offset == t.offset && t.meaning().size == t.size_ && t.meaning().num_rows
            == t.num_rows && t.meaning().encoding == t.encoding.meaning() && t.meaning().checksum
            == t.checksum,
        t.encunits is Some ==> t.meaning().units.len() == t.encunits->0@.len(),
        t.encunits is Some && 0 <= i < t.encunits->0@.len() ==> t.meaning().units[i]
            == t.encunits->0@[i].meaning(),
{
}

/// What is read of the chunks of a column is what is read of each, in their order.
pub proof fn columns_say(t: ColumnMetadataTable, i: int)
    requires
        t.column_chunks is Some,
    ensures
        tables::table_chunks(t).len() == t.column_chunks->0@.len(),
        0 <= i < t.column_chunks->0@.len() ==> tables::table_chunks(t)[i]
            == t.column_chunks->0@[i].meaning(),
{
}

/// Values refer to no dictionary, to units of their chunk, or to a dictionary of the file;
/// and the same is read of the table.
pub proof fn dictionaries_say(d: DictionaryEncoding, t: DictionaryEncodingTable)
    ensures
        d is NoDictionary <==> d@ == footer::Dictionary::No,
        d is Dictionary ==> d@ == footer::Dictionary::Local(d->Dictionary_0@),
        d is SharedDictionary ==> d@ == footer::Dictionary::Shared(d->SharedDictionary_0),
        t is NoDictionary <==> t.meaning() == footer::Dictionary::No,
        t is LocalDictionary ==> t.meaning() == footer::Dictionary::Local(t->LocalDictionary_0@),
        t is SharedDictionary ==> t.meaning() == footer::Dictionary::Shared(t->SharedDictionary_0),
        t is Unknown <==> t.meaning() == footer::Dictionary::Unknown,
{
}

/// A missing list is read as an empty one.
pub proof fn missing_lists_are_empty<T>(v: Option<Vec<T>>)
    ensures
        v is None ==> file_format::or_empty(v).len() == 0,
        v is Some ==> file_format::or_empty(v) == v->0@,
{
}

/// Each algorithm, metric and method is stored under its own code; what is not known is
/// read as a search of all vectors, as L2, and as not quantized.
pub proof fn codes_say()
    ensures
        VectorIndexAlgorithm::BruteForce.stored() == VectorIndexAlgorithmCode::BruteForce,
        VectorIndexAlgorithm::Hnsw.stored() == VectorIndexAlgorithmCode::Hnsw,
        VectorIndexAlgorithm::Ivf.stored() == VectorIndexAlgorithmCode::Ivf,
        VectorIndexAlgorithm::CustomWasm.stored() == VectorIndexAlgorithmCode::CustomWasm,
        VectorIndexAlgorithmCode::Unknown.meaning() == VectorIndexAlgorithm::BruteForce,
        VectorDistanceMetric::L2.stored() == VectorDistanceMetricCode::L2,
        VectorDistanceMetric::Cosine.stored() == VectorDistanceMetricCode::Cosine,
        VectorDistanceMetric::Dot.stored() == VectorDistanceMetricCode::Dot,
        VectorDistanceMetricCode::Unknown.meaning() == VectorDistanceMetric::L2,
        QuantizationMethod::Unquantized.stored() == QuantizationMethodCode::Unquantized,
        QuantizationMethod::Scalar.stored() == QuantizationMethodCode::Scalar,
        QuantizationMethod::Product.stored() == QuantizationMethodCode::Product,
        QuantizationMethod::Custom.stored() == QuantizationMethodCode::Custom,
        QuantizationMethodCode::Unknown.meaning() == QuantizationMethod::Unquantized,
{
}

/// What a segment says, and what is read of its table.
pub proof fn segments_say(s: QuantizationSegment, t: QuantizationSegmentNode)
    ensures
        s@.start_dim == s.start_dim && s@.end_dim == s.end_dim && s@.method == s.method && s@.bits
            == s.bits && s@.params == s.params@,
        t.meaning().start_dim == t.start_dim && t.meaning().end_dim == t.end_dim
            && t.meaning().method == t.method.meaning() && t.meaning().bits == t.bits
            && t.meaning().params == file_format::or_empty(t.params),
{
}

/// What a quantization says, and what is read of its table: its segments in their order.
pub proof fn quantizations_say(s: QuantizationSpec, t: QuantizationSpecNode, i: int)
    ensures
        s@.dimension == s.dimension && s@.segments.len() == s.segments@.len(),
        0 <= i < s.segments@.len() ==> s@.segments[i] == s.segments@[i]@,
        t.meaning().dimension == t.dimension,
        t.segments is Some ==> t.meaning().segments.len() == t.segments->0@.len(),
        t.segments is Some && 0 <= i < t.segments->0@.len() ==> t.meaning().segments[i]
            == t.segments->0@[i].meaning(),
        vector_index::quantization_of(None).dimension == 0,
        vector_index::quantization_of(None).segments.len() == 0,
        vector_index::quantization_of(Some(t)) == t.meaning(),
{
}

/// What the descriptor of an index says, and what is read of its table.
pub proof fn descriptors_say(d: VectorIndexDescriptor, t: VectorIndexDescriptorNode)
    ensures
        d@.index_id == d.index_id && d@.column == d.column@ && d@.algorithm == d.algorithm
            && d@.distance_metric == d.distance_metric && d@.priority == d.priority
            && d@.quantization == d.quantization@ && d@.custom_params == d.custom_params@
            && d@.data_section == d.data_section && d@.wasm_section == d.wasm_section,
        d.usage_hint is None <==> d@.usage_hint is None,
        d.usage_hint is Some ==> d@.usage_hint->0 == d.usage_hint->0@,
        t.meaning().index_id == t.index_id && t.meaning().algorithm == t.algorithm.meaning()
            && t.meaning().distance_metric == t.metric.meaning() && t.meaning().priority
            == t.priority && t.meaning().data_section == t.data_section
            && t.meaning().wasm_section == t.wasm_section && t.meaning().custom_params
            == file_format::or_empty(t.custom_params),
        t.column is Some ==> t.meaning().column == t.column->0@,
        t.column is None ==> t.meaning().column.len() == 0,
        t.usage_hint is None <==> t.meaning().usage_hint is None,
        t.usage_hint is Some ==> t.meaning().usage_hint->0 == t.usage_hint->0@,
{
}

/// The descriptor of an index that was embedded says of it what was asked for, and where
/// it and its module are.
pub proof fn configs_say(
    c: VectorIndexConfig,
    data: Option<MetadataSection>,
    module: Option<MetadataSection>,
)
    ensures
        ({
            let d = c.descriptor(data, module);
            &&& d.index_id == c.index_id
            &&& d.column == c.column@
            &&& d.algorithm == c.algorithm
            &&& d.distance_metric == c.distance_metric
            &&& d.priority == c.priority
            &&& d.quantization == c.quantization@
            &&& d.custom_params == c.custom_params@
            &&& d.data_section == data
            &&& d.wasm_section == module
            &&& c.usage_hint is None <==> d.usage_hint is None
            &&& c.usage_hint is Some ==> d.usage_hint->0 == c.usage_hint->0@
        }),
{
}

/// The version of an encoding is that of the last entry for it.
pub proof fn last_version_counts(v: Seq<EncodingVersionTable>, t: EncodingType, n: nat, i: int)
    requires
        n <= v.len(),
        0 <= i < n,
        v[i].encoding_type == t,
        forall|j: int| i < j < n ==> (#[trigger] v[j]).encoding_type != t,
    ensures
        file_footer::version_for(v, t, n) == Some(v[i].version),
    decreases n,
{
    if i < n - 1 {
        assert(v[n - 1].encoding_type != t);
        last_version_counts(v, t, (n - 1) as nat, i);
    }
}

/// An encoding without an entry has no version.
pub proof fn no_entry_no_version(v: Seq<EncodingVersionTable>, t: EncodingType, n: nat)
    requires
        n <= v.len(),
        forall|j: int| 0 <= j < n ==> (#[trigger] v[j]).encoding_type != t,
    ensures
        file_footer::version_for(v, t, n) is None,
    decreases n,
{
    if n > 0 {
        assert(v[n - 1].encoding_type != t);
        no_entry_no_version(v, t, (n - 1) as nat);
    }
}

/// As many row groups are spoken of as there are entries in the shortest list.
pub proof fn shortest_list_counts(node: RowGroupsNode)
    ensures
        ({
            let n = file_footer::group_count(node);
            let a = node.row_group_metadatas->0@.len();
            let b = node.row_counts->0@.len();
            let c = node.offsets->0@.len();
            let d = node.sizes->0@.len();
            &&& n <= a && n <= b && n <= c && n <= d
            &&& n == a || n == b || n == c || n == d
        }),
{
}

/// The first list that is missing is named: that of the metadata, of the rows, of the
/// places and of the sizes.
pub proof fn missing_lists_are_named(node: RowGroupsNode)
    ensures
        ({
            let e = file_footer::missing_list(node);
            &&& e is None <==> node.row_group_metadatas is Some && node.row_counts is Some
                && node.offsets is Some && node.sizes is Some
            &&& node.row_group_metadatas is None ==> e
                == Some(FooterError::RowGroupMetadatasNotFound)
            &&& node.row_group_metadatas is Some && node.row_counts is None ==> e
                == Some(FooterError::RowCountsNotFound)
            &&& node.row_group_metadatas is Some && node.row_counts is Some
                && node.offsets is None ==> e == Some(FooterError::OffsetsNotFound)
            &&& node.row_group_metadatas is Some && node.row_counts is Some
                && node.offsets is Some && node.sizes is None ==> e
                == Some(FooterError::SizesNotFound)
        }),
{
}

/// A section is found in the metadata as far behind its start as it stands behind it in
/// the file.
pub proof fn sections_are_found(s: MetadataSection, data_size: int)
    ensures
        file_footer::span_of(s, data_size).0 + data_size == s.offset,
        file_footer::span_of(s, data_size).1 - file_footer::span_of(s, data_size).0 == s.size,
{
}

/// What a footer says is what stands in it: its columns, row groups, dictionaries and
/// sections, and of each index what its table says.
pub proof fn footers_say(node: FooterNode, schema: Schema, p: ParsedFooter, i: int)
    requires
        file_footer::says(node, schema, p),
    ensures
        p.schema == schema,
        node.logical_tree is Some && p.logical_tree == node.logical_tree->0,
        node.row_groups is Some && p.row_groups == node.row_groups->0,
        p.shared_dictionary_table == node.shared_dictionary_table,
        p.optional_sections == node.optional_sections,
        node.vector_indexes is None ==> p.vector_indexes@.len() == 0,
        node.vector_indexes is Some ==> p.vector_indexes@.len() == node.vector_indexes->0@.len(),
        node.vector_indexes is Some && 0 <= i < p.vector_indexes@.len() ==> p.vector_indexes@[i]@
            == node.vector_indexes->0@[i].meaning(),
{
    let a = file_footer::descriptors_of(p.vector_indexes@);
    let b = file_footer::meanings_of(file_format::or_empty(node.vector_indexes));
    assert(a.len() == b.len());
    if 0 <= i < a.len() {
        assert(a[i] == b[i]);
    }
}

/// A footer is refused without a schema, with one that is no message about a schema, and
/// without row groups; nothing else is wrong with it.
pub proof fn footers_are_refused(node: FooterNode, m: SchemaMessage)
    ensures
        ({
            let e = file_footer::footer_error(node, m);
            &&& e is None <==> node.schema is Some && m is Schema && node.row_groups is Some
            &&& node.schema is None ==> e == Some(FooterError::SchemaNotFound)
            &&& node.schema is Some && m is Unreadable ==> e
                == Some(FooterError::MessageUnreadable)
            &&& node.schema is Some && m is OtherHeader ==> e == Some(FooterError::NoSchemaMessage)
            &&& node.schema is Some && m is Schema && node.row_groups is None ==> e
                == Some(FooterError::RowGroupsNotFound)
        }),
{
}

/// A base file passes exactly if its size, and its checksums, are what they were; the
/// first that is not is named.
pub proof fn base_files_are_compared(b: BaseFileBinding, size: u64, schema: u64, data: u64)
    ensures
        b.size_check(size) is Ok <==> size == b.size,
        size != b.size ==> b.size_check(size) == Err::<(), BaseMismatch>(
            BaseMismatch::Size { expected: b.size, got: size },
        ),
        b.checksum_check(schema, data) is Ok <==> schema == b.schema_checksum && data
            == b.data_checksum,
        schema != b.schema_checksum ==> b.checksum_check(schema, data) == Err::<
            (),
            BaseMismatch,
        >(BaseMismatch::SchemaChecksum { expected: b.schema_checksum, got: schema }),
        schema == b.schema_checksum && data != b.data_checksum ==> b.checksum_check(schema, data)
            == Err::<(), BaseMismatch>(
            BaseMismatch::DataChecksum { expected: b.data_checksum, got: data },
        ),
{
}

/// Putting an index in replaces the first of its name, or adds it behind all others; all
/// others stay in their places.
pub proof fn entries_stay_in_place(indexes: Seq<IndexEntry>, entry: IndexEntry, j: int)
    ensures
        ({
            let r = manifest::with_entry(indexes, entry);
            let known = exists|i: int|
                0 <= i < indexes.len() && (#[trigger] indexes[i]).name@ == entry.name@;
            &&& r.len() == (if known {
                indexes.len()
            } else {
                indexes.len() + 1
            })
            &&& !known ==> r.last() == entry
            &&& 0 <= j < indexes.len() && indexes[j].name@ != entry.name@ ==> r[j] == indexes[j]
            &&& 0 <= j < indexes.len() && indexes[j].name@ == entry.name@ && (forall|i: int|
                0 <= i < j ==> (#[trigger] indexes[i]).name@ != entry.name@) ==> r[j] == entry
        }),
{
    manifest::place_of_is_first(indexes, entry.name@);
    let p = manifest::place_of(indexes, entry.name@);
    if p is Some {
        assert(indexes[p->0].name@ == entry.name@);
    }
    if 0 <= j < indexes.len() && indexes[j].name@ == entry.name@ && (forall|i: int|
        0 <= i < j ==> (#[trigger] indexes[i]).name@ != entry.name@) {
        assert(p is Some);
        if p->0 < j {
            assert(indexes[p->0].name@ != entry.name@);
        }
        if j < p->0 {
            assert(indexes[j].name@ != entry.name@);
        }
    }
}

} // verus!
