//! The footer of a file, and how the metadata is found from the end of the file.
use crate::encoder;
use crate::encoder::{LogicalTree, LogicalTreeNode};
use crate::file_format;
use crate::file_format::{list_or_empty, CompressionType, EncodingType, POSTSCRIPT_SIZE};
use crate::footer;
use crate::footer::{
    create_default_encoding_versions, EncodingVersion, GroupedColumnMetadata, MetadataSection,
};
use crate::postscript;
use crate::postscript::PostScript;
use crate::reader;
use crate::row_groups;
use crate::row_groups::RowGroupsTable;
use crate::schema::{DataType, Schema};
use crate::tables;
use crate::tables::{
    ChunkTable, ColumnMetadataTable, EncodingVersionTable, RowGroupMetadataTable, SemVer,
};
use crate::vector_index::{VectorIndexDescriptor, VectorIndexDescriptorNode};
use vstd::prelude::*;

verus! {

/// The row groups of a file, as stored; lists may be missing.
#[derive(Clone, Debug)]
pub struct RowGroupsNode {
    pub row_group_metadatas: Option<Vec<RowGroupMetadataTable>>,
    pub row_counts: Option<Vec<u32>>,
    pub offsets: Option<Vec<u64>>,
    pub sizes: Option<Vec<u32>>,
}

/// The dictionaries of a file: their chunks, which chunks each is made of, and
/// the types of their values.
#[derive(Debug)]
pub struct SharedDictionaryNode {
    pub chunks: Vec<ChunkTable>,
    pub positions: Vec<Vec<u32>>,
    pub data_types: Vec<DataType>,
}

/// Sections of a file that a reader may skip.
#[derive(Clone, Debug)]
pub struct OptionalMetadataSections {
    pub names: Vec<String>,
    pub offsets: Vec<u64>,
    pub sizes: Vec<u32>,
    pub compression_types: Vec<CompressionType>,
}

/// The footer, as stored; parts may be missing.
#[derive(Debug)]
pub struct FooterNode {
    pub schema: Option<Vec<u8>>,
    pub logical_tree: Option<LogicalTreeNode>,
    pub row_groups: Option<RowGroupsNode>,
    pub shared_dictionary_table: Option<SharedDictionaryNode>,
    pub optional_sections: Option<OptionalMetadataSections>,
    pub encoding_versions: Option<Vec<EncodingVersionTable>>,
    pub vector_indexes: Option<Vec<VectorIndexDescriptorNode>>,
}

/// What the message that holds the schema was read as. Reading it is left to the
/// caller: `arrow_ipc::convert::fb_to_schema` has no error for a message that it cannot
/// turn into a schema, so no contract could say for which bytes it returns.
#[derive(Debug)]
pub enum SchemaMessage {
    /// It is no message.
    Unreadable,
    /// It is a message about something else.
    OtherHeader,
    Schema(Schema),
}

/// What is wrong with a footer.
#[derive(Clone, Copy, Debug, PartialEq, Eq, Structural)]
pub enum FooterError {
    SchemaNotFound,
    MessageUnreadable,
    NoSchemaMessage,
    RowGroupsNotFound,
    RowGroupMetadatasNotFound,
    RowCountsNotFound,
    OffsetsNotFound,
    SizesNotFound,
}

/// What a footer says.
#[derive(Debug)]
pub struct ParsedFooter {
    pub schema: Schema,
    pub logical_tree: LogicalTreeNode,
    pub row_groups: RowGroupsNode,
    pub shared_dictionary_table: Option<SharedDictionaryNode>,
    pub optional_sections: Option<OptionalMetadataSections>,
    /// The version of each encoding; no encoding twice.
    pub encoding_versions: Option<Vec<EncodingVersion>>,
    pub vector_indexes: Vec<VectorIndexDescriptor>,
}

/// The version of an encoding according to the last of the first `n` entries for it.
pub open spec fn version_for(v: Seq<EncodingVersionTable>, t: EncodingType, n: nat) -> Option<SemVer>
    decreases n,
{
    if n == 0 {
        None
    } else if v[n - 1].encoding_type == t {
        Some(v[n - 1].version)
    } else {
        version_for(v, t, (n - 1) as nat)
    }
}

/// Whether no encoding comes twice.
pub open spec fn each_once(v: Seq<EncodingVersion>) -> bool {
    forall|i: int, j: int|
        0 <= i < j < v.len() ==> (#[trigger] v[i]).encoding_type != (
        #[trigger] v[j]).encoding_type
}

/// Whether `t` has version `version` among `v`; none if it does not come.
pub open spec fn has_version(v: Seq<EncodingVersion>, t: EncodingType, version: Option<SemVer>) -> bool {
    match version {
        Some(s) => v.contains(EncodingVersion { encoding_type: t, version: s }),
        None => forall|i: int| 0 <= i < v.len() ==> (#[trigger] v[i]).encoding_type != t,
    }
}

/// Whether `v` maps each encoding to its version in the table.
pub open spec fn is_version_map(v: Seq<EncodingVersion>, table: Seq<EncodingVersionTable>, n: nat) -> bool {
    &&& each_once(v)
    &&& forall|t: EncodingType| has_version(v, t, #[trigger] version_for(table, t, n))
}

/// What descriptors say.
pub open spec fn descriptors_of(v: Seq<VectorIndexDescriptor>) -> Seq<
    crate::vector_index::Descriptor,
> {
    v.map_values(|d: VectorIndexDescriptor| d@)
}

/// What the tables of descriptors say.
pub open spec fn meanings_of(v: Seq<VectorIndexDescriptorNode>) -> Seq<
    crate::vector_index::Descriptor,
> {
    v.map_values(|d: VectorIndexDescriptorNode| d.meaning())
}

/// Whether `p` is what a footer with this schema says.
pub open spec fn says(node: FooterNode, schema: Schema, p: ParsedFooter) -> bool {
    &&& p.schema == schema
    &&& node.logical_tree == Some(p.logical_tree)
    &&& node.row_groups == Some(p.row_groups)
    &&& p.shared_dictionary_table == node.shared_dictionary_table
    &&& p.optional_sections == node.optional_sections
    &&& p.encoding_versions is Some <==> node.encoding_versions is Some
    &&& node.encoding_versions matches Some(table) ==> is_version_map(
        (p.encoding_versions->0)@,
        table@,
        table@.len(),
    )
    &&& descriptors_of(p.vector_indexes@) == meanings_of(
        file_format::or_empty(node.vector_indexes),
    )
}

/// What is wrong with a footer whose schema was read as `message`.
pub open spec fn footer_error(node: FooterNode, message: SchemaMessage) -> Option<FooterError> {
    if node.schema is None {
        Some(FooterError::SchemaNotFound)
    } else if message is Unreadable {
        Some(FooterError::MessageUnreadable)
    } else if message is OtherHeader {
        Some(FooterError::NoSchemaMessage)
    } else if node.row_groups is None {
        Some(FooterError::RowGroupsNotFound)
    } else {
        None
    }
}

/// Notes the version of an encoding, in place of an earlier one.
fn insert_version(v: &mut Vec<EncodingVersion>, entry: EncodingVersion)
    requires
        each_once(old(v)@),
    ensures
        each_once(final(v)@),
        final(v)@.contains(entry),
        forall|t: EncodingType, s: Option<SemVer>|
            t != entry.encoding_type && #[trigger] has_version(old(v)@, t, s) ==> has_version(
                final(v)@,
                t,
                s,
            ),
{
    let ghost before = v@;
    let mut i: usize = 0;
    while i < v.len() && v[i].encoding_type != entry.encoding_type
        invariant
            i <= v@.len(),
            v@ == before,
            forall|j: int|
                0 <= j < i ==> (#[trigger] before[j]).encoding_type != entry.encoding_type,
        decreases v@.len() - i,
    {
        i = i + 1;
    }
    if i < v.len() {
        v[i] = entry;
    } else {
        v.push(entry);
    }
    proof {
        assert(v@[i as int] == entry);
        assert forall|t: EncodingType, s: Option<SemVer>|
            t != entry.encoding_type && #[trigger] has_version(before, t, s) implies has_version(
            v@,
            t,
            s,
        ) by {
            if let Some(version) = s {
                let e = EncodingVersion { encoding_type: t, version };
                let k = choose|k: int| 0 <= k < before.len() && before[k] == e;
                assert(v@[k] == e);
            }
        }
    }
}

/// Reads a footer. `read` reads the message that holds the schema. Where the schema is
/// there the logical tree has to be, too.
pub fn parse_footer<F: Fn(&Vec<u8>) -> SchemaMessage>(node: FooterNode, read: F) -> (r: Result<
    ParsedFooter,
    FooterError,
>)
    requires
        node.schema matches Some(bytes) ==> call_requires(read, (&bytes,)) && forall|
            m: SchemaMessage,
        | #[trigger]
            call_ensures(read, (&bytes,), m) && m is Schema ==> node.logical_tree is Some,
    ensures
        match node.schema {
            None => r == Err::<ParsedFooter, FooterError>(FooterError::SchemaNotFound),
            Some(bytes) => exists|m: SchemaMessage| #[trigger]
                call_ensures(read, (&bytes,), m) && match footer_error(node, m) {
                    Some(e) => r == Err::<ParsedFooter, FooterError>(e),
                    None => r matches Ok(p) && says(node, m->Schema_0, p),
                },
        },
{
    let message = match &node.schema {
        None => {
            return Err(FooterError::SchemaNotFound);
        },
        Some(bytes) => read(bytes),
    };
    let ghost m = message;
    assert(call_ensures(read, (&node.schema->0,), m));
    parse_footer_with(node, message)
}

/// Reads a footer, whose schema was read as `message`. Where the schema is there
/// the logical tree has to be, too.
pub fn parse_footer_with(node: FooterNode, message: SchemaMessage) -> (r: Result<
    ParsedFooter,
    FooterError,
>)
    requires
        node.schema is Some && message is Schema ==> node.logical_tree is Some,
    ensures
        match footer_error(node, message) {
            Some(e) => r == Err::<ParsedFooter, FooterError>(e),
            None => r matches Ok(p) && says(node, message->Schema_0, p),
        },
{
    if node.schema.is_none() {
        return Err(FooterError::SchemaNotFound);
    }
    let schema = match message {
        SchemaMessage::Unreadable => {
            return Err(FooterError::MessageUnreadable);
        },
        SchemaMessage::OtherHeader => {
            return Err(FooterError::NoSchemaMessage);
        },
        SchemaMessage::Schema(schema) => schema,
    };
    let logical_tree = node.logical_tree.unwrap();
    let row_groups = match node.row_groups {
        None => {
            return Err(FooterError::RowGroupsNotFound);
        },
        Some(g) => g,
    };
    let encoding_versions = match node.encoding_versions {
        None => None,
        Some(table) => {
            let mut map: Vec<EncodingVersion> = Vec::new();
            let mut i: usize = 0;
            while i < table.len()
                invariant
                    i <= table@.len(),
                    is_version_map(map@, table@, i as nat),
                decreases table@.len() - i,
            {
                let ghost before = map@;
                let entry = EncodingVersion::new(table[i].encoding_type, table[i].version);
                insert_version(&mut map, entry);
                proof {
                    assert forall|t: EncodingType| has_version(
                        map@,
                        t,
                        #[trigger] version_for(table@, t, i as nat + 1),
                    ) by {
                        if t != entry.encoding_type {
                            assert(has_version(before, t, version_for(table@, t, i as nat)));
                        }
                    }
                }
                i = i + 1;
            }
            Some(map)
        },
    };
    let nodes = list_or_empty(node.vector_indexes);
    let ghost all = nodes@;
    let mut vector_indexes: Vec<VectorIndexDescriptor> = Vec::new();
    for n in it: nodes
        invariant
            it.seq() == all,
            vector_indexes@.len() == it.index(),
            forall|j: int|
                0 <= j < it.index() ==> (#[trigger] vector_indexes@[j])@ == all[j].meaning(),
    {
        vector_indexes.push(VectorIndexDescriptor::from_fb(n));
    }
    assert(descriptors_of(vector_indexes@) =~= meanings_of(all));
    Ok(
        ParsedFooter {
            schema,
            logical_tree,
            row_groups,
            shared_dictionary_table: node.shared_dictionary_table,
            optional_sections: node.optional_sections,
            encoding_versions,
            vector_indexes,
        },
    )
}

/// The tables of descriptors.
fn descriptor_nodes(v: &Vec<VectorIndexDescriptor>) -> (r: Vec<VectorIndexDescriptorNode>)
    ensures
        meanings_of(r@) == descriptors_of(v@),
{
    let mut nodes: Vec<VectorIndexDescriptorNode> = Vec::new();
    let mut i: usize = 0;
    while i < v.len()
        invariant
            i <= v@.len(),
            nodes@.len() == i,
            forall|j: int| 0 <= j < i ==> (#[trigger] nodes@[j]).meaning() == v@[j]@,
        decreases v@.len() - i,
    {
        nodes.push(v[i].to_fb());
        i = i + 1;
    }
    assert(meanings_of(nodes@) =~= descriptors_of(v@));
    nodes
}

/// Whether `node` is the table of the row groups.
pub open spec fn is_node_of(node: RowGroupsNode, groups: row_groups::Groups) -> bool {
    &&& node.row_counts matches Some(v) && v@ == groups.row_counts
    &&& node.offsets matches Some(v) && v@ == groups.offsets
    &&& node.sizes matches Some(v) && v@ == groups.sizes
    &&& node.row_group_metadatas matches Some(v) && {
        &&& v@.len() == groups.indirect.len()
        &&& forall|g: int|
            0 <= g < v@.len() ==> (#[trigger] v@[g]).col_metadatas is Some && (
            v@[g].col_metadatas->0)@ == groups.indirect[g].col_metadatas@
    }
}

/// The table of the row groups.
pub fn row_groups_node(table: &RowGroupsTable) -> (r: RowGroupsNode)
    ensures
        is_node_of(r, table@),
{
    let mut row_counts: Vec<u32> = Vec::new();
    row_counts.extend_from_slice(table.row_counts());
    assert(row_counts@ =~= table@.row_counts);
    let mut offsets: Vec<u64> = Vec::new();
    offsets.extend_from_slice(table.offsets());
    assert(offsets@ =~= table@.offsets);
    let mut sizes: Vec<u32> = Vec::new();
    sizes.extend_from_slice(table.sizes());
    assert(sizes@ =~= table@.sizes);
    let indirect = table.indirect_row_group_metadata();
    let mut metadatas: Vec<RowGroupMetadataTable> = Vec::new();
    let mut g: usize = 0;
    while g < indirect.len()
        invariant
            g <= indirect@.len(),
            metadatas@.len() == g,
            forall|h: int|
                0 <= h < g ==> (#[trigger] metadatas@[h]).col_metadatas is Some && (
                metadatas@[h].col_metadatas->0)@ == indirect@[h].col_metadatas@,
        decreases indirect@.len() - g,
    {
        metadatas.push(indirect[g].to_fb());
        g = g + 1;
    }
    RowGroupsNode {
        row_group_metadatas: Some(metadatas),
        row_counts: Some(row_counts),
        offsets: Some(offsets),
        sizes: Some(sizes),
    }
}

/// Whether `node` is the footer of a file: with this schema as a message, these
/// columns, these row groups, dictionaries and optional sections, and these
/// vector indexes.
pub open spec fn is_footer_of(
    node: FooterNode,
    schema: Seq<u8>,
    tree: LogicalTree,
    groups: row_groups::Groups,
    dictionaries: SharedDictionaryNode,
    sections: OptionalMetadataSections,
    indexes: Seq<VectorIndexDescriptor>,
) -> bool {
    &&& node.schema matches Some(s) && s@ == schema
    &&& node.logical_tree matches Some(t) && encoder::is_table_of(t, tree)
    &&& node.row_groups matches Some(g) && is_node_of(g, groups)
    &&& node.shared_dictionary_table == Some(dictionaries)
    &&& node.optional_sections == Some(sections)
    &&& node.encoding_versions matches Some(v) && v@.len() == footer::default_versions().len()
        && forall|i: int|
        0 <= i < v@.len() ==> (#[trigger] v@[i]).encoding_type
            == footer::default_versions()[i].encoding_type && v@[i].version
            == footer::default_versions()[i].version
    &&& node.vector_indexes matches Some(v) && meanings_of(v@) == descriptors_of(indexes)
}

/// The footer of a file.
pub fn footer_node(
    schema: Vec<u8>,
    tree: &LogicalTree,
    table: &RowGroupsTable,
    dictionaries: SharedDictionaryNode,
    sections: OptionalMetadataSections,
    indexes: &Vec<VectorIndexDescriptor>,
) -> (r: FooterNode)
    ensures
        is_footer_of(r, schema@, *tree, table@, dictionaries, sections, indexes@),
{
    let versions = create_default_encoding_versions();
    let mut encoding_versions: Vec<EncodingVersionTable> = Vec::new();
    let mut i: usize = 0;
    while i < versions.len()
        invariant
            i <= versions@.len(),
            encoding_versions@.len() == i,
            forall|j: int|
                0 <= j < i ==> (#[trigger] encoding_versions@[j]).encoding_type
                    == versions@[j].encoding_type && encoding_versions@[j].version
                    == versions@[j].version,
        decreases versions@.len() - i,
    {
        encoding_versions.push(versions[i].to_fb());
        i = i + 1;
    }
    FooterNode {
        schema: Some(schema),
        logical_tree: Some(tree.to_fb()),
        row_groups: Some(row_groups_node(table)),
        shared_dictionary_table: Some(dictionaries),
        optional_sections: Some(sections),
        encoding_versions: Some(encoding_versions),
        vector_indexes: Some(descriptor_nodes(indexes)),
    }
}

/// Reading the footer of a file gives back what it was made of: the row groups,
/// the dictionaries, the sections and the vector indexes, and the version of each
/// encoding that files are written with.
pub proof fn footer_round_trip(
    node: FooterNode,
    bytes: Seq<u8>,
    schema: Schema,
    tree: LogicalTree,
    groups: row_groups::Groups,
    dictionaries: SharedDictionaryNode,
    sections: OptionalMetadataSections,
    indexes: Seq<VectorIndexDescriptor>,
    p: ParsedFooter,
)
    requires
        is_footer_of(node, bytes, tree, groups, dictionaries, sections, indexes),
        says(node, schema, p),
    ensures
        footer_error(node, SchemaMessage::Schema(schema)) is None,
        p.schema == schema,
        encoder::is_table_of(p.logical_tree, tree),
        is_node_of(p.row_groups, groups),
        p.shared_dictionary_table == Some(dictionaries),
        p.optional_sections == Some(sections),
        descriptors_of(p.vector_indexes@) == descriptors_of(indexes),
        p.encoding_versions is Some,
        has_version(
            (p.encoding_versions->0)@,
            EncodingType::CASCADE,
            Some(SemVer { major: 0, minor: 21, patch: 0 }),
        ),
        has_version(
            (p.encoding_versions->0)@,
            EncodingType::CUSTOM_WASM,
            Some(SemVer { major: 1, minor: 0, patch: 0 }),
        ),
        has_version((p.encoding_versions->0)@, EncodingType::PLAIN, None),
        has_version((p.encoding_versions->0)@, EncodingType::NULLABLE, None),
{
    let v = (node.encoding_versions->0)@;
    reveal_with_fuel(version_for, 3);
    assert(v.len() == 2);
    assert(v[0].encoding_type == EncodingType::CASCADE);
    assert(v[1].encoding_type == EncodingType::CUSTOM_WASM);
    let all = (p.encoding_versions->0)@;
    assert(has_version(all, EncodingType::CASCADE, version_for(v, EncodingType::CASCADE, 2)));
    assert(has_version(
        all,
        EncodingType::CUSTOM_WASM,
        version_for(v, EncodingType::CUSTOM_WASM, 2),
    ));
    assert(has_version(all, EncodingType::PLAIN, version_for(v, EncodingType::PLAIN, 2)));
    assert(has_version(all, EncodingType::NULLABLE, version_for(v, EncodingType::NULLABLE, 2)));
}

/// How many row groups all lists speak of.
pub open spec fn group_count(node: RowGroupsNode) -> nat {
    let a = (node.row_group_metadatas->0)@.len();
    let b = (node.row_counts->0)@.len();
    let c = (node.offsets->0)@.len();
    let d = (node.sizes->0)@.len();
    let ab = if a < b {
        a
    } else {
        b
    };
    let cd = if c < d {
        c
    } else {
        d
    };
    if ab < cd {
        ab
    } else {
        cd
    }
}

/// Which list of the row groups is missing.
pub open spec fn missing_list(node: RowGroupsNode) -> Option<FooterError> {
    if node.row_group_metadatas is None {
        Some(FooterError::RowGroupMetadatasNotFound)
    } else if node.row_counts is None {
        Some(FooterError::RowCountsNotFound)
    } else if node.offsets is None {
        Some(FooterError::OffsetsNotFound)
    } else if node.sizes is None {
        Some(FooterError::SizesNotFound)
    } else {
        None
    }
}

/// Where the metadata of the columns of row group `g` is in the file.
pub open spec fn group_sections(node: RowGroupsNode, g: int) -> Seq<MetadataSection> {
    ((node.row_group_metadatas->0)@[g].col_metadatas->0)@
}

/// Which of the metadata of a file a section is, if the metadata starts at
/// `data_size`.
pub open spec fn span_of(s: MetadataSection, data_size: int) -> (int, int) {
    (s.offset - data_size, s.offset - data_size + s.size)
}

/// Whether all sections lie in the `len` bytes of metadata behind `data_size`.
pub open spec fn sections_in_range(node: RowGroupsNode, data_size: int, len: int) -> bool {
    forall|g: int|
        0 <= g < group_count(node) ==> (
        #[trigger] (node.row_group_metadatas->0)@[g]).col_metadatas is Some && forall|c: int|
            0 <= c < group_sections(node, g).len() ==> data_size <= (
            #[trigger] group_sections(node, g)[c]).offset && group_sections(node, g)[c].offset
                + group_sections(node, g)[c].size <= data_size + len
}

/// Where the footer starts in the metadata.
pub fn footer_start(p: &PostScript) -> (r: usize)
    requires
        p.footer_size <= p.metadata_size,
    ensures
        r == p.metadata_size - p.footer_size,
{
    (p.metadata_size - p.footer_size) as usize
}

/// Which parts of the metadata of a file, read into one buffer, hold the columns
/// of each row group.
pub fn column_spans(node: &RowGroupsNode, file_size: u64, p: &PostScript) -> (r: Result<
    Vec<Vec<(usize, usize)>>,
    FooterError,
>)
    requires
        file_size >= POSTSCRIPT_SIZE + p.metadata_size,
        missing_list(*node) is None ==> sections_in_range(
            *node,
            reader::metadata_span(file_size, *p).0,
            p.metadata_size as int,
        ),
    ensures
        match missing_list(*node) {
            Some(e) => r == Err::<Vec<Vec<(usize, usize)>>, FooterError>(e),
            None => {
                &&& r is Ok
                &&& (r->Ok_0)@.len() == group_count(*node)
                &&& forall|g: int|
                    0 <= g < group_count(*node) ==> (#[trigger] (r->Ok_0)@[g])@.len()
                        == group_sections(*node, g).len()
                &&& forall|g: int, c: int|
                    0 <= g < group_count(*node) && 0 <= c < group_sections(*node, g).len() ==> ({
                        let s = #[trigger] (r->Ok_0)@[g]@[c];
                        (s.0 as int, s.1 as int) == span_of(
                            group_sections(*node, g)[c],
                            reader::metadata_span(file_size, *p).0,
                        )
                    })
            },
        },
{
    let (metadatas, counts, offsets, sizes) = match lists(node) {
        Err(e) => {
            return Err(e);
        },
        Ok(l) => l,
    };
    let n: usize = smaller(
        smaller(metadatas.len(), counts.len()),
        smaller(offsets.len(), sizes.len()),
    );
    let data_size: u64 = file_size - POSTSCRIPT_SIZE - p.metadata_size as u64;
    let mut spans: Vec<Vec<(usize, usize)>> = Vec::new();
    let mut g: usize = 0;
    while g < n
        invariant
            g <= n,
            n == group_count(*node),
            node.row_group_metadatas == Some(*metadatas),
            n <= metadatas@.len(),
            data_size == reader::metadata_span(file_size, *p).0,
            sections_in_range(*node, data_size as int, p.metadata_size as int),
            spans@.len() == g,
            forall|h: int|
                0 <= h < g ==> (#[trigger] spans@[h])@.len() == group_sections(*node, h).len(),
            forall|h: int, c: int|
                0 <= h < g && 0 <= c < group_sections(*node, h).len() ==> ({
                    let s = #[trigger] spans@[h]@[c];
                    (s.0 as int, s.1 as int) == span_of(
                        group_sections(*node, h)[c],
                        data_size as int,
                    )
                }),
        decreases n - g,
    {
        let mut list: Vec<(usize, usize)> = Vec::new();
        assert((node.row_group_metadatas->0)@[g as int].col_metadatas is Some);
        if let Some(sections) = &metadatas[g].col_metadatas {
            let mut c: usize = 0;
            while c < sections.len()
                invariant
                    c <= sections@.len(),
                    g < n,
                    n == group_count(*node),
                    sections@ == group_sections(*node, g as int),
                    sections_in_range(*node, data_size as int, p.metadata_size as int),
                    list@.len() == c,
                    forall|k: int|
                        0 <= k < c ==> ({
                            let s = #[trigger] list@[k];
                            (s.0 as int, s.1 as int) == span_of(sections@[k], data_size as int)
                        }),
                decreases sections@.len() - c,
            {
                let ghost known = (node.row_group_metadatas->0)@[g as int];
                assert(group_sections(*node, g as int)[c as int].offset >= data_size);
                let start: u64 = sections[c].offset - data_size;
                list.push((start as usize, (start + sections[c].size as u64) as usize));
                c = c + 1;
            }
        }
        spans.push(list);
        g = g + 1;
    }
    Ok(spans)
}

/// The smaller of two numbers.
fn smaller(a: usize, b: usize) -> (r: usize)
    ensures
        r == (if a < b {
            a
        } else {
            b
        }),
{
    if a < b {
        a
    } else {
        b
    }
}

/// The lists of the row groups, if they are all there.
fn lists(node: &RowGroupsNode) -> (r: Result<
    (&Vec<RowGroupMetadataTable>, &Vec<u32>, &Vec<u64>, &Vec<u32>),
    FooterError,
>)
    ensures
        match missing_list(*node) {
            Some(e) => r is Err && r->Err_0 == e,
            None => r is Ok && node.row_group_metadatas == Some(*(r->Ok_0).0) && node.row_counts
                == Some(*(r->Ok_0).1) && node.offsets == Some(*(r->Ok_0).2) && node.sizes == Some(
                *(r->Ok_0).3,
            ),
        },
{
    let metadatas = match &node.row_group_metadatas {
        None => {
            return Err(FooterError::RowGroupMetadatasNotFound);
        },
        Some(v) => v,
    };
    let counts = match &node.row_counts {
        None => {
            return Err(FooterError::RowCountsNotFound);
        },
        Some(v) => v,
    };
    let offsets = match &node.offsets {
        None => {
            return Err(FooterError::OffsetsNotFound);
        },
        Some(v) => v,
    };
    let sizes = match &node.sizes {
        None => {
            return Err(FooterError::SizesNotFound);
        },
        Some(v) => v,
    };
    Ok((metadatas, counts, offsets, sizes))
}

/// How many rows a row group has, and where it is.
#[derive(Clone, Copy, Debug, PartialEq, Eq, Structural)]
pub struct RowGroupCntNPointer {
    pub row_count: u32,
    pub _offset: u64,
    pub _size: u32,
}

/// What a reader knows of a file: its columns, and the metadata of each row group.
#[derive(Debug)]
pub struct Footer {
    schema: Schema,
    row_group_metadatas: Vec<GroupedColumnMetadata>,
}

impl Footer {
    pub closed spec fn spec_schema(self) -> Schema {
        self.schema
    }

    pub closed spec fn groups(self) -> Seq<GroupedColumnMetadata> {
        self.row_group_metadatas@
    }

    pub fn schema(&self) -> (r: &Schema)
        ensures
            *r == self.spec_schema(),
    {
        &self.schema
    }

    pub fn row_group_metadatas(&self) -> (r: &[GroupedColumnMetadata])
        ensures
            r@ == self.groups(),
    {
        self.row_group_metadatas.as_slice()
    }

    /// Puts row groups together with the metadata of the columns that were read
    /// for them, as far as there are both.
    pub fn try_new_with_projection(
        pointers: &[RowGroupCntNPointer],
        columns: Vec<Vec<ColumnMetadataTable>>,
        schema: Schema,
    ) -> (r: Self)
        ensures
            r.spec_schema() == schema,
            r.groups().len() == (if pointers@.len() < columns@.len() {
                pointers@.len()
            } else {
                columns@.len()
            }),
            forall|g: int|
                0 <= g < r.groups().len() ==> {
                    &&& (#[trigger] r.groups()[g]).column_metadatas == columns@[g]
                    &&& r.groups()[g].row_count == pointers@[g].row_count
                    &&& r.groups()[g]._offset == pointers@[g]._offset
                    &&& r.groups()[g]._size == pointers@[g]._size
                },
    {
        let ghost all = columns@;
        let n: usize = columns.len();
        let mut groups: Vec<GroupedColumnMetadata> = Vec::new();
        for column_metadatas in it: columns
            invariant
                it.seq() == all,
                n == all.len(),
                groups@.len() == (if it.index() < pointers@.len() {
                    it.index()
                } else {
                    pointers@.len() as int
                }),
                forall|g: int|
                    0 <= g < groups@.len() ==> {
                        &&& (#[trigger] groups@[g]).column_metadatas == all[g]
                        &&& groups@[g].row_count == pointers@[g].row_count
                        &&& groups@[g]._offset == pointers@[g]._offset
                        &&& groups@[g]._size == pointers@[g]._size
                    },
        {
            let g: usize = groups.len();
            if g < pointers.len() {
                groups.push(
                    GroupedColumnMetadata {
                        column_metadatas,
                        row_count: pointers[g].row_count,
                        _offset: pointers[g]._offset,
                        _size: pointers[g]._size,
                    },
                );
            }
        }
        Footer { schema, row_group_metadatas: groups }
    }

    /// Puts all row groups together with the metadata of their columns, which was
    /// read where `column_spans` says.
    pub fn try_new(
        schema: Schema,
        node: &RowGroupsNode,
        columns: Vec<Vec<ColumnMetadataTable>>,
    ) -> (r: Result<Self, FooterError>)
        requires
            missing_list(*node) is None ==> columns@.len() == group_count(*node),
        ensures
            match missing_list(*node) {
                Some(e) => r is Err && r->Err_0 == e,
                None => {
                    &&& r is Ok
                    &&& (r->Ok_0).spec_schema() == schema
                    &&& (r->Ok_0).groups().len() == group_count(*node)
                    &&& forall|g: int|
                        0 <= g < group_count(*node) ==> {
                            &&& (#[trigger] (r->Ok_0).groups()[g]).column_metadatas == columns@[g]
                            &&& (r->Ok_0).groups()[g].row_count == (node.row_counts->0)@[g]
                            &&& (r->Ok_0).groups()[g]._offset == (node.offsets->0)@[g]
                            &&& (r->Ok_0).groups()[g]._size == (node.sizes->0)@[g]
                        }
                },
            },
    {
        let (_metadatas, counts, offsets, sizes) = match lists(node) {
            Err(e) => {
                return Err(e);
            },
            Ok(l) => l,
        };
        let mut pointers: Vec<RowGroupCntNPointer> = Vec::new();
        let n: usize = columns.len();
        let mut g: usize = 0;
        while g < n
            invariant
                g <= n,
                n <= counts@.len(),
                n <= offsets@.len(),
                n <= sizes@.len(),
                pointers@.len() == g,
                forall|h: int|
                    0 <= h < g ==> {
                        &&& (#[trigger] pointers@[h]).row_count == counts@[h]
                        &&& pointers@[h]._offset == offsets@[h]
                        &&& pointers@[h]._size == sizes@[h]
                    },
            decreases n - g,
        {
            pointers.push(
                RowGroupCntNPointer {
                    row_count: counts[g],
                    _offset: offsets[g],
                    _size: sizes[g],
                },
            );
            g = g + 1;
        }
        Ok(Footer::try_new_with_projection(pointers.as_slice(), columns, schema))
    }
}

/// A file: the data, the metadata of the columns of each row group, the footer,
/// and the postscript.
pub open spec fn file_of(
    data: Seq<u8>,
    columns: Seq<Seq<Seq<u8>>>,
    footer: Seq<u8>,
    p: PostScript,
) -> Seq<u8> {
    data + row_groups::all_joined(columns) + footer + postscript::postscript_bytes(p)
}

/// All parts of a file are found from its end: its last bytes give the postscript,
/// the postscript the metadata and the footer in it, and the sections of the
/// row groups, as they were noted when the columns were written, the metadata of
/// each column.
pub proof fn file_gives_parts(
    data: Seq<u8>,
    columns: Seq<Seq<Seq<u8>>>,
    footer: Seq<u8>,
    p: PostScript,
    g: int,
    c: int,
)
    requires
        0 <= g < columns.len(),
        0 <= c < columns[g].len(),
        columns[g][c].len() <= u32::MAX,
        p.metadata_size == row_groups::all_joined(columns).len() + footer.len(),
        p.footer_size == footer.len(),
        file_of(data, columns, footer, p).len() <= u64::MAX,
    ensures
        ({
            let file = file_of(data, columns, footer, p);
            let n = file.len() as int;
            let (start, size) = reader::metadata_span(n as u64, p);
            let metadata = file.subrange(start, start + size);
            let s = row_groups::section_of(
                columns[g],
                row_groups::group_start(columns, data.len() as int, g),
                c,
            );
            let span = span_of(s, start);
            &&& postscript::postscript_of(file.subrange(n - POSTSCRIPT_SIZE, n)) == Ok::<
                PostScript,
                postscript::MagicMismatch,
            >(p)
            &&& start == data.len()
            &&& start + size + POSTSCRIPT_SIZE == n
            &&& metadata.skip(p.metadata_size - p.footer_size) == footer
            &&& 0 <= span.0 <= span.1 <= metadata.len()
            &&& metadata.subrange(span.0, span.1) == columns[g][c]
        }),
{
    let file = file_of(data, columns, footer, p);
    let n = file.len() as int;
    let all = row_groups::all_joined(columns);
    postscript::postscript_round_trip(p);
    let tail = postscript::postscript_bytes(p);
    assert(file.subrange(n - 32, n) =~= tail);
    let start = data.len() as int;
    let metadata = file.subrange(start, start + p.metadata_size);
    assert(metadata =~= all + footer);
    assert(metadata.skip(all.len() as int) =~= footer);
    row_groups::group_is_found(columns, g);
    let at = row_groups::group_start(columns, start, g);
    let joined = row_groups::joined(columns[g]);
    row_groups::sections_find_columns(columns[g], at, c);
    let s = row_groups::section_of(columns[g], at, c);
    let from = s.offset - at;
    assert(all.subrange(at - start, at - start + joined.len()).subrange(from, from + s.size)
        =~= metadata.subrange(at - start + from, at - start + from + s.size));
}

} // verus!
