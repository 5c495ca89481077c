//! The metadata of a file: what is known of its parts while it is written.
use crate::file_format::{CompressionType, EncodingType, VectorBlock};
use crate::tables;
use crate::tables::{
    ChunkTable, ColumnMetadataTable, DictionaryEncodingTable, EncUnitTable, EncodingTable,
    EncodingVersionTable, RowGroupMetadataTable, SemVer, WasmEncodingTable,
};
use semver::Version;
use vstd::prelude::*;

verus! {

/// Where a part of the metadata is.
#[derive(Clone, Copy, Debug, PartialEq, Eq, Structural)]
pub struct MetadataSection {
    pub offset: u64,
    pub size: u32,
    pub compression_type: CompressionType,
}

/// The version of an encoding.
#[derive(Clone, Copy, Debug, PartialEq, Eq, Structural)]
pub struct EncodingVersion {
    pub encoding_type: EncodingType,
    pub version: SemVer,
}

/// The decimal digits of a number.
pub open spec fn decimal(n: nat) -> Seq<char>
    decreases n,
{
    if n < 10 {
        seq![(48 + n) as char]
    } else {
        decimal(n / 10).push((48 + n % 10) as char)
    }
}

/// Three numbers with dots between them.
pub open spec fn dotted(v: SemVer) -> Seq<char> {
    decimal(v.major as nat) + seq!['.'] + decimal(v.minor as nat) + seq!['.'] + decimal(
        v.patch as nat,
    )
}

/// The three numbers of the version that a text spells.
pub uninterp spec fn version_of(text: Seq<char>) -> Option<SemVer>;

/// `semver::Version::parse`: the three numbers of the version that a text spells,
/// which is a function of the text. Three numbers with dots between them spell the
/// version of these numbers.
#[verifier::external_body]
pub(crate) fn parse_version(text: &str) -> (r: Option<SemVer>)
    ensures
        r == version_of(text@),
        forall|v: SemVer| text@ == #[trigger] dotted(v) ==> r == Some(v),
{
    match Version::parse(text) {
        Ok(v) => Some(SemVer { major: v.major, minor: v.minor, patch: v.patch }),
        Err(_) => None,
    }
}

impl EncodingVersion {
    pub fn new(encoding_type: EncodingType, version: SemVer) -> (r: Self)
        ensures
            r == (EncodingVersion { encoding_type, version }),
    {
        EncodingVersion { encoding_type, version }
    }

    /// The table.
    pub fn to_fb(&self) -> (r: EncodingVersionTable)
        ensures
            r.encoding_type == self.encoding_type,
            r.version == self.version,
    {
        EncodingVersionTable { encoding_type: self.encoding_type, version: self.version }
    }
}

/// The versions of the encodings that a file is written with.
pub open spec fn default_versions() -> Seq<EncodingVersion> {
    seq![
        EncodingVersion {
            encoding_type: EncodingType::CASCADE,
            version: SemVer { major: 0, minor: 21, patch: 0 },
        },
        EncodingVersion {
            encoding_type: EncodingType::CUSTOM_WASM,
            version: SemVer { major: 1, minor: 0, patch: 0 },
        },
    ]
}

/// The versions of the encodings that a file is written with.
pub fn create_default_encoding_versions() -> (r: Vec<EncodingVersion>)
    ensures
        r@ == default_versions(),
{
    proof {
        reveal_strlit("0.21.0");
        reveal_strlit("1.0.0");
        reveal_with_fuel(decimal, 3);
        let a = SemVer { major: 0, minor: 21, patch: 0 };
        let b = SemVer { major: 1, minor: 0, patch: 0 };
        assert(decimal(0) =~= seq!['0']);
        assert(decimal(1) =~= seq!['1']);
        assert(decimal(21) =~= seq!['2', '1']);
        assert("0.21.0"@ =~= dotted(a));
        assert("1.0.0"@ =~= dotted(b));
    }
    let mut versions: Vec<EncodingVersion> = Vec::new();
    if let Some(v) = parse_version("0.21.0") {
        versions.push(EncodingVersion::new(EncodingType::CASCADE, v));
    }
    if let Some(v) = parse_version("1.0.0") {
        versions.push(EncodingVersion::new(EncodingType::CUSTOM_WASM, v));
    }
    versions
}

/// What the values of a chunk refer to.
#[derive(Clone, Debug)]
pub enum DictionaryEncoding {
    NoDictionary,
    /// The encoding units of the chunk that hold the dictionary.
    Dictionary(Vec<u32>),
    /// A dictionary of the file.
    SharedDictionary(u32),
}

/// What the values of a chunk refer to.
#[verifier::ext_equal]
pub enum Dictionary {
    No,
    Local(Seq<u32>),
    Shared(u32),
    Unknown,
}

impl View for DictionaryEncoding {
    type V = Dictionary;

    open spec fn view(&self) -> Dictionary {
        match self {
            DictionaryEncoding::NoDictionary => Dictionary::No,
            DictionaryEncoding::Dictionary(idxs) => Dictionary::Local(idxs@),
            DictionaryEncoding::SharedDictionary(idx) => Dictionary::Shared(*idx),
        }
    }
}

impl Default for DictionaryEncoding {
    fn default() -> (r: Self)
        ensures
            r@ == Dictionary::No,
    {
        DictionaryEncoding::NoDictionary
    }
}

impl DictionaryEncoding {
    /// The table.
    pub fn to_fb(&self) -> (r: DictionaryEncodingTable)
        ensures
            r.meaning() == self@,
    {
        match self {
            DictionaryEncoding::NoDictionary => DictionaryEncodingTable::NoDictionary,
            DictionaryEncoding::Dictionary(idxs) => DictionaryEncodingTable::LocalDictionary(
                tables::copy_u32s(idxs),
            ),
            DictionaryEncoding::SharedDictionary(idx) => DictionaryEncodingTable::SharedDictionary(
                *idx,
            ),
        }
    }
}

/// The module that decodes an encoding unit.
#[derive(Clone, Debug)]
pub struct WASMEncoding {
    pub wasm_id: u32,
    pub mini_encunit_sizes: Vec<u32>,
}

/// The module that decodes an encoding unit.
#[verifier::ext_equal]
pub struct WasmEncodingView {
    pub wasm_id: u32,
    pub mini_encunit_sizes: Seq<u32>,
}

impl View for WASMEncoding {
    type V = WasmEncodingView;

    open spec fn view(&self) -> WasmEncodingView {
        WasmEncodingView { wasm_id: self.wasm_id, mini_encunit_sizes: self.mini_encunit_sizes@ }
    }
}

impl WASMEncoding {
    pub fn new(wasm_id: u32, mini_encunit_sizes: Vec<u32>) -> (r: Self)
        ensures
            r.wasm_id == wasm_id,
            r.mini_encunit_sizes == mini_encunit_sizes,
    {
        WASMEncoding { wasm_id, mini_encunit_sizes }
    }

    /// What the table says; the sizes have to be there.
    pub fn from_fb(table: &WasmEncodingTable) -> (r: Self)
        requires
            table.mini_encunit_sizes is Some,
        ensures
            Some(r@) == tables::wasm_of(Some(*table)),
    {
        let sizes = match &table.mini_encunit_sizes {
            Some(sizes) => tables::copy_u32s(sizes),
            None => Vec::new(),
        };
        WASMEncoding { wasm_id: table.wasm_id, mini_encunit_sizes: sizes }
    }

    /// The table.
    pub fn to_fb(&self) -> (r: WasmEncodingTable)
        ensures
            tables::wasm_of(Some(r)) == Some(self@),
            r.mini_encunit_sizes is Some,
    {
        WasmEncodingTable {
            wasm_id: self.wasm_id,
            mini_encunit_sizes: Some(tables::copy_u32s(&self.mini_encunit_sizes)),
        }
    }
}

/// How an encoding unit is encoded.
#[derive(Clone, Debug)]
pub struct Encoding {
    pub encoding_type: EncodingType,
    pub wasm_encoding: Option<WASMEncoding>,
}

/// How an encoding unit is encoded.
#[verifier::ext_equal]
pub struct EncodingView {
    pub encoding_type: EncodingType,
    pub wasm_encoding: Option<WasmEncodingView>,
}

impl View for Encoding {
    type V = EncodingView;

    open spec fn view(&self) -> EncodingView {
        EncodingView {
            encoding_type: self.encoding_type,
            wasm_encoding: match self.wasm_encoding {
                Some(w) => Some(w@),
                None => None,
            },
        }
    }
}

impl Default for Encoding {
    fn default() -> (r: Self)
        ensures
            r.encoding_type == EncodingType::CASCADE,
            r.wasm_encoding is None,
    {
        Encoding { encoding_type: EncodingType::CASCADE, wasm_encoding: None }
    }
}

impl Encoding {
    /// Always succeeds.
    pub fn try_new(encoding_type: EncodingType, wasm_encoding: Option<WASMEncoding>) -> (r: Result<
        Self,
        (),
    >)
        ensures
            r == Ok::<Self, ()>(Encoding { encoding_type, wasm_encoding }),
    {
        Ok(Encoding { encoding_type, wasm_encoding })
    }

    pub fn encoding_type(&self) -> (r: EncodingType)
        ensures
            r == self.encoding_type,
    {
        self.encoding_type
    }

    pub fn wasm_encoding(&self) -> (r: Option<&WASMEncoding>)
        ensures
            r matches Some(w) ==> self.wasm_encoding == Some(*w),
            r is None <==> self.wasm_encoding is None,
    {
        self.wasm_encoding.as_ref()
    }

    /// What the table says; where there is a module its sizes have to be there.
    pub fn from_fb(table: &EncodingTable) -> (r: Self)
        requires
            table.wasm_encoding matches Some(w) ==> w.mini_encunit_sizes is Some,
        ensures
            r@ == table.meaning(),
    {
        let wasm_encoding = match &table.wasm_encoding {
            Some(w) => Some(WASMEncoding::from_fb(w)),
            None => None,
        };
        Encoding { encoding_type: table.type_, wasm_encoding }
    }

    /// The table.
    pub fn to_fb(&self) -> (r: EncodingTable)
        ensures
            r.meaning() == self@,
            r.wasm_encoding matches Some(w) ==> w.mini_encunit_sizes is Some,
    {
        let wasm_encoding = match &self.wasm_encoding {
            Some(w) => Some(w.to_fb()),
            None => None,
        };
        EncodingTable { type_: self.encoding_type, wasm_encoding }
    }
}

/// A part of a chunk that is decoded by itself.
#[derive(Clone, Debug)]
pub struct EncUnit {
    pub size: u32,
    pub num_rows: u32,
    pub encoding: Encoding,
    pub compression: CompressionType,
}

/// A part of a chunk that is decoded by itself.
#[verifier::ext_equal]
pub struct UnitView {
    pub size: u32,
    pub num_rows: u32,
    pub encoding: EncodingView,
    pub compression: CompressionType,
}

impl View for EncUnit {
    type V = UnitView;

    open spec fn view(&self) -> UnitView {
        UnitView {
            size: self.size,
            num_rows: self.num_rows,
            encoding: self.encoding@,
            compression: self.compression,
        }
    }
}

impl EncUnit {
    pub fn new(
        size: u32,
        num_rows: u32,
        encoding: Encoding,
        compression: CompressionType,
    ) -> (r: Self)
        ensures
            r.size == size,
            r.num_rows == num_rows,
            r.encoding == encoding,
            r.compression == compression,
    {
        EncUnit { size, num_rows, encoding, compression }
    }

    /// The table.
    pub fn to_fb(&self) -> (r: EncUnitTable)
        ensures
            r.meaning() == self@,
            r.encoding is Some,
    {
        EncUnitTable {
            size_: self.size,
            num_rows: self.num_rows,
            encoding: Some(self.encoding.to_fb()),
            compression: self.compression,
        }
    }
}

/// A part of a column that is read at once.
#[derive(Clone, Debug)]
pub struct Chunk {
    pub offset: u64,
    pub size: u32,
    pub num_rows: u64,
    pub encoding: DictionaryEncoding,
    pub blocks: Vec<EncUnit>,
    pub checksum: Option<u64>,
}

/// A part of a column that is read at once.
#[verifier::ext_equal]
pub struct ChunkView {
    pub offset: u64,
    pub size: u32,
    pub num_rows: u64,
    pub encoding: Dictionary,
    pub units: Seq<UnitView>,
    pub checksum: Option<u64>,
}

/// What encoding units are.
pub open spec fn units_of(v: Seq<EncUnit>) -> Seq<UnitView> {
    v.map_values(|u: EncUnit| u@)
}

impl View for Chunk {
    type V = ChunkView;

    open spec fn view(&self) -> ChunkView {
        ChunkView {
            offset: self.offset,
            size: self.size,
            num_rows: self.num_rows,
            encoding: self.encoding@,
            units: units_of(self.blocks@),
            checksum: self.checksum,
        }
    }
}

impl Chunk {
    pub fn new(
        offset: u64,
        size: u32,
        num_rows: u64,
        encoding: DictionaryEncoding,
        blocks: Vec<EncUnit>,
        checksum: Option<u64>,
    ) -> (r: Self)
        ensures
            r == (Chunk { offset, size, num_rows, encoding, blocks, checksum }),
    {
        Chunk { offset, size, num_rows, encoding, blocks, checksum }
    }

    pub fn offset(&self) -> (r: u64)
        ensures
            r == self.offset,
    {
        self.offset
    }

    /// The table.
    pub fn to_fb(&self) -> (r: ChunkTable)
        ensures
            r.meaning() == self@,
            r.complete(),
    {
        let mut units: Vec<EncUnitTable> = Vec::new();
        let mut i: usize = 0;
        while i < self.blocks.len()
            invariant
                i <= self.blocks@.len(),
                units@.len() == i,
                forall|j: int|
                    0 <= j < i ==> (#[trigger] units@[j]).meaning() == self.blocks@[j]@
                        && units@[j].encoding is Some,
            decreases self.blocks@.len() - i,
        {
            units.push(self.blocks[i].to_fb());
            i = i + 1;
        }
        let r = ChunkTable {
            offset: self.offset,
            size_: self.size,
            num_rows: self.num_rows,
            encoding: self.encoding.to_fb(),
            encunits: Some(units),
            checksum: self.checksum,
        };
        assert(r.meaning().units =~= self@.units);
        r
    }
}

/// What is known of a column in a row group: its chunks, and its blocks if it
/// holds vectors.
#[derive(Clone, Debug)]
pub struct ColumnMetadata {
    pub column_chunks: Vec<Chunk>,
    pub vector_blocks: Vec<VectorBlock>,
    pub io_hint_bytes: u32,
}

/// What chunks are.
pub open spec fn chunks_of(v: Seq<Chunk>) -> Seq<ChunkView> {
    v.map_values(|c: Chunk| c@)
}

impl Default for ColumnMetadata {
    fn default() -> (r: Self)
        ensures
            r.column_chunks@.len() == 0,
            r.vector_blocks@.len() == 0,
            r.io_hint_bytes == 0,
    {
        ColumnMetadata { column_chunks: Vec::new(), vector_blocks: Vec::new(), io_hint_bytes: 0 }
    }
}

impl ColumnMetadata {
    /// Adds a chunk.
    pub fn add_chunk(&mut self, chunk: Chunk)
        ensures
            final(self).column_chunks@ == old(self).column_chunks@.push(chunk),
            final(self).vector_blocks == old(self).vector_blocks,
            final(self).io_hint_bytes == old(self).io_hint_bytes,
    {
        self.column_chunks.push(chunk);
    }

    /// Adds a block of vectors.
    pub fn add_vector_block(&mut self, block: VectorBlock, io_hint_bytes: u32)
        ensures
            final(self).vector_blocks@ == old(self).vector_blocks@.push(block),
            final(self).io_hint_bytes == io_hint_bytes,
            final(self).column_chunks == old(self).column_chunks,
    {
        self.vector_blocks.push(block);
        self.io_hint_bytes = io_hint_bytes;
    }

    /// The table of the chunks.
    pub fn to_fb(&self) -> (r: ColumnMetadataTable)
        ensures
            r.column_chunks is Some,
            tables::table_chunks(r) == chunks_of(self.column_chunks@),
            forall|i: int|
                0 <= i < (r.column_chunks->0)@.len() ==> (
                #[trigger] (r.column_chunks->0)@[i]).complete(),
    {
        let mut chunks: Vec<ChunkTable> = Vec::new();
        let mut i: usize = 0;
        while i < self.column_chunks.len()
            invariant
                i <= self.column_chunks@.len(),
                chunks@.len() == i,
                forall|j: int|
                    0 <= j < i ==> (#[trigger] chunks@[j]).meaning() == self.column_chunks@[j]@
                        && chunks@[j].complete(),
            decreases self.column_chunks@.len() - i,
        {
            chunks.push(self.column_chunks[i].to_fb());
            i = i + 1;
        }
        let r = ColumnMetadataTable { column_chunks: Some(chunks) };
        assert(tables::table_chunks(r) =~= chunks_of(self.column_chunks@));
        r
    }
}

/// Where the metadata of the columns of a row group is.
#[derive(Clone, Debug)]
pub struct IndirectRowGroupMetadata {
    pub col_metadatas: Vec<MetadataSection>,
}

impl IndirectRowGroupMetadata {
    pub fn new(metadata_sec: Vec<MetadataSection>) -> (r: Self)
        ensures
            r.col_metadatas == metadata_sec,
    {
        IndirectRowGroupMetadata { col_metadatas: metadata_sec }
    }

    /// Adds a column.
    pub fn add_col_meta(&mut self, col_meta: MetadataSection)
        ensures
            final(self).col_metadatas@ == old(self).col_metadatas@.push(col_meta),
    {
        self.col_metadatas.push(col_meta);
    }

    /// What the table says; a missing list is an empty one.
    pub fn from_fb(table: &RowGroupMetadataTable) -> (r: Self)
        ensures
            r.col_metadatas@ == crate::file_format::or_empty(table.col_metadatas),
    {
        let mut col_metadatas: Vec<MetadataSection> = Vec::new();
        if let Some(sections) = &table.col_metadatas {
            col_metadatas = tables::copy_sections(sections);
        }
        IndirectRowGroupMetadata { col_metadatas }
    }

    /// The table.
    pub fn to_fb(&self) -> (r: RowGroupMetadataTable)
        ensures
            r.col_metadatas is Some,
            (r.col_metadatas->0)@ == self.col_metadatas@,
    {
        RowGroupMetadataTable { col_metadatas: Some(tables::copy_sections(&self.col_metadatas)) }
    }
}

/// What is known of the columns of a row group.
#[derive(Clone, Debug)]
pub struct RowGroupMetadata {
    pub col_metadatas: Vec<ColumnMetadata>,
}

impl Default for RowGroupMetadata {
    /// No columns.
    fn default() -> (r: Self)
        ensures
            r.col_metadatas@.len() == 0,
    {
        RowGroupMetadata { col_metadatas: Vec::new() }
    }
}

impl RowGroupMetadata {
    pub fn new(metadata_sec: Vec<ColumnMetadata>) -> (r: Self)
        ensures
            r.col_metadatas == metadata_sec,
    {
        RowGroupMetadata { col_metadatas: metadata_sec }
    }

    pub fn col_metadatas(&self) -> (r: &[ColumnMetadata])
        ensures
            r@ == self.col_metadatas@,
    {
        self.col_metadatas.as_slice()
    }
}

/// The column metadata of one row group.
#[derive(Clone, Debug)]
pub struct GroupedColumnMetadata {
    pub column_metadatas: Vec<ColumnMetadataTable>,
    pub row_count: u32,
    pub _offset: u64,
    pub _size: u32,
}

} // verus!
