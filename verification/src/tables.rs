//! The tables that metadata is stored in; parts of them may be missing.
use crate::file_format::{CompressionType, EncodingType};
use crate::footer;
use crate::footer::MetadataSection;
use vstd::prelude::*;

verus! {

/// A version.
#[derive(Clone, Copy, Debug, PartialEq, Eq, Structural)]
pub struct SemVer {
    pub major: u64,
    pub minor: u64,
    pub patch: u64,
}

#[derive(Clone, Copy, Debug, PartialEq, Eq, Structural)]
pub struct EncodingVersionTable {
    pub encoding_type: EncodingType,
    pub version: SemVer,
}

#[derive(Clone, Debug)]
pub struct WasmEncodingTable {
    pub wasm_id: u32,
    pub mini_encunit_sizes: Option<Vec<u32>>,
}

#[derive(Clone, Debug)]
pub struct EncodingTable {
    pub type_: EncodingType,
    pub wasm_encoding: Option<WasmEncodingTable>,
}

#[derive(Clone, Debug)]
pub struct EncUnitTable {
    pub size_: u32,
    pub num_rows: u32,
    pub encoding: Option<EncodingTable>,
    pub compression: CompressionType,
}

#[derive(Clone, Debug)]
pub enum DictionaryEncodingTable {
    NoDictionary,
    LocalDictionary(Vec<u32>),
    SharedDictionary(u32),
    Unknown,
}

#[derive(Clone, Debug)]
pub struct ChunkTable {
    pub offset: u64,
    pub size_: u32,
    pub num_rows: u64,
    pub encoding: DictionaryEncodingTable,
    pub encunits: Option<Vec<EncUnitTable>>,
    pub checksum: Option<u64>,
}

#[derive(Clone, Debug)]
pub struct ColumnMetadataTable {
    pub column_chunks: Option<Vec<ChunkTable>>,
}

#[derive(Clone, Debug)]
pub struct RowGroupMetadataTable {
    pub col_metadatas: Option<Vec<MetadataSection>>,
}

/// What the table of a module says.
pub open spec fn wasm_of(t: Option<WasmEncodingTable>) -> Option<footer::WasmEncodingView> {
    match t {
        Some(w) => Some(
            footer::WasmEncodingView {
                wasm_id: w.wasm_id,
                mini_encunit_sizes: crate::file_format::or_empty(w.mini_encunit_sizes),
            },
        ),
        None => None,
    }
}

impl EncodingTable {
    /// What is read of it.
    pub open spec fn meaning(self) -> footer::EncodingView {
        footer::EncodingView {
            encoding_type: self.type_,
            wasm_encoding: wasm_of(self.wasm_encoding),
        }
    }
}

impl EncUnitTable {
    /// What is read of it; the encoding has to be there.
    pub open spec fn meaning(self) -> footer::UnitView {
        footer::UnitView {
            size: self.size_,
            num_rows: self.num_rows,
            encoding: self.encoding->0.meaning(),
            compression: self.compression,
        }
    }
}

impl DictionaryEncodingTable {
    /// What is read of it.
    pub open spec fn meaning(self) -> footer::Dictionary {
        match self {
            DictionaryEncodingTable::NoDictionary => footer::Dictionary::No,
            DictionaryEncodingTable::LocalDictionary(idxs) => footer::Dictionary::Local(idxs@),
            DictionaryEncodingTable::SharedDictionary(idx) => footer::Dictionary::Shared(idx),
            DictionaryEncodingTable::Unknown => footer::Dictionary::Unknown,
        }
    }
}

impl ChunkTable {
    /// What is read of it; the encoding units have to be there.
    pub open spec fn meaning(self) -> footer::ChunkView {
        footer::ChunkView {
            offset: self.offset,
            size: self.size_,
            num_rows: self.num_rows,
            encoding: self.encoding.meaning(),
            units: crate::file_format::or_empty(self.encunits).map_values(
                |u: EncUnitTable| u.meaning(),
            ),
            checksum: self.checksum,
        }
    }

    /// Whether the encoding units are there, each with its encoding.
    pub open spec fn complete(self) -> bool {
        &&& self.encunits is Some
        &&& forall|i: int|
            0 <= i < (self.encunits->0)@.len() ==> (
            #[trigger] (self.encunits->0)@[i]).encoding is Some
    }
}

/// What is read of the chunks of a column.
pub open spec fn table_chunks(t: ColumnMetadataTable) -> Seq<footer::ChunkView> {
    crate::file_format::or_empty(t.column_chunks).map_values(|c: ChunkTable| c.meaning())
}

/// A copy of numbers.
pub fn copy_u32s(v: &Vec<u32>) -> (r: Vec<u32>)
    ensures
        r@ == v@,
{
    let mut copy: Vec<u32> = Vec::new();
    copy.extend_from_slice(v.as_slice());
    assert(copy@ =~= v@);
    copy
}

/// A copy of sections.
pub fn copy_sections(v: &Vec<MetadataSection>) -> (r: Vec<MetadataSection>)
    ensures
        r@ == v@,
{
    let mut copy: Vec<MetadataSection> = Vec::new();
    let mut i: usize = 0;
    while i < v.len()
        invariant
            i <= v@.len(),
            copy@ =~= v@.take(i as int),
        decreases v@.len() - i,
    {
        copy.push(v[i]);
        i = i + 1;
    }
    assert(v@.take(i as int) =~= v@);
    copy
}

} // verus!
