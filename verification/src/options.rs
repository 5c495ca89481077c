//! How a file is written.
use crate::file_format::{ChecksumType, CompressionType};
use crate::schema::DataType;
use crate::vector_index::{VectorIndexBuildConfig, VectorIndexConfig};
use std::collections::HashMap;
use vstd::prelude::*;

verus! {

/// The bytes that are read at once.
pub const DEFAULT_IOUNIT_SIZE: u64 = 8 * 1024 * 1024;

/// The rows of an encoding unit.
pub const DEFAULT_ENCODING_UNIT_LEN: u64 = 64 * 1024;

/// Which values of a file share a dictionary.
#[derive(Clone, Copy, Debug, PartialEq, Eq, Structural)]
pub enum DictionaryTypeOptions {
    NoDictionary,
    /// Those of an encoding unit.
    EncoderDictionary,
    /// Those of a column.
    GlobalDictionary,
    /// Those of columns that share chunks of dictionaries.
    GlobalDictionaryMultiColSharing,
}

/// A library that encodes, and a module that decodes.
#[derive(Clone, Debug)]
pub struct WasmLib {
    pub encode_lib_path: String,
    pub decode_wasm_path: String,
}

/// Encodings that come with the options: their modules by number, and the number
/// for each type.
#[derive(Debug)]
pub struct CustomEncodingOptions {
    pub wasms: HashMap<u32, WasmLib>,
    pub data_type_to_wasm_id: Vec<(DataType, u32)>,
}

impl Default for CustomEncodingOptions {
    fn default() -> (r: Self)
        ensures
            r.wasms@ == Map::<u32, WasmLib>::empty(),
            r.data_type_to_wasm_id@.len() == 0,
    {
        CustomEncodingOptions { wasms: HashMap::new(), data_type_to_wasm_id: Vec::new() }
    }
}

impl CustomEncodingOptions {
    /// How many modules there are.
    pub open spec fn count(self) -> nat {
        self.wasms@.dom().len()
    }

    pub fn new(wasms: HashMap<u32, WasmLib>, data_type_to_wasm_id: Vec<(DataType, u32)>) -> (r: Self)
        ensures
            r.wasms == wasms,
            r.data_type_to_wasm_id == data_type_to_wasm_id,
    {
        CustomEncodingOptions { wasms, data_type_to_wasm_id }
    }

    /// How many modules there are.
    pub fn len(&self) -> (r: usize)
        ensures
            r == self.count(),
    {
        broadcast use vstd::std_specs::hash::group_hash_axioms;

        self.wasms.len()
    }

    /// Tells whether there are no modules.
    pub fn is_empty(&self) -> (r: bool)
        ensures
            r == (self.count() == 0),
    {
        broadcast use vstd::std_specs::hash::group_hash_axioms;

        self.wasms.len() == 0
    }
}

/// How a file is written.
#[derive(Debug)]
pub struct FileWriterOptions {
    pub iounit_size: u64,
    pub encoding_unit_len: u64,
    pub checksum_type: ChecksumType,
    /// Write the modules of the built-in encodings into the file; no others may
    /// come with it.
    pub write_built_in_wasm: bool,
    /// The rows of an encoding unit for some top-level columns.
    pub custom_encunit_len: HashMap<usize, usize>,
    /// A row group that has so many rows is finished.
    pub row_group_size: u64,
    pub custom_encoding_options: CustomEncodingOptions,
    pub dictionary_type: DictionaryTypeOptions,
    pub enable_io_unit_checksum: bool,
    pub compression_type: CompressionType,
    pub enable_micro_index: bool,
    /// Indexes to be embedded.
    pub vector_indexes: Vec<VectorIndexConfig>,
    /// Indexes to be built from columns.
    pub vector_index_builds: Vec<VectorIndexBuildConfig>,
}

/// Where the modules of a file come from.
#[derive(Clone, Copy, Debug, PartialEq, Eq, Structural)]
pub enum WasmContextKind {
    BuiltIn,
    Custom,
    Empty,
}

impl FileWriterOptions {
    /// Whether there are not both built-in modules and others.
    pub open spec fn consistent(self) -> bool {
        !self.write_built_in_wasm || self.custom_encoding_options.count() == 0
    }

    /// The options if nothing is said.
    pub open spec fn are_default(self) -> bool {
        &&& self.iounit_size == DEFAULT_IOUNIT_SIZE
        &&& self.encoding_unit_len == DEFAULT_ENCODING_UNIT_LEN
        &&& self.checksum_type.is_xx_hash()
        &&& !self.write_built_in_wasm
        &&& self.custom_encunit_len@ == Map::<usize, usize>::empty()
        &&& self.row_group_size == u64::MAX
        &&& self.custom_encoding_options.wasms@ == Map::<u32, WasmLib>::empty()
        &&& self.custom_encoding_options.data_type_to_wasm_id@.len() == 0
        &&& self.dictionary_type == DictionaryTypeOptions::EncoderDictionary
        &&& !self.enable_io_unit_checksum
        &&& self.compression_type.is_uncompressed()
        &&& !self.enable_micro_index
        &&& self.vector_indexes@.len() == 0
        &&& self.vector_index_builds@.len() == 0
    }

    pub fn new() -> (r: Self)
        ensures
            r.are_default(),
            r.consistent(),
    {
        FileWriterOptions::default()
    }

    pub fn builder() -> (r: FileWriterOptionsBuilder)
        ensures
            r.options.are_default(),
            r.options.consistent(),
    {
        FileWriterOptionsBuilder::with_defaults()
    }

    pub fn iounit_size(&self) -> (r: u64)
        ensures
            r == self.iounit_size,
    {
        self.iounit_size
    }

    pub fn encoding_unit_len(&self) -> (r: u64)
        ensures
            r == self.encoding_unit_len,
    {
        self.encoding_unit_len
    }

    pub fn checksum_type(&self) -> (r: ChecksumType)
        ensures
            r == self.checksum_type,
    {
        self.checksum_type
    }

    pub fn write_built_in_wasm(&self) -> (r: bool)
        ensures
            r == self.write_built_in_wasm,
    {
        self.write_built_in_wasm
    }

    pub fn custom_encunit_len(&self) -> (r: &HashMap<usize, usize>)
        ensures
            *r == self.custom_encunit_len,
    {
        &self.custom_encunit_len
    }

    /// The rows of an encoding unit of a top-level column, if they are set.
    pub fn encunit_len_of(&self, column: usize) -> (r: Option<usize>)
        ensures
            r == (if self.custom_encunit_len@.contains_key(column) {
                Some(self.custom_encunit_len@[column])
            } else {
                None
            }),
    {
        broadcast use vstd::std_specs::hash::group_hash_axioms;

        match self.custom_encunit_len.get(&column) {
            Some(n) => Some(*n),
            None => None,
        }
    }

    pub fn row_group_size(&self) -> (r: u64)
        ensures
            r == self.row_group_size,
    {
        self.row_group_size
    }

    pub fn custom_encoding_options(&self) -> (r: &CustomEncodingOptions)
        ensures
            *r == self.custom_encoding_options,
    {
        &self.custom_encoding_options
    }

    /// Takes the encodings that came with the options out of them.
    pub fn take_custom_encoding_options(&mut self) -> (r: CustomEncodingOptions)
        ensures
            r == old(self).custom_encoding_options,
            final(self).custom_encoding_options.wasms@ == Map::<u32, WasmLib>::empty(),
            final(self).custom_encoding_options.data_type_to_wasm_id@.len() == 0,
            (FileWriterOptions { custom_encoding_options: r, ..*final(self) }) == *old(self),
    {
        let mut taken = CustomEncodingOptions::default();
        std::mem::swap(&mut taken, &mut self.custom_encoding_options);
        taken
    }

    pub fn dictionary_type(&self) -> (r: DictionaryTypeOptions)
        ensures
            r == self.dictionary_type,
    {
        self.dictionary_type
    }

    pub fn enable_io_unit_checksum(&self) -> (r: bool)
        ensures
            r == self.enable_io_unit_checksum,
    {
        self.enable_io_unit_checksum
    }

    pub fn compression_type(&self) -> (r: CompressionType)
        ensures
            r == self.compression_type,
    {
        self.compression_type
    }

    pub fn enable_micro_index(&self) -> (r: bool)
        ensures
            r == self.enable_micro_index,
    {
        self.enable_micro_index
    }

    pub fn vector_indexes(&self) -> (r: &[VectorIndexConfig])
        ensures
            r@ == self.vector_indexes@,
    {
        self.vector_indexes.as_slice()
    }

    /// Takes the indexes to be embedded out of the options.
    pub fn take_vector_indexes(&mut self) -> (r: Vec<VectorIndexConfig>)
        ensures
            r == old(self).vector_indexes,
            final(self).vector_indexes@.len() == 0,
            (FileWriterOptions { vector_indexes: r, ..*final(self) }) == *old(self),
    {
        let mut taken: Vec<VectorIndexConfig> = Vec::new();
        std::mem::swap(&mut taken, &mut self.vector_indexes);
        taken
    }

    /// Where the modules of a file come from.
    pub fn wasm_context(&self) -> (r: WasmContextKind)
        requires
            self.consistent(),
        ensures
            r == (if self.write_built_in_wasm {
                WasmContextKind::BuiltIn
            } else if self.custom_encoding_options.count() > 0 {
                WasmContextKind::Custom
            } else {
                WasmContextKind::Empty
            }),
    {
        if self.write_built_in_wasm {
            WasmContextKind::BuiltIn
        } else if !self.custom_encoding_options.is_empty() {
            WasmContextKind::Custom
        } else {
            WasmContextKind::Empty
        }
    }
}

impl Default for FileWriterOptions {
    fn default() -> (r: Self)
        ensures
            r.are_default(),
            r.consistent(),
    {
        FileWriterOptionsBuilder::with_defaults().build()
    }
}

/// Options that are being set.
#[derive(Debug)]
pub struct FileWriterOptionsBuilder {
    pub options: FileWriterOptions,
}

impl FileWriterOptionsBuilder {
    /// Nothing has been set.
    pub fn with_defaults() -> (r: Self)
        ensures
            r.options.are_default(),
            r.options.consistent(),
    {
        FileWriterOptionsBuilder {
            options: FileWriterOptions {
                iounit_size: DEFAULT_IOUNIT_SIZE,
                encoding_unit_len: DEFAULT_ENCODING_UNIT_LEN,
                checksum_type: ChecksumType::xx_hash(),
                write_built_in_wasm: false,
                custom_encunit_len: HashMap::new(),
                row_group_size: u64::MAX,
                custom_encoding_options: CustomEncodingOptions::default(),
                dictionary_type: DictionaryTypeOptions::EncoderDictionary,
                enable_io_unit_checksum: false,
                compression_type: CompressionType::uncompressed(),
                enable_micro_index: false,
                vector_indexes: Vec::new(),
                vector_index_builds: Vec::new(),
            },
        }
    }

    /// The options. There must not be both built-in modules and others.
    pub fn build(self) -> (r: FileWriterOptions)
        requires
            self.options.consistent(),
        ensures
            r == self.options,
    {
        self.options
    }

    pub fn set_iounit_size(self, iounit_size: u64) -> (r: Self)
        ensures
            r.options == (FileWriterOptions { iounit_size, ..self.options }),
    {
        let mut options = self.options;
        options.iounit_size = iounit_size;
        FileWriterOptionsBuilder { options }
    }

    pub fn set_encoding_unit_len(self, encoding_unit_len: u64) -> (r: Self)
        ensures
            r.options == (FileWriterOptions { encoding_unit_len, ..self.options }),
    {
        let mut options = self.options;
        options.encoding_unit_len = encoding_unit_len;
        FileWriterOptionsBuilder { options }
    }

    pub fn set_checksum_type(self, checksum_type: ChecksumType) -> (r: Self)
        ensures
            r.options == (FileWriterOptions { checksum_type, ..self.options }),
    {
        let mut options = self.options;
        options.checksum_type = checksum_type;
        FileWriterOptionsBuilder { options }
    }

    pub fn write_built_in_wasm(self, write_built_in_wasm: bool) -> (r: Self)
        ensures
            r.options == (FileWriterOptions { write_built_in_wasm, ..self.options }),
    {
        let mut options = self.options;
        options.write_built_in_wasm = write_built_in_wasm;
        FileWriterOptionsBuilder { options }
    }

    pub fn set_custom_encunit_len(self, custom_encunit_len: HashMap<usize, usize>) -> (r: Self)
        ensures
            r.options == (FileWriterOptions { custom_encunit_len, ..self.options }),
    {
        let mut options = self.options;
        options.custom_encunit_len = custom_encunit_len;
        FileWriterOptionsBuilder { options }
    }

    pub fn set_row_group_size(self, row_group_size: u64) -> (r: Self)
        ensures
            r.options == (FileWriterOptions { row_group_size, ..self.options }),
    {
        let mut options = self.options;
        options.row_group_size = row_group_size;
        FileWriterOptionsBuilder { options }
    }

    pub fn set_custom_encoding_options(self, custom_encoding_options: CustomEncodingOptions) -> (r:
        Self)
        ensures
            r.options == (FileWriterOptions { custom_encoding_options, ..self.options }),
    {
        let mut options = self.options;
        options.custom_encoding_options = custom_encoding_options;
        FileWriterOptionsBuilder { options }
    }

    pub fn set_dictionary_type(self, dictionary_type: DictionaryTypeOptions) -> (r: Self)
        ensures
            r.options == (FileWriterOptions { dictionary_type, ..self.options }),
    {
        let mut options = self.options;
        options.dictionary_type = dictionary_type;
        FileWriterOptionsBuilder { options }
    }

    pub fn enable_io_unit_checksum(self, enable_io_unit_checksum: bool) -> (r: Self)
        ensures
            r.options == (FileWriterOptions { enable_io_unit_checksum, ..self.options }),
    {
        let mut options = self.options;
        options.enable_io_unit_checksum = enable_io_unit_checksum;
        FileWriterOptionsBuilder { options }
    }

    pub fn set_compression_type(self, compression_type: CompressionType) -> (r: Self)
        ensures
            r.options == (FileWriterOptions { compression_type, ..self.options }),
    {
        let mut options = self.options;
        options.compression_type = compression_type;
        FileWriterOptionsBuilder { options }
    }

    pub fn enable_micro_index(self, enable_micro_index: bool) -> (r: Self)
        ensures
            r.options == (FileWriterOptions { enable_micro_index, ..self.options }),
    {
        let mut options = self.options;
        options.enable_micro_index = enable_micro_index;
        FileWriterOptionsBuilder { options }
    }

    /// Adds an index to be embedded.
    pub fn add_vector_index(self, config: VectorIndexConfig) -> (r: Self)
        ensures
            r.options.vector_indexes@ == self.options.vector_indexes@.push(config),
            r.options == (FileWriterOptions {
                vector_indexes: r.options.vector_indexes,
                ..self.options
            }),
    {
        let mut options = self.options;
        options.vector_indexes.push(config);
        FileWriterOptionsBuilder { options }
    }

    /// Adds an index to be built from a column.
    pub fn add_vector_index_build(self, config: VectorIndexBuildConfig) -> (r: Self)
        ensures
            r.options.vector_index_builds@ == self.options.vector_index_builds@.push(config),
            r.options == (FileWriterOptions {
                vector_index_builds: r.options.vector_index_builds,
                ..self.options
            }),
    {
        let mut options = self.options;
        options.vector_index_builds.push(config);
        FileWriterOptionsBuilder { options }
    }
}

} // verus!
