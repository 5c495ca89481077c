//! Encoded parts of columns on their way to a file.
use crate::buffers;
use crate::buffers::{another, share};
use crate::file_format::CompressionType;
use crate::footer;
use crate::footer::{DictionaryEncoding, Encoding};
use bytes::Bytes;
use vstd::prelude::*;

verus! {

/// A part of a chunk that is decoded by itself, as bytes.
#[derive(Debug)]
pub struct SerializedEncUnit {
    bytes: Bytes,
    num_rows: u32,
    encoding: Encoding,
    compression_type: CompressionType,
}

impl SerializedEncUnit {
    /// The bytes of the unit.
    pub closed spec fn spec_bytes(self) -> Seq<u8> {
        buffers::shared_bytes(self.bytes)
    }

    /// What is known of the unit once it stands in a file.
    pub closed spec fn spec_meta(self) -> footer::UnitView {
        footer::UnitView {
            size: buffers::shared_bytes(self.bytes).len() as u32,
            num_rows: self.num_rows,
            encoding: self.encoding@,
            compression: self.compression_type,
        }
    }

    /// A unit of these bytes.
    pub fn new(
        bytes: Bytes,
        num_rows: u32,
        encoding: Encoding,
        compression_type: CompressionType,
    ) -> (r: Self)
        ensures
            r.spec_bytes() == buffers::shared_bytes(bytes),
            r.spec_meta() == (footer::UnitView {
                size: buffers::shared_bytes(bytes).len() as u32,
                num_rows,
                encoding: encoding@,
                compression: compression_type,
            }),
    {
        SerializedEncUnit { bytes, num_rows, encoding, compression_type }
    }

    /// A unit of bytes that are not shared yet.
    pub fn from_vec(
        bytes: Vec<u8>,
        num_rows: u32,
        encoding: Encoding,
        compression_type: CompressionType,
    ) -> (r: Self)
        ensures
            r.spec_bytes() == bytes@,
            r.spec_meta() == (footer::UnitView {
                size: bytes@.len() as u32,
                num_rows,
                encoding: encoding@,
                compression: compression_type,
            }),
    {
        SerializedEncUnit { bytes: share(bytes), num_rows, encoding, compression_type }
    }

    /// The bytes of the unit.
    pub fn bytes(&self) -> (r: Bytes)
        ensures
            buffers::shared_bytes(r) == self.spec_bytes(),
            self.spec_meta().size == buffers::shared_bytes(r).len() as u32,
    {
        another(&self.bytes)
    }

    pub fn num_rows(&self) -> (r: u32)
        ensures
            r == self.spec_meta().num_rows,
    {
        self.num_rows
    }

    pub fn encoding(&self) -> (r: &Encoding)
        ensures
            r@ == self.spec_meta().encoding,
    {
        &self.encoding
    }

    pub fn compression_type(&self) -> (r: CompressionType)
        ensures
            r == self.spec_meta().compression,
    {
        self.compression_type
    }

    /// What is known of the unit once it stands in a file; the encoding goes with
    /// it.
    pub fn into_meta(self, size: u32) -> (r: footer::EncUnit)
        ensures
            r@ == (footer::UnitView { size, ..self.spec_meta() }),
    {
        footer::EncUnit::new(size, self.num_rows, self.encoding, self.compression_type)
    }
}

/// The bytes of an index that belongs to a chunk.
#[derive(Clone, Debug)]
pub struct MicroIndexAux {
    pub bytes: Vec<u8>,
    pub reserved: Vec<u32>,
}

/// A part of a column that is read at once, as bytes.
#[derive(Debug)]
pub struct EncodedColumnChunk {
    pub encunits: Vec<SerializedEncUnit>,
    pub num_rows: usize,
    pub dict_encoding: DictionaryEncoding,
    /// The physical column that the chunk belongs to.
    pub column_index: u32,
    /// The bytes of an index, to be written behind the chunk.
    pub micro_index_aux: Option<MicroIndexAux>,
}

/// The bytes of units, one behind the other.
pub open spec fn unit_bytes(units: Seq<SerializedEncUnit>) -> Seq<u8>
    decreases units.len(),
{
    if units.len() == 0 {
        Seq::empty()
    } else {
        unit_bytes(units.drop_last()) + units.last().spec_bytes()
    }
}

/// What is known of units.
pub open spec fn unit_metas(units: Seq<SerializedEncUnit>) -> Seq<footer::UnitView> {
    units.map_values(|u: SerializedEncUnit| u.spec_meta())
}

impl Default for EncodedColumnChunk {
    fn default() -> (r: Self)
        ensures
            r.encunits@.len() == 0,
            r.num_rows == 0,
            r.dict_encoding@ == footer::Dictionary::No,
            r.column_index == 0,
            r.micro_index_aux is None,
    {
        EncodedColumnChunk::builder().build()
    }
}

impl EncodedColumnChunk {
    /// A chunk without units.
    pub fn builder() -> (r: EncodedColumnChunkBuilder)
        ensures
            r.encunits@.len() == 0,
            r.num_rows == 0,
            r.dict_encoding@ == footer::Dictionary::No,
            r.column_index == 0,
            r.micro_index_aux is None,
    {
        EncodedColumnChunkBuilder {
            encunits: Vec::new(),
            num_rows: 0,
            dict_encoding: DictionaryEncoding::default(),
            column_index: 0,
            micro_index_aux: None,
        }
    }

    /// The chunk as one of physical column `column_index`.
    pub fn update_column_index(self, column_index: u32) -> (r: Self)
        ensures
            r == (EncodedColumnChunk { column_index, ..self }),
    {
        EncodedColumnChunk {
            encunits: self.encunits,
            num_rows: self.num_rows,
            dict_encoding: self.dict_encoding,
            column_index,
            micro_index_aux: self.micro_index_aux,
        }
    }
}

/// A chunk that is being put together.
#[derive(Debug)]
pub struct EncodedColumnChunkBuilder {
    pub encunits: Vec<SerializedEncUnit>,
    pub num_rows: usize,
    pub dict_encoding: DictionaryEncoding,
    pub column_index: u32,
    pub micro_index_aux: Option<MicroIndexAux>,
}

impl EncodedColumnChunkBuilder {
    /// The chunk.
    pub fn build(self) -> (r: EncodedColumnChunk)
        ensures
            r.encunits == self.encunits,
            r.num_rows == self.num_rows,
            r.dict_encoding == self.dict_encoding,
            r.column_index == self.column_index,
            r.micro_index_aux == self.micro_index_aux,
    {
        EncodedColumnChunk {
            encunits: self.encunits,
            num_rows: self.num_rows,
            dict_encoding: self.dict_encoding,
            column_index: self.column_index,
            micro_index_aux: self.micro_index_aux,
        }
    }

    /// The chunk with what its values refer to.
    pub fn set_dict_encoding(self, dict_encoding: DictionaryEncoding) -> (r: Self)
        ensures
            r == (EncodedColumnChunkBuilder { dict_encoding, ..self }),
    {
        EncodedColumnChunkBuilder {
            encunits: self.encunits,
            num_rows: self.num_rows,
            dict_encoding,
            column_index: self.column_index,
            micro_index_aux: self.micro_index_aux,
        }
    }
}

} // verus!
