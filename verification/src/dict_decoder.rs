//! Decoding chunks of values that are taken from dictionaries.
use crate::buffers;
use crate::chunk_decoder;
use crate::chunk_decoder::NoDictColDecoder;
use crate::schema::{DataType, TimeUnit};
use bytes::Bytes;
use vstd::prelude::*;

verus! {

/// A dictionary, and indexes into it, as bytes.
pub struct DictUnits {
    pub dict: Bytes,
    pub dict_rows: u32,
    pub indices: Bytes,
    pub index_rows: u32,
}

/// A dictionary has no indexes into it.
#[derive(Clone, Copy, Debug, PartialEq, Eq, Structural)]
pub struct IndexMissing;

impl DictUnits {
    /// How many values the dictionary has. One without values stands for a value
    /// that is not there.
    pub fn dict_len(&self) -> (r: u64)
        ensures
            r == (if self.dict_rows == 0 {
                1
            } else {
                self.dict_rows
            }),
    {
        if self.dict_rows == 0 {
            1
        } else {
            self.dict_rows as u64
        }
    }
}

/// Decodes a chunk in which each dictionary stands in front of the indexes into it.
pub struct DictColDecoder {
    pub chunk: NoDictColDecoder,
}

impl DictColDecoder {
    /// Starts with the first unit.
    pub fn new(chunk: NoDictColDecoder) -> (r: Self)
        ensures
            r.chunk == chunk,
    {
        DictColDecoder { chunk }
    }

    /// Takes the next two units, if there are any: a dictionary, and the indexes
    /// into it.
    pub fn decode_batch(&mut self) -> (r: Result<Option<DictUnits>, IndexMissing>)
        requires
            old(self).chunk.valid(),
        ensures
            final(self).chunk.valid(),
            ({
                let at = old(self).chunk.taken as int;
                let left = old(self).chunk.units@.len() - at;
                if left == 0 {
                    r matches Ok(None) && old(self).chunk.took(final(self).chunk, at)
                } else if left == 1 {
                    r is Err && old(self).chunk.took(final(self).chunk, at + 1)
                } else {
                    &&& r matches Ok(Some(d))
                    &&& buffers::shared_bytes(d.dict) == old(self).chunk.unit_data(at)
                    &&& d.dict_rows == old(self).chunk.units@[at].num_rows
                    &&& buffers::shared_bytes(d.indices) == old(self).chunk.unit_data(at + 1)
                    &&& d.index_rows == old(self).chunk.units@[at + 1].num_rows
                    &&& old(self).chunk.took(final(self).chunk, at + 2)
                }
            }),
    {
        let ghost begin = self.chunk;
        let at: usize = self.chunk.taken;
        let dict = match self.chunk.decode_batch() {
            None => {
                return Ok(None);
            },
            Some(d) => d,
        };
        let ghost mid = self.chunk;
        let indices = match self.chunk.decode_batch() {
            None => {
                assert(self.chunk.bytes() =~= mid.bytes());
                return Err(IndexMissing);
            },
            Some(d) => d,
        };
        proof {
            let first = begin.units@[at as int].size_ as int;
            chunk_decoder::unit_sizes_grow(begin.units@, at + 2, begin.units@.len() as int);
            assert(mid.unit_data(at + 1) =~= begin.unit_data(at + 1));
            assert(self.chunk.bytes() =~= begin.bytes().skip(first + begin.units@[at + 1].size_));
        }
        let dict_rows: u32 = self.chunk.units[at].num_rows;
        let index_rows: u32 = self.chunk.units[at + 1].num_rows;
        Ok(Some(DictUnits { dict, dict_rows, indices, index_rows }))
    }
}

/// How many bits an index into a dictionary has.
#[derive(Clone, Copy, Debug, PartialEq, Eq, Structural)]
pub enum IndexWidth {
    Bits8,
    Bits16,
    Bits32,
    Bits64,
}

/// How many bits indexes into a dictionary with `len` values have.
pub open spec fn width_of(len: u64) -> IndexWidth {
    if len < 0x100 {
        IndexWidth::Bits8
    } else if len < 0x1_0000 {
        IndexWidth::Bits16
    } else if len < 0x1_0000_0000 {
        IndexWidth::Bits32
    } else {
        IndexWidth::Bits64
    }
}

/// How many bits indexes into a dictionary with `len` values have.
pub fn index_width(len: u64) -> (r: IndexWidth)
    ensures
        r == width_of(len),
{
    if len < 0x100 {
        IndexWidth::Bits8
    } else if len < 0x1_0000 {
        IndexWidth::Bits16
    } else if len < 0x1_0000_0000 {
        IndexWidth::Bits32
    } else {
        IndexWidth::Bits64
    }
}

/// The indexes into a dictionary have another width than its values ask for.
#[derive(Clone, Copy, Debug, PartialEq, Eq, Structural)]
pub struct IncorrectIndexType;

/// Whether rows hold the values of a dictionary that indexes point to, and nothing
/// where there is no index.
pub open spec fn are_values(indices: Seq<Option<u64>>, v: Seq<Option<usize>>) -> bool {
    &&& v.len() == indices.len()
    &&& forall|i: int|
        0 <= i < v.len() ==> match indices[i] {
            Some(x) => (#[trigger] v[i]) is Some && v[i]->0 == x,
            None => v[i] is None,
        }
}

/// Which values of a dictionary rows hold; none where a row holds nothing.
pub fn dict_index_to_data(dict_len: u64, width: IndexWidth, indices: &Vec<Option<u64>>) -> (r:
    Result<Vec<Option<usize>>, IncorrectIndexType>)
    requires
        dict_len <= usize::MAX,
        forall|i: int|
            0 <= i < indices@.len() ==> ((#[trigger] indices@[i]) matches Some(x) ==> x < dict_len),
    ensures
        r is Ok <==> width == width_of(dict_len),
        r matches Ok(v) ==> are_values(indices@, v@),
{
    if index_width(dict_len) != width {
        return Err(IncorrectIndexType);
    }
    let mut out: Vec<Option<usize>> = Vec::new();
    let mut i: usize = 0;
    while i < indices.len()
        invariant
            i <= indices@.len(),
            dict_len <= usize::MAX,
            forall|i: int|
                0 <= i < indices@.len() ==> ((#[trigger] indices@[i]) matches Some(x) ==> x
                    < dict_len),
            out@.len() == i,
            forall|j: int|
                0 <= j < i ==> match indices@[j] {
                    Some(x) => (#[trigger] out@[j]) is Some && out@[j]->0 == x,
                    None => out@[j] is None,
                },
        decreases indices@.len() - i,
    {
        match indices[i] {
            Some(x) => {
                assert(indices@[i as int] == Some(x));
                out.push(Some(x as usize));
            },
            None => {
                out.push(None);
            },
        }
        i = i + 1;
    }
    Ok(out)
}

/// Whether values of a type can be taken from a dictionary.
pub open spec fn dictionary_type(d: DataType) -> bool {
    match d {
        DataType::Int32 | DataType::Int64 | DataType::Float32 | DataType::Float64 => true,
        DataType::Utf8 | DataType::LargeUtf8 | DataType::Utf8View => true,
        DataType::Timestamp(_, _) => true,
        DataType::Time32(unit) => unit is Second || unit is Millisecond,
        DataType::Time64(unit) => unit is Microsecond || unit is Nanosecond,
        DataType::Date32 | DataType::Boolean => true,
        _ => false,
    }
}

/// Tells whether values of a type can be taken from a dictionary.
pub fn is_dictionary_type(d: &DataType) -> (r: bool)
    ensures
        r == dictionary_type(*d),
{
    match d {
        DataType::Int32 | DataType::Int64 | DataType::Float32 | DataType::Float64 => true,
        DataType::Utf8 | DataType::LargeUtf8 | DataType::Utf8View => true,
        DataType::Timestamp(_, _) => true,
        DataType::Time32(unit) => matches!(unit, TimeUnit::Second | TimeUnit::Millisecond),
        DataType::Time64(unit) => matches!(unit, TimeUnit::Microsecond | TimeUnit::Nanosecond),
        DataType::Date32 | DataType::Boolean => true,
        _ => false,
    }
}

/// Why rows cannot be taken from a dictionary.
#[derive(Clone, Copy, Debug, PartialEq, Eq, Structural)]
pub enum DictValuesError {
    /// Values of the type cannot be taken from a dictionary.
    UnsupportedType,
    /// The indexes have another width than the values of the dictionary ask for.
    IncorrectIndexType,
}

/// Decodes a chunk of indexes into a dictionary of the file.
pub struct SharedDictColDecoder {
    pub chunk: NoDictColDecoder,
    /// How many values the dictionary has, and of which type.
    pub dict_len: u64,
    pub dict_type: DataType,
}

impl SharedDictColDecoder {
    /// Starts with the first unit.
    pub fn new(chunk: NoDictColDecoder, dict_len: u64, dict_type: DataType) -> (r: Self)
        ensures
            r.chunk == chunk,
            r.dict_len == dict_len,
            r.dict_type == dict_type,
    {
        SharedDictColDecoder { chunk, dict_len, dict_type }
    }

    /// Takes the next unit, if there is one: the bytes of indexes.
    pub fn decode_batch(&mut self) -> (r: Option<Bytes>)
        requires
            old(self).chunk.valid(),
        ensures
            final(self).chunk.valid(),
            final(self).dict_len == old(self).dict_len,
            final(self).dict_type == old(self).dict_type,
            ({
                let at = old(self).chunk.taken as int;
                if at == old(self).chunk.units@.len() {
                    r is None && old(self).chunk.took(final(self).chunk, at)
                } else {
                    &&& r is Some
                    &&& buffers::shared_bytes(r->0) == old(self).chunk.unit_data(at)
                    &&& old(self).chunk.took(final(self).chunk, at + 1)
                }
            }),
    {
        self.chunk.decode_batch()
    }

    /// Which values of the dictionary rows hold; none where a row holds nothing.
    pub fn values(&self, width: IndexWidth, indices: &Vec<Option<u64>>) -> (r: Result<
        Vec<Option<usize>>,
        DictValuesError,
    >)
        requires
            self.dict_len <= usize::MAX,
            forall|i: int|
                0 <= i < indices@.len() ==> ((#[trigger] indices@[i]) matches Some(x) ==> x
                    < self.dict_len),
        ensures
            match r {
                Err(DictValuesError::UnsupportedType) => !dictionary_type(self.dict_type),
                Err(DictValuesError::IncorrectIndexType) => dictionary_type(self.dict_type) && width
                    != width_of(self.dict_len),
                Ok(v) => {
                    &&& dictionary_type(self.dict_type)
                    &&& width == width_of(self.dict_len)
                    &&& are_values(indices@, v@)
                },
            },
    {
        if !is_dictionary_type(&self.dict_type) {
            return Err(DictValuesError::UnsupportedType);
        }
        match dict_index_to_data(self.dict_len, width, indices) {
            Err(_) => Err(DictValuesError::IncorrectIndexType),
            Ok(v) => Ok(v),
        }
    }
}

} // verus!
