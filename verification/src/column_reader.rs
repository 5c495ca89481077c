//! Reading physical columns chunk by chunk.
use crate::buffers;
use crate::buffers::owned_slice;
use crate::chunk_decoder;
use crate::chunk_decoder::{
    create_physical_decoder, NoDictColDecoder, PhysicalDecoder, PhysicalDecoderError,
};
use crate::decoder;
use crate::decoder::{verify_chunk, ChunkChecksumError, LogicalColDecoder, PrimitiveColDecoder};
use crate::dict_decoder::{DictColDecoder, SharedDictColDecoder};
use crate::schema::{DataType, TypeView};
use crate::tables::ChunkTable;
use bytes::BytesMut;
use vstd::prelude::*;

verus! {

/// A dictionary of the file: how many values it has, and of which type.
#[derive(Debug)]
pub struct SharedDictionary {
    pub len: u64,
    pub data_type: DataType,
}

/// Takes the units of a chunk, one after the other.
pub enum ChunkDecoder {
    NoDictionary(NoDictColDecoder),
    LocalDictionary(DictColDecoder),
    SharedDictionary(SharedDictColDecoder),
}

/// Why a chunk cannot be decoded.
#[derive(Clone, Copy, Debug, PartialEq, Eq, Structural)]
pub enum ChunkError {
    Checksum(ChunkChecksumError),
    /// Nothing is known of its units.
    NoUnits,
    Decoder(PhysicalDecoderError),
    /// The units have more bytes than the chunk.
    UnitsTooLong,
}

/// Which dictionaries of the file are there.
pub open spec fn present(dicts: Seq<Option<SharedDictionary>>) -> Seq<bool> {
    dicts.map_values(|d: Option<SharedDictionary>| d is Some)
}

/// Tells which dictionaries of the file are there.
fn which_present(dicts: &Vec<Option<SharedDictionary>>) -> (r: Vec<bool>)
    ensures
        r@ == present(dicts@),
{
    let mut out: Vec<bool> = Vec::new();
    let mut i: usize = 0;
    while i < dicts.len()
        invariant
            i <= dicts@.len(),
            out@ =~= present(dicts@.take(i as int)),
        decreases dicts@.len() - i,
    {
        out.push(dicts[i].is_some());
        i = i + 1;
    }
    assert(dicts@.take(i as int) =~= dicts@);
    out
}

impl ChunkDecoder {
    /// The units, and the bytes of those that have not been taken.
    pub open spec fn chunk(self) -> NoDictColDecoder {
        match self {
            ChunkDecoder::NoDictionary(d) => d,
            ChunkDecoder::LocalDictionary(d) => d.chunk,
            ChunkDecoder::SharedDictionary(d) => d.chunk,
        }
    }

    /// Whether the values are had in the way that `kind` says.
    pub open spec fn is_like(
        self,
        kind: PhysicalDecoder,
        dicts: Option<Seq<Option<SharedDictionary>>>,
    ) -> bool {
        match kind {
            PhysicalDecoder::NoDictionary => self is NoDictionary,
            PhysicalDecoder::LocalDictionary => self is LocalDictionary,
            PhysicalDecoder::SharedDictionary(at) => {
                &&& self matches ChunkDecoder::SharedDictionary(d)
                &&& dicts matches Some(all)
                &&& at < all.len()
                &&& all[at as int] matches Some(dict)
                &&& d.dict_len == dict.len
                &&& d.dict_type@ == dict.data_type@
            },
        }
    }
}

/// How a chunk is decoded, or why it is not: its bytes are verified first if that is
/// asked for.
pub open spec fn opened(
    chunk: ChunkTable,
    bytes: Seq<u8>,
    dicts: Option<Seq<Option<SharedDictionary>>>,
    verify: bool,
) -> Result<PhysicalDecoder, ChunkError> {
    match decoder::chunk_check(bytes, chunk.checksum, verify) {
        Err(e) => Err(ChunkError::Checksum(e)),
        Ok(_) => match chunk.encunits {
            None => Err(ChunkError::NoUnits),
            Some(units) => match chunk_decoder::decoder_for(
                chunk.encoding,
                match dicts {
                    Some(all) => Some(present(all)),
                    None => None,
                },
            ) {
                Err(e) => Err(ChunkError::Decoder(e)),
                Ok(kind) => if chunk_decoder::unit_sizes(units@, units@.len() as int)
                    <= bytes.len() {
                    Ok(kind)
                } else {
                    Err(ChunkError::UnitsTooLong)
                },
            },
        },
    }
}

impl PrimitiveColDecoder {
    /// Starts decoding a chunk whose bytes have been read.
    pub fn open_chunk(
        &self,
        chunk: ChunkTable,
        bytes: BytesMut,
        dicts: Option<&Vec<Option<SharedDictionary>>>,
    ) -> (r: Result<ChunkDecoder, ChunkError>)
        requires
            self.primitive_type.is_non_nest() || self.primitive_type is List
                || self.primitive_type is LargeList,
            !(chunk.encoding is Unknown),
        ensures
            ({
                let held = buffers::owned_bytes(bytes);
                let all = match dicts {
                    Some(all) => Some(all@),
                    None => None,
                };
                match opened(chunk, held, all, self.verify) {
                    Err(e) => r is Err && r->Err_0 == e,
                    Ok(kind) => {
                        &&& r matches Ok(d)
                        &&& d.is_like(kind, all)
                        &&& d.chunk().valid()
                        &&& Some(d.chunk().units) == chunk.encunits
                        &&& d.chunk().taken == 0
                        &&& d.chunk().bytes() == held
                    },
                }
            }),
    {
        match verify_chunk(owned_slice(&bytes), chunk.checksum, self.verify) {
            Err(e) => {
                return Err(ChunkError::Checksum(e));
            },
            Ok(_) => {},
        }
        let units = match chunk.encunits {
            None => {
                return Err(ChunkError::NoUnits);
            },
            Some(units) => units,
        };
        let here: Option<Vec<bool>> = match dicts {
            Some(all) => Some(which_present(all)),
            None => None,
        };
        let cache: Option<&Vec<bool>> = match &here {
            Some(v) => Some(v),
            None => None,
        };
        let kind = match create_physical_decoder(&chunk.encoding, &self.primitive_type, cache) {
            Err(e) => {
                return Err(ChunkError::Decoder(e));
            },
            Ok(kind) => kind,
        };
        let plain = match NoDictColDecoder::checked_new(units, bytes) {
            None => {
                return Err(ChunkError::UnitsTooLong);
            },
            Some(d) => d,
        };
        match kind {
            PhysicalDecoder::NoDictionary => Ok(ChunkDecoder::NoDictionary(plain)),
            PhysicalDecoder::LocalDictionary => Ok(
                ChunkDecoder::LocalDictionary(DictColDecoder::new(plain)),
            ),
            PhysicalDecoder::SharedDictionary(at) => {
                if let Some(all) = dicts {
                    assert(present(all@)[at as int]);
                    if let Some(dict) = &all[at] {
                        return Ok(
                            ChunkDecoder::SharedDictionary(
                                SharedDictColDecoder::new(
                                    plain,
                                    dict.len,
                                    dict.data_type.copy(),
                                ),
                            ),
                        );
                    }
                }
                assert(false);
                Err(ChunkError::NoUnits)
            },
        }
    }
}

/// A chunk whose bytes have another checksum than was stored is never decoded if
/// chunks are verified.
pub proof fn changed_chunks_are_refused(
    chunk: ChunkTable,
    bytes: Seq<u8>,
    dicts: Option<Seq<Option<SharedDictionary>>>,
)
    requires
        chunk.checksum != Some(crate::checksum::xxh64_of(bytes)),
    ensures
        opened(chunk, bytes, dicts, true) matches Err(ChunkError::Checksum(_)),
{
}

/// The physical columns that are read for a column, in order.
pub open spec fn physical_of(d: LogicalColDecoder) -> Seq<PrimitiveColDecoder>
    decreases d,
{
    match d {
        LogicalColDecoder::Primitive(p) => seq![p],
        LogicalColDecoder::Vector(v) => seq![v.inner],
        LogicalColDecoder::List(l) => seq![l.validity_offsets_decoder] + physical_of(
            *l.values_decoder,
        ),
        LogicalColDecoder::Struct(s) => seq![s.validity_decoder] + all_physical_of(s.children@),
    }
}

/// The physical columns that are read for columns.
pub open spec fn all_physical_of(ds: Seq<LogicalColDecoder>) -> Seq<PrimitiveColDecoder>
    decreases ds,
{
    if ds.len() == 0 {
        Seq::empty()
    } else {
        all_physical_of(ds.drop_last()) + physical_of(ds.last())
    }
}

/// What is decoded of physical columns.
pub open spec fn types_of(v: Seq<PrimitiveColDecoder>) -> Seq<TypeView> {
    v.map_values(|p: PrimitiveColDecoder| p.primitive_type@)
}

/// The physical columns of a column have the numbers and types that are read for it.
pub proof fn physical_columns_are_read(d: LogicalColDecoder)
    ensures
        decoder::numbers_of(physical_of(d)) == decoder::columns_read(d),
        types_of(physical_of(d)) == decoder::types_read(d),
    decreases d,
{
    let all = physical_of(d);
    match d {
        LogicalColDecoder::Primitive(_) => {},
        LogicalColDecoder::Vector(_) => {},
        LogicalColDecoder::List(l) => {
            physical_columns_are_read(*l.values_decoder);
        },
        LogicalColDecoder::Struct(s) => {
            all_physical_columns_are_read(s.children@);
        },
    }
    assert(decoder::numbers_of(all) =~= decoder::columns_read(d));
    assert(types_of(all) =~= decoder::types_read(d));
}

/// The same for columns.
pub proof fn all_physical_columns_are_read(ds: Seq<LogicalColDecoder>)
    ensures
        decoder::numbers_of(all_physical_of(ds)) == decoder::all_columns_read(ds),
        types_of(all_physical_of(ds)) == decoder::all_types_read(ds),
    decreases ds,
{
    if ds.len() > 0 {
        all_physical_columns_are_read(ds.drop_last());
        physical_columns_are_read(ds.last());
    }
    assert(decoder::numbers_of(all_physical_of(ds)) =~= decoder::all_columns_read(ds));
    assert(types_of(all_physical_of(ds)) =~= decoder::all_types_read(ds));
}

/// What references point to.
pub open spec fn pointed_to<'a>(v: Seq<&'a PrimitiveColDecoder>) -> Seq<PrimitiveColDecoder> {
    v.map_values(|p: &'a PrimitiveColDecoder| *p)
}

impl LogicalColDecoder {
    /// The physical columns that are read for the column, in order.
    pub fn physical<'a>(&'a self) -> (r: Vec<&'a PrimitiveColDecoder>)
        ensures
            pointed_to(r@) == physical_of(*self),
        decreases self,
    {
        let mut out: Vec<&'a PrimitiveColDecoder> = Vec::new();
        match self {
            LogicalColDecoder::Primitive(p) => {
                out.push(p);
                assert(pointed_to(out@) =~= physical_of(*self));
            },
            LogicalColDecoder::Vector(v) => {
                out.push(&v.inner);
                assert(pointed_to(out@) =~= physical_of(*self));
            },
            LogicalColDecoder::List(l) => {
                out.push(&l.validity_offsets_decoder);
                let mut more = l.values_decoder.physical();
                let ghost rest = more@;
                out.append(&mut more);
                assert(pointed_to(out@) =~= seq![l.validity_offsets_decoder] + pointed_to(rest));
            },
            LogicalColDecoder::Struct(s) => {
                let fields = &s.children;
                out.push(&s.validity_decoder);
                let mut i: usize = 0;
                assert(fields@.take(0) =~= Seq::empty());
                assert(pointed_to(out@) =~= seq![s.validity_decoder] + all_physical_of(
                    fields@.take(0),
                ));
                while i < fields.len()
                    invariant
                        i <= fields@.len(),
                        decreases_to!(self => fields@),
                        pointed_to(out@) == seq![s.validity_decoder] + all_physical_of(
                            fields@.take(i as int),
                        ),
                    decreases fields@.len() - i,
                {
                    let ghost before = out@;
                    let ghost now = all_physical_of(fields@.take(i as int));
                    let mut more = fields[i].physical();
                    let ghost rest = more@;
                    out.append(&mut more);
                    proof {
                        let next = fields@.take(i + 1);
                        assert(next.drop_last() =~= fields@.take(i as int));
                        assert(next.last() == fields@[i as int]);
                        assert(pointed_to(out@) =~= pointed_to(before) + pointed_to(rest));
                        assert(pointed_to(out@) =~= seq![s.validity_decoder] + (now + physical_of(
                            fields@[i as int],
                        )));
                    }
                    i = i + 1;
                }
                assert(fields@.take(i as int) =~= fields@);
            },
        }
        out
    }
}

} // verus!
