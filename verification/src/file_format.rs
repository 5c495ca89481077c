//! The constants and codes of the file format, and the tables of vector columns.
use vstd::prelude::*;

verus! {

pub const MAJOR_VERSION: u16 = 0;

pub const MINOR_VERSION: u16 = 1;

/// The bytes of the postscript at the end of a file.
pub const POSTSCRIPT_SIZE: u64 = 32;

/// The last two bytes of a file: `F3`.
pub open spec fn magic() -> Seq<u8> {
    seq![0x46, 0x33]
}

/// How a part of the file is compressed.
#[derive(Clone, Copy, Debug, PartialEq, Eq, Structural)]
pub struct CompressionType {
    pub code: u8,
}

impl CompressionType {
    pub open spec fn is_uncompressed(self) -> bool {
        self.code == 0
    }

    pub fn uncompressed() -> (r: Self)
        ensures
            r.is_uncompressed(),
    {
        CompressionType { code: 0 }
    }
}

/// How checksums are computed.
#[derive(Clone, Copy, Debug, PartialEq, Eq, Structural)]
pub struct ChecksumType {
    pub code: u8,
}

impl ChecksumType {
    pub open spec fn is_xx_hash(self) -> bool {
        self.code == 0
    }

    pub fn xx_hash() -> (r: Self)
        ensures
            r.is_xx_hash(),
    {
        ChecksumType { code: 0 }
    }
}

/// How an encoding unit is encoded.
#[derive(Clone, Copy, Debug, PartialEq, Eq, Structural)]
#[allow(non_camel_case_types)]
pub enum EncodingType {
    PLAIN,
    NULLABLE,
    CASCADE,
    CUSTOM_WASM,
}

/// Where a block-level index of a vector block is.
#[derive(Clone, Debug)]
pub struct MicroIndex {
    pub wasm_offset: u64,
    pub wasm_size: u32,
    pub abi_major: u16,
    pub abi_minor: u16,
    pub aux_offset: u64,
    pub aux_size: u32,
    pub reserved: Vec<u32>,
}

/// The table of a micro index as stored; the list may be missing.
#[derive(Clone, Debug)]
pub struct MicroIndexNode {
    pub wasm_offset: u64,
    pub wasm_size: u32,
    pub abi_major: u16,
    pub abi_minor: u16,
    pub aux_offset: u64,
    pub aux_size: u32,
    pub reserved: Option<Vec<u32>>,
}

/// What a missing list stands for.
pub open spec fn or_empty<T>(v: Option<Vec<T>>) -> Seq<T> {
    match v {
        Some(v) => v@,
        None => Seq::empty(),
    }
}

/// The list, an empty one if it is missing.
pub fn list_or_empty<T>(v: Option<Vec<T>>) -> (r: Vec<T>)
    ensures
        r@ == or_empty(v),
{
    match v {
        Some(v) => v,
        None => Vec::new(),
    }
}

impl MicroIndex {
    /// Whether this is what the table says.
    pub open spec fn is_of(self, node: MicroIndexNode) -> bool {
        &&& self.wasm_offset == node.wasm_offset
        &&& self.wasm_size == node.wasm_size
        &&& self.abi_major == node.abi_major
        &&& self.abi_minor == node.abi_minor
        &&& self.aux_offset == node.aux_offset
        &&& self.aux_size == node.aux_size
        &&& self.reserved@ == or_empty(node.reserved)
    }

    /// Whether nothing is set.
    pub open spec fn is_none(self) -> bool {
        &&& self.wasm_offset == 0
        &&& self.wasm_size == 0
        &&& self.abi_major == 0
        &&& self.abi_minor == 0
        &&& self.aux_offset == 0
        &&& self.aux_size == 0
        &&& self.reserved@.len() == 0
    }

    pub fn from_fb(node: MicroIndexNode) -> (r: Self)
        ensures
            r.is_of(node),
    {
        MicroIndex {
            wasm_offset: node.wasm_offset,
            wasm_size: node.wasm_size,
            abi_major: node.abi_major,
            abi_minor: node.abi_minor,
            aux_offset: node.aux_offset,
            aux_size: node.aux_size,
            reserved: list_or_empty(node.reserved),
        }
    }

    /// No micro index.
    pub fn none() -> (r: Self)
        ensures
            r.is_none(),
    {
        MicroIndex {
            wasm_offset: 0,
            wasm_size: 0,
            abi_major: 0,
            abi_minor: 0,
            aux_offset: 0,
            aux_size: 0,
            reserved: Vec::new(),
        }
    }
}

/// Where a block of a vector column is.
#[derive(Clone, Debug)]
pub struct VectorBlock {
    pub offset: u64,
    pub size: u32,
    pub row_start: u64,
    pub row_count: u32,
    pub align: u32,
    pub micro_index: MicroIndex,
}

/// The table of a vector block as stored; the micro index may be missing.
#[derive(Clone, Debug)]
pub struct VectorBlockNode {
    pub offset: u64,
    pub size: u32,
    pub row_start: u64,
    pub row_count: u32,
    pub align: u32,
    pub micro_index: Option<MicroIndexNode>,
}

impl VectorBlock {
    /// Whether this is what the table says; a missing micro index is one with
    /// nothing set.
    pub open spec fn is_of(self, node: VectorBlockNode) -> bool {
        &&& self.offset == node.offset
        &&& self.size == node.size
        &&& self.row_start == node.row_start
        &&& self.row_count == node.row_count
        &&& self.align == node.align
        &&& match node.micro_index {
            Some(m) => self.micro_index.is_of(m),
            None => self.micro_index.is_none(),
        }
    }

    pub fn from_fb(node: VectorBlockNode) -> (r: Self)
        ensures
            r.is_of(node),
    {
        let micro_index = match node.micro_index {
            Some(m) => MicroIndex::from_fb(m),
            None => MicroIndex::none(),
        };
        VectorBlock {
            offset: node.offset,
            size: node.size,
            row_start: node.row_start,
            row_count: node.row_count,
            align: node.align,
            micro_index,
        }
    }
}

/// The blocks of a vector column.
#[derive(Clone, Debug)]
pub struct VectorColumn {
    pub blocks: Vec<VectorBlock>,
    pub io_hint_bytes: u32,
}

/// The table of a vector column as stored; the list may be missing.
#[derive(Clone, Debug)]
pub struct VectorColumnNode {
    pub blocks: Option<Vec<VectorBlockNode>>,
    pub io_hint_bytes: u32,
}

impl VectorColumn {
    /// Whether this is what the table says.
    pub open spec fn is_of(self, node: VectorColumnNode) -> bool {
        let nodes = or_empty(node.blocks);
        &&& self.io_hint_bytes == node.io_hint_bytes
        &&& self.blocks@.len() == nodes.len()
        &&& forall|i: int| 0 <= i < nodes.len() ==> (#[trigger] self.blocks@[i]).is_of(nodes[i])
    }

    pub fn from_fb(node: VectorColumnNode) -> (r: Self)
        ensures
            r.is_of(node),
    {
        let io_hint_bytes: u32 = node.io_hint_bytes;
        let nodes: Vec<VectorBlockNode> = list_or_empty(node.blocks);
        let ghost all = nodes@;
        let mut blocks: Vec<VectorBlock> = Vec::new();
        for block in it: nodes
            invariant
                it.seq() == all,
                blocks@.len() == it.index(),
                forall|i: int| 0 <= i < blocks@.len() ==> (#[trigger] blocks@[i]).is_of(all[i]),
        {
            blocks.push(VectorBlock::from_fb(block));
        }
        VectorColumn { blocks, io_hint_bytes }
    }
}

} // verus!
