//! The row groups of a file that is being written.
use crate::file_format::{CompressionType, MicroIndex, VectorBlock};
use crate::footer::{
    ColumnMetadata, IndirectRowGroupMetadata, MetadataSection, RowGroupMetadata,
};
use crate::le;
use vstd::prelude::*;

verus! {

/// The row groups of a file: their rows, where they are, and what is known of
/// their columns.
#[derive(Debug)]
pub struct RowGroupsTable {
    row_counts: Vec<u32>,
    offsets: Vec<u64>,
    sizes: Vec<u32>,
    indirect_row_group_metadata: Vec<IndirectRowGroupMetadata>,
    row_group_metadata: Vec<RowGroupMetadata>,
}

/// What the table holds.
#[verifier::ext_equal]
pub struct Groups {
    pub row_counts: Seq<u32>,
    pub offsets: Seq<u64>,
    pub sizes: Seq<u32>,
    pub indirect: Seq<IndirectRowGroupMetadata>,
    pub metadata: Seq<RowGroupMetadata>,
}

impl View for RowGroupsTable {
    type V = Groups;

    closed spec fn view(&self) -> Groups {
        Groups {
            row_counts: self.row_counts@,
            offsets: self.offsets@,
            sizes: self.sizes@,
            indirect: self.indirect_row_group_metadata@,
            metadata: self.row_group_metadata@,
        }
    }
}

impl Groups {
    /// Whether all is known of each row group.
    pub open spec fn aligned(self) -> bool {
        &&& self.row_counts.len() == self.metadata.len()
        &&& self.offsets.len() == self.metadata.len()
        &&& self.sizes.len() == self.metadata.len()
    }

    /// No row groups.
    pub open spec fn nothing() -> Groups {
        Groups {
            row_counts: Seq::empty(),
            offsets: Seq::empty(),
            sizes: Seq::empty(),
            indirect: Seq::empty(),
            metadata: Seq::empty(),
        }
    }
}

/// The metadata of all columns of row groups, one behind the other.
pub open spec fn joined(columns: Seq<Seq<u8>>) -> Seq<u8>
    decreases columns.len(),
{
    if columns.len() == 0 {
        Seq::empty()
    } else {
        joined(columns.drop_last()) + columns.last()
    }
}

/// The metadata of all columns of all row groups, one behind the other.
pub open spec fn all_joined(groups: Seq<Seq<Seq<u8>>>) -> Seq<u8>
    decreases groups.len(),
{
    if groups.len() == 0 {
        Seq::empty()
    } else {
        all_joined(groups.drop_last()) + joined(groups.last())
    }
}

/// What the parts hold.
pub open spec fn parts_of(columns: Seq<Vec<u8>>) -> Seq<Seq<u8>> {
    columns.map_values(|c: Vec<u8>| c@)
}

/// What the parts of each group hold.
pub open spec fn group_parts(groups: Seq<Vec<Vec<u8>>>) -> Seq<Seq<Seq<u8>>> {
    groups.map_values(|g: Vec<Vec<u8>>| parts_of(g@))
}

/// Where column `c` is if the columns stand at `start`.
pub open spec fn section_of(columns: Seq<Seq<u8>>, start: int, c: int) -> MetadataSection {
    MetadataSection {
        offset: (start + joined(columns.take(c)).len()) as u64,
        size: columns[c].len() as u32,
        compression_type: CompressionType { code: 0 },
    }
}

/// Where the columns are if they stand at `start`.
pub open spec fn sections_of(columns: Seq<Seq<u8>>, start: int) -> Seq<MetadataSection> {
    Seq::new(columns.len(), |c: int| section_of(columns, start, c))
}

/// Where the metadata of row group `g` starts.
pub open spec fn group_start(groups: Seq<Seq<Seq<u8>>>, start: int, g: int) -> int {
    start + all_joined(groups.take(g)).len()
}

/// What stands up to column `c` is what stands in front of it, and the column.
pub proof fn joined_grows(columns: Seq<Seq<u8>>, c: int)
    requires
        0 <= c < columns.len(),
    ensures
        joined(columns.take(c + 1)) == joined(columns.take(c)) + columns[c],
        joined(columns.take(c + 1)).len() <= joined(columns).len(),
        joined(columns).take(joined(columns.take(c + 1)).len() as int) == joined(
            columns.take(c + 1),
        ),
    decreases columns.len() - c,
{
    assert(columns.take(c + 1).drop_last() =~= columns.take(c));
    assert(columns.take(c + 1).last() == columns[c]);
    if c + 1 == columns.len() {
        assert(columns.take(c + 1) =~= columns);
        assert(joined(columns).take(joined(columns).len() as int) =~= joined(columns));
    } else {
        joined_grows(columns, c + 1);
        let n = joined(columns.take(c + 1)).len() as int;
        let m = joined(columns.take(c + 2)).len() as int;
        assert(joined(columns).take(n) =~= joined(columns).take(m).take(n));
        assert(joined(columns.take(c + 2)).take(n) =~= joined(columns.take(c + 1)));
    }
}

/// The bytes of each column are where its section says.
pub proof fn sections_find_columns(columns: Seq<Seq<u8>>, start: int, c: int)
    requires
        0 <= c < columns.len(),
        0 <= start,
        start + joined(columns).len() <= u64::MAX,
        columns[c].len() <= u32::MAX,
    ensures
        ({
            let s = section_of(columns, start, c);
            let at = s.offset - start;
            &&& 0 <= at
            &&& at + s.size <= joined(columns).len()
            &&& joined(columns).subrange(at, at + s.size) == columns[c]
        }),
{
    joined_grows(columns, c);
    let s = section_of(columns, start, c);
    let at = joined(columns.take(c)).len() as int;
    let end = joined(columns.take(c + 1)).len() as int;
    assert(joined(columns).subrange(at, end) =~= joined(columns).take(end).subrange(at, end));
    assert(joined(columns.take(c + 1)).subrange(at, end) =~= columns[c]);
}

impl Default for RowGroupsTable {
    fn default() -> (r: Self)
        ensures
            r@ == Groups::nothing(),
            r@.aligned(),
    {
        let r = RowGroupsTable {
            row_counts: Vec::new(),
            offsets: Vec::new(),
            sizes: Vec::new(),
            indirect_row_group_metadata: Vec::new(),
            row_group_metadata: Vec::new(),
        };
        assert(r@ =~= Groups::nothing());
        r
    }
}

impl RowGroupsTable {
    /// Adds a row group.
    pub fn add_meta(
        &mut self,
        row_count: u32,
        offset: u64,
        size: u32,
        row_group_metadata: RowGroupMetadata,
    )
        ensures
            final(self)@ == (Groups {
                row_counts: old(self)@.row_counts.push(row_count),
                offsets: old(self)@.offsets.push(offset),
                sizes: old(self)@.sizes.push(size),
                indirect: old(self)@.indirect,
                metadata: old(self)@.metadata.push(row_group_metadata),
            }),
            old(self)@.aligned() ==> final(self)@.aligned(),
    {
        self.row_counts.push(row_count);
        self.offsets.push(offset);
        self.sizes.push(size);
        self.row_group_metadata.push(row_group_metadata);
    }

    pub fn row_counts(&self) -> (r: &[u32])
        ensures
            r@ == self@.row_counts,
    {
        self.row_counts.as_slice()
    }

    pub fn offsets(&self) -> (r: &[u64])
        ensures
            r@ == self@.offsets,
    {
        self.offsets.as_slice()
    }

    pub fn sizes(&self) -> (r: &[u32])
        ensures
            r@ == self@.sizes,
    {
        self.sizes.as_slice()
    }

    pub fn indirect_row_group_metadata(&self) -> (r: &[IndirectRowGroupMetadata])
        ensures
            r@ == self@.indirect,
    {
        self.indirect_row_group_metadata.as_slice()
    }

    pub fn row_group_metadata(&self) -> (r: &[RowGroupMetadata])
        ensures
            r@ == self@.metadata,
    {
        self.row_group_metadata.as_slice()
    }

    /// Puts the metadata of the columns, given as bytes for each row group and
    /// column, one behind the other at `start`, and notes where each is. Returns
    /// the bytes.
    pub fn to_indirect_and_flush(&mut self, start: u64, groups: &Vec<Vec<Vec<u8>>>) -> (r: Vec<u8>)
        requires
            start + all_joined(group_parts(groups@)).len() <= u64::MAX,
        ensures
            r@ == all_joined(group_parts(groups@)),
            final(self)@.row_counts == old(self)@.row_counts,
            final(self)@.offsets == old(self)@.offsets,
            final(self)@.sizes == old(self)@.sizes,
            final(self)@.metadata == old(self)@.metadata,
            final(self)@.indirect.len() == old(self)@.indirect.len() + groups@.len(),
            final(self)@.indirect.take(old(self)@.indirect.len() as int) == old(self)@.indirect,
            forall|g: int|
                0 <= g < groups@.len() ==> (#[trigger] final(self)@.indirect[old(
                    self,
                )@.indirect.len() + g]).col_metadatas@ == sections_of(
                    group_parts(groups@)[g],
                    group_start(group_parts(groups@), start as int, g),
                ),
    {
        let ghost all = group_parts(groups@);
        let ghost before = self@.indirect;
        let ghost n0 = before.len();
        let mut out: Vec<u8> = Vec::new();
        let mut g: usize = 0;
        assert(all.take(0) =~= Seq::empty());
        assert(self.indirect_row_group_metadata@.take(n0 as int) =~= before);
        while g < groups.len()
            invariant
                g <= groups@.len(),
                all == group_parts(groups@),
                start + all_joined(all).len() <= u64::MAX,
                n0 == before.len(),
                out@ == all_joined(all.take(g as int)),
                self.row_counts == old(self).row_counts,
                self.offsets == old(self).offsets,
                self.sizes == old(self).sizes,
                self.row_group_metadata == old(self).row_group_metadata,
                self.indirect_row_group_metadata@.len() == n0 + g,
                self.indirect_row_group_metadata@.take(n0 as int) == before,
                forall|h: int|
                    0 <= h < g ==> (#[trigger] self.indirect_row_group_metadata@[n0
                        + h]).col_metadatas@ == sections_of(
                        all[h],
                        group_start(all, start as int, h),
                    ),
            decreases groups@.len() - g,
        {
            let columns = &groups[g];
            let ghost parts = all[g as int];
            assert(parts == parts_of(columns@));
            let ghost front = out@;
            let ghost at = group_start(all, start as int, g as int);
            proof {
                all_joined_grows(all, g as int);
            }
            let mut indirect = IndirectRowGroupMetadata::new(Vec::new());
            let mut c: usize = 0;
            assert(parts.take(0) =~= Seq::empty());
            assert(out@ =~= front + joined(parts.take(0)));
            assert(indirect.col_metadatas@ =~= sections_of(parts, at).take(0));
            while c < columns.len()
                invariant
                    c <= columns@.len(),
                    parts == parts_of(columns@),
                    front.len() == at - start,
                    start + front.len() + joined(parts).len() <= u64::MAX,
                    out@ == front + joined(parts.take(c as int)),
                    indirect.col_metadatas@ =~= sections_of(parts, at).take(c as int),
                decreases columns@.len() - c,
            {
                let data = &columns[c];
                proof {
                    joined_grows(parts, c as int);
                    assert(parts[c as int] == data@);
                }
                let offset: u64 = start + out.len() as u64;
                let size: u32 = #[verifier::truncate]
                (data.len() as u32);
                le::put_bytes(&mut out, data.as_slice());
                assert(out@ =~= front + joined(parts.take(c + 1)));
                let section = MetadataSection {
                    offset,
                    size,
                    compression_type: CompressionType::uncompressed(),
                };
                assert(section == section_of(parts, at, c as int));
                indirect.add_col_meta(section);
                c = c + 1;
            }
            assert(parts.take(c as int) =~= parts);
            assert(indirect.col_metadatas@ =~= sections_of(parts, at));
            let ghost known = self.indirect_row_group_metadata@;
            self.indirect_row_group_metadata.push(indirect);
            proof {
                let now = self.indirect_row_group_metadata@;
                assert(now.take(n0 as int) =~= known.take(n0 as int));
                assert forall|h: int| 0 <= h < g + 1 implies (#[trigger] now[n0
                    + h]).col_metadatas@ == sections_of(
                    all[h],
                    group_start(all, start as int, h),
                ) by {
                    if h < g {
                        assert(now[n0 + h] == known[n0 + h]);
                    }
                }
            }
            g = g + 1;
        }
        assert(all.take(g as int) =~= all);
        out
    }
}

/// What stands up to row group `g` is what stands in front of it, and the group.
pub proof fn all_joined_grows(groups: Seq<Seq<Seq<u8>>>, g: int)
    requires
        0 <= g < groups.len(),
    ensures
        all_joined(groups.take(g + 1)) == all_joined(groups.take(g)) + joined(groups[g]),
        all_joined(groups.take(g + 1)).len() <= all_joined(groups).len(),
    decreases groups.len() - g,
{
    assert(groups.take(g + 1).drop_last() =~= groups.take(g));
    assert(groups.take(g + 1).last() == groups[g]);
    if g + 1 == groups.len() {
        assert(groups.take(g + 1) =~= groups);
    } else {
        all_joined_grows(groups, g + 1);
    }
}

/// The metadata of a row group stands where the group starts.
pub proof fn group_is_found(groups: Seq<Seq<Seq<u8>>>, g: int)
    requires
        0 <= g < groups.len(),
    ensures
        ({
            let at = all_joined(groups.take(g)).len() as int;
            let end = at + joined(groups[g]).len();
            &&& end <= all_joined(groups).len()
            &&& all_joined(groups).subrange(at, end) == joined(groups[g])
        }),
    decreases groups.len(),
{
    let all = all_joined(groups);
    let at = all_joined(groups.take(g)).len() as int;
    let end = at + joined(groups[g]).len();
    all_joined_grows(groups, g);
    if g + 1 == groups.len() {
        assert(groups.take(g + 1) =~= groups);
        assert(all.subrange(at, end) =~= joined(groups[g]));
    } else {
        let front = groups.drop_last();
        assert(front.take(g) =~= groups.take(g));
        group_is_found(front, g);
        assert(all.subrange(at, end) =~= all_joined(front).subrange(at, end));
    }
}

/// The block with the module of its index noted.
pub open spec fn with_module(b: VectorBlock, offset: u64, size: u32, abi: (u16, u16)) -> VectorBlock {
    VectorBlock {
        micro_index: MicroIndex {
            wasm_offset: offset,
            wasm_size: size,
            abi_major: abi.0,
            abi_minor: abi.1,
            ..b.micro_index
        },
        ..b
    }
}

/// Whether `after` are the columns of `before` with the module noted in the blocks
/// of the first `n` columns.
pub open spec fn columns_with_module(
    before: Seq<ColumnMetadata>,
    after: Seq<ColumnMetadata>,
    n: int,
    offset: u64,
    size: u32,
    abi: (u16, u16),
) -> bool {
    &&& before.len() == after.len()
    &&& forall|c: int|
        0 <= c < before.len() ==> {
            &&& (#[trigger] after[c]).column_chunks == before[c].column_chunks
            &&& after[c].io_hint_bytes == before[c].io_hint_bytes
            &&& after[c].vector_blocks@.len() == before[c].vector_blocks@.len()
            &&& forall|b: int|
                0 <= b < before[c].vector_blocks@.len() ==> #[trigger] after[c].vector_blocks@[b]
                    == (if c < n {
                    with_module(before[c].vector_blocks@[b], offset, size, abi)
                } else {
                    before[c].vector_blocks@[b]
                })
        }
}

/// Notes the module in all blocks of columns.
fn note_module(columns: &mut Vec<ColumnMetadata>, offset: u64, size: u32, abi: (u16, u16))
    ensures
        columns_with_module(
            old(columns)@,
            final(columns)@,
            old(columns)@.len() as int,
            offset,
            size,
            abi,
        ),
{
    let mut c: usize = 0;
    while c < columns.len()
        invariant
            c <= columns@.len(),
            columns_with_module(old(columns)@, columns@, c as int, offset, size, abi),
        decreases columns@.len() - c,
    {
        let ghost now = columns@;
        let mut b: usize = 0;
        let count: usize = columns[c].vector_blocks.len();
        while b < count
            invariant
                c < columns@.len(),
                columns@.len() == now.len(),
                count == now[c as int].vector_blocks@.len(),
                count == columns@[c as int].vector_blocks@.len(),
                b <= count,
                forall|k: int| 0 <= k < now.len() && k != c ==> #[trigger] columns@[k] == now[k],
                columns@[c as int].column_chunks == now[c as int].column_chunks,
                columns@[c as int].io_hint_bytes == now[c as int].io_hint_bytes,
                forall|k: int|
                    0 <= k < count ==> #[trigger] columns@[c as int].vector_blocks@[k] == (if k
                        < b {
                        with_module(now[c as int].vector_blocks@[k], offset, size, abi)
                    } else {
                        now[c as int].vector_blocks@[k]
                    }),
            decreases count - b,
        {
            assert(columns@[c as int].vector_blocks@[b as int]
                == now[c as int].vector_blocks@[b as int]);
            columns[c].vector_blocks[b].micro_index.wasm_offset = offset;
            columns[c].vector_blocks[b].micro_index.wasm_size = size;
            columns[c].vector_blocks[b].micro_index.abi_major = abi.0;
            columns[c].vector_blocks[b].micro_index.abi_minor = abi.1;
            b = b + 1;
        }
        proof {
            assert forall|k: int| 0 <= k < columns@.len() implies {
                &&& (#[trigger] columns@[k]).column_chunks == old(columns)@[k].column_chunks
                &&& columns@[k].io_hint_bytes == old(columns)@[k].io_hint_bytes
                &&& columns@[k].vector_blocks@.len() == old(columns)@[k].vector_blocks@.len()
                &&& forall|b: int|
                    0 <= b < old(columns)@[k].vector_blocks@.len()
                        ==> #[trigger] columns@[k].vector_blocks@[b] == (if k < c + 1 {
                        with_module(old(columns)@[k].vector_blocks@[b], offset, size, abi)
                    } else {
                        old(columns)@[k].vector_blocks@[b]
                    })
            } by {
                assert(now[k].column_chunks == old(columns)@[k].column_chunks);
                assert forall|b: int| 0 <= b < old(columns)@[k].vector_blocks@.len() implies
                    #[trigger] columns@[k].vector_blocks@[b] == (if k < c + 1 {
                    with_module(old(columns)@[k].vector_blocks@[b], offset, size, abi)
                } else {
                    old(columns)@[k].vector_blocks@[b]
                }) by {
                    let was = now[k].vector_blocks@[b];
                    if k != c {
                        assert(columns@[k] == now[k]);
                    }
                }
            }
        }
        c = c + 1;
    }
}

impl RowGroupsTable {
    /// Notes in all blocks of vectors where the module that searches them is.
    pub fn apply_micro_index_offset(&mut self, offset: u64, size: u32, abi: (u16, u16))
        ensures
            final(self)@.row_counts == old(self)@.row_counts,
            final(self)@.offsets == old(self)@.offsets,
            final(self)@.sizes == old(self)@.sizes,
            final(self)@.indirect == old(self)@.indirect,
            final(self)@.metadata.len() == old(self)@.metadata.len(),
            forall|g: int|
                0 <= g < old(self)@.metadata.len() ==> columns_with_module(
                    old(self)@.metadata[g].col_metadatas@,
                    (#[trigger] final(self)@.metadata[g]).col_metadatas@,
                    old(self)@.metadata[g].col_metadatas@.len() as int,
                    offset,
                    size,
                    abi,
                ),
    {
        let ghost begin = self.row_group_metadata@;
        let mut g: usize = 0;
        while g < self.row_group_metadata.len()
            invariant
                g <= self.row_group_metadata@.len(),
                begin == old(self).row_group_metadata@,
                self.row_counts == old(self).row_counts,
                self.offsets == old(self).offsets,
                self.sizes == old(self).sizes,
                self.indirect_row_group_metadata == old(self).indirect_row_group_metadata,
                self.row_group_metadata@.len() == begin.len(),
                forall|h: int|
                    g <= h < begin.len() ==> #[trigger] self.row_group_metadata@[h] == begin[h],
                forall|h: int|
                    0 <= h < g ==> columns_with_module(
                        begin[h].col_metadatas@,
                        (#[trigger] self.row_group_metadata@[h]).col_metadatas@,
                        begin[h].col_metadatas@.len() as int,
                        offset,
                        size,
                        abi,
                    ),
            decreases self.row_group_metadata@.len() - g,
        {
            assert(self.row_group_metadata@[g as int] == begin[g as int]);
            note_module(&mut self.row_group_metadata[g].col_metadatas, offset, size, abi);
            g = g + 1;
        }
    }
}

/// What is done to the table of the row groups: a row group is added, with its rows,
/// where it is, its size and its columns, or something is noted of those that are
/// there.
pub enum TableStep {
    Add(u32, u64, u32, RowGroupMetadata),
    Note,
}

/// Whether a step leads from `a` to `b`.
pub open spec fn table_follows(a: Groups, step: TableStep, b: Groups) -> bool {
    match step {
        TableStep::Add(row_count, offset, size, metadata) => b == (Groups {
            row_counts: a.row_counts.push(row_count),
            offsets: a.offsets.push(offset),
            sizes: a.sizes.push(size),
            indirect: a.indirect,
            metadata: a.metadata.push(metadata),
        }),
        TableStep::Note => {
            &&& b.row_counts == a.row_counts
            &&& b.offsets == a.offsets
            &&& b.sizes == a.sizes
            &&& b.metadata.len() == a.metadata.len()
        },
    }
}

/// The rows of the row groups that the steps add, in their order.
pub open spec fn added_rows(steps: Seq<TableStep>) -> Seq<u32>
    decreases steps.len(),
{
    if steps.len() == 0 {
        Seq::empty()
    } else {
        let front = added_rows(steps.drop_last());
        match steps.last() {
            TableStep::Add(row_count, _, _, _) => front.push(row_count),
            TableStep::Note => front,
        }
    }
}

/// A table has the rows of all row groups that were added to it, in their order,
/// whatever was noted in between; and it stays complete.
pub proof fn rows_are_in_order(tables: Seq<Groups>, steps: Seq<TableStep>)
    requires
        tables.len() == steps.len() + 1,
        forall|i: int|
            0 <= i < steps.len() ==> table_follows(tables[i], #[trigger] steps[i], tables[i + 1]),
        tables[0] == Groups::nothing(),
    ensures
        tables.last().row_counts == added_rows(steps),
        tables.last().aligned(),
    decreases steps.len(),
{
    if steps.len() > 0 {
        let n = steps.len() - 1;
        let t = tables.drop_last();
        let s = steps.drop_last();
        assert forall|i: int| 0 <= i < s.len() implies table_follows(
            t[i],
            #[trigger] s[i],
            t[i + 1],
        ) by {
            assert(s[i] == steps[i]);
            assert(t[i] == tables[i] && t[i + 1] == tables[i + 1]);
        }
        rows_are_in_order(t, s);
        assert(table_follows(tables[n], steps[n], tables[n + 1]));
    }
}

} // verus!
