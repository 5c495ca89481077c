//! The sizes of the physical columns of a file.
use crate::footer::GroupedColumnMetadata;
use crate::reader;
use crate::schema;
use crate::schema::{ColumnIndexSequence, DataType, Field};
use crate::tables::ColumnMetadataTable;
use vstd::prelude::*;

verus! {

/// The size of the physical column that a field starts with.
#[derive(Debug)]
pub struct ColumnStat<'a> {
    pub field: &'a Field,
    /// The top-level column that the field belongs to.
    pub field_id: i32,
    pub size: usize,
}

/// What is known of a physical column.
pub struct Stat {
    pub field: Field,
    pub field_id: i32,
    pub size: nat,
}

/// Whether there are no vectors in a column that can be stored.
pub open spec fn without_vectors(f: Field) -> bool
    decreases f,
{
    if f.data_type.is_non_nest() {
        true
    } else {
        match f.data_type {
            DataType::List(child) => without_vectors(*child),
            DataType::LargeList(child) => without_vectors(*child),
            DataType::Struct(fields) => all_without_vectors(fields@),
            _ => false,
        }
    }
}

/// Whether there are no vectors in columns that can be stored.
pub open spec fn all_without_vectors(fields: Seq<Field>) -> bool
    decreases fields,
{
    fields.len() > 0 ==> all_without_vectors(fields.drop_last()) && without_vectors(fields.last())
}

/// The bytes of a physical column.
pub open spec fn column_bytes(metas: Seq<ColumnMetadataTable>, i: int) -> nat {
    reader::bytes_of_chunks(reader::chunks(metas[i]), reader::chunks(metas[i]).len())
}

/// The sizes of the physical columns of a field, the first of which is `at`: its
/// own, and those of the fields inside it in their order.
pub open spec fn stats_of(f: Field, id: i32, metas: Seq<ColumnMetadataTable>, at: int) -> Seq<Stat>
    decreases f,
{
    let own = seq![Stat { field: f, field_id: id, size: column_bytes(metas, at) }];
    if f.data_type.is_non_nest() {
        own
    } else {
        match f.data_type {
            DataType::List(child) => own + stats_of(*child, id, metas, at + 1),
            DataType::LargeList(child) => own + stats_of(*child, id, metas, at + 1),
            DataType::Struct(fields) => own + inner_stats(fields@, id, metas, at + 1),
            _ => own,
        }
    }
}

/// The sizes of the physical columns of the fields of a struct.
pub open spec fn inner_stats(
    fields: Seq<Field>,
    id: i32,
    metas: Seq<ColumnMetadataTable>,
    at: int,
) -> Seq<Stat>
    decreases fields,
{
    if fields.len() == 0 {
        Seq::empty()
    } else {
        inner_stats(fields.drop_last(), id, metas, at) + stats_of(
            fields.last(),
            id,
            metas,
            at + schema::total_width(fields.drop_last()),
        )
    }
}

/// The sizes of the physical columns of the first `n` top-level columns.
pub open spec fn top_stats(fields: Seq<Field>, metas: Seq<ColumnMetadataTable>, n: nat) -> Seq<Stat>
    decreases n,
{
    if n == 0 {
        Seq::empty()
    } else {
        top_stats(fields, metas, (n - 1) as nat) + stats_of(
            fields[n - 1],
            (n - 1) as i32,
            metas,
            schema::total_width(fields.take(n - 1)) as int,
        )
    }
}

/// The sizes of the physical columns of the first `n` row groups.
pub open spec fn all_stats(fields: Seq<Field>, groups: Seq<GroupedColumnMetadata>, n: nat) -> Seq<Stat>
    decreases n,
{
    if n == 0 {
        Seq::empty()
    } else {
        all_stats(fields, groups, (n - 1) as nat) + top_stats(
            fields,
            groups[n - 1].column_metadatas@,
            fields.len(),
        )
    }
}

/// What is known of physical columns.
pub open spec fn known<'a>(v: Seq<ColumnStat<'a>>) -> Seq<Stat> {
    v.map_values(
        |s: ColumnStat<'a>| Stat { field: *s.field, field_id: s.field_id, size: s.size as nat },
    )
}

/// Whether the chunks of these physical columns are known, and what they take can
/// be counted.
pub open spec fn countable(metas: Seq<ColumnMetadataTable>) -> bool {
    forall|i: int|
        0 <= i < metas.len() ==> (#[trigger] metas[i]).column_chunks is Some && column_bytes(
            metas,
            i,
        ) <= usize::MAX
}

/// The bytes of a physical column.
fn count_bytes(metas: &Vec<ColumnMetadataTable>, i: usize) -> (r: usize)
    requires
        countable(metas@),
        i < metas@.len(),
    ensures
        r == column_bytes(metas@, i as int),
{
    let mut total: usize = 0;
    assert(metas@[i as int].column_chunks is Some);
    if let Some(list) = &metas[i].column_chunks {
        let mut k: usize = 0;
        while k < list.len()
            invariant
                k <= list@.len(),
                reader::bytes_of_chunks(list@, list@.len()) <= usize::MAX,
                total == reader::bytes_of_chunks(list@, k as nat),
            decreases list@.len() - k,
        {
            proof {
                reader::chunk_bytes_grow(list@, k as nat + 1, list@.len());
            }
            total = total + list[k].size_ as usize;
            k = k + 1;
        }
    }
    total
}

/// Collects the sizes of the physical columns of a field and of the fields inside
/// it.
pub fn collect_stat_for_col<'a>(
    field: &'a Field,
    field_id: i32,
    metas: &Vec<ColumnMetadataTable>,
    column_idx: &mut ColumnIndexSequence,
    stats: &mut Vec<ColumnStat<'a>>,
)
    requires
        without_vectors(*field),
        countable(metas@),
        old(column_idx).next + schema::width(*field) <= u32::MAX,
        old(column_idx).next + schema::width(*field) <= metas@.len(),
    ensures
        final(column_idx).next == old(column_idx).next + schema::width(*field),
        known(final(stats)@) == known(old(stats)@) + stats_of(
            *field,
            field_id,
            metas@,
            old(column_idx).next as int,
        ),
    decreases field,
{
    let ghost at = column_idx.next as int;
    let ghost begin = stats@;
    let column_index: u32 = column_idx.next_column_index();
    let size: usize = count_bytes(metas, column_index as usize);
    stats.push(ColumnStat { field, field_id, size });
    let ghost own = seq![Stat { field: *field, field_id, size: column_bytes(metas@, at) }];
    assert(known(stats@) =~= known(begin) + own);
    if field.data_type.non_nest() {
        return ;
    }
    match &field.data_type {
        DataType::List(child) => {
            collect_stat_for_col(child, field_id, metas, column_idx, stats);
            assert(known(stats@) =~= known(begin) + (own + stats_of(
                **child,
                field_id,
                metas@,
                at + 1,
            )));
        },
        DataType::LargeList(child) => {
            collect_stat_for_col(child, field_id, metas, column_idx, stats);
            assert(known(stats@) =~= known(begin) + (own + stats_of(
                **child,
                field_id,
                metas@,
                at + 1,
            )));
        },
        DataType::Struct(fields) => {
            let mut i: usize = 0;
            assert(fields@.take(0) =~= Seq::empty());
            assert(known(stats@) =~= known(begin) + (own + inner_stats(
                fields@.take(0),
                field_id,
                metas@,
                at + 1,
            )));
            while i < fields.len()
                invariant
                    i <= fields@.len(),
                    decreases_to!(field => fields@),
                    all_without_vectors(fields@),
                    countable(metas@),
                    at + 1 + schema::total_width(fields@) <= u32::MAX,
                    at + 1 + schema::total_width(fields@) <= metas@.len(),
                    column_idx.next == at + 1 + schema::total_width(fields@.take(i as int)),
                    known(stats@) == known(begin) + (own + inner_stats(
                        fields@.take(i as int),
                        field_id,
                        metas@,
                        at + 1,
                    )),
                decreases fields@.len() - i,
            {
                let ghost now = inner_stats(fields@.take(i as int), field_id, metas@, at + 1);
                let ghost here = column_idx.next as int;
                proof {
                    let next = fields@.take(i + 1);
                    assert(next.drop_last() =~= fields@.take(i as int));
                    assert(next.last() == fields@[i as int]);
                    schema::width_grows(fields@, i + 1);
                    each_without_vectors(fields@, i as int);
                }
                collect_stat_for_col(&fields[i], field_id, metas, column_idx, stats);
                assert(known(stats@) =~= known(begin) + (own + (now + stats_of(
                    fields@[i as int],
                    field_id,
                    metas@,
                    here,
                ))));
                i = i + 1;
            }
            assert(fields@.take(i as int) =~= fields@);
        },
        _ => {},
    }
}

proof fn each_without_vectors(fields: Seq<Field>, i: int)
    requires
        all_without_vectors(fields),
        0 <= i < fields.len(),
    ensures
        without_vectors(fields[i]),
    decreases fields.len(),
{
    if i < fields.len() - 1 {
        each_without_vectors(fields.drop_last(), i);
    }
}

/// Collects the sizes of the physical columns of each row group, in the order of
/// the file.
pub fn collect_stats<'a>(fields: &'a Vec<Field>, groups: &[GroupedColumnMetadata]) -> (r: Vec<
    ColumnStat<'a>,
>)
    requires
        all_without_vectors(fields@),
        fields@.len() <= i32::MAX,
        schema::total_width(fields@) <= u32::MAX,
        forall|g: int|
            0 <= g < groups@.len() ==> countable((#[trigger] groups@[g]).column_metadatas@)
                && schema::total_width(fields@) <= groups@[g].column_metadatas@.len(),
    ensures
        known(r@) == all_stats(fields@, groups@, groups@.len()),
{
    let mut stats: Vec<ColumnStat<'a>> = Vec::new();
    let mut g: usize = 0;
    assert(known(stats@) =~= Seq::empty());
    while g < groups.len()
        invariant
            g <= groups@.len(),
            all_without_vectors(fields@),
            fields@.len() <= i32::MAX,
            schema::total_width(fields@) <= u32::MAX,
            forall|g: int|
                0 <= g < groups@.len() ==> countable((#[trigger] groups@[g]).column_metadatas@)
                    && schema::total_width(fields@) <= groups@[g].column_metadatas@.len(),
            known(stats@) == all_stats(fields@, groups@, g as nat),
        decreases groups@.len() - g,
    {
        let ghost begin = known(stats@);
        let metas = &groups[g].column_metadatas;
        let mut column_idx = ColumnIndexSequence::default();
        let mut i: usize = 0;
        assert(fields@.take(0) =~= Seq::empty());
        assert(known(stats@) =~= begin + top_stats(fields@, metas@, 0));
        while i < fields.len()
            invariant
                i <= fields@.len(),
                all_without_vectors(fields@),
                fields@.len() <= i32::MAX,
                schema::total_width(fields@) <= u32::MAX,
                countable(metas@),
                schema::total_width(fields@) <= metas@.len(),
                column_idx.next == schema::total_width(fields@.take(i as int)),
                known(stats@) == begin + top_stats(fields@, metas@, i as nat),
            decreases fields@.len() - i,
        {
            let ghost before = top_stats(fields@, metas@, i as nat);
            let ghost at = column_idx.next as int;
            proof {
                let next = fields@.take(i + 1);
                assert(next.drop_last() =~= fields@.take(i as int));
                assert(next.last() == fields@[i as int]);
                schema::width_grows(fields@, i + 1);
                each_without_vectors(fields@, i as int);
            }
            collect_stat_for_col(&fields[i], i as i32, metas, &mut column_idx, &mut stats);
            assert(known(stats@) =~= begin + (before + stats_of(
                fields@[i as int],
                i as i32,
                metas@,
                at,
            )));
            i = i + 1;
        }
        g = g + 1;
    }
    stats
}

} // verus!
