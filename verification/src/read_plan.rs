//! What is read of a file: which columns are put together from which physical
//! columns, in which row groups, and which rows of them.
use crate::assemble;
use crate::decoder;
use crate::decoder::{
    create_list_struct_decoder, create_logical_decoder, ListStructDecoder, LogicalColDecoder,
    NoChunks,
};
use crate::encoder;
use crate::encoder::count_written;
use crate::footer::GroupedColumnMetadata;
use crate::schema;
use crate::schema::{ColumnIndexSequence, Field};
use crate::selection;
use crate::selection::{process_selection, Projection, Selection};
use crate::tables::ColumnMetadataTable;
use vstd::prelude::*;

verus! {

/// What is read of a row group: its columns, and the rows.
#[derive(Debug)]
pub struct GroupPlan<'a> {
    pub group: &'a GroupedColumnMetadata,
    pub selection: Selection,
    pub decoders: Vec<LogicalColDecoder>,
}

/// The columns with these numbers.
pub open spec fn picks_of(fields: Seq<Field>, picks: Seq<usize>) -> Seq<Field> {
    picks.map_values(|i: usize| fields[i as int])
}

/// The columns that are read.
pub open spec fn picked(fields: Seq<Field>, projection: Projection) -> Seq<Field> {
    match projection {
        Projection::All => fields,
        Projection::LeafColumnIndexes(v) => picks_of(fields, v@),
    }
}

/// Whether all columns that are read exist.
pub open spec fn pickable(fields: Seq<Field>, projection: Projection) -> bool {
    projection matches Projection::LeafColumnIndexes(v) ==> forall|i: int|
        0 <= i < v@.len() ==> #[trigger] v@[i] < fields.len()
}

/// What references point to.
pub open spec fn pointed_to<'a>(fields: Seq<&'a Field>) -> Seq<Field> {
    fields.map_values(|f: &'a Field| *f)
}

/// Picks the columns that are read.
fn pick<'a>(fields: &'a Vec<Field>, projection: &Projection) -> (r: Vec<&'a Field>)
    requires
        pickable(fields@, *projection),
    ensures
        pointed_to(r@) == picked(fields@, *projection),
{
    let mut out: Vec<&'a Field> = Vec::new();
    let mut i: usize = 0;
    match projection {
        Projection::All => {
            while i < fields.len()
                invariant
                    i <= fields@.len(),
                    out@.len() == i,
                    forall|j: int| 0 <= j < i ==> *(#[trigger] out@[j]) == fields@[j],
                decreases fields@.len() - i,
            {
                out.push(&fields[i]);
                i = i + 1;
            }
            assert(pointed_to(out@) =~= fields@);
        },
        Projection::LeafColumnIndexes(v) => {
            while i < v.len()
                invariant
                    i <= v@.len(),
                    forall|j: int| 0 <= j < v@.len() ==> #[trigger] v@[j] < fields@.len(),
                    out@.len() == i,
                    forall|j: int| 0 <= j < i ==> *(#[trigger] out@[j]) == fields@[v@[j] as int],
                decreases v@.len() - i,
            {
                out.push(&fields[v[i]]);
                i = i + 1;
            }
            assert(pointed_to(out@) =~= picked(fields@, *projection));
        },
    }
    out
}

/// Whether the decoders put these columns together from the first physical
/// columns, one column behind the other.
pub open spec fn put_together(
    decoders: Seq<LogicalColDecoder>,
    fields: Seq<Field>,
    verify: bool,
) -> bool {
    &&& decoder::all_decode(decoders, fields, verify)
    &&& decoder::all_columns_read(decoders) == encoder::consecutive(0, schema::total_width(fields))
}

/// Puts columns together from the physical columns of a row group.
fn put_columns_together<'a>(
    fields: &Vec<&'a Field>,
    metas: &Vec<ColumnMetadataTable>,
    verify: bool,
) -> (r: Result<Vec<LogicalColDecoder>, NoChunks>)
    requires
        schema::all_storable(pointed_to(fields@)),
        schema::total_width(pointed_to(fields@)) <= u32::MAX,
        schema::total_width(pointed_to(fields@)) <= metas@.len(),
    ensures
        r is Ok <==> decoder::chunks_known(
            metas@,
            0,
            schema::total_width(pointed_to(fields@)),
        ),
        r matches Ok(v) ==> put_together(v@, pointed_to(fields@), verify),
{
    let ghost all = pointed_to(fields@);
    let mut column_idx = ColumnIndexSequence::default();
    let mut decoders: Vec<LogicalColDecoder> = Vec::new();
    let mut i: usize = 0;
    assert(all.take(0) =~= Seq::empty());
    assert(decoder::all_columns_read(decoders@) =~= encoder::consecutive(0, 0));
    while i < fields.len()
        invariant
            i <= fields@.len(),
            all == pointed_to(fields@),
            schema::all_storable(all),
            schema::total_width(all) <= u32::MAX,
            schema::total_width(all) <= metas@.len(),
            column_idx.next == schema::total_width(all.take(i as int)),
            decoders@.len() == i,
            decoder::chunks_known(metas@, 0, schema::total_width(all.take(i as int))),
            put_together(decoders@, all.take(i as int), verify),
        decreases fields@.len() - i,
    {
        let ghost now = schema::total_width(all.take(i as int));
        let ghost before = decoders@;
        proof {
            let next = all.take(i + 1);
            assert(next.drop_last() =~= all.take(i as int));
            assert(next.last() == all[i as int]);
            assert(all[i as int] == *fields@[i as int]);
            schema::width_grows(all, i + 1);
            schema::each_storable(all, i as int);
        }
        match create_logical_decoder(fields[i], metas, &mut column_idx, verify) {
            Err(e) => {
                proof {
                    let w = schema::width(all[i as int]);
                    let q = choose|q: int|
                        now <= q < now + w && (#[trigger] metas@[q]).column_chunks is None;
                    assert(0 <= q < schema::total_width(all));
                }
                return Err(e);
            },
            Ok(d) => {
                decoders.push(d);
            },
        }
        proof {
            assert(decoders@.drop_last() =~= before);
            let w = schema::width(all[i as int]);
            assert(encoder::consecutive(0, now) + encoder::consecutive(now as int, w)
                =~= encoder::consecutive(0, now + w));
        }
        i = i + 1;
    }
    assert(all.take(i as int) =~= all);
    Ok(decoders)
}

/// The row groups that are read, by number, with the rows; nothing for all rows.
pub open spec fn read_groups(sel: Selection, groups: Seq<GroupedColumnMetadata>) -> Seq<
    (int, Option<Seq<u64>>),
> {
    match sel {
        Selection::All => Seq::new(groups.len(), |i: int| (i, None::<Seq<u64>>)),
        Selection::RowIndexes(rows) => selection::selected_rows(rows@, groups).map_values(
            |p: (int, Seq<u64>)| (p.0, Some(p.1)),
        ),
    }
}

/// Whether `plan` reads these columns of row group `part.0`, and the rows `part.1`.
pub open spec fn is_plan<'a>(
    plan: GroupPlan<'a>,
    part: (int, Option<Seq<u64>>),
    groups: Seq<GroupedColumnMetadata>,
    fields: Seq<Field>,
    verify: bool,
) -> bool {
    &&& 0 <= part.0 < groups.len()
    &&& *plan.group == groups[part.0]
    &&& match part.1 {
        None => plan.selection is All,
        Some(rows) => plan.selection matches Selection::RowIndexes(v) && v@ == rows,
    }
    &&& put_together(plan.decoders@, fields, verify)
}

/// The rows that are read of a group with so many rows, in the order in which they
/// are read.
pub open spec fn planned_rows(sel: Selection, row_count: u32) -> Seq<u64> {
    match sel {
        Selection::All => Seq::new(row_count as nat, |i: int| i as u64),
        Selection::RowIndexes(rows) => rows@,
    }
}

impl<'a> GroupPlan<'a> {
    /// The rows that are read of the group, counted from its start, in the order in
    /// which they are read.
    pub fn rows(&self) -> (r: Vec<u64>)
        ensures
            r@ == planned_rows(self.selection, self.group.row_count),
    {
        let mut out: Vec<u64> = Vec::new();
        match &self.selection {
            Selection::All => {
                let mut i: u32 = 0;
                while i < self.group.row_count
                    invariant
                        i <= self.group.row_count,
                        out@ =~= Seq::new(i as nat, |j: int| j as u64),
                    decreases self.group.row_count - i,
                {
                    out.push(i as u64);
                    i = i + 1;
                }
            },
            Selection::RowIndexes(rows) => {
                out.extend_from_slice(rows.as_slice());
                assert(out@ =~= rows@);
            },
        }
        out
    }
}

/// Plans what is read of a file. In each row group that holds selected rows the
/// projected columns are put together from its physical columns, the first of
/// which belong to the first projected column. Chunks are verified if so asked.
pub fn plan_read<'a>(
    fields: &Vec<Field>,
    groups: &'a [GroupedColumnMetadata],
    projection: &Projection,
    sel: &Selection,
    verify: bool,
) -> (r: Result<Vec<GroupPlan<'a>>, NoChunks>)
    requires
        selection::total_rows(groups@) <= u64::MAX,
        pickable(fields@, *projection),
        schema::all_storable(picked(fields@, *projection)),
        schema::total_width(picked(fields@, *projection)) <= u32::MAX,
        forall|g: int|
            0 <= g < groups@.len() ==> schema::total_width(picked(fields@, *projection)) <= (
            #[trigger] groups@[g]).column_metadatas@.len(),
    ensures
        r is Ok <==> forall|i: int|
            0 <= i < read_groups(*sel, groups@).len() ==> decoder::chunks_known(
                groups@[(#[trigger] read_groups(*sel, groups@)[i]).0].column_metadatas@,
                0,
                schema::total_width(picked(fields@, *projection)),
            ),
        r matches Ok(v) ==> v@.len() == read_groups(*sel, groups@).len() && forall|i: int|
            0 <= i < v@.len() ==> is_plan(
                #[trigger] v@[i],
                read_groups(*sel, groups@)[i],
                groups@,
                picked(fields@, *projection),
                verify,
            ),
{
    let ghost want = picked(fields@, *projection);
    let ghost parts = read_groups(*sel, groups@);
    let columns = pick(fields, projection);
    let selected = process_selection(sel, groups);
    let ghost all = selected@;
    assert(all.len() == parts.len());
    assert forall|i: int| 0 <= i < all.len() implies {
        &&& 0 <= (#[trigger] parts[i]).0 < groups@.len()
        &&& *all[i].0 == groups@[parts[i].0]
        &&& match parts[i].1 {
            None => all[i].1 is All,
            Some(rows) => all[i].1 matches Selection::RowIndexes(v) && v@ == rows,
        }
    } by {
        if let Selection::RowIndexes(rows) = *sel {
            assert(selection::is_part(
                all[i],
                groups@,
                selection::selected_rows(rows@, groups@)[i],
            ));
        }
    }
    let mut plans: Vec<GroupPlan<'a>> = Vec::new();
    for part in it: selected
        invariant
            it.seq() == all,
            all.len() == parts.len(),
            want == pointed_to(columns@),
            schema::all_storable(want),
            schema::total_width(want) <= u32::MAX,
            forall|g: int|
                0 <= g < groups@.len() ==> schema::total_width(want) <= (
                #[trigger] groups@[g]).column_metadatas@.len(),
            forall|i: int|
                0 <= i < all.len() ==> {
                    &&& 0 <= (#[trigger] parts[i]).0 < groups@.len()
                    &&& *all[i].0 == groups@[parts[i].0]
                    &&& match parts[i].1 {
                        None => all[i].1 is All,
                        Some(rows) => all[i].1 matches Selection::RowIndexes(v) && v@ == rows,
                    }
                },
            parts == read_groups(*sel, groups@),
            want == picked(fields@, *projection),
            plans@.len() == it.index(),
            forall|i: int|
                0 <= i < plans@.len() ==> is_plan(
                    #[trigger] plans@[i],
                    parts[i],
                    groups@,
                    want,
                    verify,
                ),
            forall|i: int|
                0 <= i < plans@.len() ==> decoder::chunks_known(
                    groups@[(#[trigger] parts[i]).0].column_metadatas@,
                    0,
                    schema::total_width(want),
                ),
    {
        let ghost k = it.index() as int;
        assert(0 <= parts[k].0 < groups@.len());
        assert(schema::total_width(want) <= groups@[parts[k].0].column_metadatas@.len());
        match put_columns_together(&columns, &part.0.column_metadatas, verify) {
            Err(e) => {
                assert(!decoder::chunks_known(
                    groups@[read_groups(*sel, groups@)[k].0].column_metadatas@,
                    0,
                    schema::total_width(want),
                ));
                return Err(e);
            },
            Ok(decoders) => {
                plans.push(GroupPlan { group: part.0, selection: part.1, decoders });
            },
        }
    }
    Ok(plans)
}

/// The physical columns that are read of a row group are there, and none is read for
/// two columns.
pub proof fn planned_columns_are_apart(
    decoders: Seq<LogicalColDecoder>,
    fields: Seq<Field>,
    n: nat,
    verify: bool,
)
    requires
        put_together(decoders, fields, verify),
        schema::total_width(fields) <= u32::MAX,
        schema::total_width(fields) <= n,
    ensures
        decoder::all_columns_read(decoders).no_duplicates(),
        assemble::all_below(decoder::all_columns_read(decoders), n),
{
}

/// Whether lists of structs can be read from the first physical columns of a row
/// group.
pub open spec fn structs_known(group: GroupedColumnMetadata, n: nat, pushdown: bool) -> bool {
    decoder::chunks_known(
        group.column_metadatas@,
        0,
        decoder::list_struct_width(n, pushdown),
    )
}

/// Plans how a row of a column of lists of structs is read: in each row group the
/// column is put together from the first physical columns.
pub fn point_access_list_struct(
    field: &Field,
    groups: &[GroupedColumnMetadata],
    pushdown: bool,
) -> (r: Result<Vec<ListStructDecoder>, NoChunks>)
    requires
        decoder::struct_fields(*field) matches Some(fields) && schema::all_non_nest(fields)
            && decoder::list_struct_width(fields.len(), pushdown) <= u32::MAX && forall|g: int|
            0 <= g < groups@.len() ==> decoder::list_struct_width(fields.len(), pushdown) <= (
            #[trigger] groups@[g]).column_metadatas@.len(),
    ensures
        ({
            let n = (decoder::struct_fields(*field)->0).len();
            &&& r is Ok <==> forall|g: int|
                0 <= g < groups@.len() ==> structs_known(#[trigger] groups@[g], n, pushdown)
            &&& r matches Ok(v) ==> v@.len() == groups@.len() && forall|g: int|
                0 <= g < v@.len() ==> decoder::reads_structs(
                    #[trigger] v@[g],
                    0,
                    *field,
                    pushdown,
                )
        }),
{
    let ghost n = (decoder::struct_fields(*field)->0).len();
    let mut decoders: Vec<ListStructDecoder> = Vec::new();
    let mut g: usize = 0;
    while g < groups.len()
        invariant
            g <= groups@.len(),
            decoder::struct_fields(*field) matches Some(fields) && schema::all_non_nest(fields)
                && n == fields.len(),
            decoder::list_struct_width(n, pushdown) <= u32::MAX,
            forall|k: int|
                0 <= k < groups@.len() ==> decoder::list_struct_width(n, pushdown) <= (
                #[trigger] groups@[k]).column_metadatas@.len(),
            forall|k: int| 0 <= k < g ==> structs_known(#[trigger] groups@[k], n, pushdown),
            decoders@.len() == g,
            forall|k: int|
                0 <= k < g ==> decoder::reads_structs(
                    #[trigger] decoders@[k],
                    0,
                    *field,
                    pushdown,
                ),
        decreases groups@.len() - g,
    {
        let mut column_idx = ColumnIndexSequence::default();
        let group = &groups[g];
        match create_list_struct_decoder(
            field,
            &group.column_metadatas,
            &mut column_idx,
            pushdown,
        ) {
            Err(e) => {
                assert(!structs_known(groups@[g as int], n, pushdown));
                return Err(e);
            },
            Ok(d) => {
                decoders.push(d);
            },
        }
        g = g + 1;
    }
    Ok(decoders)
}

/// The physical columns of column `i`.
pub open spec fn stored_columns(fields: Seq<Field>, i: int) -> Seq<u32> {
    encoder::consecutive(schema::total_width(fields.take(i)) as int, schema::width(fields[i]))
}

/// The physical columns of some of the columns, one column behind the other.
pub open spec fn stored_for(fields: Seq<Field>, picks: Seq<usize>) -> Seq<u32>
    decreases picks.len(),
{
    if picks.len() == 0 {
        Seq::empty()
    } else {
        stored_for(fields, picks.drop_last()) + stored_columns(fields, picks.last() as int)
    }
}

/// The physical columns that are read for a projection.
pub open spec fn projected_columns(fields: Seq<Field>, projection: Projection) -> Seq<u32> {
    match projection {
        Projection::All => encoder::consecutive(0, schema::total_width(fields)),
        Projection::LeafColumnIndexes(v) => stored_for(fields, v@),
    }
}

/// Where the physical columns of each column begin, and where those of the last end.
fn starts(fields: &Vec<Field>) -> (r: Vec<u32>)
    requires
        schema::total_width(fields@) <= u32::MAX,
    ensures
        r@.len() == fields@.len() + 1,
        forall|i: int|
            0 <= i <= fields@.len() ==> #[trigger] r@[i] == schema::total_width(fields@.take(i)),
{
    let mut out: Vec<u32> = Vec::new();
    let mut at: u32 = 0;
    out.push(at);
    let mut i: usize = 0;
    assert(fields@.take(0) =~= Seq::<Field>::empty());
    while i < fields.len()
        invariant
            i <= fields@.len(),
            schema::total_width(fields@) <= u32::MAX,
            at == schema::total_width(fields@.take(i as int)),
            out@.len() == i + 1,
            forall|j: int|
                0 <= j <= i ==> #[trigger] out@[j] == schema::total_width(fields@.take(j)),
        decreases fields@.len() - i,
    {
        proof {
            let next = fields@.take(i + 1);
            assert(next.drop_last() =~= fields@.take(i as int));
            assert(next.last() == fields@[i as int]);
            schema::width_grows(fields@, i + 1);
            encoder::written_width_is_width(fields@[i as int]);
        }
        if let Some(width) = count_written(&fields[i], false) {
            at = at + width;
        }
        out.push(at);
        i = i + 1;
    }
    out
}

/// Appends numbers that follow each other.
fn put_range(out: &mut Vec<u32>, from: u32, to: u32)
    requires
        from <= to,
    ensures
        final(out)@ == old(out)@ + encoder::consecutive(from as int, (to - from) as nat),
{
    let ghost front = out@;
    let mut k: u32 = from;
    assert(out@ =~= front + encoder::consecutive(from as int, 0));
    while k < to
        invariant
            from <= k <= to,
            out@ == front + encoder::consecutive(from as int, (k - from) as nat),
        decreases to - k,
    {
        out.push(k);
        assert(out@ =~= front + encoder::consecutive(from as int, (k + 1 - from) as nat));
        k = k + 1;
    }
}

/// Tells which physical columns of a row group are read for a projection, in the order
/// in which the columns are put together.
pub fn project_columns(fields: &Vec<Field>, projection: &Projection) -> (r: Vec<u32>)
    requires
        pickable(fields@, *projection),
        schema::total_width(fields@) <= u32::MAX,
    ensures
        r@ == projected_columns(fields@, *projection),
{
    let at = starts(fields);
    let mut out: Vec<u32> = Vec::new();
    match projection {
        Projection::All => {
            let end: u32 = at[fields.len()];
            assert(fields@.take(fields@.len() as int) =~= fields@);
            put_range(&mut out, 0, end);
            assert(out@ =~= encoder::consecutive(0, schema::total_width(fields@)));
        },
        Projection::LeafColumnIndexes(v) => {
            let mut j: usize = 0;
            assert(v@.take(0) =~= Seq::<usize>::empty());
            while j < v.len()
                invariant
                    j <= v@.len(),
                    forall|i: int| 0 <= i < v@.len() ==> #[trigger] v@[i] < fields@.len(),
                    at@.len() == fields@.len() + 1,
                    forall|i: int|
                        0 <= i <= fields@.len() ==> #[trigger] at@[i] == schema::total_width(
                            fields@.take(i),
                        ),
                    out@ == stored_for(fields@, v@.take(j as int)),
                decreases v@.len() - j,
            {
                let i: usize = v[j];
                proof {
                    let next = v@.take(j + 1);
                    assert(next.drop_last() =~= v@.take(j as int));
                    assert(next.last() == i);
                    assert(at.len() <= usize::MAX);
                    let upto = fields@.take(i + 1);
                    assert(upto.drop_last() =~= fields@.take(i as int));
                    assert(upto.last() == fields@[i as int]);
                    assert(at@[i + 1] == at@[i as int] + schema::width(fields@[i as int]));
                }
                put_range(&mut out, at[i], at[i + 1]);
                j = j + 1;
            }
            assert(v@.take(j as int) =~= v@);
        },
    }
    out
}

/// What is read for a projected column is its own: the `k`-th physical column that is
/// read for the `j`-th of the projected columns is the `k`-th one that is written for
/// that column.
pub proof fn projection_reads_its_columns(
    fields: Seq<Field>,
    picks: Seq<usize>,
    j: int,
    k: nat,
)
    requires
        schema::total_width(fields) <= u32::MAX,
        0 <= j < picks.len(),
        picks[j] < fields.len(),
        k < schema::width(fields[picks[j] as int]),
    ensures
        ({
            let at = schema::total_width(picks_of(fields, picks).take(j)) + k;
            &&& stored_for(fields, picks).len() == schema::total_width(picks_of(fields, picks))
            &&& at < stored_for(fields, picks).len()
            &&& stored_for(fields, picks)[at as int] == schema::total_width(
                fields.take(picks[j] as int),
            ) + k
        }),
    decreases picks.len(),
{
    let want = picks_of(fields, picks);
    let front = picks.drop_last();
    assert(want.drop_last() =~= picks_of(fields, front));
    assert(want.last() == fields[picks.last() as int]);
    stored_widths(fields, front);
    let own = stored_columns(fields, picks.last() as int);
    assert(own.len() == schema::width(want.last()));
    if j < front.len() {
        projection_reads_its_columns(fields, front, j, k);
        assert(want.take(j) =~= picks_of(fields, front).take(j));
    } else {
        assert(want.take(j) =~= want.drop_last());
        let i = picks[j] as int;
        schema::width_grows(fields, i + 1);
        assert(fields.take(i + 1).drop_last() =~= fields.take(i));
        assert(own[k as int] == (schema::total_width(fields.take(i)) + k) as u32);
    }
}

proof fn stored_widths(fields: Seq<Field>, picks: Seq<usize>)
    ensures
        stored_for(fields, picks).len() == schema::total_width(picks_of(fields, picks)),
    decreases picks.len(),
{
    let want = picks_of(fields, picks);
    if picks.len() > 0 {
        stored_widths(fields, picks.drop_last());
        assert(want.drop_last() =~= picks_of(fields, picks.drop_last()));
        assert(want.last() == fields[picks.last() as int]);
    }
}

} // verus!
