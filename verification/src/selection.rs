//! Which rows are read.
use crate::footer::GroupedColumnMetadata;
use vstd::prelude::*;

verus! {

/// All rows, or those with these numbers, in this order.
#[derive(Clone, Debug)]
pub enum Selection {
    All,
    RowIndexes(Vec<u64>),
}

/// All columns, or those with these numbers.
#[derive(Clone, Debug)]
pub enum Projection {
    All,
    LeafColumnIndexes(Vec<usize>),
}

/// How many rows the groups have.
pub open spec fn total_rows(groups: Seq<GroupedColumnMetadata>) -> nat
    decreases groups.len(),
{
    if groups.len() == 0 {
        0
    } else {
        total_rows(groups.drop_last()) + groups.last().row_count as nat
    }
}

/// The rows among `rows` from `start` up to `end`, counted from `start`, in their
/// order.
pub open spec fn rows_within(rows: Seq<u64>, start: nat, end: nat) -> Seq<u64>
    decreases rows.len(),
{
    if rows.len() == 0 {
        Seq::empty()
    } else {
        let front = rows_within(rows.drop_last(), start, end);
        if start <= rows.last() < end {
            front.push((rows.last() - start) as u64)
        } else {
            front
        }
    }
}

/// The groups that hold selected rows, by number, with the rows selected in each.
pub open spec fn selected_rows(rows: Seq<u64>, groups: Seq<GroupedColumnMetadata>) -> Seq<
    (int, Seq<u64>),
>
    decreases groups.len(),
{
    if groups.len() == 0 {
        Seq::empty()
    } else {
        let front = selected_rows(rows, groups.drop_last());
        let within = rows_within(rows, total_rows(groups.drop_last()), total_rows(groups));
        if within.len() == 0 {
            front
        } else {
            front.push((groups.len() - 1, within))
        }
    }
}

/// Whether `part` is group `expected.0` with the rows `expected.1`.
pub open spec fn is_part<'a>(
    part: (&'a GroupedColumnMetadata, Selection),
    groups: Seq<GroupedColumnMetadata>,
    expected: (int, Seq<u64>),
) -> bool {
    &&& 0 <= expected.0 < groups.len()
    &&& *part.0 == groups[expected.0]
    &&& part.1 matches Selection::RowIndexes(v) && v@ == expected.1
}

/// A row is selected in a group exactly if it lies within the group and was asked
/// for: what is selected in all groups together is what was asked for, as far as
/// there are such rows.
pub proof fn rows_within_are_selected(rows: Seq<u64>, start: nat, end: nat, row: u64)
    requires
        end <= u64::MAX,
    ensures
        rows_within(rows, start, end).contains(row) <==> (start + row < end && rows.contains(
            (start + row) as u64,
        )),
    decreases rows.len(),
{
    let r = rows_within(rows, start, end);
    if rows.len() > 0 {
        let front = rows.drop_last();
        let f = rows_within(front, start, end);
        rows_within_are_selected(front, start, end, row);
        let goal = (start + row) as u64;
        if start + row < end {
            assert(rows.contains(goal) <==> front.contains(goal) || rows.last() == goal) by {
                if rows.contains(goal) {
                    let i = choose|i: int| 0 <= i < rows.len() && rows[i] == goal;
                    if i < front.len() {
                        assert(front[i] == goal);
                    }
                }
                if front.contains(goal) {
                    let i = choose|i: int| 0 <= i < front.len() && front[i] == goal;
                    assert(rows[i] == goal);
                }
                if rows.last() == goal {
                    assert(rows[rows.len() - 1] == goal);
                }
            }
        }
        if start <= rows.last() < end {
            let x = (rows.last() - start) as u64;
            assert(r == f.push(x));
            assert(r.contains(row) <==> f.contains(row) || x == row) by {
                if r.contains(row) {
                    let i = choose|i: int| 0 <= i < r.len() && r[i] == row;
                    if i < f.len() {
                        assert(f[i] == row);
                    }
                }
                if f.contains(row) {
                    let i = choose|i: int| 0 <= i < f.len() && f[i] == row;
                    assert(r[i] == row);
                }
                if x == row {
                    assert(r[r.len() - 1] == row);
                }
            }
        }
    }
}

/// The rows that are selected in a group are those asked for that lie between its
/// start and its end, and the group has them.
pub proof fn selected_rows_are_there(
    rows: Seq<u64>,
    groups: Seq<GroupedColumnMetadata>,
    i: int,
    row: u64,
)
    requires
        total_rows(groups) <= u64::MAX,
        0 <= i < selected_rows(rows, groups).len(),
    ensures
        ({
            let (g, found) = selected_rows(rows, groups)[i];
            let start = total_rows(groups.take(g));
            &&& 0 <= g < groups.len()
            &&& found == rows_within(rows, start, start + groups[g].row_count as nat)
            &&& found.len() > 0
            &&& found.contains(row) ==> row < groups[g].row_count && rows.contains(
                (start + row) as u64,
            )
        }),
    decreases groups.len(),
{
    let front = groups.drop_last();
    let last = groups.len() - 1;
    let part = selected_rows(rows, groups)[i];
    total_rows_grows(groups, last);
    assert(groups.take(last) =~= front);
    if i < selected_rows(rows, front).len() {
        selected_rows_are_there(rows, front, i, row);
        assert(front.take(part.0) =~= groups.take(part.0));
    } else {
        rows_within_are_selected(rows, total_rows(front), total_rows(groups), row);
    }
}

fn rows_in_group(rows: &Vec<u64>, start: u64, end: u64) -> (r: Vec<u64>)
    ensures
        r@ == rows_within(rows@, start as nat, end as nat),
{
    let mut out: Vec<u64> = Vec::new();
    let mut i: usize = 0;
    assert(rows@.take(0) =~= Seq::<u64>::empty());
    while i < rows.len()
        invariant
            i <= rows@.len(),
            out@ == rows_within(rows@.take(i as int), start as nat, end as nat),
        decreases rows@.len() - i,
    {
        proof {
            let next = rows@.take(i + 1);
            assert(next.drop_last() =~= rows@.take(i as int));
            assert(next.last() == rows@[i as int]);
        }
        let row: u64 = rows[i];
        if start <= row && row < end {
            out.push(row - start);
        }
        i = i + 1;
    }
    assert(rows@.take(i as int) =~= rows@);
    out
}

proof fn total_rows_grows(groups: Seq<GroupedColumnMetadata>, n: int)
    requires
        0 <= n <= groups.len(),
    ensures
        total_rows(groups.take(n)) <= total_rows(groups),
    decreases groups.len() - n,
{
    if n == groups.len() {
        assert(groups.take(n) =~= groups);
    } else {
        assert(groups.take(n + 1).drop_last() =~= groups.take(n));
        total_rows_grows(groups, n + 1);
    }
}

/// Finds the row groups that hold selected rows, in the order of the file, each
/// with the rows selected in it, counted from its start, in the order in which
/// they were asked for.
pub fn process_selection<'a>(
    selection: &Selection,
    grouped_metadata: &'a [GroupedColumnMetadata],
) -> (r: Vec<(&'a GroupedColumnMetadata, Selection)>)
    requires
        total_rows(grouped_metadata@) <= u64::MAX,
    ensures
        match *selection {
            Selection::All => {
                &&& r@.len() == grouped_metadata@.len()
                &&& forall|i: int|
                    0 <= i < r@.len() ==> *(#[trigger] r@[i]).0 == grouped_metadata@[i]
                        && r@[i].1 is All
            },
            Selection::RowIndexes(rows) => {
                let expected = selected_rows(rows@, grouped_metadata@);
                &&& r@.len() == expected.len()
                &&& forall|i: int|
                    0 <= i < r@.len() ==> is_part(
                        #[trigger] r@[i],
                        grouped_metadata@,
                        expected[i],
                    )
            },
        },
{
    let mut result: Vec<(&'a GroupedColumnMetadata, Selection)> = Vec::new();
    let ghost groups = grouped_metadata@;
    match selection {
        Selection::All => {
            let mut i: usize = 0;
            while i < grouped_metadata.len()
                invariant
                    i <= grouped_metadata@.len(),
                    result@.len() == i,
                    forall|j: int|
                        0 <= j < i ==> *(#[trigger] result@[j]).0 == grouped_metadata@[j]
                            && result@[j].1 is All,
                decreases grouped_metadata@.len() - i,
            {
                result.push((&grouped_metadata[i], Selection::All));
                i = i + 1;
            }
        },
        Selection::RowIndexes(rows) => {
            let mut start: u64 = 0;
            let mut i: usize = 0;
            assert(groups.take(0) =~= Seq::<GroupedColumnMetadata>::empty());
            while i < grouped_metadata.len()
                invariant
                    i <= grouped_metadata@.len(),
                    groups == grouped_metadata@,
                    total_rows(groups) <= u64::MAX,
                    start == total_rows(groups.take(i as int)),
                    result@.len() == selected_rows(rows@, groups.take(i as int)).len(),
                    forall|j: int|
                        0 <= j < result@.len() ==> is_part(
                            #[trigger] result@[j],
                            groups,
                            selected_rows(rows@, groups.take(i as int))[j],
                        ),
                decreases grouped_metadata@.len() - i,
            {
                let ghost before = selected_rows(rows@, groups.take(i as int));
                proof {
                    let next = groups.take(i + 1);
                    assert(next.drop_last() =~= groups.take(i as int));
                    assert(next.last() == groups[i as int]);
                    total_rows_grows(groups, i + 1);
                }
                let end: u64 = start + grouped_metadata[i].row_count as u64;
                let within = rows_in_group(rows, start, end);
                if within.len() > 0 {
                    let ghost old_result = result@;
                    result.push((&grouped_metadata[i], Selection::RowIndexes(within)));
                    proof {
                        let after = selected_rows(rows@, groups.take(i + 1));
                        assert forall|j: int| 0 <= j < result@.len() implies is_part(
                            #[trigger] result@[j],
                            groups,
                            after[j],
                        ) by {
                            if j < old_result.len() {
                                assert(result@[j] == old_result[j]);
                                assert(is_part(old_result[j], groups, before[j]));
                                assert(after[j] == before[j]);
                            }
                        }
                    }
                }
                start = end;
                i = i + 1;
            }
            assert(groups.take(i as int) =~= groups);
        },
    }
    result
}

} // verus!
