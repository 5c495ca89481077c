//! Laws of which rows of a file are read.
use crate::footer::GroupedColumnMetadata;
use crate::selection;
use crate::selection::Selection;
use vstd::prelude::*;

verus! {

/// How many rows stand in front of row group `g`.
pub open spec fn rows_before(groups: Seq<GroupedColumnMetadata>, g: int) -> nat
    decreases g,
{
    if g <= 0 {
        0
    } else {
        rows_before(groups, g - 1) + groups[g - 1].row_count as nat
    }
}

proof fn total_is_before(groups: Seq<GroupedColumnMetadata>, n: int)
    requires
        0 <= n <= groups.len(),
    ensures
        selection::total_rows(groups.take(n)) == rows_before(groups, n),
    decreases n,
{
    if n > 0 {
        total_is_before(groups, n - 1);
        assert(groups.take(n).drop_last() =~= groups.take(n - 1));
        assert(groups.take(n).last() == groups[n - 1]);
    }
}

proof fn before_grows(groups: Seq<GroupedColumnMetadata>, a: int, b: int)
    requires
        0 <= a <= b,
    ensures
        rows_before(groups, a) <= rows_before(groups, b),
    decreases b,
{
    if a < b {
        before_grows(groups, a, b - 1);
    }
}

/// The group of a row that is in the file.
proof fn group_of(groups: Seq<GroupedColumnMetadata>, row: u64, n: int) -> (g: int)
    requires
        0 <= n <= groups.len(),
        row < rows_before(groups, n),
    ensures
        0 <= g < n,
        rows_before(groups, g) <= row < rows_before(groups, g) + groups[g].row_count,
    decreases n,
{
    if row < rows_before(groups, n - 1) {
        group_of(groups, row, n - 1)
    } else {
        n - 1
    }
}

/// How many rows all parts have together.
pub open spec fn rows_in_parts(parts: Seq<(int, Seq<u64>)>) -> nat
    decreases parts.len(),
{
    if parts.len() == 0 {
        0
    } else {
        rows_in_parts(parts.drop_last()) + parts.last().1.len()
    }
}

/// How many of the rows are below `end`.
pub open spec fn rows_below(rows: Seq<u64>, end: nat) -> nat
    decreases rows.len(),
{
    if rows.len() == 0 {
        0
    } else {
        rows_below(rows.drop_last(), end) + (if rows.last() < end {
            1nat
        } else {
            0
        })
    }
}

proof fn within_counts(rows: Seq<u64>, start: nat, end: nat)
    requires
        start <= end,
    ensures
        rows_below(rows, start) + selection::rows_within(rows, start, end).len() == rows_below(
            rows,
            end,
        ),
    decreases rows.len(),
{
    if rows.len() > 0 {
        within_counts(rows.drop_last(), start, end);
    }
}

/// Where in the rows of a group a row that was asked for stands: behind those of the
/// group that were asked for earlier.
proof fn place_within(rows: Seq<u64>, start: nat, end: nat, i: int) -> (p: int)
    requires
        0 <= i < rows.len(),
        start <= rows[i] < end,
    ensures
        p == selection::rows_within(rows.take(i), start, end).len(),
        0 <= p < selection::rows_within(rows, start, end).len(),
        selection::rows_within(rows, start, end)[p] == rows[i] - start,
    decreases rows.len(),
{
    let front = rows.drop_last();
    if i == rows.len() - 1 {
        assert(rows.take(i) =~= front);
        selection::rows_within(front, start, end).len() as int
    } else {
        assert(front.take(i) =~= rows.take(i));
        place_within(front, start, end, i)
    }
}

proof fn within_grows(rows: Seq<u64>, start: nat, end: nat, i: int, j: int)
    requires
        0 <= i <= j <= rows.len(),
    ensures
        selection::rows_within(rows.take(i), start, end).len() <= selection::rows_within(
            rows.take(j),
            start,
            end,
        ).len(),
    decreases j - i,
{
    if i < j {
        within_grows(rows, start, end, i, j - 1);
        assert(rows.take(j).drop_last() =~= rows.take(j - 1));
    }
}

/// The part of a group, if rows of it were asked for.
proof fn part_of(rows: Seq<u64>, groups: Seq<GroupedColumnMetadata>, g: int) -> (p: int)
    requires
        0 <= g < groups.len(),
        selection::rows_within(
            rows,
            rows_before(groups, g),
            rows_before(groups, g + 1),
        ).len() > 0,
    ensures
        0 <= p < selection::selected_rows(rows, groups).len(),
        selection::selected_rows(rows, groups)[p].0 == g,
        selection::selected_rows(rows, groups)[p].1 == selection::rows_within(
            rows,
            rows_before(groups, g),
            rows_before(groups, g + 1),
        ),
    decreases groups.len(),
{
    let front = groups.drop_last();
    let n = groups.len() as int;
    total_is_before(groups, n);
    total_is_before(groups, n - 1);
    assert(groups.take(n) =~= groups);
    assert(groups.take(n - 1) =~= front);
    if g == n - 1 {
        selection::selected_rows(rows, front).len() as int
    } else {
        same_before(groups, g);
        same_before(groups, g + 1);
        part_of(rows, front, g)
    }
}

proof fn same_before(groups: Seq<GroupedColumnMetadata>, g: int)
    requires
        0 <= g < groups.len(),
    ensures
        rows_before(groups.drop_last(), g) == rows_before(groups, g),
    decreases g,
{
    if g > 0 {
        same_before(groups, g - 1);
    }
}

/// Whether a row of the file is in this part: it lies in the group, and the part has it,
/// counted from the start of the group.
pub open spec fn is_in_part(
    groups: Seq<GroupedColumnMetadata>,
    part: (int, Seq<u64>),
    row: u64,
) -> bool {
    let start = rows_before(groups, part.0);
    &&& 0 <= part.0 < groups.len()
    &&& start <= row < start + groups[part.0].row_count
    &&& part.1.contains((row - start) as u64)
}

/// Every row that is asked for and is in the file is read: the group that holds it is
/// among the parts, with the row counted from the start of the group.
pub proof fn every_row_is_read(rows: Seq<u64>, groups: Seq<GroupedColumnMetadata>, i: int)
    requires
        0 <= i < rows.len(),
        rows[i] < rows_before(groups, groups.len() as int),
    ensures
        exists|p: int|
            0 <= p < selection::selected_rows(rows, groups).len() && is_in_part(
                groups,
                #[trigger] selection::selected_rows(rows, groups)[p],
                rows[i],
            ),
{
    let g = group_of(groups, rows[i], groups.len() as int);
    let start = rows_before(groups, g);
    let end = rows_before(groups, g + 1);
    let q = place_within(rows, start, end, i);
    let p = part_of(rows, groups, g);
    let parts = selection::selected_rows(rows, groups);
    assert(parts[p].1[q] == (rows[i] - start) as u64);
}

/// The parts have as many rows together as were asked for and are in the file.
pub proof fn no_row_is_read_too_often(rows: Seq<u64>, groups: Seq<GroupedColumnMetadata>)
    ensures
        rows_in_parts(selection::selected_rows(rows, groups)) == rows_below(
            rows,
            rows_before(groups, groups.len() as int),
        ),
    decreases groups.len(),
{
    let n = groups.len() as int;
    let parts = selection::selected_rows(rows, groups);
    if n == 0 {
        none_below_zero(rows);
    } else {
        let front = groups.drop_last();
        total_is_before(groups, n);
        total_is_before(groups, n - 1);
        assert(groups.take(n) =~= groups);
        assert(groups.take(n - 1) =~= front);
        no_row_is_read_too_often(rows, front);
        same_before(groups, n - 1);
        within_counts(rows, rows_before(groups, n - 1), rows_before(groups, n));
        let within = selection::rows_within(
            rows,
            rows_before(groups, n - 1),
            rows_before(groups, n),
        );
        if within.len() > 0 {
            assert(parts.drop_last() =~= selection::selected_rows(rows, front));
        }
    }
}

proof fn none_below_zero(rows: Seq<u64>)
    ensures
        rows_below(rows, 0) == 0,
    decreases rows.len(),
{
    if rows.len() > 0 {
        none_below_zero(rows.drop_last());
    }
}

/// The parts come in the order of their groups, no group comes twice, none is without
/// rows; and in each part the rows come in the order in which they were asked for.
pub proof fn parts_are_in_order(rows: Seq<u64>, groups: Seq<GroupedColumnMetadata>, p: int, q: int)
    requires
        0 <= p < selection::selected_rows(rows, groups).len(),
    ensures
        ({
            let parts = selection::selected_rows(rows, groups);
            &&& 0 <= parts[p].0 < groups.len()
            &&& parts[p].1.len() > 0
            &&& p < q < parts.len() ==> parts[p].0 < parts[q].0
        }),
    decreases groups.len(),
{
    let front = groups.drop_last();
    let before = selection::selected_rows(rows, front);
    if p < before.len() {
        parts_are_in_order(rows, front, p, q);
    }
}

/// Of two rows of the same group the one that was asked for first is read first.
pub proof fn rows_keep_their_order(
    rows: Seq<u64>,
    groups: Seq<GroupedColumnMetadata>,
    g: int,
    i: int,
    j: int,
) -> (r: (int, int, int))
    requires
        0 <= g < groups.len(),
        0 <= i < j < rows.len(),
        rows_before(groups, g) <= rows[i] < rows_before(groups, g) + groups[g].row_count,
        rows_before(groups, g) <= rows[j] < rows_before(groups, g) + groups[g].row_count,
    ensures
        ({
            let parts = selection::selected_rows(rows, groups);
            let (p, a, b) = r;
            &&& 0 <= p < parts.len()
            &&& parts[p].0 == g
            &&& 0 <= a < b < parts[p].1.len()
            &&& parts[p].1[a] == rows[i] - rows_before(groups, g)
            &&& parts[p].1[b] == rows[j] - rows_before(groups, g)
        }),
{
    let start = rows_before(groups, g);
    let end = rows_before(groups, g + 1);
    let a = place_within(rows, start, end, i);
    let b = place_within(rows, start, end, j);
    let p = part_of(rows, groups, g);
    assert(rows.take(i + 1).drop_last() =~= rows.take(i));
    assert(rows.take(i + 1).last() == rows[i]);
    within_grows(rows, start, end, i + 1, j);
    (p, a, b)
}

/// What is handed out for a part is its group, with its rows.
pub proof fn parts_are_handed_out(
    x: (&GroupedColumnMetadata, Selection),
    groups: Seq<GroupedColumnMetadata>,
    part: (int, Seq<u64>),
)
    requires
        selection::is_part(x, groups, part),
    ensures
        *x.0 == groups[part.0],
        x.1 is RowIndexes,
        x.1->RowIndexes_0@ == part.1,
{
}

} // verus!
