//! Laws of sorting vectors into the lists of their nearest centroids.
use crate::floats;
use crate::ivf_assign;
use crate::ivf_flat::IvfFlatIndex;
use crate::laws::probing;
use vstd::prelude::*;

verus! {

/// Whether `c` is the first of the `n` vectors in `rows` that no other is nearer to `v`
/// than; one that is not nearer than `limit` does not count, and without any it is 0.
pub open spec fn is_nearest_row<F: Fn(&[u32], &[u32]) -> u32>(
    f: F,
    v: Seq<u32>,
    rows: Seq<u32>,
    dim: nat,
    n: nat,
    limit: u32,
    c: int,
) -> bool {
    ||| {
        &&& c == 0
        &&& forall|e: int|
            0 <= e < n ==> !floats::is_below(#[trigger] probing::distance_to(f, v, rows, dim, e), limit)
    }
    ||| {
        &&& 0 <= c < n
        &&& floats::is_below(probing::distance_to(f, v, rows, dim, c), limit)
        &&& forall|e: int|
            0 <= e < n ==> {
                let d = #[trigger] probing::distance_to(f, v, rows, dim, e);
                let least = probing::distance_to(f, v, rows, dim, c);
                &&& !floats::is_below(d, least)
                &&& e < c ==> floats::is_nan(d) || floats::is_below(least, d)
            }
    }
}

/// The centroid found is the first nearest one that is nearer than the limit, and the
/// distance is its own; with none it is the first centroid at the limit.
pub proof fn nearest_centroid_is_found<F: Fn(&[u32], &[u32]) -> u32>(
    f: F,
    v: Seq<u32>,
    centroids: Seq<u32>,
    dim: nat,
    n: nat,
    limit: u32,
)
    ensures
        ({
            let (c, d) = ivf_assign::nearest_upto(f, v, centroids, dim, n, limit);
            &&& is_nearest_row(f, v, centroids, dim, n, limit, c)
            &&& d == limit || (0 <= c < n && d == probing::distance_to(f, v, centroids, dim, c))
            &&& 0 <= c
            &&& n > 0 ==> c < n
            &&& !floats::is_below(limit, d)
            &&& d == limit ==> c == 0 && forall|e: int|
                0 <= e < n ==> !floats::is_below(
                    #[trigger] probing::distance_to(f, v, centroids, dim, e),
                    limit,
                )
            &&& d != limit ==> floats::is_below(d, limit)
        }),
    decreases n,
{
    if n > 0 {
        let m = (n - 1) as nat;
        nearest_centroid_is_found(f, v, centroids, dim, m, limit);
        let (b, best) = ivf_assign::nearest_upto(f, v, centroids, dim, m, limit);
        let x = probing::distance_to(f, v, centroids, dim, m as int);
        assert(x == floats::distance(f, v, floats::row_of(centroids, dim, m as int)));
        let (c, d) = ivf_assign::nearest_upto(f, v, centroids, dim, n, limit);
        if floats::is_below(x, best) {
            assert forall|e: int| 0 <= e < n implies {
                let y = #[trigger] probing::distance_to(f, v, centroids, dim, e);
                &&& !floats::is_below(y, x)
                &&& e < m ==> floats::is_nan(y) || floats::is_below(x, y)
            } by {
                if e < m {
                    assert(!floats::is_below(
                        probing::distance_to(f, v, centroids, dim, e),
                        best,
                    ));
                }
            }
        } else if best == limit {
            assert forall|e: int| 0 <= e < n implies !floats::is_below(
                #[trigger] probing::distance_to(f, v, centroids, dim, e),
                limit,
            ) by {}
        }
    }
}

/// A vector that is sorted lies in the span of its list, with its row id and all its
/// components; the spans follow each other from the first row to the last, and each has
/// as many rows as its list has vectors.
pub proof fn vectors_are_in_their_lists(
    index: IvfFlatIndex,
    lists: Seq<usize>,
    row_ids: Seq<u32>,
    vectors: Seq<u32>,
    i: int,
) -> (p: int)
    requires
        ivf_assign::is_sorted_into(index, lists, row_ids, vectors),
        lists.len() == row_ids.len(),
        vectors.len() == row_ids.len() * index.dim,
        forall|j: int| 0 <= j < lists.len() ==> #[trigger] lists[j] < index.nlist,
        0 <= i < row_ids.len(),
    ensures
        index.list_offsets@[lists[i] as int] <= p < index.list_offsets@[lists[i] + 1],
        0 <= p < index.row_ids@.len(),
        index.row_ids@[p] == row_ids[i],
        forall|j: int|
            0 <= j < index.dim ==> index.vectors@[p * index.dim + j] == #[trigger] vectors[i
                * index.dim + j],
        index.list_offsets@[0] == 0,
        index.list_offsets@[index.nlist as int] == row_ids.len(),
{
    let dim = index.dim as nat;
    ivf_assign::position_in_list(lists, i, index.nlist as nat);
    let p = ivf_assign::position(lists, i) as int;
    let n = row_ids.len() as int;
    assert(row_ids[i] == index.row_ids@[p]);
    assert(index.list_offsets@[lists[i] as int] == ivf_assign::start_of(lists, lists[i] as nat));
    assert(index.list_offsets@[lists[i] + 1] == ivf_assign::start_of(
        lists,
        (lists[i] + 1) as nat,
    ));
    assert(index.list_offsets@[0] == ivf_assign::start_of(lists, 0));
    ivf_assign::start_of_end(lists, index.nlist as nat);
    floats::row_fits(dim, p, n);
    floats::row_fits(dim, i, n);
    let a = floats::row_of(index.vectors@, dim, p);
    let b = floats::row_of(vectors, dim, i);
    assert forall|j: int| 0 <= j < index.dim implies index.vectors@[p * index.dim + j]
        == #[trigger] vectors[i * index.dim + j] by {
        assert(a[j] == index.vectors@[p * index.dim + j]);
        assert(b[j] == vectors[i * index.dim + j]);
    }
    p
}

/// How many entries of list `c` there are is how many places they have.
pub proof fn entries_are_counted(lists: Seq<usize>, c: int, members: Seq<int>)
    requires
        are_members(lists, c, lists.len(), members),
    ensures
        ivf_assign::occurrences(lists, c) == members.len(),
    decreases lists.len(),
{
    let n = lists.len();
    if n == 0 {
        if members.len() > 0 {
            assert(members[0] < n);
        }
    } else if lists[n - 1] == c {
        last_member(lists, c, n, members);
        same_members(lists, c, (n - 1) as nat, members.drop_last());
        entries_are_counted(lists.drop_last(), c, members.drop_last());
    } else {
        not_last_member(lists, c, n, members);
        same_members(lists, c, (n - 1) as nat, members);
        entries_are_counted(lists.drop_last(), c, members);
    }
}

/// Whether `members` are the places of the entries of list `c` among the first `n`, in
/// their order.
pub open spec fn are_members(lists: Seq<usize>, c: int, n: nat, members: Seq<int>) -> bool {
    &&& forall|p: int|
        0 <= p < members.len() ==> 0 <= #[trigger] members[p] < n && lists[members[p]] == c
    &&& forall|p: int, q: int|
        0 <= p < q < members.len() ==> #[trigger] members[p] < #[trigger] members[q]
    &&& forall|i: int| 0 <= i < n && lists[i] == c ==> #[trigger] members.contains(i)
}

/// The last entry is the last member if it is in the list.
pub proof fn last_member(lists: Seq<usize>, c: int, n: nat, members: Seq<int>)
    requires
        0 < n <= lists.len(),
        are_members(lists, c, n, members),
        lists[n - 1] == c,
    ensures
        members.len() > 0,
        members.last() == n - 1,
        are_members(lists, c, (n - 1) as nat, members.drop_last()),
{
    let front = members.drop_last();
    assert(members.contains(n - 1));
    let p = choose|p: int| 0 <= p < members.len() && members[p] == n - 1;
    let q = members.len() - 1;
    if p < q {
        assert(members[p] < members[q]);
    }
    assert forall|i: int| 0 <= i < n - 1 && lists[i] == c implies #[trigger] front.contains(i) by {
        assert(members.contains(i));
        let r = choose|r: int| 0 <= r < members.len() && members[r] == i;
        assert(front[r] == i);
    }
    assert forall|r: int| 0 <= r < front.len() implies 0 <= #[trigger] front[r] < n - 1
        && lists[front[r]] == c by {
        assert(members[r] < members[q]);
    }
}

/// The last entry is no member if it is in another list.
pub proof fn not_last_member(lists: Seq<usize>, c: int, n: nat, members: Seq<int>)
    requires
        0 < n <= lists.len(),
        are_members(lists, c, n, members),
        lists[n - 1] != c,
    ensures
        are_members(lists, c, (n - 1) as nat, members),
{
    assert forall|r: int| 0 <= r < members.len() implies 0 <= #[trigger] members[r] < n - 1
        && lists[members[r]] == c by {
        if members[r] == n - 1 {
            assert(lists[n - 1] == c);
        }
    }
}

proof fn same_members(lists: Seq<usize>, c: int, n: nat, members: Seq<int>)
    requires
        n < lists.len(),
        n == lists.len() - 1,
        are_members(lists, c, n, members),
    ensures
        are_members(lists.drop_last(), c, n, members),
{
    assert forall|p: int| 0 <= p < members.len() implies 0 <= #[trigger] members[p] < n
        && lists.drop_last()[members[p]] == c by {}
    assert forall|i: int| 0 <= i < n && lists.drop_last()[i] == c implies #[trigger]
        members.contains(i) by {
        assert(lists[i] == c);
    }
}

/// Assigning vectors puts each into the list of its nearest centroid.
pub proof fn vectors_are_with_their_nearest<F: Fn(&[u32], &[u32]) -> u32>(
    f: F,
    index: IvfFlatIndex,
    row_ids: Seq<u32>,
    vectors: Seq<u32>,
    i: int,
) -> (at: (int, int))
    requires
        0 < index.nlist < usize::MAX,
        vectors.len() == row_ids.len() * index.dim,
        0 <= i < row_ids.len(),
        ivf_assign::is_sorted_into(
            index,
            ivf_assign::lists_of(
                f,
                index.centroids@,
                index.dim as nat,
                index.nlist as nat,
                vectors,
                row_ids.len(),
            ),
            row_ids,
            vectors,
        ),
    ensures
        ({
            let (c, p) = at;
            let dim = index.dim as nat;
            &&& 0 <= c < index.nlist
            &&& is_nearest_row(
                f,
                vectors.subrange(i * dim, i * dim + dim),
                index.centroids@,
                dim,
                index.nlist as nat,
                0x7f80_0000,
                c,
            )
            &&& index.list_offsets@[c] <= p < index.list_offsets@[c + 1]
            &&& index.row_ids@[p] == row_ids[i]
            &&& forall|j: int|
                0 <= j < dim ==> index.vectors@[p * dim + j] == #[trigger] vectors[i * dim + j]
        }),
{
    let dim = index.dim as nat;
    let lists = ivf_assign::lists_of(
        f,
        index.centroids@,
        dim,
        index.nlist as nat,
        vectors,
        row_ids.len(),
    );
    assert forall|j: int| 0 <= j < lists.len() implies #[trigger] lists[j] < index.nlist by {
        nearest_centroid_is_found(
            f,
            floats::row_of(vectors, dim, j),
            index.centroids@,
            dim,
            index.nlist as nat,
            floats::INFINITY,
        );
    }
    nearest_centroid_is_found(
        f,
        floats::row_of(vectors, dim, i),
        index.centroids@,
        dim,
        index.nlist as nat,
        floats::INFINITY,
    );
    let p = vectors_are_in_their_lists(index, lists, row_ids, vectors, i);
    (lists[i] as int, p)
}

} // verus!
