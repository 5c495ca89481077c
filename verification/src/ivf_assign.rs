//! Sorting vectors into the lists of their nearest centroids.
use crate::floats;
use crate::ivf_flat::IvfFlatIndex;
use vstd::prelude::*;

verus! {

/// The centroid nearest to `v` among the first `n`, and its distance: the first
/// one that is nearer than all in front of it and nearer than `limit`. With none,
/// centroid 0 at `limit`.
pub open spec fn nearest_upto<F: Fn(&[u32], &[u32]) -> u32>(
    f: F,
    v: Seq<u32>,
    centroids: Seq<u32>,
    dim: nat,
    n: nat,
    limit: u32,
) -> (int, u32)
    decreases n,
{
    if n == 0 {
        (0, limit)
    } else {
        let best = nearest_upto(f, v, centroids, dim, (n - 1) as nat, limit);
        let d = floats::distance(f, v, floats::row_of(centroids, dim, n - 1));
        if floats::is_below(d, best.1) {
            (n - 1, d)
        } else {
            best
        }
    }
}

/// No centroid is nearer than the one found.
pub proof fn nearest_upto_is_nearest<F: Fn(&[u32], &[u32]) -> u32>(
    f: F,
    v: Seq<u32>,
    centroids: Seq<u32>,
    dim: nat,
    n: nat,
    limit: u32,
)
    ensures
        0 <= nearest_upto(f, v, centroids, dim, n, limit).0,
        n > 0 ==> nearest_upto(f, v, centroids, dim, n, limit).0 < n,
        forall|c: int|
            0 <= c < n ==> !floats::is_below(
                #[trigger] floats::distance(f, v, floats::row_of(centroids, dim, c)),
                nearest_upto(f, v, centroids, dim, n, limit).1,
            ),
    decreases n,
{
    if n > 0 {
        nearest_upto_is_nearest(f, v, centroids, dim, (n - 1) as nat, limit);
    }
}

/// Finds the centroid nearest to `v`, and its distance.
pub fn nearest_centroid<F: Fn(&[u32], &[u32]) -> u32>(
    v: &[u32],
    centroids: &[u32],
    dim: usize,
    nlist: usize,
    limit: u32,
    f: &F,
) -> (r: (usize, u32))
    requires
        floats::is_distance(*f),
        nlist * dim <= centroids@.len(),
    ensures
        r.0 == nearest_upto(*f, v@, centroids@, dim as nat, nlist as nat, limit).0,
        r.1 == nearest_upto(*f, v@, centroids@, dim as nat, nlist as nat, limit).1,
        nlist > 0 ==> r.0 < nlist,
        nlist == 0 ==> r.0 == 0,
{
    let mut best: usize = 0;
    let mut best_distance: u32 = limit;
    let mut cid: usize = 0;
    while cid < nlist
        invariant
            floats::is_distance(*f),
            nlist * dim <= centroids@.len(),
            cid <= nlist,
            best as int == nearest_upto(*f, v@, centroids@, dim as nat, cid as nat, limit).0,
            best_distance == nearest_upto(*f, v@, centroids@, dim as nat, cid as nat, limit).1,
            cid > 0 ==> best < cid,
            cid == 0 ==> best == 0,
        decreases nlist - cid,
    {
        let d: u32 = floats::measure(f, v, floats::row(centroids, dim, cid, nlist));
        if floats::below(d, best_distance) {
            best = cid;
            best_distance = d;
        }
        cid = cid + 1;
    }
    (best, best_distance)
}

/// How often `c` occurs.
pub open spec fn occurrences(s: Seq<usize>, c: int) -> nat
    decreases s.len(),
{
    if s.len() == 0 {
        0
    } else {
        occurrences(s.drop_last(), c) + (if s.last() == c {
            1nat
        } else {
            0
        })
    }
}

/// How many entries are below `c`: where list `c` starts.
pub open spec fn start_of(s: Seq<usize>, c: nat) -> nat
    decreases c,
{
    if c == 0 {
        0
    } else {
        start_of(s, (c - 1) as nat) + occurrences(s, c - 1)
    }
}

/// Where entry `i` goes: behind all entries of lower lists, and behind those of
/// its own list that came before it.
pub open spec fn position(s: Seq<usize>, i: int) -> nat {
    start_of(s, s[i] as nat) + occurrences(s.take(i), s[i] as int)
}

proof fn occurrences_grow(s: Seq<usize>, c: int, i: int, j: int)
    requires
        0 <= i <= j <= s.len(),
    ensures
        occurrences(s.take(i), c) <= occurrences(s.take(j), c),
    decreases j - i,
{
    if i < j {
        assert(s.take(j).drop_last() =~= s.take(j - 1));
        occurrences_grow(s, c, i, j - 1);
    }
}

proof fn start_grows(s: Seq<usize>, c: nat, d: nat)
    requires
        c <= d,
    ensures
        start_of(s, c) <= start_of(s, d),
    decreases d,
{
    if c < d {
        start_grows(s, c, (d - 1) as nat);
    }
}

proof fn start_of_push(s: Seq<usize>, c: nat)
    requires
        s.len() > 0,
    ensures
        start_of(s, c) == start_of(s.drop_last(), c) + (if s.last() < c {
            1int
        } else {
            0
        }),
    decreases c,
{
    if c > 0 {
        start_of_push(s, (c - 1) as nat);
    }
}

/// The last list ends behind the last entry.
pub proof fn start_of_end(s: Seq<usize>, n: nat)
    requires
        forall|i: int| 0 <= i < s.len() ==> #[trigger] s[i] < n,
    ensures
        start_of(s, n) == s.len(),
    decreases s.len(),
{
    if s.len() == 0 {
        start_of_empty(s, n);
    } else {
        start_of_push(s, n);
        assert(s.last() < n);
        start_of_end(s.drop_last(), n);
    }
}

proof fn start_of_empty(s: Seq<usize>, n: nat)
    requires
        s.len() == 0,
    ensures
        start_of(s, n) == 0,
    decreases n,
{
    if n > 0 {
        start_of_empty(s, (n - 1) as nat);
    }
}

proof fn occurrence_counts(s: Seq<usize>, i: int)
    requires
        0 <= i < s.len(),
    ensures
        occurrences(s.take(i + 1), s[i] as int) == occurrences(s.take(i), s[i] as int) + 1,
        occurrences(s.take(i), s[i] as int) < occurrences(s, s[i] as int),
{
    assert(s.take(i + 1).drop_last() =~= s.take(i));
    assert(s.take(i + 1).last() == s[i]);
    occurrences_grow(s, s[i] as int, i + 1, s.len() as int);
    assert(s.take(s.len() as int) =~= s);
}

/// Entries go to places within their list, which lies within all lists.
pub proof fn position_in_list(s: Seq<usize>, i: int, n: nat)
    requires
        0 <= i < s.len(),
        forall|j: int| 0 <= j < s.len() ==> #[trigger] s[j] < n,
    ensures
        start_of(s, s[i] as nat) <= position(s, i) < start_of(s, s[i] as nat + 1),
        position(s, i) < s.len(),
{
    occurrence_counts(s, i);
    start_grows(s, s[i] as nat + 1, n);
    start_of_end(s, n);
}

/// Two entries never go to the same place: sorting into lists loses nothing. In
/// one list the earlier entry stays in front.
pub proof fn positions_differ(s: Seq<usize>, i: int, j: int, n: nat)
    requires
        0 <= i < j < s.len(),
        forall|k: int| 0 <= k < s.len() ==> #[trigger] s[k] < n,
    ensures
        position(s, i) != position(s, j),
        s[i] == s[j] ==> position(s, i) < position(s, j),
{
    position_in_list(s, i, n);
    position_in_list(s, j, n);
    if s[i] == s[j] {
        occurrence_counts(s, i);
        occurrences_grow(s, s[i] as int, i + 1, j);
    } else if s[i] < s[j] {
        start_grows(s, s[i] as nat + 1, s[j] as nat);
    } else {
        start_grows(s, s[j] as nat + 1, s[i] as nat);
    }
}

/// The list that each vector goes to.
pub open spec fn lists_of<F: Fn(&[u32], &[u32]) -> u32>(
    f: F,
    centroids: Seq<u32>,
    dim: nat,
    nlist: nat,
    vectors: Seq<u32>,
    n: nat,
) -> Seq<usize> {
    Seq::new(
        n,
        |i: int|
            nearest_upto(
                f,
                floats::row_of(vectors, dim, i),
                centroids,
                dim,
                nlist,
                floats::INFINITY,
            ).0 as usize,
    )
}

/// Whether `index` holds the vectors of `lists` sorted into their lists.
pub open spec fn is_sorted_into(
    index: IvfFlatIndex,
    lists: Seq<usize>,
    row_ids: Seq<u32>,
    vectors: Seq<u32>,
) -> bool {
    &&& index.row_ids@.len() == row_ids.len()
    &&& index.vectors@.len() == vectors.len()
    &&& index.list_offsets@.len() == index.nlist + 1
    &&& forall|c: int|
        0 <= c <= index.nlist ==> #[trigger] index.list_offsets@[c] == start_of(lists, c as nat)
    &&& forall|i: int|
        0 <= i < row_ids.len() ==> index.row_ids@[position(lists, i) as int]
            == #[trigger] row_ids[i] && floats::row_of(
            index.vectors@,
            index.dim as nat,
            position(lists, i) as int,
        ) == floats::row_of(vectors, index.dim as nat, i)
}

/// There are not as many vectors as row ids.
#[derive(Clone, Copy, Debug, PartialEq, Eq, Structural)]
pub struct VectorsLenMismatch;

/// How many entries each list has.
pub fn count_lists(lists: &Vec<usize>, nlist: usize) -> (r: Vec<usize>)
    requires
        forall|i: int| 0 <= i < lists@.len() ==> #[trigger] lists@[i] < nlist,
    ensures
        r@.len() == nlist,
        forall|c: int| 0 <= c < nlist ==> #[trigger] r@[c] == occurrences(lists@, c),
{
    let mut counts: Vec<usize> = vec![0usize; nlist];
    let mut i: usize = 0;
    assert(lists@.take(0) =~= Seq::<usize>::empty());
    while i < lists.len()
        invariant
            i <= lists@.len(),
            counts@.len() == nlist,
            forall|j: int| 0 <= j < lists@.len() ==> #[trigger] lists@[j] < nlist,
            forall|c: int|
                0 <= c < nlist ==> #[trigger] counts@[c] == occurrences(lists@.take(i as int), c)
                    && counts@[c] <= i,
        decreases lists@.len() - i,
    {
        let c: usize = lists[i];
        proof {
            assert(lists@.take(i + 1).drop_last() =~= lists@.take(i as int));
            assert(lists@.take(i + 1).last() == c);
        }
        assert(counts@[c as int] <= i);
        counts[c] = counts[c] + 1;
        i = i + 1;
    }
    assert(lists@.take(i as int) =~= lists@);
    counts
}

fn offsets_of(lists: &Vec<usize>, counts: &Vec<usize>) -> (r: Vec<u64>)
    requires
        counts@.len() < usize::MAX,
        forall|i: int| 0 <= i < lists@.len() ==> #[trigger] lists@[i] < counts@.len(),
        forall|c: int|
            0 <= c < counts@.len() ==> #[trigger] counts@[c] == occurrences(lists@, c),
    ensures
        r@.len() == counts@.len() + 1,
        forall|c: int| 0 <= c < r@.len() ==> #[trigger] r@[c] == start_of(lists@, c as nat),
{
    let n: usize = lists.len();
    let mut offsets: Vec<u64> = Vec::new();
    let mut sum: u64 = 0;
    offsets.push(sum);
    let mut c: usize = 0;
    while c < counts.len()
        invariant
            c <= counts@.len(),
            n == lists@.len(),
            sum == start_of(lists@, c as nat),
            offsets@.len() == c + 1,
            forall|i: int| 0 <= i < lists@.len() ==> #[trigger] lists@[i] < counts@.len(),
            forall|d: int|
                0 <= d < counts@.len() ==> #[trigger] counts@[d] == occurrences(lists@, d),
            forall|d: int| 0 <= d <= c ==> #[trigger] offsets@[d] == start_of(lists@, d as nat),
        decreases counts@.len() - c,
    {
        proof {
            start_grows(lists@, c as nat + 1, counts@.len());
            start_of_end(lists@, counts@.len());
        }
        sum = sum + counts[c] as u64;
        offsets.push(sum);
        c = c + 1;
    }
    offsets
}

/// Whether the first `n` vectors stand where their lists have room for them, each with its
/// row id.
spec fn stand_in_place(
    lists: Seq<usize>,
    dim: nat,
    out_rows: Seq<u32>,
    out_vectors: Seq<u32>,
    row_ids: Seq<u32>,
    vectors: Seq<u32>,
    n: int,
) -> bool {
    forall|j: int|
        0 <= j < n ==> out_rows[position(lists, j) as int] == #[trigger] row_ids[j]
            && floats::row_of(out_vectors, dim, position(lists, j) as int) == floats::row_of(
            vectors,
            dim,
            j,
        )
}

/// Sorts vectors into the lists of their nearest centroids. The vectors of a
/// list keep their order. `f` computes distances.
#[verifier::spinoff_prover]
pub fn assign_ivf_flat<F: Fn(&[u32], &[u32]) -> u32>(
    centroids: &[u32],
    dim: usize,
    nlist: usize,
    row_ids: &[u32],
    vectors: &[u32],
    f: &F,
) -> (r: Result<IvfFlatIndex, VectorsLenMismatch>)
    requires
        floats::is_distance(*f),
        0 < nlist < usize::MAX,
        centroids@.len() == nlist * dim,
    ensures
        r is Err <==> vectors@.len() != row_ids@.len() * dim,
        r matches Ok(index) ==> {
            &&& index.dim == dim
            &&& index.nlist == nlist
            &&& index.centroids@ == centroids@
            &&& is_sorted_into(
                index,
                lists_of(
                    *f,
                    centroids@,
                    dim as nat,
                    nlist as nat,
                    vectors@,
                    row_ids@.len(),
                ),
                row_ids@,
                vectors@,
            )
            &&& index.searchable()
        },
{
    if vectors.len() as u128 != crate::num::product(row_ids.len(), dim) {
        return Err(VectorsLenMismatch);
    }
    let n: usize = row_ids.len();
    let vectors_len: usize = vectors.len();
    let ghost goal = lists_of(*f, centroids@, dim as nat, nlist as nat, vectors@, n as nat);
    let mut lists: Vec<usize> = Vec::new();
    let mut i: usize = 0;
    while i < n
        invariant
            floats::is_distance(*f),
            nlist > 0,
            centroids@.len() == nlist * dim,
            vectors@.len() == n * dim,
            i <= n,
            goal == lists_of(*f, centroids@, dim as nat, nlist as nat, vectors@, n as nat),
            lists@ =~= goal.take(i as int),
            forall|j: int| 0 <= j < i ==> #[trigger] lists@[j] < nlist,
        decreases n - i,
    {
        let v = floats::row(vectors, dim, i, n);
        let (list, _) = nearest_centroid(v, centroids, dim, nlist, floats::INFINITY, f);
        lists.push(list);
        i = i + 1;
    }
    assert(lists@ =~= goal);
    let counts = count_lists(&lists, nlist);
    let offsets = offsets_of(&lists, &counts);
    let mut cursor: Vec<usize> = Vec::new();
    let mut c: usize = 0;
    proof {
        start_of_end(lists@, nlist as nat);
    }
    while c < nlist
        invariant
            c <= nlist,
            n == lists@.len(),
            offsets@.len() == nlist + 1,
            forall|d: int|
                0 <= d < offsets@.len() ==> #[trigger] offsets@[d] == start_of(lists@, d as nat),
            start_of(lists@, nlist as nat) == n,
            cursor@.len() == c,
            forall|d: int| 0 <= d < c ==> #[trigger] cursor@[d] == start_of(lists@, d as nat),
        decreases nlist - c,
    {
        proof {
            start_grows(lists@, c as nat, nlist as nat);
        }
        cursor.push(offsets[c] as usize);
        c = c + 1;
    }
    let mut out_rows: Vec<u32> = vec![0u32; n];
    let mut out_vectors: Vec<u32> = vec![0u32; vectors_len];
    let mut i: usize = 0;
    assert(lists@.take(0) =~= Seq::<usize>::empty());
    while i < n
        invariant
            i <= n,
            n == lists@.len(),
            n == row_ids@.len(),
            vectors@.len() == n * dim,
            vectors_len == n * dim,
            cursor@.len() == nlist,
            out_rows@.len() == n,
            out_vectors@.len() == n * dim,
            forall|j: int| 0 <= j < n ==> #[trigger] lists@[j] < nlist,
            forall|d: int|
                0 <= d < nlist ==> #[trigger] cursor@[d] == start_of(lists@, d as nat)
                    + occurrences(lists@.take(i as int), d),
            stand_in_place(
                lists@,
                dim as nat,
                out_rows@,
                out_vectors@,
                row_ids@,
                vectors@,
                i as int,
            ),
        decreases n - i,
    {
        let list: usize = lists[i];
        let pos: usize = cursor[list];
        let ghost rows_before = out_rows@;
        let ghost vectors_before = out_vectors@;
        proof {
            assert(pos == position(lists@, i as int));
            position_in_list(lists@, i as int, nlist as nat);
            floats::row_fits(dim as nat, i as int, n as int);
            floats::row_fits(dim as nat, pos as int, n as int);
            assert(lists@.take(i + 1).drop_last() =~= lists@.take(i as int));
            assert(lists@.take(i + 1).last() == list);
        }
        cursor[list] = pos + 1;
        out_rows[pos] = row_ids[i];
        copy_row(&mut out_vectors, vectors, pos * dim, i * dim, dim);
        proof {
            assert forall|j: int| 0 <= j < i + 1 implies out_rows@[position(lists@, j) as int]
                == #[trigger] row_ids@[j] && floats::row_of(
                out_vectors@,
                dim as nat,
                position(lists@, j) as int,
            ) == floats::row_of(vectors@, dim as nat, j) by {
                if j < i {
                    positions_differ(lists@, j, i as int, nlist as nat);
                    position_in_list(lists@, j, nlist as nat);
                    let p = position(lists@, j) as int;
                    assert(rows_before[p] == row_ids@[j]);
                    assert(p != pos);
                    assert(out_rows@[p] == rows_before[p]);
                    floats::row_fits(dim as nat, p, n as int);
                    if p < pos {
                        floats::row_fits(dim as nat, p, pos as int);
                    } else {
                        floats::row_fits(dim as nat, pos as int, p);
                    }
                    assert(floats::row_of(out_vectors@, dim as nat, p) =~= floats::row_of(
                        vectors_before,
                        dim as nat,
                        p,
                    ));
                } else {
                    assert(j == i);
                    assert(position(lists@, j) == pos);
                    assert(out_rows@[pos as int] == row_ids@[j]);
                    assert(floats::row_of(out_vectors@, dim as nat, pos as int) =~= floats::row_of(
                        vectors@,
                        dim as nat,
                        j,
                    ));
                }
            }
            assert(stand_in_place(
                lists@,
                dim as nat,
                out_rows@,
                out_vectors@,
                row_ids@,
                vectors@,
                i + 1,
            ));
        }
        i = i + 1;
    }
    let mut copied: Vec<u32> = Vec::new();
    copied.extend_from_slice(centroids);
    assert(copied@ =~= centroids@);
    let index = IvfFlatIndex {
        dim,
        nlist,
        centroids: copied,
        list_offsets: offsets,
        row_ids: out_rows,
        vectors: out_vectors,
    };
    proof {
        assert forall|c: int| 0 <= c < nlist implies #[trigger] index.list_offsets@[c + 1]
            <= index.row_ids@.len() by {
            start_grows(lists@, (c + 1) as nat, nlist as nat);
        }
    }
    Ok(index)
}

/// Copies `len` components.
fn copy_row(dst: &mut Vec<u32>, src: &[u32], at: usize, from: usize, len: usize)
    requires
        at + len <= old(dst)@.len(),
        from + len <= src@.len(),
    ensures
        final(dst)@ == old(dst)@.take(at as int) + src@.subrange(from as int, from + len)
            + old(dst)@.skip(at + len),
{
    let ghost before = dst@;
    let n: usize = src.len();
    let m: usize = dst.len();
    let mut j: usize = 0;
    while j < len
        invariant
            j <= len,
            n == src@.len(),
            m == before.len(),
            at + len <= before.len(),
            from + len <= src@.len(),
            dst@ =~= before.take(at as int) + src@.subrange(from as int, from + j) + before.skip(
                at + j,
            ),
        decreases len - j,
    {
        dst[at + j] = src[from + j];
        j = j + 1;
    }
}

} // verus!
