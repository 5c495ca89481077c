//! Which columns share chunks of the dictionaries of a file.
use crate::footer::GroupedColumnMetadata;
use crate::reader;
use crate::tables::{ChunkTable, DictionaryEncodingTable};
use vstd::prelude::*;

verus! {

/// The sequence with `x` in it.
pub open spec fn noted<T>(s: Seq<T>, x: T) -> Seq<T> {
    if s.contains(x) {
        s
    } else {
        s.push(x)
    }
}

/// The dictionaries that the first `n` chunks refer to, besides those in `s`; none
/// twice, in the order in which they come.
pub open spec fn noted_dicts(c: Seq<ChunkTable>, n: nat, s: Seq<u32>) -> Seq<u32>
    decreases n,
{
    if n == 0 {
        s
    } else {
        let before = noted_dicts(c, (n - 1) as nat, s);
        match c[n - 1].encoding {
            DictionaryEncodingTable::SharedDictionary(idx) => noted(before, idx),
            _ => before,
        }
    }
}

/// The dictionaries that a column refers to in the first `n` row groups.
pub open spec fn dicts_of_column(g: Seq<GroupedColumnMetadata>, col: int, n: nat) -> Seq<u32>
    decreases n,
{
    if n == 0 {
        Seq::empty()
    } else {
        let before = dicts_of_column(g, col, (n - 1) as nat);
        if col < g[n - 1].column_metadatas@.len() {
            let list = reader::chunks(g[n - 1].column_metadatas@[col]);
            noted_dicts(list, list.len(), before)
        } else {
            before
        }
    }
}

/// What the dictionaries take.
pub open spec fn dict_bytes(sizes: Seq<usize>, dicts: Seq<u32>) -> nat
    decreases dicts.len(),
{
    if dicts.len() == 0 {
        0
    } else {
        dict_bytes(sizes, dicts.drop_last()) + sizes[dicts.last() as int] as nat
    }
}

/// For each chunk the columns that refer to it, and for each column its peers: the
/// columns that refer to the same chunk, with the size of the chunk.
#[verifier::ext_equal]
pub struct Sharing {
    pub columns: Seq<Seq<usize>>,
    pub peers: Seq<Seq<(usize, usize)>>,
}

/// The peers when column `col` shares a chunk with the first `n` of `others`.
pub open spec fn paired(
    peers: Seq<Seq<(usize, usize)>>,
    others: Seq<usize>,
    n: nat,
    col: usize,
    size: usize,
) -> Seq<Seq<(usize, usize)>>
    decreases n,
{
    if n == 0 {
        peers
    } else {
        let before = paired(peers, others, (n - 1) as nat, col, size);
        let peer = others[n - 1];
        let a = before.update(col as int, before[col as int].push((peer, size)));
        a.update(peer as int, a[peer as int].push((col, size)))
    }
}

/// What is known when column `col` refers to a chunk.
pub open spec fn referred(s: Sharing, col: usize, chunk: int, size: usize) -> Sharing {
    let others = s.columns[chunk];
    Sharing {
        columns: s.columns.update(chunk, noted(others, col)),
        peers: paired(s.peers, others, others.len(), col, size),
    }
}

/// What is known when column `col` refers to the first `n` of `chunks`.
pub open spec fn referred_all(
    s: Sharing,
    col: usize,
    chunks: Seq<usize>,
    n: nat,
    sizes: Seq<usize>,
) -> Sharing
    decreases n,
{
    if n == 0 {
        s
    } else {
        let chunk = chunks[n - 1];
        referred(
            referred_all(s, col, chunks, (n - 1) as nat, sizes),
            col,
            chunk as int,
            sizes[chunk as int],
        )
    }
}

/// What is known when column `col` refers to the first `n` of `dicts`.
pub open spec fn shared_by_dicts(
    s: Sharing,
    col: usize,
    dicts: Seq<u32>,
    n: nat,
    refs: Seq<Vec<usize>>,
    sizes: Seq<usize>,
) -> Sharing
    decreases n,
{
    if n == 0 {
        s
    } else {
        let list = refs[dicts[n - 1] as int]@;
        referred_all(
            shared_by_dicts(s, col, dicts, (n - 1) as nat, refs, sizes),
            col,
            list,
            list.len(),
            sizes,
        )
    }
}

/// What is known of the first `n` columns.
pub open spec fn shared_by_columns(
    dicts: Seq<Seq<u32>>,
    n: nat,
    refs: Seq<Vec<usize>>,
    sizes: Seq<usize>,
) -> Sharing
    decreases n,
{
    if n == 0 {
        Sharing {
            columns: Seq::new(sizes.len(), |i: int| Seq::<usize>::empty()),
            peers: Seq::new(dicts.len(), |i: int| Seq::<(usize, usize)>::empty()),
        }
    } else {
        let list = dicts[n - 1];
        shared_by_dicts(
            shared_by_columns(dicts, (n - 1) as nat, refs, sizes),
            (n - 1) as usize,
            list,
            list.len(),
            refs,
            sizes,
        )
    }
}

/// Whether columns and chunks that are spoken of are there.
pub open spec fn in_range(s: Sharing, columns: nat, chunks: nat) -> bool {
    &&& s.columns.len() == chunks
    &&& s.peers.len() == columns
    &&& forall|i: int, j: int|
        0 <= i < s.columns.len() && 0 <= j < s.columns[i].len() ==> #[trigger] s.columns[i][j]
            < columns
}

/// Whether sharing is mutual: each peer has the column as its peer, for the same
/// size.
pub open spec fn mutual(peers: Seq<Seq<(usize, usize)>>) -> bool {
    forall|a: int, b: int, size: usize|
        0 <= a < peers.len() && 0 <= b < peers.len() ==> (#[trigger] peers[a].contains(
            (b as usize, size),
        ) <==> #[trigger] peers[b].contains((a as usize, size)))
}

proof fn pushed_contains<T>(s: Seq<T>, x: T, y: T)
    ensures
        s.push(x).contains(y) <==> s.contains(y) || x == y,
{
    if s.contains(y) {
        let i = choose|i: int| 0 <= i < s.len() && s[i] == y;
        assert(s.push(x)[i] == y);
    }
    if x == y {
        assert(s.push(x)[s.len() as int] == y);
    }
    if s.push(x).contains(y) {
        let i = choose|i: int| 0 <= i < s.push(x).len() && s.push(x)[i] == y;
        if i < s.len() {
            assert(s[i] == y);
        }
    }
}

proof fn paired_facts(
    peers: Seq<Seq<(usize, usize)>>,
    others: Seq<usize>,
    n: nat,
    col: usize,
    size: usize,
)
    requires
        n <= others.len(),
        col < peers.len() <= usize::MAX,
        forall|j: int| 0 <= j < others.len() ==> #[trigger] others[j] < peers.len(),
        mutual(peers),
    ensures
        paired(peers, others, n, col, size).len() == peers.len(),
        mutual(paired(peers, others, n, col, size)),
    decreases n,
{
    if n > 0 {
        paired_facts(peers, others, (n - 1) as nat, col, size);
        let before = paired(peers, others, (n - 1) as nat, col, size);
        let peer = others[n - 1];
        let a = before.update(col as int, before[col as int].push((peer, size)));
        let after = a.update(peer as int, a[peer as int].push((col, size)));
        assert forall|p: int, q: int, z: usize|
            0 <= p < after.len() && 0 <= q < after.len() implies (#[trigger] after[p].contains(
            (q as usize, z),
        ) <==> #[trigger] after[q].contains((p as usize, z))) by {
            assert(before[p].contains((q as usize, z)) <==> before[q].contains((p as usize, z)));
            pushed_contains(before[p], (peer, size), (q as usize, z));
            pushed_contains(before[q], (peer, size), (p as usize, z));
            pushed_contains(a[p], (col, size), (q as usize, z));
            pushed_contains(a[q], (col, size), (p as usize, z));
        }
    }
}

proof fn referred_facts(s: Sharing, col: usize, chunk: int, size: usize, columns: nat, chunks: nat)
    requires
        in_range(s, columns, chunks),
        mutual(s.peers),
        col < columns <= usize::MAX,
        0 <= chunk < chunks,
    ensures
        in_range(referred(s, col, chunk, size), columns, chunks),
        mutual(referred(s, col, chunk, size).peers),
{
    let others = s.columns[chunk];
    assert forall|j: int| 0 <= j < others.len() implies #[trigger] others[j] < s.peers.len() by {
        assert(s.columns[chunk][j] < columns);
    }
    paired_facts(s.peers, others, others.len(), col, size);
    let r = referred(s, col, chunk, size);
    assert forall|i: int, j: int| 0 <= i < r.columns.len() && 0 <= j < r.columns[i].len() implies #[trigger] r.columns[i][j]
        < columns by {
        if i != chunk || j < others.len() {
            assert(s.columns[i][j] < columns);
        }
    }
}

proof fn referred_all_facts(
    s: Sharing,
    col: usize,
    list: Seq<usize>,
    n: nat,
    sizes: Seq<usize>,
    columns: nat,
)
    requires
        in_range(s, columns, sizes.len()),
        mutual(s.peers),
        col < columns <= usize::MAX,
        n <= list.len(),
        forall|j: int| 0 <= j < list.len() ==> #[trigger] list[j] < sizes.len(),
    ensures
        in_range(referred_all(s, col, list, n, sizes), columns, sizes.len()),
        mutual(referred_all(s, col, list, n, sizes).peers),
    decreases n,
{
    if n > 0 {
        referred_all_facts(s, col, list, (n - 1) as nat, sizes, columns);
        let chunk = list[n - 1];
        referred_facts(
            referred_all(s, col, list, (n - 1) as nat, sizes),
            col,
            chunk as int,
            sizes[chunk as int],
            columns,
            sizes.len(),
        );
    }
}

/// Whether dictionaries and chunks that are spoken of are there.
pub open spec fn refs_in_range(dicts: Seq<Seq<u32>>, refs: Seq<Vec<usize>>, chunks: nat) -> bool {
    &&& forall|c: int, d: int|
        0 <= c < dicts.len() && 0 <= d < dicts[c].len() ==> #[trigger] dicts[c][d] < refs.len()
    &&& forall|d: int, k: int|
        0 <= d < refs.len() && 0 <= k < refs[d]@.len() ==> #[trigger] refs[d]@[k] < chunks
}

proof fn shared_by_dicts_facts(
    s: Sharing,
    col: usize,
    dicts: Seq<Seq<u32>>,
    n: nat,
    refs: Seq<Vec<usize>>,
    sizes: Seq<usize>,
)
    requires
        in_range(s, dicts.len(), sizes.len()),
        mutual(s.peers),
        col < dicts.len() <= usize::MAX,
        n <= dicts[col as int].len(),
        refs_in_range(dicts, refs, sizes.len()),
    ensures
        in_range(
            shared_by_dicts(s, col, dicts[col as int], n, refs, sizes),
            dicts.len(),
            sizes.len(),
        ),
        mutual(shared_by_dicts(s, col, dicts[col as int], n, refs, sizes).peers),
    decreases n,
{
    if n > 0 {
        shared_by_dicts_facts(s, col, dicts, (n - 1) as nat, refs, sizes);
        let d = dicts[col as int][n - 1] as int;
        assert(dicts[col as int][n - 1] < refs.len());
        let list = refs[d]@;
        assert forall|j: int| 0 <= j < list.len() implies #[trigger] list[j] < sizes.len() by {
            assert(refs[d]@[j] < sizes.len());
        }
        referred_all_facts(
            shared_by_dicts(s, col, dicts[col as int], (n - 1) as nat, refs, sizes),
            col,
            list,
            list.len(),
            sizes,
            dicts.len(),
        );
    }
}

/// Sharing is mutual.
pub proof fn sharing_is_mutual(
    dicts: Seq<Seq<u32>>,
    n: nat,
    refs: Seq<Vec<usize>>,
    sizes: Seq<usize>,
)
    requires
        n <= dicts.len() <= usize::MAX,
        refs_in_range(dicts, refs, sizes.len()),
    ensures
        in_range(shared_by_columns(dicts, n, refs, sizes), dicts.len(), sizes.len()),
        mutual(shared_by_columns(dicts, n, refs, sizes).peers),
    decreases n,
{
    if n > 0 {
        sharing_is_mutual(dicts, (n - 1) as nat, refs, sizes);
        let s = shared_by_columns(dicts, (n - 1) as nat, refs, sizes);
        shared_by_dicts_facts(
            s,
            (n - 1) as usize,
            dicts,
            dicts[n - 1].len(),
            refs,
            sizes,
        );
    }
}

/// What lists hold.
pub open spec fn held<T>(v: Seq<Vec<T>>) -> Seq<Seq<T>> {
    v.map_values(|x: Vec<T>| x@)
}

/// The dictionaries that each of `fields` columns refers to.
pub open spec fn dicts_of_columns(g: Seq<GroupedColumnMetadata>, fields: nat) -> Seq<Seq<u32>> {
    Seq::new(fields, |c: int| dicts_of_column(g, c, g.len()))
}

/// Tells whether numbers hold `x`.
fn holds_u32(list: &Vec<u32>, x: u32) -> (r: bool)
    ensures
        r == list@.contains(x),
{
    let mut i: usize = 0;
    while i < list.len()
        invariant
            i <= list@.len(),
            forall|j: int| 0 <= j < i ==> list@[j] != x,
        decreases list@.len() - i,
    {
        if list[i] == x {
            return true;
        }
        i = i + 1;
    }
    false
}

/// Finds the dictionaries that each of `fields` columns refers to.
pub fn referenced_dicts(groups: &[GroupedColumnMetadata], fields: usize) -> (r: Vec<Vec<u32>>)
    requires
        reader::all_known(groups@),
    ensures
        held(r@) == dicts_of_columns(groups@, fields as nat),
{
    let mut out: Vec<Vec<u32>> = Vec::new();
    let mut c: usize = 0;
    while c < fields
        invariant
            c <= fields,
            reader::all_known(groups@),
            out@.len() == c,
            forall|i: int|
                0 <= i < c ==> (#[trigger] out@[i])@ == dicts_of_column(groups@, i, groups@.len()),
        decreases fields - c,
    {
        let mut dicts: Vec<u32> = Vec::new();
        let mut g: usize = 0;
        while g < groups.len()
            invariant
                g <= groups@.len(),
                reader::all_known(groups@),
                dicts@ == dicts_of_column(groups@, c as int, g as nat),
            decreases groups@.len() - g,
        {
            if c < groups[g].column_metadatas.len() {
                assert(groups@[g as int].column_metadatas@[c as int].column_chunks is Some);
                let ghost before = dicts@;
                if let Some(list) = &groups[g].column_metadatas[c].column_chunks {
                    let mut k: usize = 0;
                    while k < list.len()
                        invariant
                            k <= list@.len(),
                            dicts@ == noted_dicts(list@, k as nat, before),
                        decreases list@.len() - k,
                    {
                        if let DictionaryEncodingTable::SharedDictionary(idx) = &list[k].encoding {
                            if !holds_u32(&dicts, *idx) {
                                dicts.push(*idx);
                            }
                        }
                        k = k + 1;
                    }
                }
            }
            g = g + 1;
        }
        out.push(dicts);
        c = c + 1;
    }
    assert(held(out@) =~= dicts_of_columns(groups@, fields as nat));
    out
}

/// Tells whether numbers hold `x`.
fn holds_usize(list: &Vec<usize>, x: usize) -> (r: bool)
    ensures
        r == list@.contains(x),
{
    let mut i: usize = 0;
    while i < list.len()
        invariant
            i <= list@.len(),
            forall|j: int| 0 <= j < i ==> list@[j] != x,
        decreases list@.len() - i,
    {
        if list[i] == x {
            return true;
        }
        i = i + 1;
    }
    false
}

/// Notes that column `col` refers to a chunk.
fn refer(
    columns: &mut Vec<Vec<usize>>,
    peers: &mut Vec<Vec<(usize, usize)>>,
    col: usize,
    chunk: usize,
    size: usize,
)
    requires
        in_range(
            (Sharing { columns: held(old(columns)@), peers: held(old(peers)@) }),
            old(peers)@.len(),
            old(columns)@.len(),
        ),
        col < old(peers)@.len(),
        chunk < old(columns)@.len(),
    ensures
        (Sharing { columns: held(final(columns)@), peers: held(final(peers)@) }) == referred(
            (Sharing { columns: held(old(columns)@), peers: held(old(peers)@) }),
            col,
            chunk as int,
            size,
        ),
{
    let ghost p0 = held(peers@);
    let ghost n = peers@.len();
    let ghost others = columns@[chunk as int]@;
    assert(held(columns@)[chunk as int] == others);
    let mut j: usize = 0;
    while j < columns[chunk].len()
        invariant
            j <= others.len(),
            chunk < columns@.len(),
            columns@ == old(columns)@,
            others == columns@[chunk as int]@,
            n == old(peers)@.len(),
            p0.len() == n,
            peers@.len() == n,
            col < n,
            in_range(
                (Sharing { columns: held(old(columns)@), peers: p0 }),
                n,
                old(columns)@.len(),
            ),
            held(peers@) == paired(p0, others, j as nat, col, size),
        decreases others.len() - j,
    {
        let peer: usize = columns[chunk][j];
        assert(held(columns@)[chunk as int][j as int] == peer);
        let ghost b = peers@;
        peers[col].push((peer, size));
        let ghost a = peers@;
        peers[peer].push((col, size));
        proof {
            let before = held(b);
            let mid = before.update(col as int, before[col as int].push((peer, size)));
            assert(held(a) =~= mid);
            assert(held(peers@) =~= mid.update(peer as int, mid[peer as int].push((col, size))));
        }
        j = j + 1;
    }
    if !holds_usize(&columns[chunk], col) {
        columns[chunk].push(col);
    }
    assert(held(columns@) =~= held(old(columns)@).update(chunk as int, noted(others, col)));
}

/// What the dictionaries that each of `fields` columns refers to take, and with
/// which columns it shares chunks of what size. `chunk_sizes` are the sizes of the
/// chunks of dictionaries, `dict_refs` the chunks that each dictionary is made of,
/// and `dict_sizes` the sizes of the dictionaries.
pub fn get_shared_dict_sizes(
    groups: &[GroupedColumnMetadata],
    fields: usize,
    chunk_sizes: &Vec<usize>,
    dict_refs: &Vec<Vec<usize>>,
    dict_sizes: &Vec<usize>,
) -> (r: (Vec<usize>, Vec<Vec<(usize, usize)>>))
    requires
        reader::all_known(groups@),
        dict_refs@.len() == dict_sizes@.len(),
        refs_in_range(
            dicts_of_columns(groups@, fields as nat),
            dict_refs@,
            chunk_sizes@.len(),
        ),
        forall|c: int|
            0 <= c < fields ==> #[trigger] dict_bytes(
                dict_sizes@,
                dicts_of_columns(groups@, fields as nat)[c],
            ) <= usize::MAX,
    ensures
        r.0@.len() == fields,
        forall|c: int|
            0 <= c < fields ==> #[trigger] r.0@[c] == dict_bytes(
                dict_sizes@,
                dicts_of_columns(groups@, fields as nat)[c],
            ),
        held(r.1@) == shared_by_columns(
            dicts_of_columns(groups@, fields as nat),
            fields as nat,
            dict_refs@,
            chunk_sizes@,
        ).peers,
{
    let dicts = referenced_dicts(groups, fields);
    let ghost all = dicts_of_columns(groups@, fields as nat);
    let mut columns: Vec<Vec<usize>> = Vec::new();
    let mut i: usize = 0;
    while i < chunk_sizes.len()
        invariant
            i <= chunk_sizes@.len(),
            columns@.len() == i,
            forall|j: int| 0 <= j < i ==> (#[trigger] columns@[j])@ == Seq::<usize>::empty(),
        decreases chunk_sizes@.len() - i,
    {
        columns.push(Vec::new());
        i = i + 1;
    }
    let mut peers: Vec<Vec<(usize, usize)>> = Vec::new();
    let mut sizes: Vec<usize> = Vec::new();
    let mut c: usize = 0;
    while c < fields
        invariant
            c <= fields,
            peers@.len() == c,
            forall|j: int|
                0 <= j < c ==> (#[trigger] peers@[j])@ == Seq::<(usize, usize)>::empty(),
        decreases fields - c,
    {
        peers.push(Vec::new());
        c = c + 1;
    }
    let ghost begin = shared_by_columns(all, 0, dict_refs@, chunk_sizes@);
    assert(held(columns@) =~= begin.columns);
    assert(held(peers@) =~= begin.peers);
    let mut col: usize = 0;
    while col < fields
        invariant
            col <= fields,
            held(dicts@) == all,
            all.len() == fields,
            dict_refs@.len() == dict_sizes@.len(),
            refs_in_range(all, dict_refs@, chunk_sizes@.len()),
            forall|c: int|
                0 <= c < fields ==> #[trigger] dict_bytes(dict_sizes@, all[c]) <= usize::MAX,
            sizes@.len() == col,
            forall|c: int|
                0 <= c < col ==> #[trigger] sizes@[c] == dict_bytes(dict_sizes@, all[c]),
            columns@.len() == chunk_sizes@.len(),
            peers@.len() == fields,
            (Sharing { columns: held(columns@), peers: held(peers@) }) == shared_by_columns(
                all,
                col as nat,
                dict_refs@,
                chunk_sizes@,
            ),
        decreases fields - col,
    {
        let list = &dicts[col];
        assert(held(dicts@)[col as int] == list@);
        assert(dict_bytes(dict_sizes@, all[col as int]) <= usize::MAX);
        let ghost start = Sharing { columns: held(columns@), peers: held(peers@) };
        proof {
            sharing_is_mutual(all, col as nat, dict_refs@, chunk_sizes@);
        }
        let mut total: usize = 0;
        let mut d: usize = 0;
        assert(list@.take(0) =~= Seq::empty());
        while d < list.len()
            invariant
                d <= list@.len(),
                col < fields,
                all.len() == fields,
                list@ == all[col as int],
                dict_refs@.len() == dict_sizes@.len(),
                refs_in_range(all, dict_refs@, chunk_sizes@.len()),
                dict_bytes(dict_sizes@, list@) <= usize::MAX,
                total == dict_bytes(dict_sizes@, list@.take(d as int)),
                columns@.len() == chunk_sizes@.len(),
                peers@.len() == fields,
                in_range(start, fields as nat, chunk_sizes@.len()),
                mutual(start.peers),
                (Sharing { columns: held(columns@), peers: held(peers@) }) == shared_by_dicts(
                    start,
                    col,
                    list@,
                    d as nat,
                    dict_refs@,
                    chunk_sizes@,
                ),
            decreases list@.len() - d,
        {
            assert(all[col as int][d as int] < dict_refs@.len());
            let dict: usize = list[d] as usize;
            let refs = &dict_refs[dict];
            let ghost now = Sharing { columns: held(columns@), peers: held(peers@) };
            proof {
                shared_by_dicts_facts(start, col, all, d as nat, dict_refs@, chunk_sizes@);
                let next = list@.take(d + 1);
                assert(next.drop_last() =~= list@.take(d as int));
                assert(next.last() == list@[d as int]);
                dict_bytes_grow(dict_sizes@, list@, d + 1);
            }
            total = total + dict_sizes[dict];
            let mut k: usize = 0;
            while k < refs.len()
                invariant
                    k <= refs@.len(),
                    col < fields,
                    refs@ == dict_refs@[dict as int]@,
                    dict < dict_refs@.len(),
                    refs_in_range(all, dict_refs@, chunk_sizes@.len()),
                    columns@.len() == chunk_sizes@.len(),
                    peers@.len() == fields,
                    in_range(now, fields as nat, chunk_sizes@.len()),
                    mutual(now.peers),
                    (Sharing { columns: held(columns@), peers: held(peers@) }) == referred_all(
                        now,
                        col,
                        refs@,
                        k as nat,
                        chunk_sizes@,
                    ),
                decreases refs@.len() - k,
            {
                assert(dict_refs@[dict as int]@[k as int] < chunk_sizes@.len());
                let chunk: usize = refs[k];
                proof {
                    assert forall|j: int| 0 <= j < refs@.len() implies #[trigger] refs@[j]
                        < chunk_sizes@.len() by {
                        assert(dict_refs@[dict as int]@[j] < chunk_sizes@.len());
                    }
                    referred_all_facts(now, col, refs@, k as nat, chunk_sizes@, fields as nat);
                    referred_all_facts(now, col, refs@, k as nat + 1, chunk_sizes@, fields as nat);
                }
                refer(&mut columns, &mut peers, col, chunk, chunk_sizes[chunk]);
                proof {
                    let after = Sharing { columns: held(columns@), peers: held(peers@) };
                    assert(after.columns.len() == columns@.len());
                    assert(after.peers.len() == peers@.len());
                }
                k = k + 1;
            }
            d = d + 1;
        }
        assert(list@.take(d as int) =~= list@);
        sizes.push(total);
        col = col + 1;
    }
    (sizes, peers)
}

proof fn dict_bytes_grow(sizes: Seq<usize>, dicts: Seq<u32>, n: int)
    requires
        0 <= n <= dicts.len(),
    ensures
        dict_bytes(sizes, dicts.take(n)) <= dict_bytes(sizes, dicts),
    decreases dicts.len() - n,
{
    if n == dicts.len() {
        assert(dicts.take(n) =~= dicts);
    } else {
        assert(dicts.take(n + 1).drop_last() =~= dicts.take(n));
        dict_bytes_grow(sizes, dicts, n + 1);
    }
}

} // verus!
