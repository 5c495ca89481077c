//! Laws of dictionaries that columns share.
use crate::dict_decoder;
use crate::dict_decoder::IndexWidth;
use crate::dict_sharing;
use crate::dict_sharing::Sharing;
use crate::footer::GroupedColumnMetadata;
use crate::reader;
use crate::tables::{ChunkTable, DictionaryEncodingTable};
use vstd::prelude::*;

verus! {

/// Whether one of the first `n` chunks refers to dictionary `d`.
pub open spec fn chunks_refer(c: Seq<ChunkTable>, n: nat, d: u32) -> bool {
    exists|k: int|
        0 <= k < n && (#[trigger] c[k]).encoding == DictionaryEncodingTable::SharedDictionary(d)
}

/// Whether a column refers to dictionary `d` in one of the first `n` row groups.
pub open spec fn column_refers(g: Seq<GroupedColumnMetadata>, col: int, n: nat, d: u32) -> bool {
    exists|i: int|
        0 <= i < n && col < (#[trigger] g[i]).column_metadatas@.len() && chunks_refer(
            reader::chunks(g[i].column_metadatas@[col]),
            reader::chunks(g[i].column_metadatas@[col]).len(),
            d,
        )
}

proof fn noted_is_put_in<T>(s: Seq<T>, x: T, y: T)
    ensures
        dict_sharing::noted(s, x).contains(y) <==> s.contains(y) || x == y,
        s.no_duplicates() ==> dict_sharing::noted(s, x).no_duplicates(),
{
    let r = dict_sharing::noted(s, x);
    if s.contains(y) {
        let i = choose|i: int| 0 <= i < s.len() && s[i] == y;
        assert(r[i] == y);
    }
    if !s.contains(x) {
        assert(r[s.len() as int] == x);
        if r.contains(y) {
            let i = choose|i: int| 0 <= i < r.len() && r[i] == y;
            if i < s.len() {
                assert(s[i] == y);
            }
        }
        if s.no_duplicates() {
            assert forall|i: int, j: int| 0 <= i < r.len() && 0 <= j < r.len() && i
                != j implies r[i] != r[j] by {
                if i == s.len() {
                    assert(s.contains(s[j]));
                } else if j == s.len() {
                    assert(s.contains(s[i]));
                }
            }
        }
    }
}

proof fn noted_dicts_are_referred(c: Seq<ChunkTable>, n: nat, s: Seq<u32>, d: u32)
    requires
        n <= c.len(),
    ensures
        dict_sharing::noted_dicts(c, n, s).contains(d) <==> s.contains(d) || chunks_refer(c, n, d),
        s.no_duplicates() ==> dict_sharing::noted_dicts(c, n, s).no_duplicates(),
    decreases n,
{
    if n > 0 {
        noted_dicts_are_referred(c, (n - 1) as nat, s, d);
        let before = dict_sharing::noted_dicts(c, (n - 1) as nat, s);
        if let DictionaryEncodingTable::SharedDictionary(x) = c[n - 1].encoding {
            noted_is_put_in(before, x, d);
        }
        if chunks_refer(c, (n - 1) as nat, d) {
            let k = choose|k: int|
                0 <= k < n - 1 && (#[trigger] c[k]).encoding
                    == DictionaryEncodingTable::SharedDictionary(d);
            assert(c[k].encoding == DictionaryEncodingTable::SharedDictionary(d));
        }
        if chunks_refer(c, n, d) {
            let k = choose|k: int|
                0 <= k < n && (#[trigger] c[k]).encoding
                    == DictionaryEncodingTable::SharedDictionary(d);
            if k < n - 1 {
                assert(chunks_refer(c, (n - 1) as nat, d));
            }
        }
        assert(c[n - 1].encoding == c[n - 1].encoding);
    }
}

/// The dictionaries of a column are those that its chunks refer to in any row group, each
/// once.
pub proof fn dictionaries_of_a_column(g: Seq<GroupedColumnMetadata>, col: int, n: nat, d: u32)
    requires
        n <= g.len(),
    ensures
        dict_sharing::dicts_of_column(g, col, n).contains(d) <==> column_refers(g, col, n, d),
        dict_sharing::dicts_of_column(g, col, n).no_duplicates(),
    decreases n,
{
    if n > 0 {
        let m = (n - 1) as nat;
        dictionaries_of_a_column(g, col, m, d);
        let before = dict_sharing::dicts_of_column(g, col, m);
        if col < g[n - 1].column_metadatas@.len() {
            let list = reader::chunks(g[n - 1].column_metadatas@[col]);
            noted_dicts_are_referred(list, list.len(), before, d);
            if chunks_refer(list, list.len(), d) {
                assert(column_refers(g, col, n, d));
            }
        }
        if column_refers(g, col, m, d) {
            let i = choose|i: int|
                0 <= i < m && col < (#[trigger] g[i]).column_metadatas@.len() && chunks_refer(
                    reader::chunks(g[i].column_metadatas@[col]),
                    reader::chunks(g[i].column_metadatas@[col]).len(),
                    d,
                );
            assert(col < g[i].column_metadatas@.len());
        }
        if column_refers(g, col, n, d) {
            let i = choose|i: int|
                0 <= i < n && col < (#[trigger] g[i]).column_metadatas@.len() && chunks_refer(
                    reader::chunks(g[i].column_metadatas@[col]),
                    reader::chunks(g[i].column_metadatas@[col]).len(),
                    d,
                );
            if i < m {
                assert(column_refers(g, col, m, d));
            }
        }
    } else {
        assert(dict_sharing::dicts_of_column(g, col, 0) =~= Seq::<u32>::empty());
    }
}

/// Dictionaries take what each of them takes.
pub proof fn dictionary_sizes_add_up(sizes: Seq<usize>, a: Seq<u32>, b: Seq<u32>, d: u32)
    ensures
        dict_sharing::dict_bytes(sizes, Seq::empty()) == 0,
        dict_sharing::dict_bytes(sizes, seq![d]) == sizes[d as int],
        dict_sharing::dict_bytes(sizes, a + b) == dict_sharing::dict_bytes(sizes, a)
            + dict_sharing::dict_bytes(sizes, b),
    decreases b.len(),
{
    assert(seq![d].drop_last() =~= Seq::<u32>::empty());
    reveal_with_fuel(dict_sharing::dict_bytes, 2);
    if b.len() == 0 {
        assert(a + b =~= a);
    } else {
        assert((a + b).drop_last() =~= a + b.drop_last());
        dictionary_sizes_add_up(sizes, a, b.drop_last(), d);
    }
}

/// Whether both columns refer to a chunk of this size.
pub open spec fn have_in_common(
    columns: Seq<Seq<usize>>,
    sizes: Seq<usize>,
    a: usize,
    b: usize,
    size: usize,
) -> bool {
    exists|k: int|
        0 <= k < columns.len() && (#[trigger] columns[k]).contains(a) && columns[k].contains(b)
            && sizes[k] == size
}

spec fn peers_share(s: Sharing, sizes: Seq<usize>) -> bool {
    forall|a: usize, b: usize, size: usize|
        a < s.peers.len() && b < s.peers.len() && a != b ==> (#[trigger] s.peers[a as int].contains(
            (b, size),
        ) <==> have_in_common(s.columns, sizes, a, b, size))
}

proof fn pushed<T>(s: Seq<T>, x: T, y: T)
    ensures
        s.push(x).contains(y) <==> s.contains(y) || x == y,
{
    let r = s.push(x);
    if s.contains(y) {
        let i = choose|i: int| 0 <= i < s.len() && s[i] == y;
        assert(r[i] == y);
    }
    assert(r[s.len() as int] == x);
    if r.contains(y) {
        let i = choose|i: int| 0 <= i < r.len() && r[i] == y;
        if i < s.len() {
            assert(s[i] == y);
        }
    }
}

proof fn paired_are_peers(
    peers: Seq<Seq<(usize, usize)>>,
    others: Seq<usize>,
    n: nat,
    col: usize,
    size: usize,
    a: usize,
    b: usize,
    z: usize,
)
    requires
        n <= others.len(),
        col < peers.len() <= usize::MAX,
        forall|j: int| 0 <= j < others.len() ==> #[trigger] others[j] < peers.len(),
        a < peers.len(),
        b < peers.len(),
        a != b,
    ensures
        dict_sharing::paired(peers, others, n, col, size).len() == peers.len(),
        dict_sharing::paired(peers, others, n, col, size)[a as int].contains((b, z))
            <==> peers[a as int].contains((b, z)) || (z == size && ((a == col && others.take(
            n as int,
        ).contains(b)) || (b == col && others.take(n as int).contains(a)))),
    decreases n,
{
    if n > 0 {
        paired_are_peers(peers, others, (n - 1) as nat, col, size, a, b, z);
        let before = dict_sharing::paired(peers, others, (n - 1) as nat, col, size);
        let peer = others[n - 1];
        assert(peer < peers.len());
        assert(others.take(n as int) =~= others.take(n - 1).push(peer));
        pushed(others.take(n - 1), peer, a);
        pushed(others.take(n - 1), peer, b);
        let first = before.update(col as int, before[col as int].push((peer, size)));
        pushed(before[col as int], (peer, size), (b, z));
        pushed(first[peer as int], (col, size), (b, z));
    }
}

proof fn referred_shares(s: Sharing, col: usize, chunk: int, sizes: Seq<usize>)
    requires
        dict_sharing::in_range(s, s.peers.len(), sizes.len()),
        s.peers.len() <= usize::MAX,
        peers_share(s, sizes),
        col < s.peers.len(),
        0 <= chunk < sizes.len(),
    ensures
        ({
            let t = dict_sharing::referred(s, col, chunk, sizes[chunk]);
            &&& dict_sharing::in_range(t, s.peers.len(), sizes.len())
            &&& peers_share(t, sizes)
            &&& forall|k: int, c: usize|
                0 <= k < sizes.len() ==> (#[trigger] t.columns[k].contains(c)
                    <==> s.columns[k].contains(c) || (k == chunk && c == col))
        }),
{
    let t = dict_sharing::referred(s, col, chunk, sizes[chunk]);
    let others = s.columns[chunk];
    let n = others.len();
    assert forall|j: int| 0 <= j < others.len() implies #[trigger] others[j] < s.peers.len() by {
        assert(s.columns[chunk][j] < s.peers.len());
    }
    assert(others.take(n as int) =~= others);
    assert forall|k: int, c: usize| 0 <= k < sizes.len() implies (#[trigger] t.columns[k].contains(c)
        <==> s.columns[k].contains(c) || (k == chunk && c == col)) by {
        noted_is_put_in(others, col, c);
    }
    if s.peers.len() >= 2 {
        let x: usize = if col == 0 {
            1
        } else {
            0
        };
        paired_are_peers(s.peers, others, n, col, sizes[chunk], col, x, 0);
    } else {
        paired_len(s.peers, others, n, col, sizes[chunk]);
    }
    assert(t.peers.len() == s.peers.len());
    assert forall|i: int, j: int|
        0 <= i < t.columns.len() && 0 <= j < t.columns[i].len() implies #[trigger] t.columns[i][j]
        < s.peers.len() by {
        let c = t.columns[i][j];
        assert(t.columns[i].contains(c));
        if s.columns[i].contains(c) {
            let q = choose|q: int| 0 <= q < s.columns[i].len() && s.columns[i][q] == c;
            assert(s.columns[i][q] < s.peers.len());
        }
    }
    assert forall|a: usize, b: usize, size: usize|
        a < t.peers.len() && b < t.peers.len() && a != b implies (
    #[trigger] t.peers[a as int].contains((b, size)) <==> have_in_common(
        t.columns,
        sizes,
        a,
        b,
        size,
    )) by {
        paired_are_peers(s.peers, others, n, col, sizes[chunk], a, b, size);
        assert(s.peers[a as int].contains((b, size)) <==> have_in_common(
            s.columns,
            sizes,
            a,
            b,
            size,
        ));
        if have_in_common(s.columns, sizes, a, b, size) {
            let k = choose|k: int|
                0 <= k < s.columns.len() && (#[trigger] s.columns[k]).contains(a)
                    && s.columns[k].contains(b) && sizes[k] == size;
            assert(t.columns[k].contains(a) && t.columns[k].contains(b));
        }
        if size == sizes[chunk] && ((a == col && others.contains(b)) || (b == col
            && others.contains(a))) {
            assert(t.columns[chunk].contains(a) && t.columns[chunk].contains(b));
        }
        if have_in_common(t.columns, sizes, a, b, size) {
            let k = choose|k: int|
                0 <= k < t.columns.len() && (#[trigger] t.columns[k]).contains(a)
                    && t.columns[k].contains(b) && sizes[k] == size;
            if s.columns[k].contains(a) && s.columns[k].contains(b) {
                assert(have_in_common(s.columns, sizes, a, b, size));
            }
        }
    }
}

proof fn paired_len(
    peers: Seq<Seq<(usize, usize)>>,
    others: Seq<usize>,
    n: nat,
    col: usize,
    size: usize,
)
    requires
        n <= others.len(),
        col < peers.len(),
        forall|j: int| 0 <= j < others.len() ==> #[trigger] others[j] < peers.len(),
    ensures
        dict_sharing::paired(peers, others, n, col, size).len() == peers.len(),
    decreases n,
{
    if n > 0 {
        assert(others[n - 1] < peers.len());
        paired_len(peers, others, (n - 1) as nat, col, size);
    }
}

proof fn all_referred_share(
    s: Sharing,
    col: usize,
    list: Seq<usize>,
    n: nat,
    sizes: Seq<usize>,
)
    requires
        dict_sharing::in_range(s, s.peers.len(), sizes.len()),
        s.peers.len() <= usize::MAX,
        peers_share(s, sizes),
        sizes.len() <= usize::MAX,
        col < s.peers.len(),
        n <= list.len(),
        forall|j: int| 0 <= j < list.len() ==> #[trigger] list[j] < sizes.len(),
    ensures
        ({
            let t = dict_sharing::referred_all(s, col, list, n, sizes);
            &&& t.peers.len() == s.peers.len()
            &&& dict_sharing::in_range(t, s.peers.len(), sizes.len())
            &&& peers_share(t, sizes)
            &&& forall|k: int, c: usize|
                0 <= k < sizes.len() ==> (#[trigger] t.columns[k].contains(c)
                    <==> s.columns[k].contains(c) || (c == col && list.take(n as int).contains(
                    k as usize,
                )))
        }),
    decreases n,
{
    if n == 0 {
        assert(list.take(0) =~= Seq::<usize>::empty());
    } else {
        let m = (n - 1) as nat;
        all_referred_share(s, col, list, m, sizes);
        let before = dict_sharing::referred_all(s, col, list, m, sizes);
        let chunk = list[n - 1];
        assert(chunk < sizes.len());
        referred_shares(before, col, chunk as int, sizes);
        let t = dict_sharing::referred_all(s, col, list, n, sizes);
        assert(list.take(n as int) =~= list.take(m as int).push(chunk));
        assert forall|k: int, c: usize| 0 <= k < sizes.len() implies (
        #[trigger] t.columns[k].contains(c) <==> s.columns[k].contains(c) || (c == col
            && list.take(n as int).contains(k as usize))) by {
            pushed(list.take(m as int), chunk, k as usize);
            assert(before.columns[k].contains(c) <==> s.columns[k].contains(c) || (c == col
                && list.take(m as int).contains(k as usize)));
        }
    }
}

/// Whether one of the first `n` of these dictionaries is made of chunk `k` among others.
pub open spec fn made_of(dicts: Seq<u32>, n: nat, refs: Seq<Vec<usize>>, k: usize) -> bool {
    exists|d: int| 0 <= d < n && refs[#[trigger] dicts[d] as int]@.contains(k)
}

proof fn dicts_share(
    s: Sharing,
    col: usize,
    dicts: Seq<Seq<u32>>,
    n: nat,
    refs: Seq<Vec<usize>>,
    sizes: Seq<usize>,
)
    requires
        s.peers.len() == dicts.len() <= usize::MAX,
        dict_sharing::in_range(s, dicts.len(), sizes.len()),
        peers_share(s, sizes),
        col < dicts.len(),
        n <= dicts[col as int].len(),
        sizes.len() <= usize::MAX,
        dict_sharing::refs_in_range(dicts, refs, sizes.len()),
    ensures
        ({
            let t = dict_sharing::shared_by_dicts(s, col, dicts[col as int], n, refs, sizes);
            &&& t.peers.len() == dicts.len()
            &&& dict_sharing::in_range(t, dicts.len(), sizes.len())
            &&& peers_share(t, sizes)
            &&& forall|k: int, c: usize|
                0 <= k < sizes.len() ==> (#[trigger] t.columns[k].contains(c)
                    <==> s.columns[k].contains(c) || (c == col && made_of(
                    dicts[col as int],
                    n,
                    refs,
                    k as usize,
                )))
        }),
    decreases n,
{
    let mine = dicts[col as int];
    if n > 0 {
        let m = (n - 1) as nat;
        dicts_share(s, col, dicts, m, refs, sizes);
        let before = dict_sharing::shared_by_dicts(s, col, mine, m, refs, sizes);
        assert(dicts[col as int][n - 1] < refs.len());
        let list = refs[mine[n - 1] as int]@;
        assert forall|j: int| 0 <= j < list.len() implies #[trigger] list[j] < sizes.len() by {
            assert(refs[mine[n - 1] as int]@[j] < sizes.len());
        }
        all_referred_share(before, col, list, list.len(), sizes);
        assert(list.take(list.len() as int) =~= list);
        let t = dict_sharing::shared_by_dicts(s, col, mine, n, refs, sizes);
        assert forall|k: int, c: usize| 0 <= k < sizes.len() implies (
        #[trigger] t.columns[k].contains(c) <==> s.columns[k].contains(c) || (c == col && made_of(
            mine,
            n,
            refs,
            k as usize,
        ))) by {
            assert(before.columns[k].contains(c) <==> s.columns[k].contains(c) || (c == col
                && made_of(mine, m, refs, k as usize)));
            if made_of(mine, m, refs, k as usize) {
                let d = choose|d: int|
                    0 <= d < m && refs[#[trigger] mine[d] as int]@.contains(k as usize);
                assert(refs[mine[d] as int]@.contains(k as usize));
            }
            if list.contains(k as usize) {
                assert(refs[mine[n - 1] as int]@.contains(k as usize));
            }
            if made_of(mine, n, refs, k as usize) {
                let d = choose|d: int|
                    0 <= d < n && refs[#[trigger] mine[d] as int]@.contains(k as usize);
                if d < m {
                    assert(made_of(mine, m, refs, k as usize));
                }
            }
        }
    }
}

proof fn columns_share(
    dicts: Seq<Seq<u32>>,
    n: nat,
    refs: Seq<Vec<usize>>,
    sizes: Seq<usize>,
)
    requires
        n <= dicts.len() <= usize::MAX,
        sizes.len() <= usize::MAX,
        dict_sharing::refs_in_range(dicts, refs, sizes.len()),
    ensures
        ({
            let t = dict_sharing::shared_by_columns(dicts, n, refs, sizes);
            &&& t.peers.len() == dicts.len()
            &&& dict_sharing::in_range(t, dicts.len(), sizes.len())
            &&& peers_share(t, sizes)
            &&& forall|k: int, c: usize|
                0 <= k < sizes.len() ==> (#[trigger] t.columns[k].contains(c) <==> c < n
                    && made_of(dicts[c as int], dicts[c as int].len(), refs, k as usize))
        }),
    decreases n,
{
    if n > 0 {
        let col = (n - 1) as usize;
        columns_share(dicts, (n - 1) as nat, refs, sizes);
        let before = dict_sharing::shared_by_columns(dicts, (n - 1) as nat, refs, sizes);
        dicts_share(before, col, dicts, dicts[n - 1].len(), refs, sizes);
    }
}

/// Of two columns one has the other as its peer for a size exactly if both have a
/// dictionary that is made of the same chunk, and the chunk has that size.
pub proof fn peers_have_a_chunk_in_common(
    dicts: Seq<Seq<u32>>,
    refs: Seq<Vec<usize>>,
    sizes: Seq<usize>,
    a: usize,
    b: usize,
    size: usize,
)
    requires
        dicts.len() <= usize::MAX,
        sizes.len() <= usize::MAX,
        dict_sharing::refs_in_range(dicts, refs, sizes.len()),
        a < dicts.len(),
        b < dicts.len(),
        a != b,
    ensures
        dict_sharing::shared_by_columns(dicts, dicts.len(), refs, sizes).peers[a as int].contains(
            (b, size),
        ) <==> exists|k: usize|
            k < sizes.len() && #[trigger] sizes[k as int] == size && made_of(
                dicts[a as int],
                dicts[a as int].len(),
                refs,
                k,
            ) && made_of(dicts[b as int], dicts[b as int].len(), refs, k),
{
    columns_share(dicts, dicts.len(), refs, sizes);
    let t = dict_sharing::shared_by_columns(dicts, dicts.len(), refs, sizes);
    if have_in_common(t.columns, sizes, a, b, size) {
        let k = choose|k: int|
            0 <= k < t.columns.len() && (#[trigger] t.columns[k]).contains(a)
                && t.columns[k].contains(b) && sizes[k] == size;
        let q = k as usize;
        assert(sizes[q as int] == size);
    }
    if exists|k: usize|
        k < sizes.len() && #[trigger] sizes[k as int] == size && made_of(
            dicts[a as int],
            dicts[a as int].len(),
            refs,
            k,
        ) && made_of(dicts[b as int], dicts[b as int].len(), refs, k) {
        let k = choose|k: usize|
            k < sizes.len() && #[trigger] sizes[k as int] == size && made_of(
                dicts[a as int],
                dicts[a as int].len(),
                refs,
                k,
            ) && made_of(dicts[b as int], dicts[b as int].len(), refs, k);
        assert(t.columns[k as int].contains(a) && t.columns[k as int].contains(b));
    }
}

/// Indexes into a dictionary have the fewest bits, of 8, 16, 32 and 64, in which the number
/// of its values can be written.
pub proof fn indexes_have_room(len: u64)
    ensures
        dict_decoder::width_of(len) == IndexWidth::Bits8 <==> len <= 0xff,
        dict_decoder::width_of(len) == IndexWidth::Bits16 <==> 0xff < len <= 0xffff,
        dict_decoder::width_of(len) == IndexWidth::Bits32 <==> 0xffff < len <= 0xffff_ffff,
        dict_decoder::width_of(len) == IndexWidth::Bits64 <==> len > 0xffff_ffff,
{
}

/// Each row holds the value that its index points to, and nothing without an index.
pub proof fn rows_hold_what_indexes_point_to(
    indices: Seq<Option<u64>>,
    v: Seq<Option<usize>>,
    i: int,
)
    requires
        dict_decoder::are_values(indices, v),
        0 <= i < indices.len(),
    ensures
        v.len() == indices.len(),
        v[i] is Some <==> indices[i] is Some,
        indices[i] is Some ==> v[i]->0 == indices[i]->0,
{
    assert(v[i] == v[i]);
}

} // verus!
