//! Laws of the links in a graph of vectors.
use crate::floats;
use crate::laws::ranking;
use crate::topk;
use crate::vector_index::hnsw_link;
use vstd::prelude::*;

verus! {

/// How far vector `b` is from vector `a`, as a place in the order of distances.
pub open spec fn apart<F: Fn(&[u32], &[u32]) -> u32>(
    f: F,
    values: Seq<u32>,
    dim: nat,
    a: int,
    b: int,
) -> int {
    floats::order_key(
        floats::distance(
            f,
            values.subrange(a * dim, a * dim + dim),
            values.subrange(b * dim, b * dim + dim),
        ),
    ) as int
}

/// Pruning leaves neighbors alone that are no more than are allowed. Of more it keeps
/// as many as are allowed, at different places of the list, nearest to the vector first,
/// and none that it drops is nearer to the vector than one that it keeps; of neighbors at
/// the same distance it keeps those in front.
pub proof fn nearest_neighbors_are_kept<F: Fn(&[u32], &[u32]) -> u32>(
    f: F,
    values: Seq<u32>,
    dim: nat,
    node: int,
    list: Seq<usize>,
    max: nat,
) -> (places: Seq<int>)
    requires
        list.len() <= u64::MAX,
    ensures
        ({
            let kept = hnsw_link::pruned(f, values, dim, node, list, max);
            &&& list.len() <= max ==> kept == list
            &&& list.len() > max ==> {
                &&& kept.len() == max
                &&& places.len() == max
                &&& places.no_duplicates()
                &&& forall|j: int|
                    0 <= j < max ==> 0 <= #[trigger] places[j] < list.len() && kept[j]
                        == list[places[j]]
                &&& forall|i: int, j: int|
                    0 <= i < j < max ==> apart(f, values, dim, node, #[trigger] kept[i] as int)
                        <= apart(f, values, dim, node, #[trigger] kept[j] as int)
                &&& forall|p: int, j: int|
                    0 <= p < list.len() && !(#[trigger] places.contains(p)) && 0 <= j < max ==> {
                        let a = apart(f, values, dim, node, #[trigger] kept[j] as int);
                        let b = apart(f, values, dim, node, list[p] as int);
                        a < b || (a == b && places[j] < p)
                    }
            }
        }),
{
    let kept = hnsw_link::pruned(f, values, dim, node, list, max);
    if list.len() > max {
        let all = hnsw_link::scored(f, values, dim, node, list, list.len());
        let near = topk::nearest(all, max);
        let places = ranking::nearest_are_kept(all, max);
        assert(ranking::ids_grow(all));
        assert forall|j: int| 0 <= j < max implies 0 <= #[trigger] places[j] < list.len()
            && kept[j] == list[places[j]] && near[j] == all[places[j]] by {
            assert(near[j] == all[places[j]]);
        }
        assert forall|p: int| 0 <= p < list.len() implies floats::order_key(
            (#[trigger] all[p]).distance,
        ) == apart(f, values, dim, node, list[p] as int) by {}
        assert forall|i: int, j: int| 0 <= i < j < max implies apart(
            f,
            values,
            dim,
            node,
            #[trigger] kept[i] as int,
        ) <= apart(f, values, dim, node, #[trigger] kept[j] as int) by {
            assert(near[i] == all[places[i]]);
            assert(near[j] == all[places[j]]);
        }
        assert forall|p: int, j: int|
            0 <= p < list.len() && !(#[trigger] places.contains(p)) && 0 <= j < max implies {
            let a = apart(f, values, dim, node, #[trigger] kept[j] as int);
            let b = apart(f, values, dim, node, list[p] as int);
            a < b || (a == b && places[j] < p)
        } by {
            assert(near[j] == all[places[j]]);
            assert(all[p].id == p);
        }
        places
    } else {
        Seq::empty()
    }
}

/// Of different neighbors pruning keeps different ones, all of them neighbors; and one
/// that it drops is no nearer to the vector than any that it keeps.
pub proof fn dropped_neighbors_are_no_nearer<F: Fn(&[u32], &[u32]) -> u32>(
    f: F,
    values: Seq<u32>,
    dim: nat,
    node: int,
    list: Seq<usize>,
    max: nat,
    dropped: usize,
    kept: usize,
)
    requires
        list.len() <= u64::MAX,
        list.no_duplicates(),
    ensures
        ({
            let left = hnsw_link::pruned(f, values, dim, node, list, max);
            &&& left.no_duplicates()
            &&& left.len() == (if list.len() < max {
                list.len()
            } else {
                max
            })
            &&& left.contains(kept) ==> list.contains(kept)
            &&& left.contains(kept) && list.contains(dropped) && !left.contains(dropped) ==> apart(
                f,
                values,
                dim,
                node,
                kept as int,
            ) <= apart(f, values, dim, node, dropped as int)
        }),
{
    let left = hnsw_link::pruned(f, values, dim, node, list, max);
    let places = nearest_neighbors_are_kept(f, values, dim, node, list, max);
    if list.len() > max {
        assert forall|i: int, j: int| 0 <= i < left.len() && 0 <= j < left.len() && i
            != j implies left[i] != left[j] by {
            assert(places[i] != places[j]);
            assert(left[i] == list[places[i]]);
            assert(left[j] == list[places[j]]);
        }
        if left.contains(kept) {
            let j = choose|j: int| 0 <= j < left.len() && left[j] == kept;
            assert(list[places[j]] == kept);
            if list.contains(dropped) && !left.contains(dropped) {
                let p = choose|p: int| 0 <= p < list.len() && list[p] == dropped;
                if places.contains(p) {
                    let i = choose|i: int| 0 <= i < places.len() && places[i] == p;
                    assert(left[i] == dropped);
                }
                assert(apart(f, values, dim, node, left[j] as int) <= apart(
                    f,
                    values,
                    dim,
                    node,
                    list[p] as int,
                ));
            }
        }
    }
}

} // verus!
