use vstd::prelude::*;
use std::collections::BTreeSet;
use vstd::std_specs::btree::{increasing_seq, spec_btree_keys_iter};
use vstd::std_specs::cmp::OrdSpec;
use vstd::std_specs::iter::IteratorSpec;

verus! {

/// Strictly increasing: sorted without repetitions.
pub open spec fn strictly_increasing(s: Seq<u128>) -> bool {
    forall|i: int, j: int| 0 <= i < j < s.len() ==> #[trigger] s[i] < #[trigger] s[j]
}

/// Ids are ordered as vstd's model of `Ord` requires, so a `BTreeSet` of them behaves as a set.
pub(crate) proof fn lemma_ids_are_ordered()
    ensures
        vstd::laws_cmp::obeys_cmp::<u128>(),
        vstd::laws_cmp::obeys_cmp::<&u128>(),
{
    broadcast use vstd::laws_cmp::group_laws_cmp;
}

/// The keys a `BTreeSet` of ids iterates come in increasing order.
pub(crate) proof fn lemma_keys_increase(keys: Seq<&u128>)
    requires
        increasing_seq(keys),
    ensures
        forall|a: int, b: int| 0 <= a < b < keys.len() ==> *#[trigger] keys[a] < *#[trigger] keys[b],
{
    broadcast use vstd::laws_cmp::group_laws_cmp;
    broadcast use vstd::std_specs::btree::group_btree_axioms;
    lemma_ids_are_ordered();
    assert forall|a: int, b: int| 0 <= a < b < keys.len() implies *#[trigger] keys[a] < *#[trigger] keys[b] by {
        assert((&keys[a]).cmp_spec(&&keys[b]) is Less);
    }
}

/// The distinct values of `ids` in increasing order (what a `BTreeSet` iterates).
pub fn sorted_unique(ids: &Vec<u128>) -> (out: Vec<u128>)
    ensures
        strictly_increasing(out@),
        forall|x: u128| #[trigger] out@.contains(x) <==> ids@.contains(x),
{
    broadcast use vstd::std_specs::btree::group_btree_axioms;
    proof { lemma_ids_are_ordered(); }
    let mut set: BTreeSet<u128> = BTreeSet::new();
    let mut i: usize = 0;
    while i < ids.len()
        invariant
            i <= ids.len(),
            forall|x: u128| #[trigger] set@.contains(x) <==> ids@.take(i as int).contains(x),
        decreases ids.len() - i,
    {
        proof { lemma_ids_are_ordered(); }
        let ghost before = set@;
        set.insert(ids[i]);
        assert(set@ == before.insert(ids@[i as int]));
        let ghost prev = ids@.take(i as int);
        let ghost next = ids@.take(i + 1);
        assert(next =~= prev.push(ids@[i as int]));
        assert forall|x: u128| #[trigger] set@.contains(x) <==> next.contains(x) by {
            if prev.contains(x) {
                let m = choose|m: int| 0 <= m < prev.len() && prev[m] == x;
                assert(next[m] == x);
            }
            if next.contains(x) && x != ids@[i as int] {
                let m = choose|m: int| 0 <= m < next.len() && next[m] == x;
                assert(prev[m] == x);
            }
            if x == ids@[i as int] {
                assert(next[i as int] == x);
            }
        }
        i = i + 1;
    }
    assert(ids@.take(i as int) =~= ids@);
    let ghost keys = spec_btree_keys_iter(&set).remaining();
    let mut out: Vec<u128> = Vec::new();
    for x in it: set.iter()
        invariant
            it.seq() == keys,
            out@.len() == it.index(),
            forall|k: int| 0 <= k < it.index() ==> #[trigger] out@[k] == *keys[k],
    {
        out.push(*x);
    }
    assert(out@.len() == keys.len());
    proof { lemma_keys_increase(keys); }
    assert forall|x: u128| #[trigger] out@.contains(x) <==> ids@.contains(x) by {
        if out@.contains(x) {
            let k = choose|k: int| 0 <= k < out@.len() && out@[k] == x;
            assert(keys.unref()[k] == x);
            assert(keys.unref().to_set().contains(x));
        }
        if ids@.contains(x) {
            assert(set@.contains(x));
            assert(keys.unref().to_set().contains(x));
            let k = choose|k: int| 0 <= k < keys.unref().len() && keys.unref()[k] == x;
            assert(out@[k] == x);
        }
    }
    out
}


/// `a` comes before `b` when ordered by id, and by position among equal ids.
pub open spec fn id_before(ids: Seq<u128>, a: int, b: int) -> bool {
    ids[a] < ids[b] || (ids[a] == ids[b] && a < b)
}

/// `order` lists every position of `ids` once, by id; equal ids keep their order (what a
/// stable sort by id gives).
pub open spec fn is_id_order(ids: Seq<u128>, order: Seq<usize>) -> bool {
    &&& order.len() == ids.len()
    &&& forall|i: int| 0 <= i < order.len() ==> #[trigger] order[i] < ids.len()
    &&& forall|i: int, j: int| 0 <= i < j < order.len() ==> id_before(ids, #[trigger] order[i] as int, #[trigger] order[j] as int)
}

/// The positions of `ids` in the order a stable sort by id puts them.
pub fn id_order(ids: &Vec<u128>) -> (order: Vec<usize>)
    ensures
        is_id_order(ids@, order@),
{
    let mut order: Vec<usize> = Vec::new();
    let mut k: usize = 0;
    while k < ids.len()
        invariant
            k <= ids.len(),
            order.len() == k,
            forall|i: int| 0 <= i < order.len() ==> #[trigger] order@[i] < k,
            forall|i: int, j: int| 0 <= i < j < order.len() ==> id_before(ids@, #[trigger] order@[i] as int, #[trigger] order@[j] as int),
        decreases ids.len() - k,
    {
        let mut p: usize = 0;
        while p < order.len() && !(ids[k] < ids[order[p]])
            invariant
                p <= order.len() == k < ids.len(),
                forall|i: int| 0 <= i < order.len() ==> #[trigger] order@[i] < k,
                forall|i: int| 0 <= i < p ==> id_before(ids@, #[trigger] order@[i] as int, k as int),
            decreases order.len() - p,
        {
            p = p + 1;
        }
        let ghost before = order@;
        proof {
            assert forall|i: int| p <= i < before.len() implies id_before(ids@, k as int, #[trigger] before[i] as int) by {
                if p < before.len() && i > p {
                    assert(id_before(ids@, before[p as int] as int, before[i] as int));
                }
            }
        }
        order.insert(p, k);
        assert forall|i: int, j: int| 0 <= i < j < order.len() implies id_before(ids@, #[trigger] order@[i] as int, #[trigger] order@[j] as int) by {
            if j < p {
                assert(order@[i] == before[i] && order@[j] == before[j]);
            } else if j == p {
                assert(order@[i] == before[i]);
            } else if i == p {
                assert(order@[j] == before[j - 1]);
            } else if i < p {
                assert(order@[i] == before[i] && order@[j] == before[j - 1]);
            } else {
                assert(order@[i] == before[i - 1] && order@[j] == before[j - 1]);
            }
        }
        k = k + 1;
    }
    order
}

} // verus!
