//! The ranking of packs by degree centrality.
//!
//! Packs are ranked by degree, the largest first. Packs of equal degree are
//! ranked by identifier, the smallest first, so that a ranking is the same
//! whenever it is computed.

use std::collections::HashMap;
use vstd::prelude::*;

verus! {

broadcast use vstd::std_specs::hash::group_hash_axioms;

/// Whether the entry `first`, a pack and its degree, is ranked before the
/// entry `second`: it has the larger degree, or the same degree and the
/// smaller identifier.
pub open spec fn ranks_before(first: (u32, usize), second: (u32, usize)) -> bool {
    first.1 > second.1 || (first.1 == second.1 && first.0 < second.0)
}

/// Whether the entries stand in rank order.
pub open spec fn in_rank_order(ranked: Seq<(u32, usize)>) -> bool {
    forall|i: int, j: int|
        0 <= i < j < ranked.len() ==> ranks_before(#[trigger] ranked[i], #[trigger] ranked[j])
}

/// Whether `ranked` has an entry for the pack `id`.
pub open spec fn lists(ranked: Seq<(u32, usize)>, id: u32) -> bool {
    exists|i: int| 0 <= i < ranked.len() && (#[trigger] ranked[i]).0 == id
}

/// Whether `ranked` is the head of the ranking of `centrality`: its entries
/// are entries of the mapping, they stand in rank order, and each pack of
/// the mapping that it leaves out is ranked behind all of them.
pub open spec fn is_top_ranking(centrality: Map<u32, usize>, ranked: Seq<(u32, usize)>) -> bool {
    &&& forall|i: int|
        0 <= i < ranked.len() ==> centrality.contains_pair((#[trigger] ranked[i]).0, ranked[i].1)
    &&& in_rank_order(ranked)
    &&& forall|id: u32, i: int|
        centrality.contains_key(id) && !lists(ranked, id) && 0 <= i < ranked.len() ==> ranks_before(
            #[trigger] ranked[i],
            (id, #[trigger] centrality[id]),
        )
}

/// The entries of a centrality mapping, each once, in the order in which the
/// mapping hands them out.
fn collect_entries(centrality: &HashMap<u32, usize>) -> (entries: Vec<(u32, usize)>)
    ensures
        entries@.len() == centrality@.len(),
        forall|i: int|
            0 <= i < entries@.len() ==> centrality@.contains_pair(
                (#[trigger] entries@[i]).0,
                entries@[i].1,
            ),
        forall|i: int, j: int|
            0 <= i < j < entries@.len() ==> (#[trigger] entries@[i]).0 != (#[trigger] entries@[j]).0,
        forall|id: u32| #[trigger] centrality@.contains_key(id) ==> lists(entries@, id),
{
    let mut entries: Vec<(u32, usize)> = Vec::new();
    for pair in it: centrality.iter()
        invariant
            entries@.len() == it.index(),
            it.seq().no_duplicates(),
            it.seq().len() == centrality@.len(),
            forall|i: int|
                0 <= i < it.seq().len() ==> centrality@.contains_pair(
                    *(#[trigger] it.seq()[i]).0,
                    *it.seq()[i].1,
                ),
            forall|id: u32| #[trigger]
                centrality@.contains_key(id) ==> it.seq().contains((&id, &centrality@[id])),
            forall|i: int|
                #![trigger entries@[i]]
                #![trigger it.seq()[i]]
                0 <= i < entries@.len() ==> entries@[i] == (*it.seq()[i].0, *it.seq()[i].1),
    {
        entries.push((*pair.0, *pair.1));
    }
    entries
}

/// Decides [`ranks_before`].
fn comes_before(first: (u32, usize), second: (u32, usize)) -> (before: bool)
    ensures
        before == ranks_before(first, second),
{
    first.1 > second.1 || (first.1 == second.1 && first.0 < second.0)
}

/// Puts `entry` into the ranked entries at its rank.
fn insert_ranked(ranked: &mut Vec<(u32, usize)>, entry: (u32, usize))
    requires
        in_rank_order(old(ranked)@),
        !lists(old(ranked)@, entry.0),
    ensures
        in_rank_order(final(ranked)@),
        final(ranked)@.len() == old(ranked)@.len() + 1,
        forall|other: (u32, usize)|
            final(ranked)@.contains(other) <==> old(ranked)@.contains(other) || other == entry,
{
    let ghost before = ranked@;
    let mut at: usize = 0;
    while at < ranked.len() && comes_before(ranked[at], entry)
        invariant
            at <= ranked.len(),
            ranked@ == before,
            forall|i: int| 0 <= i < at ==> ranks_before(#[trigger] before[i], entry),
        decreases ranked.len() - at,
    {
        at += 1;
    }
    ranked.insert(at, entry);
    proof {
        let after = ranked@;
        assert forall|i: int| at < i < after.len() implies ranks_before(entry, #[trigger] after[i]) by {
            assert(after[i] == before[i - 1]);
            assert(before[at as int].0 != entry.0);
            assert(ranks_before(entry, before[at as int]));
            if i - 1 > at {
                assert(ranks_before(before[at as int], before[i - 1]));
            }
        }
        assert forall|i: int, j: int| 0 <= i < j < after.len() implies ranks_before(
            #[trigger] after[i],
            #[trigger] after[j],
        ) by {
            if j < at {
                assert(after[i] == before[i] && after[j] == before[j]);
            } else if j == at {
                assert(after[i] == before[i]);
            } else if i < at {
                assert(after[i] == before[i] && after[j] == before[j - 1]);
            } else if i == at {
            } else {
                assert(after[i] == before[i - 1] && after[j] == before[j - 1]);
            }
        }
        assert forall|other: (u32, usize)|
            after.contains(other) <==> before.contains(other) || other == entry by {
            if after.contains(other) {
                let i = choose|i: int| 0 <= i < after.len() && after[i] == other;
                if i < at {
                    assert(before[i] == other);
                } else if i > at {
                    assert(before[i - 1] == other);
                }
            }
            if before.contains(other) {
                let i = choose|i: int| 0 <= i < before.len() && before[i] == other;
                if i < at {
                    assert(after[i] == other);
                } else {
                    assert(after[i + 1] == other);
                }
            }
            if other == entry {
                assert(after[at as int] == other);
            }
        }
    }
}

/// The first `top_n` entries of the ranking of packs by degree centrality,
/// and all entries where there are no more than `top_n`: the largest degree
/// first, and of equal degrees the smaller pack identifier first.
pub fn top_central_packs(centrality: &HashMap<u32, usize>, top_n: usize) -> (ranked: Vec<
    (u32, usize),
>)
    ensures
        ranked@.len() == if top_n <= centrality@.len() {
            top_n as nat
        } else {
            centrality@.len()
        },
        is_top_ranking(centrality@, ranked@),
{
    let entries = collect_entries(centrality);
    let mut ranked: Vec<(u32, usize)> = Vec::new();
    let mut done: usize = 0;
    while done < entries.len()
        invariant
            done <= entries.len(),
            ranked@.len() == done,
            in_rank_order(ranked@),
            entries@.len() == centrality@.len(),
            forall|i: int|
                0 <= i < entries@.len() ==> centrality@.contains_pair(
                    (#[trigger] entries@[i]).0,
                    entries@[i].1,
                ),
            forall|id: u32| #[trigger] centrality@.contains_key(id) ==> lists(entries@, id),
            forall|i: int, j: int|
                0 <= i < j < entries@.len() ==> (#[trigger] entries@[i]).0 != (
                #[trigger] entries@[j]).0,
            forall|other: (u32, usize)|
                ranked@.contains(other) <==> exists|i: int|
                    0 <= i < done && #[trigger] entries@[i] == other,
        decreases entries.len() - done,
    {
        let entry = entries[done];
        let ghost before = ranked@;
        proof {
            if lists(before, entry.0) {
                let at = choose|at: int| 0 <= at < before.len() && (#[trigger] before[at]).0 == entry.0;
                assert(before.contains(before[at]));
                let i = choose|i: int| 0 <= i < done && #[trigger] entries@[i] == before[at];
                assert(entries@[i].0 != entries@[done as int].0);
            }
        }
        insert_ranked(&mut ranked, entry);
        proof {
            assert forall|other: (u32, usize)|
                ranked@.contains(other) <==> exists|i: int|
                    0 <= i < done + 1 && #[trigger] entries@[i] == other by {
                if before.contains(other) {
                    let i = choose|i: int| 0 <= i < done && #[trigger] entries@[i] == other;
                    assert(0 <= i < done + 1);
                }
                if other == entry {
                    assert(entries@[done as int] == other);
                }
                if exists|i: int| 0 <= i < done + 1 && #[trigger] entries@[i] == other {
                    let i = choose|i: int| 0 <= i < done + 1 && #[trigger] entries@[i] == other;
                    if i < done {
                        assert(before.contains(other));
                    }
                }
            }
        }
        done += 1;
    }
    let ghost full = ranked@;
    proof {
        assert forall|i: int| 0 <= i < full.len() implies centrality@.contains_pair(
            (#[trigger] full[i]).0,
            full[i].1,
        ) by {
            assert(full.contains(full[i]));
            let at = choose|at: int| 0 <= at < entries@.len() && #[trigger] entries@[at] == full[i];
        }
        assert forall|id: u32| centrality@.contains_key(id) implies full.contains(
            (id, #[trigger] centrality@[id]),
        ) by {
            assert(lists(entries@, id));
            let at = choose|at: int| 0 <= at < entries@.len() && (#[trigger] entries@[at]).0 == id;
            assert(entries@[at] == (id, centrality@[id]));
            assert(full.contains(entries@[at]));
        }
    }
    if top_n < ranked.len() {
        ranked.truncate(top_n);
    }
    proof {
        assert forall|id: u32, i: int|
            centrality@.contains_key(id) && !lists(ranked@, id) && 0 <= i < ranked@.len() implies ranks_before(
            #[trigger] ranked@[i],
            (id, #[trigger] centrality@[id]),
        ) by {
            let entry = (id, centrality@[id]);
            let at = choose|at: int| 0 <= at < full.len() && full[at] == entry;
            if at < ranked@.len() {
                assert(ranked@[at].0 == id);
            } else {
                assert(ranks_before(full[i], full[at]));
            }
        }
    }
    ranked
}

/// Where two heads of a ranking agree before entry `i`, the entry `i` of the
/// first is that of the second or is ranked before it.
proof fn lemma_next_entry(
    centrality: Map<u32, usize>,
    first: Seq<(u32, usize)>,
    second: Seq<(u32, usize)>,
    i: int,
)
    requires
        is_top_ranking(centrality, first),
        is_top_ranking(centrality, second),
        first.len() == second.len(),
        0 <= i < first.len(),
        forall|k: int| 0 <= k < i ==> first[k] == second[k],
    ensures
        first[i] == second[i] || ranks_before(first[i], second[i]),
{
    let id = second[i].0;
    assert(centrality.contains_pair(second[i].0, second[i].1));
    if lists(first, id) {
        let p = choose|p: int| 0 <= p < first.len() && (#[trigger] first[p]).0 == id;
        assert(centrality.contains_pair(first[p].0, first[p].1));
        assert(first[p] == second[i]);
        if p < i {
            assert(first[p] == second[p]);
            assert(ranks_before(second[p], second[i]));
        } else if p > i {
            assert(ranks_before(first[i], first[p]));
        }
    } else {
        assert(ranks_before(first[i], (id, centrality[id])));
    }
}

/// Two heads of a ranking agree in their first `n` entries.
proof fn lemma_rankings_agree(
    centrality: Map<u32, usize>,
    first: Seq<(u32, usize)>,
    second: Seq<(u32, usize)>,
    n: nat,
)
    requires
        is_top_ranking(centrality, first),
        is_top_ranking(centrality, second),
        first.len() == second.len(),
        n <= first.len(),
    ensures
        forall|k: int| 0 <= k < n ==> first[k] == second[k],
    decreases n,
{
    if n > 0 {
        lemma_rankings_agree(centrality, first, second, (n - 1) as nat);
        lemma_next_entry(centrality, first, second, n - 1);
        lemma_next_entry(centrality, second, first, n - 1);
    }
}

/// A centrality mapping has one ranking: two heads of it of one length are
/// the same, whatever the order in which the mapping hands out its entries.
pub proof fn lemma_top_ranking_is_unique(
    centrality: Map<u32, usize>,
    first: Seq<(u32, usize)>,
    second: Seq<(u32, usize)>,
)
    requires
        is_top_ranking(centrality, first),
        is_top_ranking(centrality, second),
        first.len() == second.len(),
    ensures
        first == second,
{
    lemma_rankings_agree(centrality, first, second, first.len());
    assert(first =~= second);
}

} // verus!
