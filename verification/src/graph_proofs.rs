//! Lemmas behind the contracts of the graph builder.

use crate::data::DenningPhenology;
use crate::graph::{
    clique_total, first_mentions, first_mentions_upto, is_first_mention, joins, mentions_pack,
    multiplicity, one_node_per_pack, pack_ids, packs_in, pair_count, recorded_in, shared_studies,
    study_labels, study_labels_upto, WolfNode,
};
use vstd::prelude::*;

verus! {

/// One more edge adds one to the multiplicity of the pair that it joins.
pub proof fn lemma_multiplicity_push(edges: Seq<(int, int)>, edge: (int, int), a: int, b: int)
    ensures
        multiplicity(edges.push(edge), a, b) == multiplicity(edges, a, b) + if joins(edge, a, b) {
            1nat
        } else {
            0nat
        },
{
    assert(edges.push(edge).drop_last() =~= edges);
}

/// Multiplicities add up over a concatenation.
pub proof fn lemma_multiplicity_concat(s: Seq<(int, int)>, t: Seq<(int, int)>, a: int, b: int)
    ensures
        multiplicity(s + t, a, b) == multiplicity(s, a, b) + multiplicity(t, a, b),
    decreases t.len(),
{
    if t.len() == 0 {
        assert(s + t =~= s);
    } else {
        assert((s + t).drop_last() =~= s + t.drop_last());
        lemma_multiplicity_concat(s, t.drop_last(), a, b);
    }
}

/// A pair of positive multiplicity is joined by some edge.
pub proof fn lemma_multiplicity_witness(edges: Seq<(int, int)>, a: int, b: int)
    requires
        multiplicity(edges, a, b) > 0,
    ensures
        exists|e: int| 0 <= e < edges.len() && joins(#[trigger] edges[e], a, b),
    decreases edges.len(),
{
    if joins(edges.last(), a, b) {
        assert(joins(edges[edges.len() - 1], a, b));
    } else {
        lemma_multiplicity_witness(edges.drop_last(), a, b);
        let e = choose|e: int|
            0 <= e < edges.drop_last().len() && joins(#[trigger] edges.drop_last()[e], a, b);
        assert(joins(edges[e], a, b));
    }
}

/// Whether `x` is one of the first `i` members.
pub open spec fn among(members: Seq<usize>, i: int, x: int) -> bool {
    exists|p: int| 0 <= p < i && (#[trigger] members[p]) == x
}

/// The edges from each of the first `i` members to member `j`.
pub open spec fn fan(members: Seq<usize>, j: int, i: int) -> Seq<(int, int)>
    decreases i,
{
    if i <= 0 {
        Seq::empty()
    } else {
        fan(members, j, i - 1).push((members[i - 1] as int, members[j] as int))
    }
}

/// The edges between every two of the first `j` members.
pub open spec fn clique(members: Seq<usize>, j: int) -> Seq<(int, int)>
    decreases j,
{
    if j <= 0 {
        Seq::empty()
    } else {
        clique(members, j - 1) + fan(members, j - 1, j - 1)
    }
}

pub proof fn lemma_pair_count_step(k: nat)
    ensures
        pair_count(k + 1) == pair_count(k) + k,
{
    assert((k + 1) * k == k * (k - 1) + 2 * k) by (nonlinear_arith);
    assert(k * (k - 1) >= 0) by (nonlinear_arith);
}

pub proof fn lemma_pair_count_monotonic(j: nat, k: nat)
    requires
        j <= k,
    ensures
        pair_count(j) <= pair_count(k),
    decreases k,
{
    if j < k {
        lemma_pair_count_monotonic(j, (k - 1) as nat);
        lemma_pair_count_step((k - 1) as nat);
    }
}

pub proof fn lemma_fan_len(members: Seq<usize>, j: int, i: int)
    requires
        0 <= i,
    ensures
        fan(members, j, i).len() == i,
    decreases i,
{
    if i > 0 {
        lemma_fan_len(members, j, i - 1);
    }
}

pub proof fn lemma_clique_len(members: Seq<usize>, j: int)
    requires
        0 <= j,
    ensures
        clique(members, j).len() == pair_count(j as nat),
    decreases j,
{
    if j > 0 {
        lemma_clique_len(members, j - 1);
        lemma_fan_len(members, j - 1, j - 1);
        lemma_pair_count_step((j - 1) as nat);
    } else {
        assert(pair_count(0) == 0);
    }
}

pub proof fn lemma_fan_multiplicity(members: Seq<usize>, j: int, i: int, a: int, b: int)
    requires
        0 <= i <= j < members.len(),
        members.no_duplicates(),
    ensures
        multiplicity(fan(members, j, i), a, b) == if (a == members[j] && among(members, i, b)) || (b
            == members[j] && among(members, i, a)) {
            1nat
        } else {
            0nat
        },
    decreases i,
{
    if i > 0 {
        lemma_fan_multiplicity(members, j, i - 1, a, b);
        lemma_multiplicity_push(
            fan(members, j, i - 1),
            (members[i - 1] as int, members[j] as int),
            a,
            b,
        );
        assert(among(members, i, a) <==> among(members, i - 1, a) || members[i - 1] == a);
        assert(among(members, i, b) <==> among(members, i - 1, b) || members[i - 1] == b);
        assert(members[i - 1] != members[j]);
        assert(!among(members, i - 1, members[i - 1] as int));
    }
}

/// In the edges between every two of the first `j` members, two different
/// nodes are joined once if both are among those members, and else not at all.
pub proof fn lemma_clique_multiplicity(members: Seq<usize>, j: int, a: int, b: int)
    requires
        0 <= j <= members.len(),
        members.no_duplicates(),
        a != b,
    ensures
        multiplicity(clique(members, j), a, b) == if among(members, j, a) && among(members, j, b) {
            1nat
        } else {
            0nat
        },
    decreases j,
{
    if j > 0 {
        lemma_clique_multiplicity(members, j - 1, a, b);
        lemma_fan_multiplicity(members, j - 1, j - 1, a, b);
        lemma_multiplicity_concat(clique(members, j - 1), fan(members, j - 1, j - 1), a, b);
        assert(among(members, j, a) <==> among(members, j - 1, a) || members[j - 1] == a);
        assert(among(members, j, b) <==> among(members, j - 1, b) || members[j - 1] == b);
        assert(!among(members, j - 1, members[j - 1] as int));
    }
}

/// What the first mentions among the first `r` records are: first mentions,
/// in ascending order, and one for the pack of each of those records.
pub proof fn lemma_first_mentions(records: Seq<DenningPhenology>, r: nat)
    requires
        r <= records.len(),
    ensures
        first_mentions_upto(records, r).len() <= r,
        forall|k: int|
            0 <= k < first_mentions_upto(records, r).len() ==> 0 <= (
            #[trigger] first_mentions_upto(records, r)[k]) < r && is_first_mention(
                records,
                first_mentions_upto(records, r)[k],
            ),
        forall|k1: int, k2: int|
            0 <= k1 < k2 < first_mentions_upto(records, r).len() ==> (
            #[trigger] first_mentions_upto(records, r)[k1]) < (#[trigger] first_mentions_upto(
                records,
                r,
            )[k2]),
        forall|j: int|
            0 <= j < r ==> exists|k: int|
                0 <= k < first_mentions_upto(records, r).len() && records[(
                #[trigger] first_mentions_upto(records, r)[k])].pack_id == (
                #[trigger] records[j]).pack_id,
    decreases r,
{
    if r > 0 {
        let earlier = first_mentions_upto(records, (r - 1) as nat);
        let all = first_mentions_upto(records, r);
        lemma_first_mentions(records, (r - 1) as nat);
        assert forall|j: int| 0 <= j < r implies exists|k: int|
            0 <= k < all.len() && records[(#[trigger] all[k])].pack_id == (
            #[trigger] records[j]).pack_id by {
            if j < r - 1 {
                let k = choose|k: int|
                    0 <= k < earlier.len() && records[(#[trigger] earlier[k])].pack_id
                        == records[j].pack_id;
                assert(all[k] == earlier[k]);
            } else if is_first_mention(records, r - 1) {
                assert(all[all.len() - 1] == r - 1);
            } else {
                let i = choose|i: int|
                    0 <= i < r - 1 && (#[trigger] records[i]).pack_id == records[r - 1].pack_id;
                let k = choose|k: int|
                    0 <= k < earlier.len() && records[(#[trigger] earlier[k])].pack_id
                        == records[i].pack_id;
                assert(all[k] == earlier[k]);
            }
        }
    }
}

/// The first mentions among fewer records are a prefix of those among more.
pub proof fn lemma_first_mentions_prefix(records: Seq<DenningPhenology>, r: nat, n: nat)
    requires
        r <= n,
    ensures
        first_mentions_upto(records, r).len() <= first_mentions_upto(records, n).len(),
        forall|k: int|
            0 <= k < first_mentions_upto(records, r).len() ==> first_mentions_upto(records, r)[k]
                == first_mentions_upto(records, n)[k],
    decreases n,
{
    if r < n {
        lemma_first_mentions_prefix(records, r, (n - 1) as nat);
    }
}

/// There are as many first mentions as packs.
pub proof fn lemma_first_mentions_count(records: Seq<DenningPhenology>)
    ensures
        pack_ids(records).finite(),
        first_mentions(records).len() == pack_ids(records).len(),
{
    let mentions = first_mentions(records);
    lemma_first_mentions(records, records.len());
    let ids = Seq::new(mentions.len(), |k: int| records[mentions[k]].pack_id);
    assert forall|k1: int, k2: int| 0 <= k1 < ids.len() && 0 <= k2 < ids.len() && k1 != k2 implies
        ids[k1] != ids[k2] by {
        if k1 < k2 {
            assert(mentions[k1] < mentions[k2]);
            assert(is_first_mention(records, mentions[k2]));
        } else {
            assert(mentions[k2] < mentions[k1]);
            assert(is_first_mention(records, mentions[k1]));
        }
    }
    assert forall|id: u32| ids.to_set().contains(id) <==> pack_ids(records).contains(id) by {
        if ids.to_set().contains(id) {
            let k = choose|k: int| 0 <= k < ids.len() && ids[k] == id;
            assert(records[mentions[k]].pack_id == id);
        }
        if pack_ids(records).contains(id) {
            let j = choose|j: int| 0 <= j < records.len() && (#[trigger] records[j]).pack_id == id;
            let k = choose|k: int|
                0 <= k < mentions.len() && records[(#[trigger] mentions[k])].pack_id
                    == records[j].pack_id;
            assert(ids[k] == id);
        }
    }
    assert(ids.to_set() =~= pack_ids(records));
    ids.unique_seq_to_set();
}

/// What the study areas of the first `r` records are: no area twice, and
/// the area of each of those records.
pub proof fn lemma_study_labels(records: Seq<DenningPhenology>, r: nat)
    requires
        r <= records.len(),
    ensures
        study_labels_upto(records, r).no_duplicates(),
        forall|j: int|
            0 <= j < r ==> study_labels_upto(records, r).contains((#[trigger] records[j]).study@),
    decreases r,
{
    if r > 0 {
        let earlier = study_labels_upto(records, (r - 1) as nat);
        let all = study_labels_upto(records, r);
        let study = records[r - 1].study@;
        lemma_study_labels(records, (r - 1) as nat);
        assert forall|j: int| 0 <= j < r implies all.contains((#[trigger] records[j]).study@) by {
            if j < r - 1 {
                let g = choose|g: int| 0 <= g < earlier.len() && earlier[g] == records[j].study@;
                assert(all[g] == records[j].study@);
            } else if earlier.contains(study) {
            } else {
                assert(all[all.len() - 1] == study);
            }
        }
    }
}

/// The number of those among the first `g` areas of `labels` in which both
/// packs were recorded.
pub open spec fn shared_count(
    records: Seq<DenningPhenology>,
    labels: Seq<Seq<char>>,
    g: nat,
    a: u32,
    b: u32,
) -> nat
    decreases g,
{
    if g == 0 {
        0
    } else {
        shared_count(records, labels, (g - 1) as nat, a, b) + if recorded_in(
            records,
            a,
            labels[g - 1],
        ) && recorded_in(records, b, labels[g - 1]) {
            1nat
        } else {
            0nat
        }
    }
}

/// The shared study areas that are among the first `g` areas of `labels`.
pub open spec fn shared_among(
    records: Seq<DenningPhenology>,
    labels: Seq<Seq<char>>,
    g: nat,
    a: u32,
    b: u32,
) -> Set<Seq<char>> {
    Set::new(
        |study: Seq<char>|
            shared_studies(records, a, b).contains(study) && exists|h: int|
                0 <= h < g && #[trigger] labels[h] == study,
    )
}

pub proof fn lemma_shared_among(
    records: Seq<DenningPhenology>,
    labels: Seq<Seq<char>>,
    g: nat,
    a: u32,
    b: u32,
)
    requires
        g <= labels.len(),
        labels.no_duplicates(),
    ensures
        shared_among(records, labels, g, a, b).finite(),
        shared_among(records, labels, g, a, b).len() == shared_count(records, labels, g, a, b),
    decreases g,
{
    if g == 0 {
        assert(shared_among(records, labels, g, a, b) =~= Set::empty());
    } else {
        lemma_shared_among(records, labels, (g - 1) as nat, a, b);
        let before = shared_among(records, labels, (g - 1) as nat, a, b);
        let now = shared_among(records, labels, g, a, b);
        let study = labels[g - 1];
        if recorded_in(records, a, study) && recorded_in(records, b, study) {
            assert(now =~= before.insert(study));
        } else {
            assert(now =~= before);
        }
    }
}

/// Two packs share as many study areas as there are areas, counted along the
/// list of all areas, in which both were recorded.
pub proof fn lemma_shared_studies_count(records: Seq<DenningPhenology>, a: u32, b: u32)
    ensures
        shared_studies(records, a, b).finite(),
        shared_studies(records, a, b).len() == shared_count(
            records,
            study_labels(records),
            study_labels(records).len(),
            a,
            b,
        ),
{
    let labels = study_labels(records);
    lemma_study_labels(records, records.len());
    lemma_shared_among(records, labels, labels.len(), a, b);
    assert forall|study: Seq<char>| shared_studies(records, a, b).contains(study) implies
        shared_among(records, labels, labels.len(), a, b).contains(study) by {
        let i = choose|i: int|
            0 <= i < records.len() && (#[trigger] records[i]).pack_id == a && records[i].study@
                == study;
        assert(labels.contains(records[i].study@));
    }
    assert(shared_studies(records, a, b) =~= shared_among(records, labels, labels.len(), a, b));
}

pub proof fn lemma_clique_total_monotonic(
    records: Seq<DenningPhenology>,
    labels: Seq<Seq<char>>,
    g: nat,
    n: nat,
)
    requires
        g <= n,
    ensures
        clique_total(records, labels, g) <= clique_total(records, labels, n),
    decreases n,
{
    if g < n {
        lemma_clique_total_monotonic(records, labels, g, (n - 1) as nat);
    }
}

/// Whether `members` holds, each once, the nodes of the packs recorded in
/// the study area `study`.
pub open spec fn members_of_study(
    records: Seq<DenningPhenology>,
    nodes: Seq<WolfNode>,
    members: Seq<usize>,
    study: Seq<char>,
) -> bool {
    &&& members.no_duplicates()
    &&& forall|x: usize|
        members.contains(x) <==> x < nodes.len() && recorded_in(
            records,
            nodes[x as int].pack_id,
            study,
        )
}

/// A study area has as many members as packs recorded in it.
pub proof fn lemma_members_count(
    records: Seq<DenningPhenology>,
    nodes: Seq<WolfNode>,
    members: Seq<usize>,
    study: Seq<char>,
)
    requires
        nodes.len() <= usize::MAX,
        one_node_per_pack(records, nodes),
        members_of_study(records, nodes, members, study),
    ensures
        packs_in(records, study).finite(),
        packs_in(records, study).len() == members.len(),
{
    let ids = Seq::new(members.len(), |p: int| nodes[members[p] as int].pack_id);
    assert forall|p: int| 0 <= p < members.len() implies members[p] < nodes.len() && recorded_in(
        records,
        nodes[(#[trigger] members[p]) as int].pack_id,
        study,
    ) by {
        assert(members.contains(members[p]));
    }
    assert forall|left: int, right: int| 0 <= left < ids.len() && 0 <= right < ids.len() && left != right implies
        ids[left] != ids[right] by {
        assert(members[left] != members[right]);
        assert(nodes[members[left] as int].pack_id != nodes[members[right] as int].pack_id);
    }
    assert forall|id: u32| ids.to_set().contains(id) <==> packs_in(records, study).contains(id) by {
        if ids.to_set().contains(id) {
            let p = choose|p: int| 0 <= p < ids.len() && ids[p] == id;
            assert(recorded_in(records, nodes[members[p] as int].pack_id, study));
        }
        if packs_in(records, study).contains(id) {
            let i = choose|i: int|
                0 <= i < records.len() && (#[trigger] records[i]).pack_id == id && records[i].study@
                    == study;
            assert(mentions_pack(records, id));
            let k = choose|k: int| 0 <= k < nodes.len() && (#[trigger] nodes[k]).pack_id == id;
            assert(members.contains(k as usize));
            let p = choose|p: int| 0 <= p < members.len() && members[p] == k as usize;
            assert(ids[p] == id);
        }
    }
    assert(ids.to_set() =~= packs_in(records, study));
    ids.unique_seq_to_set();
}

} // verus!
