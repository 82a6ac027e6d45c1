//! The co-location graph of wolf packs and its degree centrality.
//!
//! Nodes are packs, one for each pack that the records mention. Two packs are
//! joined by one edge for each study area in which both were recorded.

use crate::data::{Binary64, DenningPhenology};
use crate::graph_proofs::{
    among, clique, fan, lemma_clique_len, lemma_clique_multiplicity, lemma_clique_total_monotonic,
    lemma_fan_len, lemma_first_mentions, lemma_first_mentions_count, lemma_first_mentions_prefix,
    lemma_members_count, lemma_multiplicity_concat, lemma_multiplicity_witness,
    lemma_pair_count_monotonic, lemma_pair_count_step, lemma_shared_studies_count,
    members_of_study, shared_count,
};
use crate::graph_store::{
    add_edge, add_node, edge_count, graph_edges, graph_nodes, incident_count, incident_edge_count,
    new_graph, node_count, node_weight,
};
use petgraph::graph::Graph;
use petgraph::Undirected;
use std::collections::HashMap;
use vstd::prelude::*;

verus! {

broadcast use vstd::std_specs::hash::group_hash_axioms;

/// A pack as a node of the graph: its identifier, and the study area of the
/// first record that mentions it with that area's coordinates.
#[derive(Debug, Clone)]
pub struct WolfNode {
    pub pack_id: u32,
    pub study: String,
    pub latitude: Binary64,
    pub longitude: Binary64,
}

/// Whether `node` carries what `record` says of its pack.
pub open spec fn describes(node: WolfNode, record: DenningPhenology) -> bool {
    &&& node.pack_id == record.pack_id
    &&& node.study@ == record.study@
    &&& node.latitude == record.latitude_study
    &&& node.longitude == record.longitude_study
}

/// Whether some record mentions the pack `id`.
pub open spec fn mentions_pack(records: Seq<DenningPhenology>, id: u32) -> bool {
    exists|i: int| 0 <= i < records.len() && (#[trigger] records[i]).pack_id == id
}

/// The packs that the records mention.
pub open spec fn pack_ids(records: Seq<DenningPhenology>) -> Set<u32> {
    Set::new(|id: u32| mentions_pack(records, id))
}

/// Whether some record has the pack `id` in the study area `study`.
pub open spec fn recorded_in(records: Seq<DenningPhenology>, id: u32, study: Seq<char>) -> bool {
    exists|i: int|
        0 <= i < records.len() && (#[trigger] records[i]).pack_id == id && records[i].study@
            == study
}

/// The packs recorded in the study area `study`.
pub open spec fn packs_in(records: Seq<DenningPhenology>, study: Seq<char>) -> Set<u32> {
    Set::new(|id: u32| recorded_in(records, id, study))
}

/// The study areas in which both packs were recorded.
pub open spec fn shared_studies(records: Seq<DenningPhenology>, a: u32, b: u32) -> Set<Seq<char>> {
    Set::new(|study: Seq<char>| recorded_in(records, a, study) && recorded_in(records, b, study))
}

/// Whether no record before record `i` mentions the same pack.
pub open spec fn is_first_mention(records: Seq<DenningPhenology>, i: int) -> bool {
    forall|j: int| 0 <= j < i ==> (#[trigger] records[j]).pack_id != records[i].pack_id
}

/// The indices, in ascending order, of those among the first `r` records
/// that are the first to mention their pack.
pub open spec fn first_mentions_upto(records: Seq<DenningPhenology>, r: nat) -> Seq<int>
    decreases r,
{
    if r == 0 {
        Seq::empty()
    } else {
        let earlier = first_mentions_upto(records, (r - 1) as nat);
        if is_first_mention(records, r - 1) {
            earlier.push(r - 1)
        } else {
            earlier
        }
    }
}

/// The indices, in ascending order, of the records that are the first to
/// mention their pack.
pub open spec fn first_mentions(records: Seq<DenningPhenology>) -> Seq<int> {
    first_mentions_upto(records, records.len())
}

/// The study areas of the first `r` records, each once, in the order in which
/// the records first name them.
pub open spec fn study_labels_upto(records: Seq<DenningPhenology>, r: nat) -> Seq<Seq<char>>
    decreases r,
{
    if r == 0 {
        Seq::empty()
    } else {
        let earlier = study_labels_upto(records, (r - 1) as nat);
        let study = records[r - 1].study@;
        if earlier.contains(study) {
            earlier
        } else {
            earlier.push(study)
        }
    }
}

/// The study areas of the records, each once, in the order in which the
/// records first name them.
pub open spec fn study_labels(records: Seq<DenningPhenology>) -> Seq<Seq<char>> {
    study_labels_upto(records, records.len())
}

/// The number of unordered pairs among `k` things.
pub open spec fn pair_count(k: nat) -> nat {
    (k * (k - 1) / 2) as nat
}

/// The number of edges that the first `g` study areas of `labels` give rise
/// to: each area joins every two of the packs recorded in it.
pub open spec fn clique_total(records: Seq<DenningPhenology>, labels: Seq<Seq<char>>, g: nat) -> nat
    decreases g,
{
    if g == 0 {
        0
    } else {
        clique_total(records, labels, (g - 1) as nat) + pair_count(
            packs_in(records, labels[g - 1]).len(),
        )
    }
}

/// The number of edges of the co-location graph of the records.
pub open spec fn edge_total(records: Seq<DenningPhenology>) -> nat {
    clique_total(records, study_labels(records), study_labels(records).len())
}

/// Whether the graph of the records fits 32-bit node and edge indices.
pub open spec fn within_capacity(records: Seq<DenningPhenology>) -> bool {
    pack_ids(records).len() <= u32::MAX && edge_total(records) <= u32::MAX
}

/// Whether `edge` joins the nodes `a` and `b`, in either direction.
pub open spec fn joins(edge: (int, int), a: int, b: int) -> bool {
    (edge.0 == a && edge.1 == b) || (edge.0 == b && edge.1 == a)
}

/// The number of edges that join the nodes `a` and `b`.
pub open spec fn multiplicity(edges: Seq<(int, int)>, a: int, b: int) -> nat
    decreases edges.len(),
{
    if edges.len() == 0 {
        0
    } else {
        multiplicity(edges.drop_last(), a, b) + if joins(edges.last(), a, b) {
            1nat
        } else {
            0nat
        }
    }
}

/// Whether `edge` joins two different nodes of a graph with `n` nodes.
pub open spec fn joins_two_nodes(edge: (int, int), n: nat) -> bool {
    0 <= edge.0 < n && 0 <= edge.1 < n && edge.0 != edge.1
}

/// Whether `nodes` are the nodes of the co-location graph of the records:
/// one for each pack, in the order of first mention, and each described by
/// the record that mentions its pack first.
pub open spec fn colocation_nodes(records: Seq<DenningPhenology>, nodes: Seq<WolfNode>) -> bool {
    &&& nodes.len() == first_mentions(records).len()
    &&& nodes.len() == pack_ids(records).len()
    &&& forall|k: int|
        0 <= k < nodes.len() ==> describes(#[trigger] nodes[k], records[first_mentions(records)[k]])
}

/// Whether `edges` are the edges of the co-location graph of the records,
/// whose nodes are `nodes`: edges between different nodes only, and between
/// two nodes as many as there are study areas in which both packs were
/// recorded.
pub open spec fn colocation_edges(
    records: Seq<DenningPhenology>,
    nodes: Seq<WolfNode>,
    edges: Seq<(int, int)>,
) -> bool {
    &&& edges.len() == edge_total(records)
    &&& forall|e: int| 0 <= e < edges.len() ==> joins_two_nodes(#[trigger] edges[e], nodes.len())
    &&& forall|a: int, b: int|
        0 <= a < nodes.len() && 0 <= b < nodes.len() && a != b ==> #[trigger] multiplicity(
            edges,
            a,
            b,
        ) == shared_studies(records, nodes[a].pack_id, nodes[b].pack_id).len()
}

/// Whether `nodes` and `edges` are the co-location graph of the records.
pub open spec fn colocation_graph(
    records: Seq<DenningPhenology>,
    nodes: Seq<WolfNode>,
    edges: Seq<(int, int)>,
) -> bool {
    colocation_nodes(records, nodes) && colocation_edges(records, nodes, edges)
}

/// Whether each pack that the records mention has exactly one node.
pub open spec fn one_node_per_pack(records: Seq<DenningPhenology>, nodes: Seq<WolfNode>) -> bool {
    &&& forall|k1: int, k2: int|
        0 <= k1 < nodes.len() && 0 <= k2 < nodes.len() && k1 != k2 ==> (
        #[trigger] nodes[k1]).pack_id != (#[trigger] nodes[k2]).pack_id
    &&& forall|id: u32|
        mentions_pack(records, id) ==> exists|k: int|
            0 <= k < nodes.len() && (#[trigger] nodes[k]).pack_id == id
}

/// Whether no node behind node `k` and before node `limit` has the pack of
/// node `k`.
pub open spec fn is_last_of_pack(nodes: Seq<WolfNode>, k: int, limit: int) -> bool {
    forall|later: int| k < later < limit ==> (#[trigger] nodes[later]).pack_id != nodes[k].pack_id
}

/// Whether one of the first `limit` nodes has the pack `id`.
pub open spec fn has_node(nodes: Seq<WolfNode>, limit: int, id: u32) -> bool {
    exists|k: int| 0 <= k < limit && (#[trigger] nodes[k]).pack_id == id
}

/// Whether `centrality` holds the degrees of the first `limit` nodes: an
/// entry for each pack that has a node, with the number of edges at that
/// node. Where several nodes have one pack, the last of them counts.
pub open spec fn is_degree_centrality(
    nodes: Seq<WolfNode>,
    edges: Seq<(int, int)>,
    limit: int,
    centrality: Map<u32, usize>,
) -> bool {
    &&& forall|id: u32| #[trigger] centrality.contains_key(id) <==> has_node(nodes, limit, id)
    &&& forall|k: int|
        0 <= k < limit && is_last_of_pack(nodes, k, limit) ==> centrality[(
        #[trigger] nodes[k]).pack_id] == incident_count(edges, k)
}

/// The sum of the degrees of the first `n` nodes.
pub open spec fn degree_sum(edges: Seq<(int, int)>, n: nat) -> nat
    decreases n,
{
    if n == 0 {
        0
    } else {
        degree_sum(edges, (n - 1) as nat) + incident_count(edges, n - 1)
    }
}

/// Whether one of the first `r` records mentions the pack `id`.
spec fn mentioned_upto(records: Seq<DenningPhenology>, r: nat, id: u32) -> bool {
    exists|j: int| 0 <= j < r && (#[trigger] records[j]).pack_id == id
}

/// Whether one of the first `r` records has the pack `id` in the area `study`.
spec fn recorded_upto(records: Seq<DenningPhenology>, r: nat, id: u32, study: Seq<char>) -> bool {
    exists|j: int|
        0 <= j < r && (#[trigger] records[j]).pack_id == id && records[j].study@ == study
}

/// Whether the nodes are those of the packs that the first `r` records
/// mention, each described by the record that mentions it first.
spec fn nodes_describe(records: Seq<DenningPhenology>, r: nat, nodes: Seq<WolfNode>) -> bool {
    &&& nodes.len() == first_mentions_upto(records, r).len()
    &&& forall|k: int|
        0 <= k < nodes.len() ==> describes(
            #[trigger] nodes[k],
            records[first_mentions_upto(records, r)[k]],
        )
}

/// Whether `index` leads from each pack that the first `r` records mention,
/// and from no other, to the node of that pack.
spec fn indexes(
    index: Map<u32, usize>,
    records: Seq<DenningPhenology>,
    r: nat,
    nodes: Seq<WolfNode>,
) -> bool {
    &&& forall|id: u32| #[trigger] index.contains_key(id) <==> mentioned_upto(records, r, id)
    &&& forall|id: u32| #[trigger]
        index.contains_key(id) ==> index[id] < nodes.len() && nodes[index[id] as int].pack_id == id
    &&& forall|k: int|
        0 <= k < nodes.len() ==> index.contains_key((#[trigger] nodes[k]).pack_id)
            && index[nodes[k].pack_id] == k
}

/// The study areas that the strings name.
spec fn label_views(labels: Seq<String>) -> Seq<Seq<char>> {
    Seq::new(labels.len(), |g: int| labels[g]@)
}

/// A record whose pack the index lacks is the first to mention that pack.
proof fn lemma_new_pack(
    records: Seq<DenningPhenology>,
    r: nat,
    nodes: Seq<WolfNode>,
    index: Map<u32, usize>,
)
    requires
        r < records.len(),
        nodes_describe(records, r, nodes),
        indexes(index, records, r, nodes),
        !index.contains_key(records[r as int].pack_id),
    ensures
        is_first_mention(records, r as int),
        first_mentions_upto(records, r + 1) == first_mentions_upto(records, r).push(r as int),
{
    assert(!mentioned_upto(records, r, records[r as int].pack_id));
}

/// A record whose pack the index holds leaves nodes and index as they are.
proof fn lemma_known_pack(
    records: Seq<DenningPhenology>,
    r: nat,
    nodes: Seq<WolfNode>,
    index: Map<u32, usize>,
)
    requires
        r < records.len(),
        nodes_describe(records, r, nodes),
        indexes(index, records, r, nodes),
        index.contains_key(records[r as int].pack_id),
    ensures
        nodes_describe(records, r + 1, nodes),
        indexes(index, records, r + 1, nodes),
{
    let id = records[r as int].pack_id;
    assert(mentioned_upto(records, r, id));
    let j = choose|j: int| 0 <= j < r && (#[trigger] records[j]).pack_id == id;
    assert(!is_first_mention(records, r as int));
    assert(first_mentions_upto(records, r + 1) == first_mentions_upto(records, r));
    assert forall|other: u32| #[trigger] index.contains_key(other) <==> mentioned_upto(
        records,
        r + 1,
        other,
    ) by {
        if mentioned_upto(records, r + 1, other) {
            let i = choose|i: int| 0 <= i < r + 1 && (#[trigger] records[i]).pack_id == other;
            if i == r {
                assert(records[j].pack_id == other);
            }
            assert(mentioned_upto(records, r, other));
        }
        if mentioned_upto(records, r, other) {
            let i = choose|i: int| 0 <= i < r && (#[trigger] records[i]).pack_id == other;
            assert(0 <= i < r + 1);
        }
    }
}

/// A node for the pack of a record that is the first to mention it, put
/// behind the others and entered in the index, keeps both in step with the
/// records.
proof fn lemma_node_added(
    records: Seq<DenningPhenology>,
    r: nat,
    nodes: Seq<WolfNode>,
    index: Map<u32, usize>,
    node: WolfNode,
)
    requires
        r < records.len(),
        nodes.len() < usize::MAX,
        nodes_describe(records, r, nodes),
        indexes(index, records, r, nodes),
        !index.contains_key(records[r as int].pack_id),
        first_mentions_upto(records, r + 1) == first_mentions_upto(records, r).push(r as int),
        describes(node, records[r as int]),
    ensures
        nodes_describe(records, r + 1, nodes.push(node)),
        indexes(
            index.insert(records[r as int].pack_id, nodes.len() as usize),
            records,
            r + 1,
            nodes.push(node),
        ),
{
    let id = records[r as int].pack_id;
    let grown = nodes.push(node);
    let entered = index.insert(id, nodes.len() as usize);
    let mentions = first_mentions_upto(records, r + 1);
    assert forall|k: int| 0 <= k < grown.len() implies describes(
        #[trigger] grown[k],
        records[mentions[k]],
    ) by {
        if k < nodes.len() {
            assert(grown[k] == nodes[k]);
            assert(mentions[k] == first_mentions_upto(records, r)[k]);
        }
    }
    assert forall|other: u32| #[trigger] entered.contains_key(other) <==> mentioned_upto(
        records,
        r + 1,
        other,
    ) by {
        if mentioned_upto(records, r + 1, other) {
            let i = choose|i: int| 0 <= i < r + 1 && (#[trigger] records[i]).pack_id == other;
            if i < r {
                assert(mentioned_upto(records, r, other));
            }
        }
        if mentioned_upto(records, r, other) {
            let i = choose|i: int| 0 <= i < r && (#[trigger] records[i]).pack_id == other;
            assert(0 <= i < r + 1);
        }
        if other == id {
            assert(records[r as int].pack_id == other);
        }
    }
    assert forall|other: u32| #[trigger] entered.contains_key(other) implies entered[other]
        < grown.len() && grown[entered[other] as int].pack_id == other by {
        if other != id {
            assert(index.contains_key(other));
            assert(grown[index[other] as int] == nodes[index[other] as int]);
        }
    }
    assert forall|k: int| 0 <= k < grown.len() implies entered.contains_key(
        (#[trigger] grown[k]).pack_id,
    ) && entered[grown[k].pack_id] == k by {
        if k < nodes.len() {
            assert(grown[k] == nodes[k]);
            assert(index.contains_key(nodes[k].pack_id));
        }
    }
}

/// Adds a node for each pack that the records mention, in the order of first
/// mention, and returns the index from pack identifiers to nodes; `None` when
/// there are more packs than a graph can hold.
fn add_pack_nodes(records: &[DenningPhenology], graph: &mut Graph<WolfNode, (), Undirected>) -> (index:
    Option<HashMap<u32, usize>>)
    requires
        graph_nodes(*old(graph)).len() == 0,
        graph_edges(*old(graph)).len() == 0,
    ensures
        index is Some <==> first_mentions(records@).len() <= u32::MAX,
        index is Some ==> {
            &&& graph_edges(*final(graph)).len() == 0
            &&& nodes_describe(records@, records@.len(), graph_nodes(*final(graph)))
            &&& indexes(index->0@, records@, records@.len(), graph_nodes(*final(graph)))
        },
{
    let mut index: HashMap<u32, usize> = HashMap::new();
    let n = records.len();
    let mut r: usize = 0;
    while r < n
        invariant
            r <= n,
            n == records@.len(),
            graph_edges(*graph).len() == 0,
            graph_nodes(*graph).len() <= u32::MAX,
            nodes_describe(records@, r as nat, graph_nodes(*graph)),
            indexes(index@, records@, r as nat, graph_nodes(*graph)),
        decreases n - r,
    {
        let record = &records[r];
        let ghost nodes_before = graph_nodes(*graph);
        let ghost index_before = index@;
        if !index.contains_key(&record.pack_id) {
            if node_count(graph) >= u32::MAX as usize {
                proof {
                    lemma_new_pack(records@, r as nat, nodes_before, index_before);
                    lemma_first_mentions_prefix(records@, (r + 1) as nat, n as nat);
                }
                return None;
            }
            let node = WolfNode {
                pack_id: record.pack_id,
                study: record.study.clone(),
                latitude: record.latitude_study,
                longitude: record.longitude_study,
            };
            let at = add_node(graph, node);
            index.insert(record.pack_id, at);
            proof {
                lemma_new_pack(records@, r as nat, nodes_before, index_before);
                lemma_node_added(records@, r as nat, nodes_before, index_before, node);
            }
        } else {
            proof {
                lemma_known_pack(records@, r as nat, nodes_before, index_before);
            }
        }
        r += 1;
    }
    Some(index)
}

/// The position of the string that names the study area `study`, if one does.
fn find_label(labels: &Vec<String>, study: &String) -> (found: Option<usize>)
    ensures
        match found {
            Some(g) => g < labels.len() && labels[g as int]@ == study@,
            None => !label_views(labels@).contains(study@),
        },
{
    let mut g: usize = 0;
    while g < labels.len()
        invariant
            g <= labels.len(),
            forall|h: int| 0 <= h < g ==> label_views(labels@)[h] != study@,
        decreases labels.len() - g,
    {
        if labels[g] == *study {
            return Some(g);
        }
        g += 1;
    }
    None
}

/// The study areas of the records, each once, in the order of first mention.
fn collect_study_labels(records: &[DenningPhenology]) -> (labels: Vec<String>)
    ensures
        label_views(labels@) == study_labels(records@),
{
    let mut labels: Vec<String> = Vec::new();
    let n = records.len();
    let mut r: usize = 0;
    while r < n
        invariant
            r <= n,
            n == records@.len(),
            label_views(labels@) == study_labels_upto(records@, r as nat),
        decreases n - r,
    {
        let found = find_label(&labels, &records[r].study);
        if found.is_none() {
            let ghost before = labels@;
            labels.push(records[r].study.clone());
            assert(label_views(labels@) =~= label_views(before).push(records@[r as int].study@));
        } else {
            assert(label_views(labels@)[found->0 as int] == records@[r as int].study@);
        }
        r += 1;
    }
    labels
}

/// The nodes of the packs recorded in the study area `label`, each once.
fn study_members(
    records: &[DenningPhenology],
    index: &HashMap<u32, usize>,
    graph: &Graph<WolfNode, (), Undirected>,
    label: &String,
) -> (members: Vec<usize>)
    requires
        indexes(index@, records@, records@.len(), graph_nodes(*graph)),
    ensures
        members_of_study(records@, graph_nodes(*graph), members@, label@),
{
    let ghost nodes = graph_nodes(*graph);
    let mut members: Vec<usize> = Vec::new();
    let mut marked: Vec<bool> = vec![false; node_count(graph)];
    let n = records.len();
    let mut r: usize = 0;
    while r < n
        invariant
            r <= n,
            n == records@.len(),
            nodes == graph_nodes(*graph),
            indexes(index@, records@, n as nat, nodes),
            members@.no_duplicates(),
            marked@.len() == nodes.len(),
            forall|x: usize|
                x < nodes.len() ==> (#[trigger] marked@[x as int] <==> members@.contains(x)),
            forall|x: usize|
                members@.contains(x) <==> x < nodes.len() && recorded_upto(
                    records@,
                    r as nat,
                    nodes[x as int].pack_id,
                    label@,
                ),
        decreases n - r,
    {
        let record = &records[r];
        let ghost before = members@;
        let ghost mut added: Option<usize> = None;
        if record.study == *label {
            assert(mentioned_upto(records@, n as nat, record.pack_id));
            let found = index.get(&record.pack_id);
            let at = *found.unwrap();
            if !marked[at] {
                marked.set(at, true);
                members.push(at);
            }
            proof {
                added = Some(at);
            }
        }
        proof {
            assert forall|x: usize|
                members@.contains(x) <==> x < nodes.len() && recorded_upto(
                    records@,
                    (r + 1) as nat,
                    nodes[x as int].pack_id,
                    label@,
                ) by {
                if x < nodes.len() {
                    assert(recorded_upto(records@, (r + 1) as nat, nodes[x as int].pack_id, label@)
                        <==> recorded_upto(records@, r as nat, nodes[x as int].pack_id, label@) || (
                    record.pack_id == nodes[x as int].pack_id && record.study@ == label@));
                }
                match added {
                    Some(at) => {
                        assert(members@.contains(x) <==> before.contains(x) || x == at) by {
                            if members@.len() > before.len() {
                                assert(members@ == before.push(at));
                                assert(members@[before.len() as int] == at);
                                if before.contains(x) {
                                    let q = choose|q: int| 0 <= q < before.len() && before[q] == x;
                                    assert(members@[q] == x);
                                }
                            }
                        }
                    },
                    None => {},
                }
            }
        }
        r += 1;
    }
    assert(records@.len() == n);
    proof {
        assert forall|x: usize|
            members@.contains(x) <==> x < nodes.len() && recorded_in(
                records@,
                nodes[x as int].pack_id,
                label@,
            ) by {
            if x < nodes.len() {
                assert(recorded_in(records@, nodes[x as int].pack_id, label@) <==> recorded_upto(
                    records@,
                    n as nat,
                    nodes[x as int].pack_id,
                    label@,
                ));
            }
        }
    }
    members
}

/// Whether the pairs among `k` things number at most `room`.
fn pairs_fit(k: usize, room: usize) -> (fit: bool)
    ensures
        fit == (pair_count(k as nat) <= room),
{
    if k == 0 {
        return true;
    }
    assert(k * (k - 1) <= 0xFFFF_FFFF_FFFF_FFFF * 0xFFFF_FFFF_FFFF_FFFF) by (nonlinear_arith)
        requires
            1 <= k <= 0xFFFF_FFFF_FFFF_FFFF,
    ;
    let pairs: u128 = (k as u128) * ((k - 1) as u128) / 2;
    pairs <= room as u128
}

/// Joins every two of `members` by an edge.
fn connect_members(graph: &mut Graph<WolfNode, (), Undirected>, members: &Vec<usize>)
    requires
        members@.no_duplicates(),
        forall|p: int| 0 <= p < members.len() ==> members[p] < graph_nodes(*old(graph)).len(),
        graph_edges(*old(graph)).len() + pair_count(members.len() as nat) <= u32::MAX,
        forall|e: int|
            0 <= e < graph_edges(*old(graph)).len() ==> joins_two_nodes(
                #[trigger] graph_edges(*old(graph))[e],
                graph_nodes(*old(graph)).len(),
            ),
    ensures
        graph_nodes(*final(graph)) == graph_nodes(*old(graph)),
        graph_edges(*final(graph)) == graph_edges(*old(graph)) + clique(
            members@,
            members.len() as int,
        ),
        forall|e: int|
            0 <= e < graph_edges(*final(graph)).len() ==> joins_two_nodes(
                #[trigger] graph_edges(*final(graph))[e],
                graph_nodes(*final(graph)).len(),
            ),
{
    let ghost nodes = graph_nodes(*graph);
    let ghost before = graph_edges(*graph);
    let k = members.len();
    let mut j: usize = 0;
    assert(graph_edges(*graph) =~= before + clique(members@, 0));
    while j < k
        invariant
            j <= k,
            k == members.len(),
            members@.no_duplicates(),
            forall|p: int| 0 <= p < members.len() ==> members[p] < nodes.len(),
            graph_nodes(*graph) == nodes,
            graph_edges(*graph) == before + clique(members@, j as int),
            before.len() + pair_count(k as nat) <= u32::MAX,
            forall|e: int|
                0 <= e < graph_edges(*graph).len() ==> joins_two_nodes(
                    #[trigger] graph_edges(*graph)[e],
                    nodes.len(),
                ),
        decreases k - j,
    {
        let mut i: usize = 0;
        assert(graph_edges(*graph) =~= before + clique(members@, j as int) + fan(
            members@,
            j as int,
            0,
        ));
        while i < j
            invariant
                i <= j,
                j < k,
                k == members.len(),
                members@.no_duplicates(),
                forall|p: int| 0 <= p < members.len() ==> members[p] < nodes.len(),
                graph_nodes(*graph) == nodes,
                graph_edges(*graph) == before + clique(members@, j as int) + fan(
                    members@,
                    j as int,
                    i as int,
                ),
                before.len() + pair_count(k as nat) <= u32::MAX,
                forall|e: int|
                    0 <= e < graph_edges(*graph).len() ==> joins_two_nodes(
                        #[trigger] graph_edges(*graph)[e],
                        nodes.len(),
                    ),
            decreases j - i,
        {
            let ghost earlier = graph_edges(*graph);
            proof {
                lemma_clique_len(members@, j as int);
                lemma_fan_len(members@, j as int, i as int);
                lemma_pair_count_step(j as nat);
                lemma_pair_count_monotonic((j + 1) as nat, k as nat);
            }
            add_edge(graph, members[i], members[j]);
            proof {
                assert(graph_edges(*graph) =~= before + clique(members@, j as int) + fan(
                    members@,
                    j as int,
                    i + 1,
                ));
                assert(members@[i as int] != members@[j as int]);
                assert forall|e: int| 0 <= e < graph_edges(*graph).len() implies joins_two_nodes(
                    #[trigger] graph_edges(*graph)[e],
                    nodes.len(),
                ) by {
                    if e < earlier.len() {
                        assert(graph_edges(*graph)[e] == earlier[e]);
                    }
                }
            }
            i += 1;
        }
        assert(graph_edges(*graph) =~= before + clique(members@, j + 1));
        j += 1;
    }
}

/// Builds the co-location graph of the records, or returns `None` when it
/// would not fit 32-bit node and edge indices.
///
/// The graph has one node for each pack, in the order in which the records
/// first mention the packs, and each node carries the study area and the
/// coordinates of the first record of its pack. Two packs are joined by one
/// edge for each study area in which both were recorded: packs recorded
/// together in two areas are joined twice. However many records a pack has
/// in an area, it counts once there, and no edge joins a node to itself.
/// The order of the edges is left open.
pub fn try_build_graph(denning_data: &[DenningPhenology]) -> (result: Option<
    Graph<WolfNode, (), Undirected>,
>)
    ensures
        result is Some <==> within_capacity(denning_data@),
        result is Some ==> colocation_graph(
            denning_data@,
            graph_nodes(result->0),
            graph_edges(result->0),
        ),
{
    let ghost records = denning_data@;
    let mut graph = new_graph();
    proof {
        lemma_first_mentions_count(records);
    }
    let index = match add_pack_nodes(denning_data, &mut graph) {
        Some(index) => index,
        None => {
            return None;
        },
    };
    let labels = collect_study_labels(denning_data);
    let ghost nodes = graph_nodes(graph);
    let ghost areas = study_labels(records);
    proof {
        assert forall|id: u32| mentions_pack(records, id) implies exists|k: int|
            0 <= k < nodes.len() && (#[trigger] nodes[k]).pack_id == id by {
            assert(mentioned_upto(records, records.len(), id));
            assert(index@.contains_key(id));
            assert(nodes[index@[id] as int].pack_id == id);
        }
    }
    let mut g: usize = 0;
    while g < labels.len()
        invariant
            g <= labels.len(),
            records == denning_data@,
            areas == study_labels(records),
            label_views(labels@) == areas,
            graph_nodes(graph) == nodes,
            nodes.len() <= u32::MAX,
            indexes(index@, records, records.len(), nodes),
            one_node_per_pack(records, nodes),
            graph_edges(graph).len() == clique_total(records, areas, g as nat),
            graph_edges(graph).len() <= u32::MAX,
            forall|e: int|
                0 <= e < graph_edges(graph).len() ==> joins_two_nodes(
                    #[trigger] graph_edges(graph)[e],
                    nodes.len(),
                ),
            forall|a: int, b: int|
                0 <= a < nodes.len() && 0 <= b < nodes.len() && a != b ==> #[trigger] multiplicity(
                    graph_edges(graph),
                    a,
                    b,
                ) == shared_count(records, areas, g as nat, nodes[a].pack_id, nodes[b].pack_id),
        decreases labels.len() - g,
    {
        let members = study_members(denning_data, &index, &graph, &labels[g]);
        let ghost earlier = graph_edges(graph);
        proof {
            assert(areas[g as int] == labels@[g as int]@);
            lemma_members_count(records, nodes, members@, areas[g as int]);
        }
        let room = u32::MAX as usize - edge_count(&graph);
        if !pairs_fit(members.len(), room) {
            proof {
                lemma_clique_total_monotonic(records, areas, (g + 1) as nat, areas.len());
            }
            return None;
        }
        proof {
            assert forall|p: int| 0 <= p < members.len() implies members[p] < nodes.len() by {
                assert(members@.contains(members@[p]));
            }
        }
        connect_members(&mut graph, &members);
        proof {
            let added = clique(members@, members.len() as int);
            lemma_clique_len(members@, members.len() as int);
            assert forall|a: int, b: int|
                0 <= a < nodes.len() && 0 <= b < nodes.len() && a != b implies #[trigger] multiplicity(
                graph_edges(graph),
                a,
                b,
            ) == shared_count(
                records,
                areas,
                (g + 1) as nat,
                nodes[a].pack_id,
                nodes[b].pack_id,
            ) by {
                lemma_multiplicity_concat(earlier, added, a, b);
                lemma_clique_multiplicity(members@, members.len() as int, a, b);
                assert(among(members@, members.len() as int, a) <==> members@.contains(a as usize));
                assert(among(members@, members.len() as int, b) <==> members@.contains(b as usize));
                assert(multiplicity(earlier, a, b) == shared_count(
                    records,
                    areas,
                    g as nat,
                    nodes[a].pack_id,
                    nodes[b].pack_id,
                ));
            }
        }
        g += 1;
    }
    proof {
        assert forall|a: int, b: int|
            0 <= a < nodes.len() && 0 <= b < nodes.len() && a != b implies #[trigger] multiplicity(
            graph_edges(graph),
            a,
            b,
        ) == shared_studies(records, nodes[a].pack_id, nodes[b].pack_id).len() by {
            lemma_shared_studies_count(records, nodes[a].pack_id, nodes[b].pack_id);
        }
    }
    Some(graph)
}

/// Builds the co-location graph of the records, as [`try_build_graph`] does,
/// for records whose graph fits 32-bit node and edge indices.
pub fn build_graph(denning_data: &[DenningPhenology]) -> (graph: Graph<WolfNode, (), Undirected>)
    requires
        within_capacity(denning_data@),
    ensures
        colocation_graph(denning_data@, graph_nodes(graph), graph_edges(graph)),
{
    try_build_graph(denning_data).unwrap()
}

/// Computes the degree centrality of each pack: the number of edges at its
/// node. Packs without an edge have degree 0. Where several nodes have one
/// pack, which no graph of [`build_graph`] has, the degree is that of the last.
pub fn compute_degree_centrality(graph: &Graph<WolfNode, (), Undirected>) -> (centrality: HashMap<
    u32,
    usize,
>)
    ensures
        is_degree_centrality(
            graph_nodes(*graph),
            graph_edges(*graph),
            graph_nodes(*graph).len() as int,
            centrality@,
        ),
{
    let ghost nodes = graph_nodes(*graph);
    let ghost edges = graph_edges(*graph);
    let mut centrality: HashMap<u32, usize> = HashMap::new();
    let n = node_count(graph);
    let mut k: usize = 0;
    assert(forall|id: u32| !has_node(nodes, 0, id));
    while k < n
        invariant
            k <= n,
            n == nodes.len(),
            nodes == graph_nodes(*graph),
            edges == graph_edges(*graph),
            is_degree_centrality(nodes, edges, k as int, centrality@),
        decreases n - k,
    {
        let ghost before = centrality@;
        let pack_id = node_weight(graph, k).pack_id;
        let degree = incident_edge_count(graph, k);
        centrality.insert(pack_id, degree);
        proof {
            assert forall|id: u32| #[trigger] centrality@.contains_key(id) <==> has_node(
                nodes,
                k + 1,
                id,
            ) by {
                if has_node(nodes, k + 1, id) {
                    let at = choose|at: int| 0 <= at < k + 1 && (#[trigger] nodes[at]).pack_id == id;
                    if at < k {
                        assert(has_node(nodes, k as int, id));
                    }
                }
                if has_node(nodes, k as int, id) {
                    let at = choose|at: int| 0 <= at < k && (#[trigger] nodes[at]).pack_id == id;
                    assert(0 <= at < k + 1);
                }
                if id == pack_id {
                    assert(nodes[k as int].pack_id == id);
                }
            }
            assert forall|at: int| 0 <= at < k + 1 && is_last_of_pack(nodes, at, k + 1) implies
                centrality@[(#[trigger] nodes[at]).pack_id] == incident_count(edges, at) by {
                if at < k {
                    assert(nodes[k as int].pack_id != nodes[at].pack_id);
                    assert(is_last_of_pack(nodes, at, k as int));
                }
            }
        }
        k += 1;
    }
    centrality
}

/// The first mentions are first mentions, in ascending order.
pub proof fn lemma_first_mentions_are_first(records: Seq<DenningPhenology>)
    ensures
        forall|k: int|
            0 <= k < first_mentions(records).len() ==> 0 <= (#[trigger] first_mentions(records)[k])
                < records.len() && is_first_mention(records, first_mentions(records)[k]),
        forall|k1: int, k2: int|
            0 <= k1 < k2 < first_mentions(records).len() ==> (#[trigger] first_mentions(
                records,
            )[k1]) < (#[trigger] first_mentions(records)[k2]),
{
    lemma_first_mentions(records, records.len());
}

/// There are as many first mentions as packs: the graph has one node for
/// each pack that the records mention.
pub proof fn lemma_node_count_is_pack_count(records: Seq<DenningPhenology>)
    ensures
        pack_ids(records).finite(),
        first_mentions(records).len() == pack_ids(records).len(),
{
    lemma_first_mentions_count(records);
}

/// The sets that the contracts count are finite: the packs of the records,
/// the packs recorded in a study area, and the study areas that two packs
/// share.
pub proof fn lemma_counted_sets_are_finite(
    records: Seq<DenningPhenology>,
    a: u32,
    b: u32,
    study: Seq<char>,
)
    ensures
        pack_ids(records).finite(),
        packs_in(records, study).finite(),
        shared_studies(records, a, b).finite(),
{
    lemma_first_mentions_count(records);
    lemma_shared_studies_count(records, a, b);
    assert(packs_in(records, study).subset_of(pack_ids(records))) by {
        assert forall|id: u32| packs_in(records, study).contains(id) implies pack_ids(
            records,
        ).contains(id) by {
            let i = choose|i: int|
                0 <= i < records.len() && (#[trigger] records[i]).pack_id == id && records[i].study@
                    == study;
            assert(mentions_pack(records, id));
        }
    }
    vstd::set_lib::lemma_set_subset_finite(pack_ids(records), packs_in(records, study));
}

/// In the co-location graph each pack that the records mention has exactly
/// one node.
pub proof fn lemma_one_node_per_pack(records: Seq<DenningPhenology>, nodes: Seq<WolfNode>)
    requires
        colocation_nodes(records, nodes),
    ensures
        one_node_per_pack(records, nodes),
{
    let mentions = first_mentions(records);
    lemma_first_mentions(records, records.len());
    assert forall|k1: int, k2: int|
        0 <= k1 < nodes.len() && 0 <= k2 < nodes.len() && k1 != k2 implies (
    #[trigger] nodes[k1]).pack_id != (#[trigger] nodes[k2]).pack_id by {
        if k1 < k2 {
            assert(mentions[k1] < mentions[k2]);
            assert(is_first_mention(records, mentions[k2]));
        } else {
            assert(mentions[k2] < mentions[k1]);
            assert(is_first_mention(records, mentions[k1]));
        }
    }
    assert forall|id: u32| mentions_pack(records, id) implies exists|k: int|
        0 <= k < nodes.len() && (#[trigger] nodes[k]).pack_id == id by {
        let j = choose|j: int| 0 <= j < records.len() && (#[trigger] records[j]).pack_id == id;
        let k = choose|k: int|
            0 <= k < mentions.len() && records[(#[trigger] mentions[k])].pack_id
                == records[j].pack_id;
        assert(nodes[k].pack_id == id);
    }
}

/// Two records with one study area and different packs: the nodes of the two
/// packs are joined by an edge of the co-location graph.
pub proof fn lemma_shared_study_joins(
    records: Seq<DenningPhenology>,
    nodes: Seq<WolfNode>,
    edges: Seq<(int, int)>,
    i: int,
    j: int,
)
    requires
        colocation_graph(records, nodes, edges),
        0 <= i < records.len(),
        0 <= j < records.len(),
        records[i].study@ == records[j].study@,
        records[i].pack_id != records[j].pack_id,
    ensures
        exists|a: int, b: int, e: int|
            #![trigger nodes[a], nodes[b], edges[e]]
            0 <= a < nodes.len() && 0 <= b < nodes.len() && 0 <= e < edges.len() && nodes[a].pack_id
                == records[i].pack_id && nodes[b].pack_id == records[j].pack_id && joins(
                edges[e],
                a,
                b,
            ),
{
    lemma_one_node_per_pack(records, nodes);
    let first = records[i].pack_id;
    let second = records[j].pack_id;
    assert(mentions_pack(records, first));
    assert(mentions_pack(records, second));
    let a = choose|a: int| 0 <= a < nodes.len() && (#[trigger] nodes[a]).pack_id == first;
    let b = choose|b: int| 0 <= b < nodes.len() && (#[trigger] nodes[b]).pack_id == second;
    lemma_shared_studies_count(records, first, second);
    assert(recorded_in(records, first, records[i].study@));
    assert(recorded_in(records, second, records[i].study@));
    assert(shared_studies(records, first, second).contains(records[i].study@));
    assert(multiplicity(edges, a, b) > 0);
    lemma_multiplicity_witness(edges, a, b);
    let e = choose|e: int| 0 <= e < edges.len() && joins(#[trigger] edges[e], a, b);
    assert(nodes[a].pack_id == first && nodes[b].pack_id == second && joins(edges[e], a, b));
}

/// One more edge adds one to the degree of each of its endpoints.
proof fn lemma_degree_sum_push(edges: Seq<(int, int)>, edge: (int, int), n: nat)
    ensures
        degree_sum(edges.push(edge), n) == degree_sum(edges, n) + (if 0 <= edge.0 < n {
            1nat
        } else {
            0nat
        }) + (if 0 <= edge.1 < n && edge.1 != edge.0 {
            1nat
        } else {
            0nat
        }),
    decreases n,
{
    if n > 0 {
        lemma_degree_sum_push(edges, edge, (n - 1) as nat);
        assert(edges.push(edge).drop_last() =~= edges);
    }
}

/// The degrees of the nodes add up to twice the number of edges, in every
/// graph whose edges join different nodes.
pub proof fn lemma_handshake(edges: Seq<(int, int)>, n: nat)
    requires
        forall|e: int| 0 <= e < edges.len() ==> joins_two_nodes(#[trigger] edges[e], n),
    ensures
        degree_sum(edges, n) == 2 * edges.len(),
    decreases edges.len(),
{
    if edges.len() == 0 {
        lemma_degree_sum_empty(edges, n);
    } else {
        let rest = edges.drop_last();
        assert forall|e: int| 0 <= e < rest.len() implies joins_two_nodes(#[trigger] rest[e], n) by {
            assert(rest[e] == edges[e]);
        }
        lemma_handshake(rest, n);
        lemma_degree_sum_push(rest, edges.last(), n);
        assert(rest.push(edges.last()) =~= edges);
        assert(joins_two_nodes(edges[edges.len() - 1], n));
    }
}

/// Without edges every degree is 0.
proof fn lemma_degree_sum_empty(edges: Seq<(int, int)>, n: nat)
    requires
        edges.len() == 0,
    ensures
        degree_sum(edges, n) == 0,
    decreases n,
{
    if n > 0 {
        lemma_degree_sum_empty(edges, (n - 1) as nat);
    }
}

/// Where no two nodes have one pack, the centrality has one entry for each
/// node, and it holds the degree of that node.
pub proof fn lemma_centrality_of_distinct_packs(
    nodes: Seq<WolfNode>,
    edges: Seq<(int, int)>,
    centrality: Map<u32, usize>,
)
    requires
        is_degree_centrality(nodes, edges, nodes.len() as int, centrality),
        forall|k1: int, k2: int|
            0 <= k1 < nodes.len() && 0 <= k2 < nodes.len() && k1 != k2 ==> (
            #[trigger] nodes[k1]).pack_id != (#[trigger] nodes[k2]).pack_id,
    ensures
        centrality.dom().finite(),
        centrality.len() == nodes.len(),
        forall|k: int|
            0 <= k < nodes.len() ==> centrality.contains_key((#[trigger] nodes[k]).pack_id)
                && centrality[nodes[k].pack_id] == incident_count(edges, k),
{
    let ids = Seq::new(nodes.len(), |k: int| nodes[k].pack_id);
    assert forall|k: int| 0 <= k < nodes.len() implies centrality.contains_key(
        (#[trigger] nodes[k]).pack_id,
    ) && centrality[nodes[k].pack_id] == incident_count(edges, k) by {
        assert(has_node(nodes, nodes.len() as int, nodes[k].pack_id));
        assert(is_last_of_pack(nodes, k, nodes.len() as int));
    }
    assert forall|id: u32| ids.to_set().contains(id) <==> centrality.dom().contains(id) by {
        if ids.to_set().contains(id) {
            let k = choose|k: int| 0 <= k < ids.len() && ids[k] == id;
            assert(nodes[k].pack_id == id);
        }
        if centrality.dom().contains(id) {
            assert(has_node(nodes, nodes.len() as int, id));
            let k = choose|k: int| 0 <= k < nodes.len() && (#[trigger] nodes[k]).pack_id == id;
            assert(ids[k] == id);
        }
    }
    assert(ids.to_set() =~= centrality.dom());
    assert forall|k1: int, k2: int| 0 <= k1 < ids.len() && 0 <= k2 < ids.len() && k1 != k2 implies
        ids[k1] != ids[k2] by {
        assert(nodes[k1].pack_id != nodes[k2].pack_id);
    }
    ids.unique_seq_to_set();
}

/// Records without entries have the graph without nodes and edges.
pub proof fn lemma_empty_records(
    records: Seq<DenningPhenology>,
    nodes: Seq<WolfNode>,
    edges: Seq<(int, int)>,
)
    requires
        records.len() == 0,
        colocation_graph(records, nodes, edges),
    ensures
        nodes.len() == 0,
        edges.len() == 0,
{
    if edges.len() > 0 {
        assert(joins_two_nodes(edges[0], nodes.len()));
    }
}

} // verus!
