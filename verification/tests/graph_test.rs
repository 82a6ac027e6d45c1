use petgraph::graph::NodeIndex;
use wolf_project_210::data::{Binary64, CalendarDate, DenningPhenology};
use wolf_project_210::graph::{build_graph, compute_degree_centrality, try_build_graph};

fn number(value: f64) -> Binary64 {
    Binary64::from_bits(value.to_bits())
}

fn record(pack_id: u32, study: &str) -> DenningPhenology {
    DenningPhenology {
        uid: pack_id,
        study: study.to_string(),
        longitude_study: number(-147.0),
        latitude_study: number(64.0),
        pack_id,
        denning_date: CalendarDate { year: 2020, month: 5, day: 10 },
        denning_doy: 130,
        denned: 1,
        fall_tmax: Some(15),
        summer_tmax_prev1: Some(25),
        winter_tmax: Some(10),
        fall_prcp: Some(120),
        summer_prcp_prev1: Some(110),
        winter_swe: Some(250),
        ti_ndvi_prev1: Some(number(0.6)),
        annual_pdo: Some(number(1.0)),
        annual_ao: Some(number(0.5)),
        sos_prev1: Some(number(0.5)),
        los_prev1: Some(number(0.8)),
        latitude_individual: number(60.0),
    }
}

fn mock_denning_data() -> Vec<DenningPhenology> {
    vec![DenningPhenology {
        uid: 1,
        study: "Study A".to_string(),
        longitude_study: number(0.0),
        latitude_study: number(0.0),
        pack_id: 1,
        denning_date: CalendarDate { year: 2020, month: 5, day: 10 },
        denning_doy: 130,
        denned: 1,
        fall_tmax: Some(15),
        summer_tmax_prev1: Some(25),
        winter_tmax: Some(10),
        fall_prcp: Some(120),
        summer_prcp_prev1: Some(110),
        winter_swe: Some(250),
        ti_ndvi_prev1: Some(number(0.6)),
        annual_pdo: Some(number(1.0)),
        annual_ao: Some(number(0.5)),
        sos_prev1: Some(number(0.5)),
        los_prev1: Some(number(0.8)),
        latitude_individual: number(60.0),
    }]
}

#[test]
fn test_build_graph() {
    let denning_data = mock_denning_data();
    let graph = build_graph(&denning_data);

    assert!(graph.node_count() > 0, "Graph should have at least one node");
    assert!(graph.edge_count() >= 0, "Graph should have at least zero edges");
}

#[test]
fn test_compute_degree_centrality() {
    let denning_data = mock_denning_data();
    let graph = build_graph(&denning_data);
    let centrality = compute_degree_centrality(&graph);

    assert!(!centrality.is_empty(), "Centrality map should not be empty");
}

#[test]
fn two_packs_share_one_study_and_one_is_alone() {
    let records = vec![record(1, "S1"), record(2, "S1"), record(3, "S2")];
    let graph = build_graph(&records);
    assert_eq!(graph.node_count(), 3);
    assert_eq!(graph.edge_count(), 1);
    assert!(graph.find_edge(NodeIndex::new(0), NodeIndex::new(1)).is_some());
    assert_eq!(graph[NodeIndex::new(0)].pack_id, 1);
    assert_eq!(graph[NodeIndex::new(1)].pack_id, 2);
    assert_eq!(graph[NodeIndex::new(2)].pack_id, 3);
    let centrality = compute_degree_centrality(&graph);
    assert_eq!(centrality.len(), 3);
    assert_eq!(centrality[&1], 1);
    assert_eq!(centrality[&2], 1);
    assert_eq!(centrality[&3], 0);
}

#[test]
fn three_packs_in_one_study_form_a_triangle() {
    let records = vec![record(1, "S1"), record(2, "S1"), record(3, "S1")];
    let graph = build_graph(&records);
    assert_eq!(graph.node_count(), 3);
    assert_eq!(graph.edge_count(), 3);
    let centrality = compute_degree_centrality(&graph);
    assert_eq!(centrality[&1], 2);
    assert_eq!(centrality[&2], 2);
    assert_eq!(centrality[&3], 2);
}

#[test]
fn empty_input_gives_an_empty_graph() {
    let records: Vec<DenningPhenology> = Vec::new();
    let graph = build_graph(&records);
    assert_eq!(graph.node_count(), 0);
    assert_eq!(graph.edge_count(), 0);
    assert!(compute_degree_centrality(&graph).is_empty());
}

#[test]
fn a_pack_has_one_node_whatever_the_number_of_its_records() {
    let mut first = record(7, "S1");
    first.latitude_study = number(61.5);
    first.longitude_study = number(-150.25);
    let mut second = record(7, "S2");
    second.latitude_study = number(10.0);
    let records = vec![first, second, record(7, "S1"), record(8, "S1")];
    let graph = build_graph(&records);
    assert_eq!(graph.node_count(), 2);
    let node = &graph[NodeIndex::new(0)];
    assert_eq!(node.pack_id, 7);
    assert_eq!(node.study, "S1");
    assert_eq!(f64::from_bits(node.latitude.to_bits()), 61.5);
    assert_eq!(f64::from_bits(node.longitude.to_bits()), -150.25);
    // The two records of pack 7 in S1 give neither a loop nor a second edge.
    assert_eq!(graph.edge_count(), 1);
    let centrality = compute_degree_centrality(&graph);
    assert_eq!(centrality[&7], 1);
    assert_eq!(centrality[&8], 1);
}

#[test]
fn packs_sharing_two_studies_are_joined_twice() {
    let records = vec![record(1, "S1"), record(2, "S1"), record(1, "S2"), record(2, "S2")];
    let graph = build_graph(&records);
    assert_eq!(graph.node_count(), 2);
    assert_eq!(graph.edge_count(), 2);
    let centrality = compute_degree_centrality(&graph);
    assert_eq!(centrality[&1], 2);
    assert_eq!(centrality[&2], 2);
}

#[test]
fn degrees_add_up_to_twice_the_edge_count() {
    let records = vec![
        record(1, "S1"),
        record(2, "S1"),
        record(3, "S1"),
        record(4, "S2"),
        record(1, "S2"),
        record(5, "S3"),
        record(4, "S1"),
    ];
    let graph = build_graph(&records);
    // S1 holds packs 1, 2, 3, 4: six pairs. S2 holds packs 4, 1: one pair.
    assert_eq!(graph.node_count(), 5);
    assert_eq!(graph.edge_count(), 7);
    let centrality = compute_degree_centrality(&graph);
    let sum: usize = centrality.values().sum();
    assert_eq!(sum, 2 * graph.edge_count());
    assert_eq!(centrality[&1], 4);
    assert_eq!(centrality[&4], 4);
    assert_eq!(centrality[&2], 3);
    assert_eq!(centrality[&5], 0);
    for edge in graph.raw_edges() {
        assert!(edge.source().index() < graph.node_count());
        assert!(edge.target().index() < graph.node_count());
        assert_ne!(edge.source(), edge.target());
    }
}

#[test]
fn try_build_graph_builds_what_build_graph_builds() {
    let records = vec![record(1, "S1"), record(2, "S1"), record(3, "S2")];
    let graph = try_build_graph(&records).expect("three packs fit any graph");
    assert_eq!(graph.node_count(), 3);
    assert_eq!(graph.edge_count(), 1);
}

#[test]
fn centrality_of_a_graph_with_a_repeated_pack_keeps_the_last_node() {
    let mut graph = build_graph(&[record(1, "S1"), record(2, "S1")]);
    let node = graph[NodeIndex::new(0)].clone();
    let copy = graph.add_node(node);
    graph.add_edge(copy, NodeIndex::new(1), ());
    graph.add_edge(copy, NodeIndex::new(1), ());
    graph.add_edge(copy, copy, ());
    let centrality = compute_degree_centrality(&graph);
    assert_eq!(centrality.len(), 2);
    // Node 2 repeats pack 1 and has two edges to node 1 and one loop.
    assert_eq!(centrality[&1], 3);
    assert_eq!(centrality[&2], 3);
}

#[test]
fn a_study_with_too_many_packs_for_32_bit_edge_indices_gives_no_graph() {
    // 92683 packs have 4294976903 pairs, more than the largest 32-bit number.
    let mut records = Vec::new();
    for pack_id in 1..=92683u32 {
        records.push(record(pack_id, "S1"));
    }
    assert!(try_build_graph(&records).is_none());
}

#[test]
fn a_large_study_joins_every_two_packs() {
    let mut records = Vec::new();
    for pack_id in 1..=300u32 {
        records.push(record(pack_id, "S1"));
        records.push(record(pack_id, "S1"));
    }
    records.push(record(1000, "S2"));
    let graph = build_graph(&records);
    assert_eq!(graph.node_count(), 301);
    assert_eq!(graph.edge_count(), 300 * 299 / 2);
    let centrality = compute_degree_centrality(&graph);
    assert_eq!(centrality[&17], 299);
    assert_eq!(centrality[&1000], 0);
}
