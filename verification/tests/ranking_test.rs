use std::collections::HashMap;
use wolf_project_210::data::{Binary64, CalendarDate, DenningPhenology};
use wolf_project_210::graph::{build_graph, compute_degree_centrality};
use wolf_project_210::ranking::top_central_packs;

fn record(pack_id: u32, study: &str) -> DenningPhenology {
    let number = |value: f64| Binary64::from_bits(value.to_bits());
    DenningPhenology {
        uid: pack_id,
        study: study.to_string(),
        longitude_study: number(-147.0),
        latitude_study: number(64.0),
        pack_id,
        denning_date: CalendarDate { year: 2020, month: 5, day: 10 },
        denning_doy: 130,
        denned: 1,
        fall_tmax: Some(15),
        summer_tmax_prev1: Some(25),
        winter_tmax: Some(10),
        fall_prcp: Some(120),
        summer_prcp_prev1: Some(110),
        winter_swe: Some(250),
        ti_ndvi_prev1: Some(number(0.6)),
        annual_pdo: Some(number(1.0)),
        annual_ao: Some(number(0.5)),
        sos_prev1: Some(number(0.5)),
        los_prev1: Some(number(0.8)),
        latitude_individual: number(60.0),
    }
}

fn centrality_of(entries: &[(u32, usize)]) -> HashMap<u32, usize> {
    let mut centrality = HashMap::new();
    for (pack_id, degree) in entries {
        centrality.insert(*pack_id, *degree);
    }
    centrality
}

#[test]
fn the_top_two_of_a_triangle_have_degree_two() {
    let records = vec![record(1, "S1"), record(2, "S1"), record(3, "S1")];
    let centrality = compute_degree_centrality(&build_graph(&records));
    let ranked = top_central_packs(&centrality, 2);
    assert_eq!(ranked.len(), 2);
    assert_eq!(ranked[0].1, 2);
    assert_eq!(ranked[1].1, 2);
    // Of equal degrees the smaller pack comes first.
    assert_eq!(ranked, vec![(1, 2), (2, 2)]);
}

#[test]
fn packs_are_ranked_by_degree_and_then_by_identifier() {
    let centrality = centrality_of(&[(10, 1), (7, 3), (3, 0), (9, 3), (4, 1), (1, 2)]);
    let ranked = top_central_packs(&centrality, 6);
    assert_eq!(ranked, vec![(7, 3), (9, 3), (1, 2), (4, 1), (10, 1), (3, 0)]);
    assert_eq!(top_central_packs(&centrality, 3), vec![(7, 3), (9, 3), (1, 2)]);
    assert_eq!(top_central_packs(&centrality, 1), vec![(7, 3)]);
}

#[test]
fn a_ranking_is_no_longer_than_the_population() {
    let centrality = centrality_of(&[(1, 5), (2, 6)]);
    assert_eq!(top_central_packs(&centrality, 5), vec![(2, 6), (1, 5)]);
    assert_eq!(top_central_packs(&centrality, usize::MAX), vec![(2, 6), (1, 5)]);
}

#[test]
fn the_top_zero_is_empty() {
    let centrality = centrality_of(&[(1, 5), (2, 6)]);
    assert!(top_central_packs(&centrality, 0).is_empty());
}

#[test]
fn an_empty_centrality_has_an_empty_ranking() {
    let centrality = centrality_of(&[]);
    assert!(top_central_packs(&centrality, 5).is_empty());
}

#[test]
fn a_large_ranking_is_sorted() {
    let mut entries = Vec::new();
    for id in 0..200u32 {
        entries.push((id, ((id * 37) % 11) as usize));
    }
    let ranked = top_central_packs(&centrality_of(&entries), 150);
    assert_eq!(ranked.len(), 150);
    for pair in ranked.windows(2) {
        assert!(pair[0].1 > pair[1].1 || (pair[0].1 == pair[1].1 && pair[0].0 < pair[1].0));
    }
    assert_eq!(ranked[0], (8, 10));
    assert_eq!(ranked[1], (19, 10));
}
