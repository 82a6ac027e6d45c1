//! Analysis of wolf denning phenology and reproductive success records:
//! record validation, the co-location graph of packs with its degree
//! centrality and ranking, and the summary statistics drawn from the records.

pub mod chart;
pub mod data;
pub mod fields;
pub mod graph;
mod graph_proofs;
pub mod graph_store;
pub mod ranking;
pub mod report;

use crate::data::{DenningPhenology, ReproductiveSuccess};
use crate::graph::mentions_pack;
use vstd::prelude::*;

verus! {

/// Whether the pack `id` has a denning record.
fn has_denning_record(denning_data: &[DenningPhenology], id: u32) -> (found: bool)
    ensures
        found == mentions_pack(denning_data@, id),
{
    let mut i: usize = 0;
    while i < denning_data.len()
        invariant
            i <= denning_data.len(),
            forall|j: int| 0 <= j < i ==> (#[trigger] denning_data@[j]).pack_id != id,
        decreases denning_data.len() - i,
    {
        if denning_data[i].pack_id == id {
            return true;
        }
        i += 1;
    }
    false
}

/// The difference between the summer and the winter maximum temperature of a
/// reproductive record, in degrees, where the record has both and its pack
/// has a denning record.
pub open spec fn temperature_difference(
    denning: Seq<DenningPhenology>,
    record: ReproductiveSuccess,
) -> Option<int> {
    match (record.summer_tmax, record.winter_tmax) {
        (Some(summer), Some(winter)) => if mentions_pack(denning, record.pack_id) {
            Some(summer - winter)
        } else {
            None
        },
        _ => None,
    }
}

/// The temperature differences of the first `n` reproductive records that
/// have one, in the order of the records.
pub open spec fn temperature_impact(
    denning: Seq<DenningPhenology>,
    reproductive: Seq<ReproductiveSuccess>,
    n: nat,
) -> Seq<int>
    decreases n,
{
    if n == 0 {
        Seq::empty()
    } else {
        let earlier = temperature_impact(denning, reproductive, (n - 1) as nat);
        match temperature_difference(denning, reproductive[n - 1]) {
            Some(difference) => earlier.push(difference),
            None => earlier,
        }
    }
}

/// The difference between the winter snow water equivalent and the fall
/// precipitation of a reproductive record, in millimetres, where the record
/// has both and its pack has a denning record.
pub open spec fn snow_cover_difference(
    denning: Seq<DenningPhenology>,
    record: ReproductiveSuccess,
) -> Option<int> {
    match (record.winter_swe, record.fall_prcp) {
        (Some(snow), Some(rain)) => if mentions_pack(denning, record.pack_id) {
            Some(snow - rain)
        } else {
            None
        },
        _ => None,
    }
}

/// The snow cover differences of the first `n` reproductive records that have
/// one, in the order of the records.
pub open spec fn snow_cover_impact(
    denning: Seq<DenningPhenology>,
    reproductive: Seq<ReproductiveSuccess>,
    n: nat,
) -> Seq<int>
    decreases n,
{
    if n == 0 {
        Seq::empty()
    } else {
        let earlier = snow_cover_impact(denning, reproductive, (n - 1) as nat);
        match snow_cover_difference(denning, reproductive[n - 1]) {
            Some(difference) => earlier.push(difference),
            None => earlier,
        }
    }
}

/// The numbers of a vector as mathematical integers.
pub open spec fn as_ints(values: Seq<i64>) -> Seq<int> {
    Seq::new(values.len(), |i: int| values[i] as int)
}

/// For each reproductive record that has both temperatures and whose pack
/// has a denning record, the summer maximum less the winter maximum.
pub fn analyze_temperature_impact(
    denning_data: &[DenningPhenology],
    reproductive_data: &[ReproductiveSuccess],
) -> (impact: Vec<i64>)
    ensures
        as_ints(impact@) == temperature_impact(
            denning_data@,
            reproductive_data@,
            reproductive_data@.len(),
        ),
{
    let mut impact: Vec<i64> = Vec::new();
    let n = reproductive_data.len();
    let mut i: usize = 0;
    while i < n
        invariant
            i <= n,
            n == reproductive_data@.len(),
            as_ints(impact@) == temperature_impact(denning_data@, reproductive_data@, i as nat),
        decreases n - i,
    {
        let record = &reproductive_data[i];
        let ghost before = impact@;
        match (record.summer_tmax, record.winter_tmax) {
            (Some(summer), Some(winter)) => {
                if has_denning_record(denning_data, record.pack_id) {
                    impact.push(summer as i64 - winter as i64);
                    assert(as_ints(impact@) =~= as_ints(before).push(summer - winter));
                }
            },
            _ => {},
        }
        i += 1;
    }
    impact
}

/// For each reproductive record that has both amounts and whose pack has a
/// denning record, the winter snow water equivalent less the fall
/// precipitation.
pub fn analyze_snow_cover_impact(
    denning_data: &[DenningPhenology],
    reproductive_data: &[ReproductiveSuccess],
) -> (impact: Vec<i64>)
    ensures
        as_ints(impact@) == snow_cover_impact(
            denning_data@,
            reproductive_data@,
            reproductive_data@.len(),
        ),
{
    let mut impact: Vec<i64> = Vec::new();
    let n = reproductive_data.len();
    let mut i: usize = 0;
    while i < n
        invariant
            i <= n,
            n == reproductive_data@.len(),
            as_ints(impact@) == snow_cover_impact(denning_data@, reproductive_data@, i as nat),
        decreases n - i,
    {
        let record = &reproductive_data[i];
        let ghost before = impact@;
        match (record.winter_swe, record.fall_prcp) {
            (Some(snow), Some(rain)) => {
                if has_denning_record(denning_data, record.pack_id) {
                    impact.push(snow as i64 - rain as i64);
                    assert(as_ints(impact@) =~= as_ints(before).push(snow - rain));
                }
            },
            _ => {},
        }
        i += 1;
    }
    impact
}

/// The day of the year before which a pack has denned early.
pub const EARLY_DENNING_LIMIT: u16 = 120;

/// The number of those among the first `n` records whose pack denned early.
pub open spec fn early_denning_count(data: Seq<DenningPhenology>, n: nat) -> nat
    decreases n,
{
    if n == 0 {
        0
    } else {
        early_denning_count(data, (n - 1) as nat) + if data[n - 1].denning_doy
            < EARLY_DENNING_LIMIT {
            1nat
        } else {
            0nat
        }
    }
}

/// Counts the records of early denning, before day 120 of the year, and
/// those of late denning: the two counts, early first.
pub fn cluster_denning_patterns(data: &[DenningPhenology]) -> (counts: (usize, usize))
    ensures
        counts.0 == early_denning_count(data@, data@.len()),
        counts.0 + counts.1 == data@.len(),
{
    let mut early: usize = 0;
    let mut late: usize = 0;
    let n = data.len();
    let mut i: usize = 0;
    while i < n
        invariant
            i <= n,
            n == data@.len(),
            early == early_denning_count(data@, i as nat),
            early + late == i,
        decreases n - i,
    {
        if data[i].denning_doy < EARLY_DENNING_LIMIT {
            early += 1;
        } else {
            late += 1;
        }
        i += 1;
    }
    (early, late)
}

} // verus!
