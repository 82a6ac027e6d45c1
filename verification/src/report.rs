//! The figures of the printed report: the summary of an impact analysis and
//! the packs without reproductive success.

use crate::data::{DenningPhenology, ReproductiveSuccess};
use crate::graph::mentions_pack;
use vstd::prelude::*;

verus! {

/// The summary of the values of an impact analysis: how many there are,
/// their sum, the smallest and the largest. The mean is the sum divided by
/// the count.
#[derive(Debug, Clone, Copy, PartialEq, Eq, Structural)]
pub struct ImpactSummary {
    pub count: usize,
    pub sum: i128,
    pub min: i64,
    pub max: i64,
}

/// The sum of the first `n` values.
pub open spec fn sum_of(values: Seq<i64>, n: nat) -> int
    decreases n,
{
    if n == 0 {
        0
    } else {
        sum_of(values, (n - 1) as nat) + values[n - 1]
    }
}

/// Whether `summary` is the summary of the first `n` values.
pub open spec fn summarizes(summary: ImpactSummary, values: Seq<i64>, n: nat) -> bool {
    &&& summary.count == n
    &&& summary.sum == sum_of(values, n)
    &&& exists|i: int| 0 <= i < n && #[trigger] values[i] == summary.min
    &&& exists|i: int| 0 <= i < n && #[trigger] values[i] == summary.max
    &&& forall|i: int| 0 <= i < n ==> summary.min <= #[trigger] values[i] <= summary.max
}

/// Summarizes the values of an impact analysis; `None` where there are none.
pub fn summarize_impact(values: &[i64]) -> (summary: Option<ImpactSummary>)
    ensures
        summary is None <==> values@.len() == 0,
        summary matches Some(found) ==> summarizes(found, values@, values@.len()),
{
    let n = values.len();
    if n == 0 {
        return None;
    }
    let mut found = ImpactSummary { count: 1, sum: values[0] as i128, min: values[0], max: values[0] };
    assert(sum_of(values@, 1) == values@[0]) by {
        assert(sum_of(values@, 0) == 0);
    }
    let mut i: usize = 1;
    while i < n
        invariant
            1 <= i <= n,
            n == values@.len(),
            summarizes(found, values@, i as nat),
            -(i * 0x8000_0000_0000_0000) <= found.sum <= i * 0x8000_0000_0000_0000,
        decreases n - i,
    {
        let value = values[i];
        let ghost before = found;
        let min = if value < found.min {
            value
        } else {
            found.min
        };
        let max = if value > found.max {
            value
        } else {
            found.max
        };
        found = ImpactSummary { count: i + 1, sum: found.sum + value as i128, min, max };
        proof {
            let low = choose|j: int| 0 <= j < i && #[trigger] values@[j] == before.min;
            let high = choose|j: int| 0 <= j < i && #[trigger] values@[j] == before.max;
            if value < before.min {
                assert(values@[i as int] == found.min);
            } else {
                assert(values@[low] == found.min);
            }
            if value > before.max {
                assert(values@[i as int] == found.max);
            } else {
                assert(values@[high] == found.max);
            }
        }
        i += 1;
    }
    Some(found)
}

/// Whether denning record `i` is the first of the pack `id`.
pub open spec fn is_first_record_of(denning: Seq<DenningPhenology>, i: int, id: u32) -> bool {
    &&& 0 <= i < denning.len()
    &&& denning[i].pack_id == id
    &&& forall|j: int| 0 <= j < i ==> (#[trigger] denning[j]).pack_id != id
}

/// The study area of the first denning record of the pack `id`.
pub open spec fn study_of_pack(denning: Seq<DenningPhenology>, id: u32) -> Seq<char> {
    denning[choose|i: int| is_first_record_of(denning, i, id)].study@
}

/// The packs without success among the first `n` reproductive records, one
/// entry for each such record whose pack has a denning record, in the order
/// of the records: the pack and the study area of its first denning record.
pub open spec fn vulnerable_regions(
    denning: Seq<DenningPhenology>,
    reproductive: Seq<ReproductiveSuccess>,
    n: nat,
) -> Seq<(u32, Seq<char>)>
    decreases n,
{
    if n == 0 {
        Seq::empty()
    } else {
        let earlier = vulnerable_regions(denning, reproductive, (n - 1) as nat);
        let record = reproductive[n - 1];
        if record.success == 0 && mentions_pack(denning, record.pack_id) {
            earlier.push((record.pack_id, study_of_pack(denning, record.pack_id)))
        } else {
            earlier
        }
    }
}

/// The packs and the study areas that the entries name.
pub open spec fn region_views(regions: Seq<(u32, String)>) -> Seq<(u32, Seq<char>)> {
    Seq::new(regions.len(), |i: int| (regions[i].0, regions[i].1@))
}

/// The position of the first denning record of the pack `id`, if it has one.
fn first_record_of(denning_data: &[DenningPhenology], id: u32) -> (found: Option<usize>)
    ensures
        found is Some <==> mentions_pack(denning_data@, id),
        found matches Some(i) ==> is_first_record_of(denning_data@, i as int, id),
{
    let mut i: usize = 0;
    while i < denning_data.len()
        invariant
            i <= denning_data.len(),
            forall|j: int| 0 <= j < i ==> (#[trigger] denning_data@[j]).pack_id != id,
        decreases denning_data.len() - i,
    {
        if denning_data[i].pack_id == id {
            return Some(i);
        }
        i += 1;
    }
    None
}

/// Lists the packs without reproductive success: for each reproductive
/// record with success 0 whose pack has a denning record, the pack and the
/// study area of its first denning record.
pub fn identify_vulnerable_regions(
    denning_data: &[DenningPhenology],
    reproductive_data: &[ReproductiveSuccess],
) -> (regions: Vec<(u32, String)>)
    ensures
        region_views(regions@) == vulnerable_regions(
            denning_data@,
            reproductive_data@,
            reproductive_data@.len(),
        ),
{
    let mut regions: Vec<(u32, String)> = Vec::new();
    let n = reproductive_data.len();
    let mut i: usize = 0;
    while i < n
        invariant
            i <= n,
            n == reproductive_data@.len(),
            region_views(regions@) == vulnerable_regions(
                denning_data@,
                reproductive_data@,
                i as nat,
            ),
        decreases n - i,
    {
        let record = &reproductive_data[i];
        if record.success == 0 {
            match first_record_of(denning_data, record.pack_id) {
                Some(at) => {
                    let ghost before = regions@;
                    let study = denning_data[at].study.clone();
                    proof {
                        let chosen = choose|k: int|
                            is_first_record_of(denning_data@, k, record.pack_id);
                        assert(is_first_record_of(denning_data@, chosen, record.pack_id));
                        assert(chosen == at);
                    }
                    regions.push((record.pack_id, study));
                    assert(region_views(regions@) =~= region_views(before).push(
                        (record.pack_id, study_of_pack(denning_data@, record.pack_id)),
                    ));
                },
                None => {},
            }
        }
        i += 1;
    }
    regions
}

} // verus!
