//! The data behind the chart: the average day of denning and the average
//! reproductive success of each year.

use crate::data::{DenningPhenology, ReproductiveSuccess};
use vstd::prelude::*;

verus! {

/// The number of those among the first `n` samples, each a year and a value,
/// that belong to `year`.
pub open spec fn year_count(samples: Seq<(i32, u32)>, year: i32, n: nat) -> nat
    decreases n,
{
    if n == 0 {
        0
    } else {
        year_count(samples, year, (n - 1) as nat) + if samples[n - 1].0 == year {
            1nat
        } else {
            0nat
        }
    }
}

/// The sum of the values of those among the first `n` samples that belong to
/// `year`.
pub open spec fn year_sum(samples: Seq<(i32, u32)>, year: i32, n: nat) -> nat
    decreases n,
{
    if n == 0 {
        0
    } else {
        year_sum(samples, year, (n - 1) as nat) + if samples[n - 1].0 == year {
            samples[n - 1].1 as nat
        } else {
            0nat
        }
    }
}

/// Whether `entry` is a year with samples and the average of their values,
/// rounded down.
pub open spec fn is_average_of_year(samples: Seq<(i32, u32)>, entry: (i32, u32)) -> bool {
    &&& year_count(samples, entry.0, samples.len()) > 0
    &&& entry.1 == year_sum(samples, entry.0, samples.len()) / year_count(
        samples,
        entry.0,
        samples.len(),
    )
}

/// Whether `averages` has an entry for `year`.
pub open spec fn has_year(averages: Seq<(i32, u32)>, year: i32) -> bool {
    exists|a: int| 0 <= a < averages.len() && (#[trigger] averages[a]).0 == year
}

/// Whether `averages` holds the yearly averages of the samples: an entry for
/// each year that has a sample, in ascending order of the years, with the
/// average of the values of that year, rounded down.
pub open spec fn is_yearly_averages(samples: Seq<(i32, u32)>, averages: Seq<(i32, u32)>) -> bool {
    &&& forall|a: int, b: int|
        0 <= a < b < averages.len() ==> (#[trigger] averages[a]).0 < (#[trigger] averages[b]).0
    &&& forall|a: int| 0 <= a < averages.len() ==> is_average_of_year(samples, #[trigger] averages[a])
    &&& forall|j: int| 0 <= j < samples.len() ==> has_year(averages, (#[trigger] samples[j]).0)
}

/// The samples of one year, added up.
#[derive(Clone, Copy)]
struct YearTotal {
    year: i32,
    sum: u128,
    count: usize,
}

/// Whether `total` adds up the samples of its year among the first `n`.
spec fn adds_up(samples: Seq<(i32, u32)>, n: nat, total: YearTotal) -> bool {
    &&& total.count >= 1
    &&& total.count == year_count(samples, total.year, n)
    &&& total.sum == year_sum(samples, total.year, n)
}

/// Whether `totals` holds, in ascending order of the years, the total of
/// each year that has one of the first `n` samples.
spec fn totals_of(samples: Seq<(i32, u32)>, n: nat, totals: Seq<YearTotal>) -> bool {
    &&& forall|a: int, b: int|
        0 <= a < b < totals.len() ==> (#[trigger] totals[a]).year < (#[trigger] totals[b]).year
    &&& forall|a: int| 0 <= a < totals.len() ==> adds_up(samples, n, #[trigger] totals[a])
    &&& forall|j: int| 0 <= j < n ==> totalled(totals, (#[trigger] samples[j]).0)
}

/// Whether `totals` has a total for `year`.
spec fn totalled(totals: Seq<YearTotal>, year: i32) -> bool {
    exists|a: int| 0 <= a < totals.len() && (#[trigger] totals[a]).year == year
}

/// A year has no more samples than there are, and their sum is at most the
/// largest value times their number.
proof fn lemma_year_bounds(samples: Seq<(i32, u32)>, year: i32, n: nat)
    ensures
        year_count(samples, year, n) <= n,
        year_sum(samples, year, n) <= year_count(samples, year, n) * u32::MAX,
    decreases n,
{
    if n > 0 {
        lemma_year_bounds(samples, year, (n - 1) as nat);
    }
}

/// The totals of the years of the samples, in ascending order of the years.
fn yearly_totals(samples: &[(i32, u32)]) -> (totals: Vec<YearTotal>)
    ensures
        totals_of(samples@, samples@.len(), totals@),
{
    let mut totals: Vec<YearTotal> = Vec::new();
    let n = samples.len();
    let mut i: usize = 0;
    while i < n
        invariant
            i <= n,
            n == samples@.len(),
            totals_of(samples@, i as nat, totals@),
        decreases n - i,
    {
        let year = samples[i].0;
        let value = samples[i].1;
        let ghost before = totals@;
        let mut at: usize = 0;
        while at < totals.len() && totals[at].year < year
            invariant
                at <= totals.len(),
                totals@ == before,
                forall|a: int| 0 <= a < at ==> (#[trigger] before[a]).year < year,
            decreases totals.len() - at,
        {
            at += 1;
        }
        if at < totals.len() && totals[at].year == year {
            let total = totals[at];
            proof {
                lemma_year_bounds(samples@, year, i as nat);
                assert(adds_up(samples@, i as nat, before[at as int]));
                assert(total.sum <= i * u32::MAX);
            }
            totals.set(at, YearTotal { year, sum: total.sum + value as u128, count: total.count + 1 });
            proof {
                let after = totals@;
                assert forall|a: int| 0 <= a < after.len() implies adds_up(
                    samples@,
                    (i + 1) as nat,
                    #[trigger] after[a],
                ) by {
                    if a != at {
                        assert(after[a] == before[a]);
                        assert(adds_up(samples@, i as nat, before[a]));
                        if a < at {
                            assert(before[a].year < before[at as int].year);
                        } else {
                            assert(before[at as int].year < before[a].year);
                        }
                    }
                }
                assert forall|a: int, b: int| 0 <= a < b < after.len() implies (
                #[trigger] after[a]).year < (#[trigger] after[b]).year by {
                    assert(after[a].year == before[a].year && after[b].year == before[b].year);
                }
                assert forall|j: int| 0 <= j < i + 1 implies totalled(
                    after,
                    (#[trigger] samples@[j]).0,
                ) by {
                    if j < i {
                        assert(totalled(before, samples@[j].0));
                        let a = choose|a: int|
                            0 <= a < before.len() && (#[trigger] before[a]).year == samples@[j].0;
                        assert(after[a].year == samples@[j].0);
                    } else {
                        assert(after[at as int].year == year);
                    }
                }
            }
        } else {
            totals.insert(at, YearTotal { year, sum: value as u128, count: 1 });
            proof {
                let after = totals@;
                assert forall|a: int| 0 <= a < before.len() implies (#[trigger] before[a]).year
                    != year by {
                    if a >= at {
                        if a > at {
                            assert(before[at as int].year < before[a].year);
                        }
                    }
                }
                assert(year_count(samples@, year, i as nat) == 0 && year_sum(
                    samples@,
                    year,
                    i as nat,
                ) == 0) by {
                    lemma_year_without_total(samples@, year, i as nat, before);
                }
                assert forall|a: int| 0 <= a < after.len() implies adds_up(
                    samples@,
                    (i + 1) as nat,
                    #[trigger] after[a],
                ) by {
                    if a < at {
                        assert(after[a] == before[a]);
                        assert(adds_up(samples@, i as nat, before[a]));
                    } else if a > at {
                        assert(after[a] == before[a - 1]);
                        assert(adds_up(samples@, i as nat, before[a - 1]));
                    }
                }
                assert forall|a: int, b: int| 0 <= a < b < after.len() implies (
                #[trigger] after[a]).year < (#[trigger] after[b]).year by {
                    if b < at {
                        assert(after[a] == before[a] && after[b] == before[b]);
                    } else if b == at {
                        assert(after[a] == before[a]);
                    } else if a < at {
                        assert(after[a] == before[a] && after[b] == before[b - 1]);
                    } else if a == at {
                        assert(after[b] == before[b - 1]);
                        assert(before[at as int].year >= year);
                        if b - 1 > at {
                            assert(before[at as int].year < before[b - 1].year);
                        }
                    } else {
                        assert(after[a] == before[a - 1] && after[b] == before[b - 1]);
                    }
                }
                assert forall|j: int| 0 <= j < i + 1 implies totalled(
                    after,
                    (#[trigger] samples@[j]).0,
                ) by {
                    if j < i {
                        assert(totalled(before, samples@[j].0));
                        let a = choose|a: int|
                            0 <= a < before.len() && (#[trigger] before[a]).year == samples@[j].0;
                        if a < at {
                            assert(after[a].year == samples@[j].0);
                        } else {
                            assert(after[a + 1].year == samples@[j].0);
                        }
                    } else {
                        assert(after[at as int].year == year);
                    }
                }
            }
        }
        i += 1;
    }
    totals
}

/// A year without a total has no sample among the first `n`.
proof fn lemma_year_without_total(
    samples: Seq<(i32, u32)>,
    year: i32,
    n: nat,
    totals: Seq<YearTotal>,
)
    requires
        n <= samples.len(),
        forall|j: int| 0 <= j < n ==> totalled(totals, (#[trigger] samples[j]).0),
        forall|a: int| 0 <= a < totals.len() ==> (#[trigger] totals[a]).year != year,
    ensures
        year_count(samples, year, n) == 0,
        year_sum(samples, year, n) == 0,
    decreases n,
{
    if n > 0 {
        lemma_year_without_total(samples, year, (n - 1) as nat, totals);
        assert(totalled(totals, samples[n - 1].0));
    }
}

/// The average of the values of each year that has a sample, rounded down,
/// in ascending order of the years. A sample is a year and a value.
pub fn yearly_averages(samples: &[(i32, u32)]) -> (averages: Vec<(i32, u32)>)
    ensures
        is_yearly_averages(samples@, averages@),
{
    let totals = yearly_totals(samples);
    let mut averages: Vec<(i32, u32)> = Vec::new();
    let mut a: usize = 0;
    while a < totals.len()
        invariant
            a <= totals.len(),
            averages@.len() == a,
            totals_of(samples@, samples@.len(), totals@),
            forall|b: int|
                0 <= b < a ==> (#[trigger] averages@[b]).0 == totals@[b].year && is_average_of_year(
                    samples@,
                    averages@[b],
                ),
        decreases totals.len() - a,
    {
        let total = totals[a];
        proof {
            lemma_year_bounds(samples@, total.year, samples@.len());
            assert(adds_up(samples@, samples@.len(), totals@[a as int]));
            lemma_average_fits(total.sum as nat, total.count as nat);
        }
        let average = (total.sum / total.count as u128) as u32;
        averages.push((total.year, average));
        a += 1;
    }
    proof {
        assert forall|j: int| 0 <= j < samples@.len() implies has_year(
            averages@,
            (#[trigger] samples@[j]).0,
        ) by {
            assert(totalled(totals@, samples@[j].0));
            let at = choose|at: int|
                0 <= at < totals@.len() && (#[trigger] totals@[at]).year == samples@[j].0;
            assert(averages@[at].0 == samples@[j].0);
        }
        assert forall|b: int, c: int| 0 <= b < c < averages@.len() implies (
        #[trigger] averages@[b]).0 < (#[trigger] averages@[c]).0 by {
            assert(totals@[b].year < totals@[c].year);
        }
    }
    averages
}

/// The average of values of which none is above the largest 32-bit number
/// is not above it either.
proof fn lemma_average_fits(sum: nat, count: nat)
    requires
        count >= 1,
        sum <= count * u32::MAX,
    ensures
        sum / count <= u32::MAX,
{
    assert(sum / count <= u32::MAX) by (nonlinear_arith)
        requires
            count >= 1,
            sum <= count * 0xFFFF_FFFF,
    ;
}

/// The samples of the denning records: the year of the denning date and the
/// day of the year.
pub open spec fn denning_samples(denning: Seq<DenningPhenology>) -> Seq<(i32, u32)> {
    Seq::new(denning.len(), |i: int| (denning[i].denning_date.year, denning[i].denning_doy as u32))
}

/// The samples of the reproductive records: the year in which the season
/// started and the success.
pub open spec fn success_samples(reproductive: Seq<ReproductiveSuccess>) -> Seq<(i32, u32)> {
    Seq::new(
        reproductive.len(),
        |i: int| (reproductive[i].start_date.year, reproductive[i].success as u32),
    )
}

/// The average day of denning of each year, in ascending order of the years.
pub fn average_denning_day_by_year(denning_data: &[DenningPhenology]) -> (averages: Vec<(i32, u32)>)
    ensures
        is_yearly_averages(denning_samples(denning_data@), averages@),
{
    let mut samples: Vec<(i32, u32)> = Vec::new();
    let mut i: usize = 0;
    while i < denning_data.len()
        invariant
            i <= denning_data.len(),
            samples@.len() == i,
            forall|j: int| 0 <= j < i ==> samples@[j] == denning_samples(denning_data@)[j],
        decreases denning_data.len() - i,
    {
        samples.push((denning_data[i].denning_date.year, denning_data[i].denning_doy as u32));
        i += 1;
    }
    assert(samples@ =~= denning_samples(denning_data@));
    yearly_averages(samples.as_slice())
}

/// The average reproductive success of each year, in ascending order of the
/// years.
pub fn average_success_by_year(reproductive_data: &[ReproductiveSuccess]) -> (averages: Vec<
    (i32, u32),
>)
    ensures
        is_yearly_averages(success_samples(reproductive_data@), averages@),
{
    let mut samples: Vec<(i32, u32)> = Vec::new();
    let mut i: usize = 0;
    while i < reproductive_data.len()
        invariant
            i <= reproductive_data.len(),
            samples@.len() == i,
            forall|j: int| 0 <= j < i ==> samples@[j] == success_samples(reproductive_data@)[j],
        decreases reproductive_data.len() - i,
    {
        samples.push((reproductive_data[i].start_date.year, reproductive_data[i].success as u32));
        i += 1;
    }
    assert(samples@ =~= success_samples(reproductive_data@));
    yearly_averages(samples.as_slice())
}

/// The first year of the chart where there is nothing to draw.
pub const DEFAULT_FIRST_YEAR: i32 = 2000;

/// The last year of the chart where there is nothing to draw.
pub const DEFAULT_LAST_YEAR: i32 = 2025;

/// The years that the chart spans: the year of the first and of the last of
/// the averages, and 2000 to 2025 where there are none.
pub fn chart_year_range(averages: &[(i32, u32)]) -> (range: (i32, i32))
    ensures
        averages@.len() == 0 ==> range == (DEFAULT_FIRST_YEAR, DEFAULT_LAST_YEAR),
        averages@.len() > 0 ==> range == (averages@[0].0, averages@[averages@.len() - 1].0),
{
    let n = averages.len();
    if n == 0 {
        (DEFAULT_FIRST_YEAR, DEFAULT_LAST_YEAR)
    } else {
        (averages[0].0, averages[n - 1].0)
    }
}

} // verus!
