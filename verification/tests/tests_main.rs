use wolf_project_210::chart::{
    average_denning_day_by_year, average_success_by_year, chart_year_range, yearly_averages,
};
use wolf_project_210::data::{Binary64, CalendarDate, DenningPhenology, ReproductiveSuccess};
use wolf_project_210::report::{identify_vulnerable_regions, summarize_impact, ImpactSummary};
use wolf_project_210::{
    analyze_snow_cover_impact, analyze_temperature_impact, cluster_denning_patterns,
};

fn number(value: f64) -> Binary64 {
    Binary64::from_bits(value.to_bits())
}

fn mock_reproductive_data() -> Vec<ReproductiveSuccess> {
    vec![ReproductiveSuccess {
        uid: 1,
        study: "Study A".to_string(),
        longitude_study: number(0.0),
        latitude_study: number(0.0),
        pack_id: 1,
        start_date: CalendarDate { year: 2020, month: 6, day: 1 },
        end_date: CalendarDate { year: 2020, month: 9, day: 1 },
        success: 1,
        summer_prcp: Some(100),
        fall_prcp: Some(50),
        winter_swe: Some(200),
        fall_tmax: Some(10),
        summer_tmax: Some(20),
        winter_tmax: Some(5),
        ti_ndvi_prev1: Some(number(0.5)),
        ti_ndvi: Some(number(0.6)),
        annual_pdo: Some(number(1.0)),
        annual_ao: Some(number(0.5)),
        home_range_area: Some(number(100.0)),
        denning_match_growing_season: Some(number(0.8)),
    }]
}

fn mock_denning_data() -> Vec<DenningPhenology> {
    vec![DenningPhenology {
        uid: 1,
        study: "Study A".to_string(),
        longitude_study: number(0.0),
        latitude_study: number(0.0),
        pack_id: 1,
        denning_date: CalendarDate { year: 2020, month: 5, day: 10 },
        denning_doy: 130,
        denned: 1,
        fall_tmax: Some(15),
        summer_tmax_prev1: Some(25),
        winter_tmax: Some(10),
        fall_prcp: Some(120),
        summer_prcp_prev1: Some(110),
        winter_swe: Some(250),
        ti_ndvi_prev1: Some(number(0.6)),
        annual_pdo: Some(number(1.0)),
        annual_ao: Some(number(0.5)),
        sos_prev1: Some(number(0.5)),
        los_prev1: Some(number(0.8)),
        latitude_individual: number(60.0),
    }]
}

fn denning(pack_id: u32, study: &str, year: i32, day_of_year: u16) -> DenningPhenology {
    let mut record = mock_denning_data().remove(0);
    record.pack_id = pack_id;
    record.study = study.to_string();
    record.denning_date = CalendarDate { year, month: 5, day: 10 };
    record.denning_doy = day_of_year;
    record
}

fn season(pack_id: u32, year: i32, success: u8) -> ReproductiveSuccess {
    let mut record = mock_reproductive_data().remove(0);
    record.pack_id = pack_id;
    record.start_date = CalendarDate { year, month: 6, day: 1 };
    record.success = success;
    record
}

#[test]
fn test_analyze_temperature_impact() {
    let denning_data = mock_denning_data();
    let reproductive_data = mock_reproductive_data();

    let temperature_impact = analyze_temperature_impact(&denning_data, &reproductive_data);

    assert!(!temperature_impact.is_empty(), "Temperature impact analysis returned no results");
    assert_eq!(temperature_impact, vec![15]);
}

#[test]
fn test_analyze_snow_cover_impact() {
    let denning_data = mock_denning_data();
    let reproductive_data = mock_reproductive_data();

    let snow_cover_impact = analyze_snow_cover_impact(&denning_data, &reproductive_data);

    assert!(!snow_cover_impact.is_empty(), "Snow cover impact analysis returned no results");
    assert_eq!(snow_cover_impact, vec![150]);
}

#[test]
fn test_cluster_denning_patterns() {
    let denning_data = mock_denning_data();
    let (early, late) = cluster_denning_patterns(&denning_data);
    assert!(early >= 0, "Early denning count should not be negative");
    assert!(late >= 0, "Late denning count should not be negative");
    assert_eq!((early, late), (0, 1));
}

#[test]
fn temperature_impact_passes_over_records_without_both_temperatures_or_without_a_den() {
    let denning_data = vec![denning(1, "A", 2020, 100), denning(2, "A", 2020, 100)];
    let mut without_summer = season(1, 2020, 1);
    without_summer.summer_tmax = None;
    let mut without_winter = season(1, 2020, 1);
    without_winter.winter_tmax = None;
    let unknown_pack = season(9, 2020, 1);
    let mut cold_summer = season(2, 2020, 1);
    cold_summer.summer_tmax = Some(-3);
    cold_summer.winter_tmax = Some(4);
    let mut extremes = season(1, 2021, 0);
    extremes.summer_tmax = Some(127);
    extremes.winter_tmax = Some(-128);
    let reproductive_data =
        vec![without_summer, season(1, 2020, 1), without_winter, unknown_pack, cold_summer, extremes];
    assert_eq!(analyze_temperature_impact(&denning_data, &reproductive_data), vec![15, -7, 255]);
    assert!(analyze_temperature_impact(&[], &reproductive_data).is_empty());
    assert!(analyze_temperature_impact(&denning_data, &[]).is_empty());
}

#[test]
fn snow_cover_impact_is_snow_less_rain() {
    let denning_data = vec![denning(1, "A", 2020, 100)];
    let mut more_rain = season(1, 2020, 1);
    more_rain.winter_swe = Some(0);
    more_rain.fall_prcp = Some(u32::MAX);
    let mut more_snow = season(1, 2020, 1);
    more_snow.winter_swe = Some(u32::MAX);
    more_snow.fall_prcp = Some(0);
    let mut without_snow = season(1, 2020, 1);
    without_snow.winter_swe = None;
    let mut without_rain = season(1, 2020, 1);
    without_rain.fall_prcp = None;
    let reproductive_data =
        vec![more_rain, without_snow, more_snow, without_rain, season(2, 2020, 1), season(1, 2020, 1)];
    assert_eq!(
        analyze_snow_cover_impact(&denning_data, &reproductive_data),
        vec![-4294967295, 4294967295, 150]
    );
}

#[test]
fn denning_before_day_120_is_early() {
    let data = vec![
        denning(1, "A", 2020, 119),
        denning(1, "A", 2021, 120),
        denning(2, "A", 2020, 1),
        denning(2, "A", 2021, 366),
        denning(3, "B", 2020, 121),
    ];
    assert_eq!(cluster_denning_patterns(&data), (2, 3));
    assert_eq!(cluster_denning_patterns(&[]), (0, 0));
}

#[test]
fn a_summary_holds_count_sum_and_extremes() {
    assert_eq!(summarize_impact(&[]), None);
    assert_eq!(
        summarize_impact(&[15]),
        Some(ImpactSummary { count: 1, sum: 15, min: 15, max: 15 })
    );
    assert_eq!(
        summarize_impact(&[15, -7, 255, 0, -7]),
        Some(ImpactSummary { count: 5, sum: 256, min: -7, max: 255 })
    );
    assert_eq!(
        summarize_impact(&[i64::MAX, i64::MAX, i64::MIN]),
        Some(ImpactSummary { count: 3, sum: i64::MAX as i128 - 1, min: i64::MIN, max: i64::MAX })
    );
}

#[test]
fn vulnerable_regions_are_the_seasons_without_success_of_packs_with_a_den() {
    let denning_data =
        vec![denning(1, "North", 2020, 100), denning(2, "South", 2020, 100), denning(1, "East", 2021, 90)];
    let reproductive_data = vec![
        season(1, 2020, 0),
        season(2, 2020, 1),
        season(3, 2020, 0),
        season(2, 2021, 0),
        season(1, 2021, 0),
        season(1, 2022, 2),
    ];
    assert_eq!(
        identify_vulnerable_regions(&denning_data, &reproductive_data),
        vec![(1, "North".to_string()), (2, "South".to_string()), (1, "North".to_string())]
    );
    assert!(identify_vulnerable_regions(&[], &reproductive_data).is_empty());
    assert!(identify_vulnerable_regions(&denning_data, &[]).is_empty());
}

#[test]
fn yearly_averages_are_sorted_by_year_and_rounded_down() {
    let samples = [(2021, 100), (2019, 7), (2021, 101), (2020, 0), (2019, 8), (2021, 101), (-5, 3)];
    assert_eq!(yearly_averages(&samples), vec![(-5, 3), (2019, 7), (2020, 0), (2021, 100)]);
    assert!(yearly_averages(&[]).is_empty());
    assert_eq!(
        yearly_averages(&[(1, u32::MAX), (1, u32::MAX), (1, u32::MAX - 3)]),
        vec![(1, u32::MAX - 1)]
    );
}

#[test]
fn the_chart_averages_denning_days_and_success_by_year() {
    let denning_data = vec![
        denning(1, "A", 2021, 131),
        denning(2, "A", 2020, 100),
        denning(1, "A", 2020, 121),
        denning(3, "B", 2021, 130),
        denning(3, "B", 2021, 130),
    ];
    assert_eq!(average_denning_day_by_year(&denning_data), vec![(2020, 110), (2021, 130)]);
    let reproductive_data =
        vec![season(1, 2022, 3), season(2, 2020, 1), season(3, 2022, 4), season(1, 2020, 0)];
    assert_eq!(average_success_by_year(&reproductive_data), vec![(2020, 0), (2022, 3)]);
}

#[test]
fn the_chart_spans_the_years_of_the_averages() {
    assert_eq!(chart_year_range(&[]), (2000, 2025));
    assert_eq!(chart_year_range(&[(2011, 5)]), (2011, 2011));
    assert_eq!(chart_year_range(&[(2011, 5), (2013, 2), (2020, 9)]), (2011, 2020));
}
