use wolf_project_210::data::{Binary64, CalendarDate, DenningPhenology, ReproductiveSuccess};
use wolf_project_210::fields::{field_value, is_missing_marker, FieldKind};

fn number(value: f64) -> Binary64 {
    Binary64::from_bits(value.to_bits())
}

fn mock_reproductive_data() -> Vec<ReproductiveSuccess> {
    vec![ReproductiveSuccess {
        uid: 1,
        study: "Study A".to_string(),
        longitude_study: number(0.0),
        latitude_study: number(0.0),
        pack_id: 1,
        start_date: CalendarDate { year: 2020, month: 6, day: 1 },
        end_date: CalendarDate { year: 2020, month: 9, day: 1 },
        success: 1,
        summer_prcp: Some(100),
        fall_prcp: Some(50),
        winter_swe: Some(200),
        fall_tmax: Some(10),
        summer_tmax: Some(20),
        winter_tmax: Some(5),
        ti_ndvi_prev1: Some(number(0.5)),
        ti_ndvi: Some(number(0.6)),
        annual_pdo: Some(number(1.0)),
        annual_ao: Some(number(0.5)),
        home_range_area: Some(number(100.0)),
        denning_match_growing_season: Some(number(0.8)),
    }]
}

fn mock_denning_data() -> Vec<DenningPhenology> {
    vec![DenningPhenology {
        uid: 1,
        study: "Study A".to_string(),
        longitude_study: number(0.0),
        latitude_study: number(0.0),
        pack_id: 1,
        denning_date: CalendarDate { year: 2020, month: 5, day: 10 },
        denning_doy: 130,
        denned: 1,
        fall_tmax: Some(15),
        summer_tmax_prev1: Some(25),
        winter_tmax: Some(10),
        fall_prcp: Some(120),
        summer_prcp_prev1: Some(110),
        winter_swe: Some(250),
        ti_ndvi_prev1: Some(number(0.6)),
        annual_pdo: Some(number(1.0)),
        annual_ao: Some(number(0.5)),
        sos_prev1: Some(number(0.5)),
        los_prev1: Some(number(0.8)),
        latitude_individual: number(60.0),
    }]
}

#[test]
fn test_read_denning_csv() {
    let denning_data = mock_denning_data();
    let reproductive_data = mock_reproductive_data();
    assert_eq!(denning_data.len(), 1);
    assert_eq!(reproductive_data.len(), 1);
}

#[test]
fn complete_records_have_no_missing_fields() {
    assert!(mock_denning_data()[0].has_no_missing_fields());
    assert!(mock_reproductive_data()[0].has_no_missing_fields());
}

#[test]
fn a_denning_record_misses_a_field_when_one_is_zero_empty_or_absent() {
    let complete = mock_denning_data().remove(0);

    let mut record = complete.clone();
    record.uid = 0;
    assert!(!record.has_no_missing_fields());

    let mut record = complete.clone();
    record.study = String::new();
    assert!(!record.has_no_missing_fields());

    let mut record = complete.clone();
    record.denning_doy = 0;
    assert!(!record.has_no_missing_fields());

    let mut record = complete.clone();
    record.denned = 0;
    assert!(!record.has_no_missing_fields());

    let mut record = complete.clone();
    record.fall_tmax = None;
    assert!(!record.has_no_missing_fields());

    let mut record = complete.clone();
    record.summer_tmax_prev1 = None;
    assert!(!record.has_no_missing_fields());

    let mut record = complete.clone();
    record.winter_tmax = None;
    assert!(!record.has_no_missing_fields());

    let mut record = complete.clone();
    record.fall_prcp = None;
    assert!(!record.has_no_missing_fields());

    let mut record = complete.clone();
    record.summer_prcp_prev1 = None;
    assert!(!record.has_no_missing_fields());

    let mut record = complete.clone();
    record.winter_swe = None;
    assert!(!record.has_no_missing_fields());

    let mut record = complete.clone();
    record.ti_ndvi_prev1 = None;
    assert!(!record.has_no_missing_fields());

    let mut record = complete.clone();
    record.annual_pdo = None;
    assert!(!record.has_no_missing_fields());

    let mut record = complete.clone();
    record.annual_ao = None;
    assert!(!record.has_no_missing_fields());

    let mut record = complete.clone();
    record.sos_prev1 = None;
    assert!(!record.has_no_missing_fields());

    let mut record = complete.clone();
    record.los_prev1 = None;
    assert!(!record.has_no_missing_fields());

    let mut record = complete.clone();
    record.latitude_individual = number(0.0);
    assert!(!record.has_no_missing_fields());

    let mut record = complete.clone();
    record.latitude_individual = number(-0.0);
    assert!(!record.has_no_missing_fields());

    let mut record = complete.clone();
    record.latitude_individual = number(f64::NAN);
    assert!(record.has_no_missing_fields());

    // Pack 0 and a zero in a covariate are values like any other.
    let mut record = complete;
    record.pack_id = 0;
    record.fall_tmax = Some(0);
    record.annual_pdo = Some(number(0.0));
    assert!(record.has_no_missing_fields());
}

#[test]
fn a_reproductive_record_misses_a_field_when_one_is_zero_empty_or_absent() {
    let complete = mock_reproductive_data().remove(0);

    let mut record = complete.clone();
    record.uid = 0;
    assert!(!record.has_no_missing_fields());

    let mut record = complete.clone();
    record.study = String::new();
    assert!(!record.has_no_missing_fields());

    let mut record = complete.clone();
    record.summer_prcp = None;
    assert!(!record.has_no_missing_fields());

    let mut record = complete.clone();
    record.fall_prcp = None;
    assert!(!record.has_no_missing_fields());

    let mut record = complete.clone();
    record.winter_swe = None;
    assert!(!record.has_no_missing_fields());

    let mut record = complete.clone();
    record.fall_tmax = None;
    assert!(!record.has_no_missing_fields());

    let mut record = complete.clone();
    record.summer_tmax = None;
    assert!(!record.has_no_missing_fields());

    let mut record = complete.clone();
    record.winter_tmax = None;
    assert!(!record.has_no_missing_fields());

    let mut record = complete.clone();
    record.ti_ndvi_prev1 = None;
    assert!(!record.has_no_missing_fields());

    let mut record = complete.clone();
    record.ti_ndvi = None;
    assert!(!record.has_no_missing_fields());

    let mut record = complete.clone();
    record.annual_pdo = None;
    assert!(!record.has_no_missing_fields());

    let mut record = complete.clone();
    record.annual_ao = None;
    assert!(!record.has_no_missing_fields());

    let mut record = complete.clone();
    record.home_range_area = None;
    assert!(!record.has_no_missing_fields());

    let mut record = complete.clone();
    record.denning_match_growing_season = None;
    assert!(!record.has_no_missing_fields());

    // A success of 0 is a value, not a missing field.
    let mut record = complete;
    record.success = 0;
    assert!(record.has_no_missing_fields());
}

#[test]
fn binary64_keeps_the_bits_and_knows_zero() {
    let value = number(61.5);
    assert_eq!(value.to_bits(), 61.5f64.to_bits());
    assert_eq!(f64::from_bits(value.to_bits()), 61.5);
    assert!(number(0.0).is_zero());
    assert!(number(-0.0).is_zero());
    assert!(!number(1.0e-300).is_zero());
    assert!(!number(-2.5).is_zero());
    assert!(!number(f64::NAN).is_zero());
    assert!(!number(f64::INFINITY).is_zero());
    assert_ne!(number(0.0), number(-0.0));
}

#[test]
fn calendar_dates_are_valid_when_the_day_exists() {
    assert!(CalendarDate { year: 2020, month: 5, day: 10 }.is_valid());
    assert!(CalendarDate { year: 2020, month: 2, day: 29 }.is_valid());
    assert!(!CalendarDate { year: 2021, month: 2, day: 29 }.is_valid());
    assert!(!CalendarDate { year: 1900, month: 2, day: 29 }.is_valid());
    assert!(CalendarDate { year: 2000, month: 2, day: 29 }.is_valid());
    assert!(CalendarDate { year: -4, month: 2, day: 29 }.is_valid());
    assert!(!CalendarDate { year: -1, month: 2, day: 29 }.is_valid());
    assert!(CalendarDate { year: 2021, month: 12, day: 31 }.is_valid());
    assert!(!CalendarDate { year: 2021, month: 11, day: 31 }.is_valid());
    assert!(!CalendarDate { year: 2021, month: 4, day: 31 }.is_valid());
    assert!(!CalendarDate { year: 2021, month: 0, day: 1 }.is_valid());
    assert!(!CalendarDate { year: 2021, month: 13, day: 1 }.is_valid());
    assert!(!CalendarDate { year: 2021, month: 1, day: 0 }.is_valid());
    assert!(!CalendarDate { year: 2021, month: 1, day: 32 }.is_valid());
}

#[test]
fn missing_markers_are_the_empty_text_the_sentinel_and_na() {
    for kind in [FieldKind::Fraction, FieldKind::Whole] {
        assert!(is_missing_marker("", kind));
        assert!(is_missing_marker("-9999", kind));
        assert!(is_missing_marker("na", kind));
        assert!(is_missing_marker("NA", kind));
        assert!(is_missing_marker("Na", kind));
        assert!(is_missing_marker("nA", kind));
        assert!(!is_missing_marker("-9998", kind));
        assert!(!is_missing_marker("9999", kind));
        assert!(!is_missing_marker("-99990", kind));
        assert!(!is_missing_marker("n", kind));
        assert!(!is_missing_marker("nb", kind));
        assert!(!is_missing_marker("12", kind));
        assert!(!is_missing_marker("1.5", kind));
        assert!(!is_missing_marker("none", kind));
        assert!(!is_missing_marker(" ", kind));
    }
}

#[test]
fn nan_marks_a_missing_fraction_but_not_a_missing_whole_number() {
    assert!(is_missing_marker("nan", FieldKind::Fraction));
    assert!(is_missing_marker("NaN", FieldKind::Fraction));
    assert!(is_missing_marker("NAN", FieldKind::Fraction));
    assert!(!is_missing_marker("nan", FieldKind::Whole));
    assert!(!is_missing_marker("NaN", FieldKind::Whole));
    assert!(!is_missing_marker("nab", FieldKind::Fraction));
    assert!(!is_missing_marker("man", FieldKind::Fraction));
}

#[test]
fn field_value_trims_the_text_before_it_looks_for_a_marker() {
    assert_eq!(field_value("  -9999 ", FieldKind::Whole), None);
    assert_eq!(field_value("\tNA\n", FieldKind::Whole), None);
    assert_eq!(field_value("   ", FieldKind::Fraction), None);
    assert_eq!(field_value(" nan ", FieldKind::Fraction), None);
    assert_eq!(field_value(" nan ", FieldKind::Whole), Some("nan"));
    assert_eq!(field_value(" 12.5\t", FieldKind::Fraction), Some("12.5"));
    assert_eq!(field_value("7", FieldKind::Whole), Some("7"));
    assert_eq!(field_value(" - 9999 ", FieldKind::Whole), Some("- 9999"));
}
