//! Record types of the two datasets and the rule that tells a complete
//! record from one with missing values.

use vstd::prelude::*;

verus! {

/// A double-precision number, held by its IEEE 754 bit pattern.
///
/// The library never computes with such numbers: it carries them along and
/// asks only whether one is zero. Two values are equal when their bit patterns
/// are, which tells `+0` from `-0` and one NaN from another.
#[derive(Debug, Clone, Copy, PartialEq, Eq, Structural)]
pub struct Binary64 {
    pub bits: u64,
}

/// The bit pattern of negative zero: only the sign bit is set.
pub const NEGATIVE_ZERO_BITS: u64 = 0x8000_0000_0000_0000;

impl Binary64 {
    /// Whether the number is positive or negative zero.
    pub open spec fn is_zero_spec(self) -> bool {
        self.bits == 0 || self.bits == NEGATIVE_ZERO_BITS
    }

    /// Wraps a bit pattern.
    pub fn from_bits(bits: u64) -> (number: Binary64)
        ensures
            number.bits == bits,
    {
        Binary64 { bits }
    }

    /// The bit pattern of the number.
    pub fn to_bits(self) -> (bits: u64)
        ensures
            bits == self.bits,
    {
        self.bits
    }

    /// Whether the number compares equal to zero, which both `+0` and `-0` do
    /// and no other number, NaN included.
    #[verifier::when_used_as_spec(is_zero_spec)]
    pub fn is_zero(self) -> (zero: bool)
        ensures
            zero == self.is_zero_spec(),
    {
        self.bits == 0 || self.bits == NEGATIVE_ZERO_BITS
    }
}

/// A day of the proleptic Gregorian calendar.
#[derive(Debug, Clone, Copy, PartialEq, Eq, Structural)]
pub struct CalendarDate {
    pub year: i32,
    pub month: u32,
    pub day: u32,
}

/// Whether `year` is a leap year of the Gregorian calendar.
pub open spec fn is_leap_year(year: int) -> bool {
    year % 4 == 0 && (year % 100 != 0 || year % 400 == 0)
}

/// The number of days of `month` in `year`, and 0 where `month` is no month.
pub open spec fn days_in_month(year: int, month: int) -> int {
    if month == 2 {
        if is_leap_year(year) {
            29
        } else {
            28
        }
    } else if month == 4 || month == 6 || month == 9 || month == 11 {
        30
    } else if 1 <= month <= 12 {
        31
    } else {
        0
    }
}

impl CalendarDate {
    /// Whether the three fields name a day that exists.
    pub open spec fn well_formed(self) -> bool {
        1 <= self.month <= 12 && 1 <= self.day <= days_in_month(self.year as int, self.month as int)
    }

    /// Decides [`CalendarDate::well_formed`].
    pub fn is_valid(&self) -> (valid: bool)
        ensures
            valid == self.well_formed(),
    {
        if self.month < 1 || self.month > 12 || self.day < 1 {
            return false;
        }
        let leap = self.year % 4 == 0 && (self.year % 100 != 0 || self.year % 400 == 0);
        let days: u32 = if self.month == 2 {
            if leap {
                29
            } else {
                28
            }
        } else if self.month == 4 || self.month == 6 || self.month == 9 || self.month == 11 {
            30
        } else {
            31
        };
        self.day <= days
    }
}

/// One record of reproductive success: a pack's breeding season with its
/// outcome and the environmental covariates of that season.
#[derive(Debug, Clone)]
pub struct ReproductiveSuccess {
    pub uid: u32,
    pub study: String,
    pub longitude_study: Binary64,
    pub latitude_study: Binary64,
    pub pack_id: u32,
    pub start_date: CalendarDate,
    pub end_date: CalendarDate,
    pub success: u8,
    pub summer_prcp: Option<u32>,
    pub fall_prcp: Option<u32>,
    pub winter_swe: Option<u32>,
    pub fall_tmax: Option<i8>,
    pub summer_tmax: Option<i8>,
    pub winter_tmax: Option<i8>,
    pub ti_ndvi_prev1: Option<Binary64>,
    pub ti_ndvi: Option<Binary64>,
    pub annual_pdo: Option<Binary64>,
    pub annual_ao: Option<Binary64>,
    pub home_range_area: Option<Binary64>,
    pub denning_match_growing_season: Option<Binary64>,
}

/// One record of denning phenology: the day on which a pack denned in one
/// year, with the location of its study area and the covariates of that year.
#[derive(Debug, Clone)]
pub struct DenningPhenology {
    pub uid: u32,
    pub study: String,
    pub longitude_study: Binary64,
    pub latitude_study: Binary64,
    pub pack_id: u32,
    pub denning_date: CalendarDate,
    pub denning_doy: u16,
    pub denned: i8,
    pub fall_tmax: Option<i8>,
    pub summer_tmax_prev1: Option<i8>,
    pub winter_tmax: Option<i8>,
    pub fall_prcp: Option<u32>,
    pub summer_prcp_prev1: Option<u32>,
    pub winter_swe: Option<u32>,
    pub ti_ndvi_prev1: Option<Binary64>,
    pub annual_pdo: Option<Binary64>,
    pub annual_ao: Option<Binary64>,
    pub sos_prev1: Option<Binary64>,
    pub los_prev1: Option<Binary64>,
    pub latitude_individual: Binary64,
}

impl ReproductiveSuccess {
    /// A record is complete when it has an identifier other than 0, a study
    /// area with a name, and a value for each covariate.
    pub open spec fn is_complete(&self) -> bool {
        &&& self.uid != 0
        &&& self.study@.len() > 0
        &&& self.summer_prcp is Some
        &&& self.fall_prcp is Some
        &&& self.winter_swe is Some
        &&& self.fall_tmax is Some
        &&& self.summer_tmax is Some
        &&& self.winter_tmax is Some
        &&& self.ti_ndvi_prev1 is Some
        &&& self.ti_ndvi is Some
        &&& self.annual_pdo is Some
        &&& self.annual_ao is Some
        &&& self.home_range_area is Some
        &&& self.denning_match_growing_season is Some
    }

    /// Decides [`ReproductiveSuccess::is_complete`].
    pub fn has_no_missing_fields(&self) -> (complete: bool)
        ensures
            complete == self.is_complete(),
    {
        self.uid != 0 && !self.study.as_str().is_empty() && self.summer_prcp.is_some()
            && self.fall_prcp.is_some() && self.winter_swe.is_some() && self.fall_tmax.is_some()
            && self.summer_tmax.is_some() && self.winter_tmax.is_some()
            && self.ti_ndvi_prev1.is_some() && self.ti_ndvi.is_some() && self.annual_pdo.is_some()
            && self.annual_ao.is_some() && self.home_range_area.is_some()
            && self.denning_match_growing_season.is_some()
    }
}

impl DenningPhenology {
    /// A record is complete when it has an identifier other than 0, a study
    /// area with a name, a day of the year and a denning flag other than 0, a
    /// value for each covariate, and an individual latitude other than zero.
    pub open spec fn is_complete(&self) -> bool {
        &&& self.uid != 0
        &&& self.study@.len() > 0
        &&& self.denning_doy != 0
        &&& self.denned != 0
        &&& self.fall_tmax is Some
        &&& self.summer_tmax_prev1 is Some
        &&& self.winter_tmax is Some
        &&& self.fall_prcp is Some
        &&& self.summer_prcp_prev1 is Some
        &&& self.winter_swe is Some
        &&& self.ti_ndvi_prev1 is Some
        &&& self.annual_pdo is Some
        &&& self.annual_ao is Some
        &&& self.sos_prev1 is Some
        &&& self.los_prev1 is Some
        &&& !self.latitude_individual.is_zero_spec()
    }

    /// Decides [`DenningPhenology::is_complete`].
    pub fn has_no_missing_fields(&self) -> (complete: bool)
        ensures
            complete == self.is_complete(),
    {
        self.uid != 0 && !self.study.as_str().is_empty() && self.denning_doy != 0
            && self.denned != 0 && self.fall_tmax.is_some() && self.summer_tmax_prev1.is_some()
            && self.winter_tmax.is_some() && self.fall_prcp.is_some()
            && self.summer_prcp_prev1.is_some() && self.winter_swe.is_some()
            && self.ti_ndvi_prev1.is_some() && self.annual_pdo.is_some()
            && self.annual_ao.is_some() && self.sos_prev1.is_some() && self.los_prev1.is_some()
            && !self.latitude_individual.is_zero()
    }
}

} // verus!
