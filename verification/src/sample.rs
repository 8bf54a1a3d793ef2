use vstd::prelude::*;

verus! {

/// A calendar instant in UTC, second resolution, as read from a GPX
/// `time` element of the form `YYYY-MM-DDTHH:MM:SS`.
#[derive(Clone, Copy, Debug, PartialEq, Eq, Structural)]
pub struct Timestamp {
    pub year: u64,
    pub month: u64,
    pub day: u64,
    pub hour: u64,
    pub minute: u64,
    pub second: u64,
}

/// One track point: elevation in millimeters, coordinates in
/// microdegrees, and the instant it was recorded.
#[derive(Clone, Copy, Debug, PartialEq, Eq, Structural)]
pub struct Sample {
    pub ele_mm: i64,
    pub time: Timestamp,
    pub lat_udeg: i64,
    pub lon_udeg: i64,
}

/// Magnitude bound on parsed scaled values (elevation, coordinates),
/// forced by the fixed-point arithmetic fitting in 64-bit integers.
pub const MAX_SCALED: i64 = 1_000_000_000_000_000;

impl Timestamp {
    pub open spec fn wf(self) -> bool {
        &&& 1 <= self.year <= 9999
        &&& 1 <= self.month <= 12
        &&& 1 <= self.day <= 31
        &&& self.hour <= 23
        &&& self.minute <= 59
        &&& self.second <= 59
    }

    /// Count of days from the civil epoch of 0000-03-01 to this date,
    /// by the standard era decomposition of the proleptic Gregorian
    /// calendar (400-year eras of 146097 days).
    pub open spec fn spec_era_days(self) -> int {
        let y: int = if self.month <= 2 {
            self.year - 1
        } else {
            self.year as int
        };
        let mp: int = if self.month > 2 {
            self.month - 3
        } else {
            self.month + 9
        };
        let era = y / 400;
        let yoe = y % 400;
        let doy = (153 * mp + 2) / 5 + self.day - 1;
        let doe = yoe * 365 + yoe / 4 - yoe / 100 + doy;
        era * 146097 + doe
    }

    /// Seconds since 1970-01-01T00:00:00 UTC (negative before it).
    pub open spec fn spec_epoch_seconds(self) -> int {
        (self.spec_era_days() - 719468) * 86400 + self.hour * 3600 + self.minute * 60
            + self.second
    }

    /// Day of the week, 0 = Sunday .. 6 = Saturday.
    pub open spec fn spec_weekday(self) -> int {
        (self.spec_era_days() + 3) % 7
    }

    pub proof fn lemma_era_days_bounds(self)
        requires
            self.wf(),
        ensures
            0 <= self.spec_era_days() < 3_700_000,
    {
    }

    /// Seconds since the Unix epoch, for durations and display.
    pub fn epoch_seconds(&self) -> (r: i64)
        requires
            self.wf(),
        ensures
            r == self.spec_epoch_seconds(),
            -100_000_000_000 <= r <= 400_000_000_000,
    {
        let y: u64 = if self.month <= 2 {
            self.year - 1
        } else {
            self.year
        };
        let mp: u64 = if self.month > 2 {
            self.month - 3
        } else {
            self.month + 9
        };
        let era: u64 = y / 400;
        let yoe: u64 = y % 400;
        let doy: u64 = (153 * mp + 2) / 5 + self.day - 1;
        let doe: u64 = yoe * 365 + yoe / 4 - yoe / 100 + doy;
        let era_days: u64 = era * 146097 + doe;
        proof {
            self.lemma_era_days_bounds();
        }
        let days: i64 = era_days as i64 - 719468;
        days * 86400 + self.hour as i64 * 3600 + self.minute as i64 * 60 + self.second as i64
    }

    /// Runtime test of well-formedness, for callers outside the
    /// verified world.
    pub fn check_wf(&self) -> (r: bool)
        ensures
            r == self.wf(),
    {
        1 <= self.year && self.year <= 9999 && 1 <= self.month && self.month <= 12 && 1 <= self.day
            && self.day <= 31 && self.hour <= 23 && self.minute <= 59 && self.second <= 59
    }

    /// Day of the week, 0 = Sunday .. 6 = Saturday.
    pub fn weekday(&self) -> (r: u64)
        requires
            self.wf(),
        ensures
            r == self.spec_weekday(),
            r < 7,
    {
        let y: u64 = if self.month <= 2 {
            self.year - 1
        } else {
            self.year
        };
        let mp: u64 = if self.month > 2 {
            self.month - 3
        } else {
            self.month + 9
        };
        let era: u64 = y / 400;
        let yoe: u64 = y % 400;
        let doy: u64 = (153 * mp + 2) / 5 + self.day - 1;
        let doe: u64 = yoe * 365 + yoe / 4 - yoe / 100 + doy;
        let era_days: u64 = era * 146097 + doe;
        proof {
            self.lemma_era_days_bounds();
        }
        (era_days + 3) % 7
    }
}

impl Sample {
    pub open spec fn wf(self) -> bool {
        &&& self.time.wf()
        &&& -MAX_SCALED <= self.ele_mm <= MAX_SCALED
        &&& -MAX_SCALED <= self.lat_udeg <= MAX_SCALED
        &&& -MAX_SCALED <= self.lon_udeg <= MAX_SCALED
    }
}

} // verus!
