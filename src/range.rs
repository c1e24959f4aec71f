//! The span of one audit: from the midnight that starts a given day up to the
//! instant the audit runs.
use vstd::prelude::*;

use crate::calendar::{day_of, epoch_day_of_date, midnight_of, parse_epoch_day};

verus! {

/// The audited span: every instant from midnight (UTC) of `start_day` through
/// `end`, both inclusive. `start_day` counts days since 1970-01-01; `end` is in
/// seconds since 1970-01-01T00:00:00Z. A span whose start lies after its end is
/// empty, which is not an error.
#[derive(Clone, Copy, Debug, PartialEq, Eq, Structural)]
pub struct AuditRange {
    pub start_day: i64,
    pub end: i64,
}

/// Why a configured audit could not be set up.
#[derive(Clone, Copy, Debug, PartialEq, Eq, Structural)]
pub enum RangeError {
    /// The start date is not a `YYYY-MM-DD` date.
    InvalidStartDate,
}

impl AuditRange {
    /// The first instant of the span.
    pub open spec fn start_instant(self) -> int {
        midnight_of(self.start_day as int)
    }

    /// The calendar day of the span's last instant.
    pub open spec fn end_day(self) -> int {
        day_of(self.end as int)
    }

    /// Whether the instant `ts` lies in the span.
    pub open spec fn contains(self, ts: int) -> bool {
        self.start_instant() <= ts <= self.end
    }

    /// The span from midnight of the date `start_date` (`YYYY-MM-DD`) up to `end`.
    pub fn from_start_date(start_date: &str, end: i64) -> (r: Result<AuditRange, RangeError>)
        ensures
            match r {
                Ok(range) => epoch_day_of_date(start_date@) == Some(range.start_day as int)
                    && range.end == end,
                Err(e) => epoch_day_of_date(start_date@) is None && e == RangeError::InvalidStartDate,
            },
    {
        match parse_epoch_day(start_date) {
            Some(day) => Ok(AuditRange { start_day: day as i64, end }),
            None => Err(RangeError::InvalidStartDate),
        }
    }
}

} // verus!
