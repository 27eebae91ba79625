//! Modification times as archive timestamps.
//!
//! Archive timestamps cover the years 1980 to 2107; times outside that span
//! are clamped to its first or last representable moment.
use vstd::prelude::*;

verus! {

#[verifier::external_type_specification]
#[verifier::external_body]
pub struct ExDateTime(zip::DateTime);

/// A local date and time, as its calendar fields.
#[derive(Clone, Copy, Debug, PartialEq, Eq, Structural)]
pub struct LocalTime {
    pub year: i32,
    pub month: u8,
    pub day: u8,
    pub hour: u8,
    pub minute: u8,
    pub second: u8,
}

impl LocalTime {
    /// Every field lies in its calendar range (a leap second allowed).
    pub open spec fn wf(&self) -> bool {
        &&& 1 <= self.month <= 12
        &&& 1 <= self.day <= 31
        &&& self.hour <= 23
        &&& self.minute <= 59
        &&& self.second <= 60
    }
}

/// The first moment an archive timestamp can hold.
pub open spec fn dos_min() -> LocalTime {
    LocalTime { year: 1980, month: 1, day: 1, hour: 0, minute: 0, second: 0 }
}

/// The last moment an archive timestamp can hold.
pub open spec fn dos_max() -> LocalTime {
    LocalTime { year: 2107, month: 12, day: 31, hour: 23, minute: 59, second: 58 }
}

/// A time moved into the span of archive timestamps.
pub open spec fn clamped(t: LocalTime) -> LocalTime {
    if t.year < 1980 {
        dos_min()
    } else if t.year > 2107 {
        dos_max()
    } else {
        t
    }
}

/// Moves a time into the span of archive timestamps: earlier ones become
/// its first moment, later ones its last; others stay as they are.
pub fn clamp_to_dos(t: &LocalTime) -> (r: LocalTime)
    ensures
        r == clamped(*t),
{
    if t.year < 1980 {
        LocalTime { year: 1980, month: 1, day: 1, hour: 0, minute: 0, second: 0 }
    } else if t.year > 2107 {
        LocalTime { year: 2107, month: 12, day: 31, hour: 23, minute: 59, second: 58 }
    } else {
        *t
    }
}

/// The calendar fields an archive timestamp holds: year, month, day, hour,
/// minute and second.
pub uninterp spec fn dos_fields(d: zip::DateTime) -> (u16, u8, u8, u8, u8, u8);

/// The archive timestamp fields of a time within the archive span.
pub open spec fn fields_of(t: LocalTime) -> (u16, u8, u8, u8, u8, u8) {
    (t.year as u16, t.month, t.day, t.hour, t.minute, t.second)
}

/// Relies on `zip::DateTime::from_date_and_time`: `Ok` exactly when the
/// year is within 1980..=2107, the month 1..=12, the day 1..=31, the hour at
/// most 23, the minute at most 59 and the second at most 60; the timestamp
/// then holds exactly the given fields.
#[verifier::external_body]
fn dos_datetime(year: u16, month: u8, day: u8, hour: u8, minute: u8, second: u8) -> (r: Result<
    zip::DateTime,
    (),
>)
    ensures
        r is Ok <==> (1980 <= year <= 2107 && 1 <= month <= 12 && 1 <= day <= 31 && hour <= 23
            && minute <= 59 && second <= 60),
        r is Ok ==> dos_fields(r->Ok_0) == (year, month, day, hour, minute, second),
{
    zip::DateTime::from_date_and_time(year, month, day, hour, minute, second)
}

/// The archive timestamp of a local modification time, clamped into the
/// span that archive timestamps cover: it holds the calendar fields of the
/// clamped time.
pub fn last_modified(t: &LocalTime) -> (r: zip::DateTime)
    requires
        t.wf(),
    ensures
        1980 <= clamped(*t).year <= 2107,
        dos_fields(r) == fields_of(clamped(*t)),
{
    let c = clamp_to_dos(t);
    let d = dos_datetime(c.year as u16, c.month, c.day, c.hour, c.minute, c.second);
    d.unwrap()
}

} // verus!
