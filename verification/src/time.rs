use vstd::prelude::*;
use crate::errors::CoreError;

verus! {

/// Nanoseconds in one second.
pub const NANOS_PER_SEC: i128 = 1_000_000_000;

/// Nanoseconds in one day of exactly twenty-four hours.
pub const NANOS_PER_DAY: i128 = 86_400_000_000_000;

/// The latest instant to which any interval the scheduler can produce may
/// still be added without leaving the representable range.
pub const LATEST_SCHEDULABLE: i128 = 0x7fff_ffff_ffff_ffff_ffff_ffff_ffff_ffff - 0xffff_ffff
    * 86_400_000_000_000;

/// An instant on the UTC time line, counted in nanoseconds from the Unix epoch.
#[derive(Clone, Copy, Debug, PartialEq, Eq, Structural)]
pub struct Timestamp {
    pub nanos: i128,
}

/// A calendar day in UTC, counted in whole days from the Unix epoch.
pub type Day = i128;

/// The instant that lies `secs` whole seconds and `subsec_nanos` nanoseconds
/// after the epoch.
pub open spec fn instant_of(secs: int, subsec_nanos: int) -> int {
    secs * 1_000_000_000 + subsec_nanos
}

/// A day as a mathematical integer.
pub open spec fn day_int(d: Day) -> int {
    d as int
}

/// The UTC day that contains the instant `nanos`.
pub open spec fn day_of(nanos: int) -> int {
    nanos / 86_400_000_000_000
}

/// Reads the system clock through `chrono::Utc::now` and hands back the
/// reading as whole seconds since the epoch (`DateTime::timestamp`) and the
/// nanoseconds since the last second boundary
/// (`DateTime::timestamp_subsec_nanos`). Nothing is claimed of the reading.
#[verifier::external_body]
fn clock_reading() -> (r: (i64, u32)) {
    let t = chrono::Utc::now();
    (t.timestamp(), t.timestamp_subsec_nanos())
}

/// The error of `chrono::DateTime::parse_from_rfc3339`, `chrono::ParseError`,
/// carried through as it comes; nothing is known of what it holds.
#[verifier::external_type_specification]
#[verifier::external_body]
pub struct ExParseError(chrono::ParseError);

/// The instant that a text in the format of RFC 3339 denotes, as whole
/// seconds since the epoch and nanoseconds since the last second boundary,
/// or `None` where the text is not in that format.
pub uninterp spec fn parsed_rfc3339(text: Seq<char>) -> Option<(i64, u32)>;

/// The text in the format of RFC 3339 for the instant that lies `secs`
/// seconds and `subsec_nanos` nanoseconds after the epoch, in UTC, or `None`
/// where the calendar cannot hold that instant.
pub uninterp spec fn rfc3339_of(secs: i64, subsec_nanos: u32) -> Option<Seq<char>>;

/// Parses a text with `chrono::DateTime::parse_from_rfc3339` and hands back
/// the instant as whole seconds (`DateTime::timestamp`) and nanoseconds
/// (`DateTime::timestamp_subsec_nanos`). The contract names the result.
#[verifier::external_body]
pub(crate) fn parse_rfc3339(text: &str) -> (r: Result<(i64, u32), chrono::ParseError>)
    ensures
        r.is_ok() == parsed_rfc3339(text@).is_some(),
        r.is_ok() ==> Some(r.unwrap()) == parsed_rfc3339(text@),
{
    match chrono::DateTime::parse_from_rfc3339(text) {
        Ok(d) => Ok((d.timestamp(), d.timestamp_subsec_nanos())),
        Err(e) => Err(e),
    }
}

/// Builds the instant with `chrono::DateTime::from_timestamp`, which gives
/// none where the calendar cannot hold it, and writes it with
/// `DateTime::to_rfc3339`. The contract names the result.
#[verifier::external_body]
pub(crate) fn format_rfc3339(secs: i64, subsec_nanos: u32) -> (r: Option<String>)
    ensures
        r is Some == rfc3339_of(secs, subsec_nanos) is Some,
        r is Some ==> Some(r->0@) == rfc3339_of(secs, subsec_nanos),
{
    chrono::DateTime::from_timestamp(secs, subsec_nanos).map(|d| d.to_rfc3339())
}

/// The text for an instant in the format of RFC 3339, where the instant has
/// one: its whole seconds must fit 64 bits and the calendar must hold it.
pub open spec fn text_of(t: Timestamp) -> Option<Seq<char>> {
    let secs = t.nanos as int / 1_000_000_000;
    if i64::MIN <= secs <= i64::MAX {
        rfc3339_of(secs as i64, (t.nanos as int % 1_000_000_000) as u32)
    } else {
        None
    }
}

/// Reads an instant from a text in the format of RFC 3339. Fails with
/// `Invalid("datetime")` exactly when the text is not in that format.
pub fn dt_from_str(text: &str) -> (r: Result<Timestamp, CoreError>)
    ensures
        match parsed_rfc3339(text@) {
            Some(p) => r == Ok::<Timestamp, CoreError>(
                Timestamp { nanos: instant_of(p.0 as int, p.1 as int) as i128 },
            ),
            None => r == Err::<Timestamp, CoreError>(CoreError::Invalid("datetime")),
        },
{
    match parse_rfc3339(text) {
        Ok(p) => Ok(Timestamp::from_parts(p.0, p.1)),
        Err(_) => Err(CoreError::Invalid("datetime")),
    }
}

/// Writes an instant in the format of RFC 3339, in UTC. Gives `None` for an
/// instant that has no such text.
pub fn dt_to_str(t: Timestamp) -> (r: Option<String>)
    ensures
        r is Some == text_of(t) is Some,
        r is Some ==> Some(r->0@) == text_of(t),
{
    let secs = t.whole_secs();
    if secs < -0x8000_0000_0000_0000 || secs > 0x7fff_ffff_ffff_ffff {
        return None;
    }
    format_rfc3339(secs as i64, t.subsec_nanos())
}

impl Timestamp {
    /// The UTC day that contains this instant.
    pub open spec fn day_spec(self) -> int {
        day_of(self.nanos as int)
    }

    /// True when any schedulable interval can be added to this instant.
    pub open spec fn schedulable(self) -> bool {
        self.nanos <= LATEST_SCHEDULABLE
    }

    /// True when any schedulable interval can be added to this instant.
    pub fn is_schedulable(&self) -> (b: bool)
        ensures
            b == self.schedulable(),
    {
        self.nanos <= LATEST_SCHEDULABLE
    }

    /// Builds an instant from whole seconds and sub-second nanoseconds.
    pub fn from_parts(secs: i64, subsec_nanos: u32) -> (t: Timestamp)
        ensures
            t.nanos == instant_of(secs as int, subsec_nanos as int),
            t.schedulable(),
    {
        let s: i128 = secs as i128;
        let n: i128 = subsec_nanos as i128;
        Timestamp { nanos: s * 1_000_000_000 + n }
    }

    /// The current instant according to the system clock.
    pub fn now() -> (t: Timestamp)
        ensures
            t.schedulable(),
    {
        let (secs, subsec) = clock_reading();
        Timestamp::from_parts(secs, subsec)
    }

    /// Whole seconds since the epoch, rounded towards the past.
    pub fn whole_secs(&self) -> (s: i128)
        ensures
            s == self.nanos as int / 1_000_000_000,
    {
        if self.nanos >= 0 {
            self.nanos / 1_000_000_000
        } else {
            let m: i128 = -(self.nanos + 1);
            -(m / 1_000_000_000) - 1
        }
    }

    /// Nanoseconds since the last second boundary.
    pub fn subsec_nanos(&self) -> (n: u32)
        ensures
            n == self.nanos as int % 1_000_000_000,
    {
        if self.nanos >= 0 {
            (self.nanos % 1_000_000_000) as u32
        } else {
            let m: i128 = -(self.nanos + 1);
            (999_999_999 - m % 1_000_000_000) as u32
        }
    }

    /// The instant `days` days of twenty-four hours after this one.
    pub fn plus_days(&self, days: u32) -> (t: Timestamp)
        requires
            self.schedulable(),
        ensures
            t.nanos == self.nanos + days * NANOS_PER_DAY,
    {
        let d: i128 = days as i128;
        Timestamp { nanos: self.nanos + d * 86_400_000_000_000 }
    }

    /// The UTC day that contains this instant.
    pub fn day(&self) -> (d: Day)
        ensures
            d == self.day_spec(),
    {
        if self.nanos >= 0 {
            self.nanos / 86_400_000_000_000
        } else {
            let m: i128 = -(self.nanos + 1);
            -(m / 86_400_000_000_000) - 1
        }
    }

    /// True when `self` lies at least one full day before `later`.
    pub fn at_least_a_day_before(&self, later: Timestamp) -> (b: bool)
        ensures
            b == (later.nanos - self.nanos >= NANOS_PER_DAY),
    {
        if self.nanos <= i128::MAX - 86_400_000_000_000 {
            self.nanos + 86_400_000_000_000 <= later.nanos
        } else {
            false
        }
    }
}

} // verus!
