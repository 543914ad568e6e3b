//! Points in time, and their stored form.

use vstd::prelude::*;

verus! {

/// A point in time, as a clock at some distance from UTC shows it:
/// nanoseconds since the Unix epoch, and how far ahead of UTC that clock is.
#[derive(Debug, Clone, Copy, PartialEq, Eq, Structural)]
pub struct Timestamp {
    pub unix_nanos: i128,
    pub offset_seconds: i32,
}

impl View for Timestamp {
    type V = Timestamp;

    open spec fn view(&self) -> Timestamp {
        *self
    }
}

/// First second of the calendar that timestamps are read on: the year -9999.
pub const MIN_UNIX_SECONDS: i64 = -377705116800;

/// Last second of that calendar: the end of the year 9999.
pub const MAX_UNIX_SECONDS: i64 = 253402300799;

/// The characters of a result that is text either way.
pub open spec fn result_text(r: Result<String, String>) -> Result<Seq<char>, Seq<char>> {
    match r {
        Ok(s) => Ok(s@),
        Err(e) => Err(e@),
    }
}

/// A reading of a clock and its offset, or the characters of why there is none.
pub open spec fn result_reading(r: Result<(i128, i32), String>) -> Result<(i128, i32), Seq<char>> {
    match r {
        Ok(reading) => Ok(reading),
        Err(e) => Err(e@),
    }
}

/// What `time` renders to in RFC 3339 form, of a clock that shows this many
/// nanoseconds since the epoch and is this far ahead of UTC; or why it does not.
pub uninterp spec fn rfc3339_text(local_nanos: i128, offset_seconds: i32) -> Result<
    Seq<char>,
    Seq<char>,
>;

/// What `time` reads in an RFC 3339 text, or why it reads nothing: nanoseconds
/// from the Unix epoch to the instant, and how far ahead of UTC its clock is.
pub uninterp spec fn rfc3339_read(s: Seq<char>) -> Result<(i128, i32), Seq<char>>;

/// First second of the year 0, in seconds since the epoch.
pub const MIN_WRITTEN_SECONDS: i64 = -62167219200;

/// Whether RFC 3339 has a form for what a clock shows: a year of four digits,
/// and an offset of whole minutes that is under a day.
pub open spec fn has_rfc3339_form(local_nanos: int, offset_seconds: int) -> bool {
    &&& MIN_WRITTEN_SECONDS <= local_nanos / 1_000_000_000 <= MAX_UNIX_SECONDS
    &&& -86400 < offset_seconds < 86400
    &&& offset_seconds % 60 == 0
}

/// Whether an RFC 3339 text reads as what this clock shows.
pub open spec fn reads_as(s: Seq<char>, local_nanos: i128, offset_seconds: i32) -> bool {
    rfc3339_read(s) == Ok::<(i128, i32), Seq<char>>(
        ((local_nanos - offset_seconds * 1_000_000_000) as i128, offset_seconds),
    )
}

/// `time::OffsetDateTime::format` with `Rfc3339`, on the date and time that
/// `from_unix_timestamp_nanos` makes of the number, under the offset that
/// `replace_offset` gives it. It succeeds on the years 0 to 9999 with an offset
/// of whole minutes under a day, and what it renders,
/// `time::OffsetDateTime::parse` reads back as the same instant and offset.
#[verifier::external_body]
fn format_rfc3339(local_nanos: i128, offset_seconds: i32) -> (r: Result<String, String>)
    ensures
        result_text(r) == rfc3339_text(local_nanos, offset_seconds),
        r is Ok <==> has_rfc3339_form(local_nanos as int, offset_seconds as int),
        r is Ok ==> reads_as(r->Ok_0@, local_nanos, offset_seconds),
{
    let local = time::OffsetDateTime::from_unix_timestamp_nanos(local_nanos).map_err(
        |e| e.to_string(),
    )?;
    let offset = time::UtcOffset::from_whole_seconds(offset_seconds).map_err(|e| e.to_string())?;
    local.replace_offset(offset).format(&time::format_description::well_known::Rfc3339).map_err(
        |e| e.to_string(),
    )
}

/// `time::OffsetDateTime::parse` with `Rfc3339`: the instant as
/// `unix_timestamp_nanos` gives it, and the offset's `whole_seconds`.
#[verifier::external_body]
fn parse_rfc3339(s: &str) -> (r: Result<(i128, i32), String>)
    ensures
        result_reading(r) == rfc3339_read(s@),
{
    match time::OffsetDateTime::parse(s, &time::format_description::well_known::Rfc3339) {
        Ok(at) => Ok((at.unix_timestamp_nanos(), at.offset().whole_seconds())),
        Err(e) => Err(e.to_string()),
    }
}

/// What a text that should be RFC 3339 says.
pub open spec fn stamp_read(s: Seq<char>) -> Result<Timestamp, Seq<char>> {
    match rfc3339_read(s) {
        Ok((unix_nanos, offset_seconds)) => Ok(Timestamp { unix_nanos, offset_seconds }),
        Err(e) => Err(e),
    }
}

/// The RFC 3339 form of a point in time, or why there is none.
pub open spec fn stamp_text(at: Timestamp) -> Result<Seq<char>, Seq<char>> {
    if i128::MIN <= at.local_nanos() <= i128::MAX {
        rfc3339_text(at.local_nanos() as i128, at.offset_seconds)
    } else {
        Err("the time is out of range"@)
    }
}

impl Timestamp {
    /// The Unix epoch.
    pub fn epoch() -> (r: Timestamp)
        ensures
            r.unix_nanos == 0,
            r.offset_seconds == 0,
    {
        Timestamp { unix_nanos: 0, offset_seconds: 0 }
    }

    /// What the clock shows, in nanoseconds since the epoch.
    pub open spec fn local_nanos(self) -> int {
        self.unix_nanos + self.offset_seconds * 1_000_000_000
    }

    /// Whether there is an RFC 3339 form of this.
    pub open spec fn writable(self) -> bool {
        has_rfc3339_form(self.local_nanos(), self.offset_seconds as int)
    }

    /// The UTC instant this many seconds after the epoch, where the calendar
    /// reaches that far.
    pub open spec fn at_second(seconds: int) -> Option<Timestamp> {
        if MIN_UNIX_SECONDS <= seconds <= MAX_UNIX_SECONDS {
            Some(Timestamp { unix_nanos: (seconds * 1_000_000_000) as i128, offset_seconds: 0 })
        } else {
            None
        }
    }

    /// The UTC instant this many seconds after the epoch, where the calendar
    /// reaches that far.
    pub fn from_unix_seconds(seconds: i64) -> (r: Option<Timestamp>)
        ensures
            r == Timestamp::at_second(seconds as int),
    {
        if MIN_UNIX_SECONDS <= seconds && seconds <= MAX_UNIX_SECONDS {
            Some(Timestamp { unix_nanos: (seconds as i128) * 1_000_000_000, offset_seconds: 0 })
        } else {
            None
        }
    }

    /// Whole seconds since the epoch, rounded down.
    pub fn unix_seconds(&self) -> (r: i128)
        ensures
            r == self.unix_nanos as int / 1_000_000_000,
    {
        let n: i128 = self.unix_nanos;
        let q: i128 = n / 1_000_000_000;
        if n < 0 && n % 1_000_000_000 != 0 {
            q - 1
        } else {
            q
        }
    }

    /// RFC 3339 form, or why there is none.
    pub fn to_rfc3339(&self) -> (r: Result<String, String>)
        ensures
            result_text(r) == stamp_text(*self),
            r is Ok <==> self.writable(),
            r is Ok ==> stamp_read(r->Ok_0@) == Ok::<Timestamp, Seq<char>>(*self),
    {
        let ahead: i128 = (self.offset_seconds as i128) * 1_000_000_000;
        match self.unix_nanos.checked_add(ahead) {
            Some(local_nanos) => format_rfc3339(local_nanos, self.offset_seconds),
            None => Err("the time is out of range".to_owned()),
        }
    }

    /// Reads RFC 3339 form.
    pub fn from_rfc3339(s: &str) -> (r: Result<Timestamp, String>)
        ensures
            match r {
                Ok(t) => stamp_read(s@) == Ok::<Timestamp, Seq<char>>(t),
                Err(e) => stamp_read(s@) == Err::<Timestamp, Seq<char>>(e@),
            },
    {
        match parse_rfc3339(s) {
            Ok((unix_nanos, offset_seconds)) => Ok(Timestamp { unix_nanos, offset_seconds }),
            Err(e) => Err(e),
        }
    }
}

} // verus!
