//! Calendar days as plain day numbers.

use chrono::Datelike;
use vstd::prelude::*;

verus! {

/// A calendar day, counted in days since 0001-01-01 of the proleptic
/// Gregorian calendar (that day is day 1).
#[derive(Clone, Copy, Debug, PartialEq, Eq, Structural, Hash, PartialOrd, Ord)]
pub struct Date {
    pub ce_days: i32,
}

/// The day number of 1970-01-01.
pub const UNIX_EPOCH_CE_DAYS: i32 = 719163;

/// The day number of 2020-01-01, where every store of this library starts.
pub const GLOBAL_START_CE_DAYS: i32 = 737425;

/// Seconds in one calendar day.
pub const SECONDS_PER_DAY: i64 = 86400;

impl Date {
    pub fn from_ce_days(ce_days: i32) -> (r: Date)
        ensures
            r.ce_days == ce_days,
    {
        Date { ce_days }
    }

    /// Signed number of whole days from `other` to `self`.
    pub fn days_since(&self, other: Date) -> (r: i64)
        ensures
            r == self.ce_days - other.ce_days,
    {
        self.ce_days as i64 - other.ce_days as i64
    }

    /// The day `n` days after `self`; `None` where that leaves the range of
    /// day numbers.
    pub fn add_days(&self, n: i64) -> (r: Option<Date>)
        ensures
            (i32::MIN <= self.ce_days + n <= i32::MAX) <==> r.is_some(),
            r.is_some() ==> r.unwrap().ce_days == self.ce_days + n,
    {
        let sum: i128 = self.ce_days as i128 + n as i128;
        if sum < i32::MIN as i128 || sum > i32::MAX as i128 {
            None
        } else {
            Some(Date { ce_days: sum as i32 })
        }
    }

    /// Seconds since 1970-01-01T00:00:00Z at the start of this day (UTC).
    pub open spec fn midnight_spec(&self) -> int {
        (self.ce_days - UNIX_EPOCH_CE_DAYS) * SECONDS_PER_DAY
    }

    /// Seconds since 1970-01-01T00:00:00Z at the start of this day (UTC).
    pub fn midnight_unix_seconds(&self) -> (r: i64)
        ensures
            r == self.midnight_spec(),
    {
        (self.ce_days as i64 - UNIX_EPOCH_CE_DAYS as i64) * SECONDS_PER_DAY
    }
}

/// The first day of every store of this library, 2020-01-01.
pub fn global_start_date() -> (r: Date)
    ensures
        r.ce_days == GLOBAL_START_CE_DAYS,
{
    Date { ce_days: GLOBAL_START_CE_DAYS }
}

/// The day number that chrono gives to an ISO `YYYY-MM-DD` text, where it
/// reads one.
pub uninterp spec fn iso_date_days(text: Seq<u8>) -> Option<int>;

/// The ISO `YYYY-MM-DD` text that chrono writes for a day number, where the
/// day lies in its range.
pub uninterp spec fn iso_date_text(ce_days: int) -> Option<Seq<u8>>;

/// Relies on `<chrono::NaiveDate as FromStr>::from_str` and
/// `Datelike::num_days_from_ce`: the day an ISO date text names.
#[verifier::external_body]
fn chrono_parse_iso(text: &[u8]) -> (r: Option<Date>)
    ensures
        r.is_some() == iso_date_days(text@).is_some(),
        r.is_some() ==> r.unwrap().ce_days == iso_date_days(text@).unwrap(),
{
    match std::str::from_utf8(text) {
        Ok(s) => match s.parse::<chrono::NaiveDate>() {
            Ok(d) => Some(Date { ce_days: d.num_days_from_ce() }),
            Err(_) => None,
        },
        Err(_) => None,
    }
}

/// Relies on `chrono::NaiveDate::from_num_days_from_ce_opt` and chrono's
/// `Display` for `NaiveDate`: the ISO text of a day. chrono covers at least
/// the years 1 to 9999.
#[verifier::external_body]
fn chrono_format_iso(d: Date) -> (r: Option<Vec<u8>>)
    ensures
        r.is_some() == iso_date_text(d.ce_days as int).is_some(),
        r.is_some() ==> r.unwrap()@ == iso_date_text(d.ce_days as int).unwrap(),
        1 <= d.ce_days <= MAX_FOUR_DIGIT_YEAR_CE_DAYS ==> r.is_some(),
{
    match chrono::NaiveDate::from_num_days_from_ce_opt(d.ce_days) {
        Some(nd) => Some(nd.to_string().into_bytes()),
        None => None,
    }
}

/// The day number of 9999-12-31.
pub const MAX_FOUR_DIGIT_YEAR_CE_DAYS: i32 = 3652059;

/// Reads an ISO `YYYY-MM-DD` date.
pub fn parse_iso_date(text: &[u8]) -> (r: Option<Date>)
    ensures
        r.is_some() == iso_date_days(text@).is_some(),
        r.is_some() ==> r.unwrap().ce_days == iso_date_days(text@).unwrap(),
{
    chrono_parse_iso(text)
}

/// The bytes that a record date field is read as: a 10-byte field as it
/// stands, a 19-byte field cut to its first 10 bytes with every `/` made a
/// `-`; `None` for any other length.
pub open spec fn record_date_text(text: Seq<u8>) -> Option<Seq<u8>> {
    if text.len() == 10 {
        Some(text)
    } else if text.len() == 19 {
        Some(text.subrange(0, 10).map_values(|b: u8| if b == 0x2f { 0x2du8 } else { b }))
    } else {
        None
    }
}

/// The day a record date field names: `YYYY-MM-DD`, or a 19-byte
/// `YYYY/MM/DD hh:mm:ss` style stamp whose time part is ignored.
pub fn parse_record_date(text: &[u8]) -> (r: Option<Date>)
    ensures
        r.is_some() <==> (record_date_text(text@).is_some()
            && iso_date_days(record_date_text(text@).unwrap()).is_some()),
        r.is_some() ==> r.unwrap().ce_days == iso_date_days(record_date_text(text@).unwrap()).unwrap(),
{
    if text.len() == 10 {
        parse_iso_date(text)
    } else if text.len() == 19 {
        let mut head: Vec<u8> = Vec::new();
        let mut i: usize = 0;
        while i < 10
            invariant
                text@.len() == 19,
                i <= 10,
                head@ == text@.subrange(0, i as int).map_values(|b: u8| if b == 0x2f { 0x2du8 } else { b }),
            decreases 10 - i,
        {
            let b = text[i];
            head.push(if b == 0x2f { 0x2du8 } else { b });
            i = i + 1;
            assert(head@ =~= text@.subrange(0, i as int).map_values(|b: u8| if b == 0x2f { 0x2du8 } else { b }));
        }
        parse_iso_date(head.as_slice())
    } else {
        None
    }
}

/// The ISO `YYYY-MM-DD` text of a day, where chrono has the day.
pub fn format_iso_date(d: Date) -> (r: Option<Vec<u8>>)
    ensures
        r.is_some() == iso_date_text(d.ce_days as int).is_some(),
        r.is_some() ==> r.unwrap()@ == iso_date_text(d.ce_days as int).unwrap(),
        1 <= d.ce_days <= MAX_FOUR_DIGIT_YEAR_CE_DAYS ==> r.is_some(),
{
    chrono_format_iso(d)
}

} // verus!
