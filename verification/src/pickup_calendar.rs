//! The canonical pickup schedule for one property: the identifier handed
//! through, the address the page showed, and the normalized, gap-completed
//! entry sequence, with the cache-expiration instant it is valid until.

use vstd::prelude::*;
use vstd::string::StringExecFns;

use crate::date::{date_valid, epoch_days, spec_epoch_days, spec_next_day, Date};
use crate::normalize::{lemma_normalize_dates, normalize_records, spec_normalize};
use crate::pickup::{spec_parse_record, Pickup};
use crate::tz::{format_http_date, http_date_of, pacific_offset, pacific_offset_at_4am};

verus! {

/// What parsing a whole page's raw fragment rows yields: each row's
/// (kind text, date text) pair in order, keeping the records that parse
/// and dropping the rows that do not.
pub open spec fn spec_parse_records(rows: Seq<(String, String)>) -> Seq<Pickup>
    decreases rows.len(),
{
    if rows.len() == 0 {
        Seq::empty()
    } else {
        let rest = spec_parse_records(rows.drop_last());
        match spec_parse_record(rows.last().0@, rows.last().1@) {
            Some(p) => rest.push(p),
            None => rest,
        }
    }
}

/// Parses every raw fragment row, dropping the rows whose kind or date
/// text does not parse, exactly as the scrape pipeline filters failed
/// fragments out before normalization.
pub fn parse_records(rows: &Vec<(String, String)>) -> (r: Vec<Pickup>)
    ensures
        r@ == spec_parse_records(rows@),
        forall|i: int| 0 <= i < r@.len() ==> date_valid((#[trigger] r@[i]).date),
{
    let mut out: Vec<Pickup> = Vec::new();
    let mut i: usize = 0;
    proof {
        assert(rows@.take(0) =~= Seq::<(String, String)>::empty());
    }
    while i < rows.len()
        invariant
            0 <= i <= rows@.len(),
            out@ == spec_parse_records(rows@.take(i as int)),
            forall|k: int| 0 <= k < out@.len() ==> date_valid((#[trigger] out@[k]).date),
        decreases rows@.len() - i,
    {
        let row = &rows[i];
        match Pickup::parse(row.0.as_str(), row.1.as_str()) {
            Ok(p) => out.push(p),
            Err(_) => (),
        }
        proof {
            assert(rows@.take(i + 1).drop_last() =~= rows@.take(i as int));
            assert(rows@.take(i + 1).last() == rows@[i as int]);
        }
        i = i + 1;
    }
    proof {
        assert(rows@.take(rows@.len() as int) =~= rows@);
    }
    out
}

/// A property's normalized schedule.
pub struct PickupCalendar {
    /// The property identifier, handed through unchanged.
    pub id: String,
    /// The free-text address the source page showed.
    pub address: String,
    /// The entries, sorted by (date, kind) and gap-completed.
    pub pickups: Vec<Pickup>,
}

/// When a schedule with these entries stops being valid: the instant
/// `earliest date + 1 day, 04:00:00` US/Pacific, as UTC seconds since the
/// Unix epoch. 04:00 never falls inside a daylight-saving gap or overlap
/// there, so the resolution is single-valued; an empty schedule, or a
/// civil time the timezone data will not resolve, yields nothing
/// (expire immediately).
pub open spec fn spec_valid_until(s: Seq<Pickup>) -> Option<int> {
    if s.len() == 0 {
        None
    } else {
        match spec_next_day(s[0].date) {
            Some(nd) => match pacific_offset_at_4am(nd.year as int, nd.month as int, nd.day as int) {
                Some(off) => Some(spec_epoch_days(nd) * 86400 + 4 * 3600 - off),
                None => None,
            },
            None => None,
        }
    }
}

/// The `Expires` rendering of a schedule: the HTTP date of its expiry
/// instant, or the literal `0` for a schedule that must not be cached.
pub open spec fn spec_expires_header(s: Seq<Pickup>) -> Seq<char> {
    match spec_valid_until(s) {
        Some(t) => http_date_of(t),
        None => "0"@,
    }
}

impl PickupCalendar {
    /// Every entry falls on a real calendar day.
    pub open spec fn wf(self) -> bool {
        forall|i: int| 0 <= i < self.pickups@.len() ==> date_valid((#[trigger] self.pickups@[i]).date)
    }

    /// Builds the schedule for one property: normalizes the raw records
    /// and hands identifier and address through unchanged.
    pub fn new(id: &str, address: &str, pickups: Vec<Pickup>) -> (r: PickupCalendar)
        requires
            forall|i: int| 0 <= i < pickups@.len() ==> date_valid((#[trigger] pickups@[i]).date),
        ensures
            r.id@ == id@,
            r.address@ == address@,
            r.pickups@ == spec_normalize(pickups@),
            r.wf(),
    {
        let entries = normalize_records(&pickups);
        proof {
            lemma_normalize_dates(pickups@);
        }
        PickupCalendar { id: String::from_str(id), address: String::from_str(address), pickups: entries }
    }

    /// Builds the schedule for one property straight from the scraped
    /// fragment rows: parse what parses, drop what does not, normalize.
    pub fn from_rows(id: &str, address: &str, rows: &Vec<(String, String)>) -> (r: PickupCalendar)
        ensures
            r.id@ == id@,
            r.address@ == address@,
            r.pickups@ == spec_normalize(spec_parse_records(rows@)),
            r.wf(),
    {
        let records = parse_records(rows);
        PickupCalendar::new(id, address, records)
    }

    /// The expiry instant, as UTC seconds since the Unix epoch, or nothing
    /// when the schedule must not be cached.
    pub fn valid_until(&self) -> (r: Option<i64>)
        requires
            self.wf(),
        ensures
            match r {
                Some(t) => spec_valid_until(self.pickups@) == Some(t as int) && -1000000000000
                    <= t <= 1000000000000,
                None => spec_valid_until(self.pickups@) is None,
            },
    {
        if self.pickups.len() == 0 {
            return None;
        }
        let first = self.pickups[0];
        match first.date.next_day() {
            None => None,
            Some(nd) => match pacific_offset(nd.year, nd.month, nd.day) {
                None => None,
                Some(off) => {
                    let days = epoch_days(&nd);
                    Some(days * 86400 + 4 * 3600 - (off as i64))
                },
            },
        }
    }

    /// The value of the `Expires` header for this schedule.
    pub fn expires_header(&self) -> (r: String)
        requires
            self.wf(),
        ensures
            r@ == spec_expires_header(self.pickups@),
    {
        match self.valid_until() {
            Some(t) => format_http_date(t),
            None => String::from_str("0"),
        }
    }
}

} // verus!
