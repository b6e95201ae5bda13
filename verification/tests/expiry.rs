use trashcal::date::{epoch_days, Date};
use trashcal::pickup::{Pickup, PickupType};
use trashcal::pickup_calendar::PickupCalendar;

use chrono::{NaiveDate, NaiveDateTime, NaiveTime, TimeZone};
use chrono_tz::US::Pacific;

fn pacific_expected(y: i32, m: u32, d: u32) -> i64 {
    let naive = NaiveDateTime::new(
        NaiveDate::from_ymd_opt(y, m, d).unwrap(),
        NaiveTime::from_hms_opt(4, 0, 0).unwrap(),
    );
    Pacific
        .from_local_datetime(&naive)
        .single()
        .unwrap()
        .to_utc()
        .timestamp()
}

#[test]
fn expires_next_day() {
    let calendar = PickupCalendar {
        id: "foo".to_string(),
        address: "bar".to_string(),
        pickups: vec![
            Pickup::new(PickupType::Trash, Date::new(2023, 1, 1)),
            // the calculation should only take the earliest
            Pickup::new(PickupType::Trash, Date::new(2023, 8, 1)),
        ],
    };

    let expected = pacific_expected(2023, 1, 2);
    let valid = calendar.valid_until().unwrap();

    assert_eq!(valid, expected);
}

#[test]
fn expires_header() {
    let calendar = PickupCalendar {
        id: "foo".to_string(),
        address: "bar".to_string(),
        pickups: vec![Pickup::new(PickupType::Trash, Date::new(2023, 1, 1))],
    };

    let chrono::LocalResult::Single(expected) = Pacific.with_ymd_and_hms(2023, 1, 2, 4, 0, 0)
    else {
        panic!()
    };
    let expected = expected.to_utc();
    let expected = expected.format("%a, %d %b %Y %H:%M:%S GMT").to_string();

    assert_eq!(calendar.expires_header(), expected);
}

#[test]
fn expires_at_known_winter_instant() {
    // 2023-01-02 04:00 in US/Pacific is standard time (UTC-8): 12:00 UTC
    let calendar = PickupCalendar::new(
        "foo",
        "bar",
        vec![Pickup::new(PickupType::Trash, Date::new(2023, 1, 1))],
    );
    assert_eq!(calendar.valid_until(), Some(1672660800));
    assert_eq!(calendar.expires_header(), "Mon, 02 Jan 2023 12:00:00 GMT");
}

#[test]
fn expires_at_known_summer_instant() {
    // 2023-06-02 04:00 in US/Pacific is daylight time (UTC-7): 11:00 UTC
    let calendar = PickupCalendar::new(
        "foo",
        "bar",
        vec![Pickup::new(PickupType::Trash, Date::new(2023, 6, 1))],
    );
    assert_eq!(calendar.valid_until(), Some(pacific_expected(2023, 6, 2)));
    assert_eq!(calendar.expires_header(), "Fri, 02 Jun 2023 11:00:00 GMT");
}

#[test]
fn expiry_crosses_month_and_year_ends() {
    let calendar = PickupCalendar::new(
        "foo",
        "bar",
        vec![Pickup::new(PickupType::Trash, Date::new(2023, 12, 31))],
    );
    assert_eq!(calendar.valid_until(), Some(pacific_expected(2024, 1, 1)));

    let calendar = PickupCalendar::new(
        "foo",
        "bar",
        vec![Pickup::new(PickupType::Organics, Date::new(2024, 2, 28))],
    );
    // 2024 is a leap year: the day after 02-28 is 02-29
    assert_eq!(calendar.valid_until(), Some(pacific_expected(2024, 2, 29)));
}

#[test]
fn empty_schedule_never_caches() {
    let calendar = PickupCalendar::new("foo", "bar", vec![]);
    assert_eq!(calendar.valid_until(), None);
    assert_eq!(calendar.expires_header(), "0");
}

#[test]
fn epoch_day_counts_match_chrono() {
    assert_eq!(epoch_days(&Date::new(1970, 1, 1)), 0);
    assert_eq!(epoch_days(&Date::new(2023, 1, 1)), 19358);
    for (y, m, d) in [
        (1970, 1, 1),
        (1999, 12, 31),
        (2000, 2, 29),
        (2023, 1, 1),
        (2024, 3, 1),
        (1904, 7, 15),
        (9999, 12, 31),
    ] {
        let expected = NaiveDate::from_ymd_opt(y, m, d)
            .unwrap()
            .signed_duration_since(NaiveDate::from_ymd_opt(1970, 1, 1).unwrap())
            .num_days();
        assert_eq!(
            epoch_days(&Date::new(y as u16, m as u8, d as u8)),
            expected,
            "epoch day count for {y}-{m}-{d}"
        );
    }
}

#[test]
fn next_day_follows_the_calendar() {
    assert_eq!(
        Date::new(2023, 12, 31).next_day(),
        Some(Date::new(2024, 1, 1))
    );
    assert_eq!(Date::new(2023, 2, 28).next_day(), Some(Date::new(2023, 3, 1)));
    assert_eq!(Date::new(2024, 2, 28).next_day(), Some(Date::new(2024, 2, 29)));
    assert_eq!(Date::new(2024, 2, 29).next_day(), Some(Date::new(2024, 3, 1)));
    assert_eq!(Date::new(2023, 4, 30).next_day(), Some(Date::new(2023, 5, 1)));
    assert_eq!(Date::new(9999, 12, 31).next_day(), None);
}
