use trashcal::date::Date;
use trashcal::pickup::{Pickup, PickupType};
use trashcal::pickup_calendar::PickupCalendar;

use chrono::{Datelike, Duration, Utc};

fn date_of(d: chrono::NaiveDate) -> Date {
    Date::new(d.year() as u16, d.month() as u8, d.day() as u8)
}

#[test]
fn insert_pickup_for_opposite_week_recycling() {
    let this_week = date_of(Utc::now().date_naive());
    let next_week = date_of(
        Utc::now()
            .date_naive()
            .checked_add_signed(Duration::days(7))
            .unwrap(),
    );

    let pickups = vec![
        Pickup::new(PickupType::Trash, this_week),
        Pickup::new(PickupType::Recyclables, next_week),
        Pickup::new(PickupType::Organics, this_week),
    ];

    let result = PickupCalendar::new("foo", "1234 Anywhere St.", pickups);
    assert_eq!(
        result.pickups,
        vec![
            // this week
            Pickup::new(PickupType::Organics, this_week),
            Pickup::new(PickupType::Trash, this_week),
            // next week
            Pickup::new(PickupType::Recyclables, next_week),
            Pickup::new(PickupType::Organics, next_week),
            Pickup::new(PickupType::Trash, next_week),
        ]
    );
}

#[test]
fn sameweek_greens_and_recycling() {
    let this_week = date_of(Utc::now().date_naive());

    let pickups = vec![
        Pickup::new(PickupType::Trash, this_week),
        Pickup::new(PickupType::Recyclables, this_week),
        Pickup::new(PickupType::Organics, this_week),
    ];

    let result = PickupCalendar::new("foo", "1234 Anywhere St.", pickups);
    assert_eq!(
        result.pickups,
        vec![
            Pickup::new(PickupType::Recyclables, this_week),
            Pickup::new(PickupType::Organics, this_week),
            Pickup::new(PickupType::Trash, this_week),
        ]
    );
}

#[test]
fn three_kinds_one_date_ordered() {
    let d = Date::new(2023, 1, 1);
    let pickups = vec![
        Pickup::new(PickupType::Trash, d),
        Pickup::new(PickupType::Organics, d),
        Pickup::new(PickupType::Recyclables, d),
    ];
    let result = PickupCalendar::new("foo", "bar", pickups);
    assert_eq!(
        result.pickups,
        vec![
            Pickup::new(PickupType::Recyclables, d),
            Pickup::new(PickupType::Organics, d),
            Pickup::new(PickupType::Trash, d),
        ]
    );
}

#[test]
fn lone_trash_completes_to_organics_and_trash() {
    let d = Date::new(2023, 3, 6);
    let result = PickupCalendar::new("foo", "bar", vec![Pickup::new(PickupType::Trash, d)]);
    assert_eq!(
        result.pickups,
        vec![
            Pickup::new(PickupType::Organics, d),
            Pickup::new(PickupType::Trash, d),
        ]
    );
}

#[test]
fn lone_recyclables_completes_with_trash_and_organics() {
    let d = Date::new(2023, 3, 6);
    let result = PickupCalendar::new("foo", "bar", vec![Pickup::new(PickupType::Recyclables, d)]);
    assert_eq!(
        result.pickups,
        vec![
            Pickup::new(PickupType::Recyclables, d),
            Pickup::new(PickupType::Organics, d),
            Pickup::new(PickupType::Trash, d),
        ]
    );
}

#[test]
fn lone_organics_keeps_literal_completion() {
    let d = Date::new(2023, 3, 6);
    let result = PickupCalendar::new("foo", "bar", vec![Pickup::new(PickupType::Organics, d)]);
    assert_eq!(
        result.pickups,
        vec![
            Pickup::new(PickupType::Organics, d),
            Pickup::new(PickupType::Organics, d),
            Pickup::new(PickupType::Trash, d),
        ]
    );
}

#[test]
fn empty_input_gives_empty_schedule() {
    let result = PickupCalendar::new("foo", "bar", vec![]);
    assert!(result.pickups.is_empty());
    assert_eq!(result.id, "foo");
    assert_eq!(result.address, "bar");
}

#[test]
fn duplicate_records_are_preserved() {
    let d = Date::new(2023, 3, 6);
    let pickups = vec![
        Pickup::new(PickupType::Trash, d),
        Pickup::new(PickupType::Trash, d),
    ];
    let result = PickupCalendar::new("foo", "bar", pickups);
    assert_eq!(
        result.pickups,
        vec![
            Pickup::new(PickupType::Trash, d),
            Pickup::new(PickupType::Trash, d),
        ]
    );
}

#[test]
fn entries_are_sorted_by_date_then_kind() {
    let pickups = vec![
        Pickup::new(PickupType::Trash, Date::new(2023, 5, 8)),
        Pickup::new(PickupType::Organics, Date::new(2023, 5, 1)),
        Pickup::new(PickupType::Recyclables, Date::new(2023, 5, 8)),
        Pickup::new(PickupType::Trash, Date::new(2023, 5, 1)),
        Pickup::new(PickupType::Organics, Date::new(2023, 5, 8)),
    ];
    let result = PickupCalendar::new("foo", "bar", pickups);
    let rank = |k: &PickupType| match k {
        PickupType::Recyclables => 0,
        PickupType::Organics => 1,
        PickupType::Trash => 2,
    };
    for w in result.pickups.windows(2) {
        let a = &w[0];
        let b = &w[1];
        let ka = (a.date.year, a.date.month, a.date.day, rank(&a.name));
        let kb = (b.date.year, b.date.month, b.date.day, rank(&b.name));
        assert!(ka <= kb, "entries out of order: {:?} then {:?}", a, b);
    }
}

#[test]
fn normalization_is_idempotent_on_its_output() {
    let pickups = vec![
        Pickup::new(PickupType::Trash, Date::new(2023, 5, 8)),
        Pickup::new(PickupType::Trash, Date::new(2023, 5, 1)),
        Pickup::new(PickupType::Recyclables, Date::new(2023, 5, 15)),
        Pickup::new(PickupType::Organics, Date::new(2023, 5, 1)),
    ];
    let once = PickupCalendar::new("foo", "bar", pickups);
    let twice = PickupCalendar::new("foo", "bar", once.pickups.clone());
    assert_eq!(once.pickups, twice.pickups);
}
