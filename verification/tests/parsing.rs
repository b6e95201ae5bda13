use trashcal::date::{parse_date, Date};
use trashcal::error::Error;
use trashcal::pickup::{Pickup, PickupType};
use trashcal::pickup_calendar::{parse_records, PickupCalendar};

#[test]
fn parse_single_pickup() {
    let result = Pickup::parse("Trash", "01/01/2023").unwrap();

    assert_eq!(
        result,
        Pickup::new(PickupType::Trash, Date::new(2023, 1, 1))
    );
}

#[test]
fn parse_single_pickup_with_bad_name() {
    let result = Pickup::parse("Not a real thing", "01/01/2023");

    assert!(result.is_err());
}

#[test]
fn parse_rejects_unknown_kind() {
    assert_eq!(Pickup::parse("Compost", "01/01/2023"), Err(Error::ParseError));
    assert_eq!(Pickup::parse("trash", "01/01/2023"), Err(Error::ParseError));
    assert_eq!(Pickup::parse(" Trash", "01/01/2023"), Err(Error::ParseError));
    assert_eq!(Pickup::parse("", "01/01/2023"), Err(Error::ParseError));
}

#[test]
fn parse_date_accepts_real_dates() {
    assert_eq!(parse_date("01/05/2024"), Ok(Date::new(2024, 1, 5)));
    assert_eq!(parse_date("1/5/2024"), Ok(Date::new(2024, 1, 5)));
    assert_eq!(parse_date("12/31/9999"), Ok(Date::new(9999, 12, 31)));
    assert_eq!(parse_date("02/29/2024"), Ok(Date::new(2024, 2, 29)));
    assert_eq!(parse_date("02/29/2000"), Ok(Date::new(2000, 2, 29)));
}

#[test]
fn parse_date_rejects_malformed_text() {
    assert_eq!(parse_date("01-01-2023"), Err(Error::ParseError));
    assert_eq!(parse_date("01/01/23"), Err(Error::ParseError));
    assert_eq!(parse_date("2023/01/01"), Err(Error::ParseError));
    assert_eq!(parse_date("01/01/2023 "), Err(Error::ParseError));
    assert_eq!(parse_date(""), Err(Error::ParseError));
    assert_eq!(parse_date("01/01/202a"), Err(Error::ParseError));
}

#[test]
fn parse_date_rejects_impossible_days() {
    assert_eq!(parse_date("13/01/2023"), Err(Error::ParseError));
    assert_eq!(parse_date("00/10/2023"), Err(Error::ParseError));
    assert_eq!(parse_date("01/32/2023"), Err(Error::ParseError));
    assert_eq!(parse_date("02/29/2023"), Err(Error::ParseError));
    assert_eq!(parse_date("02/29/1900"), Err(Error::ParseError));
    assert_eq!(parse_date("04/31/2023"), Err(Error::ParseError));
    assert_eq!(parse_date("01/01/0000"), Err(Error::ParseError));
}

#[test]
fn parse_records_drops_failing_rows() {
    let rows = vec![
        ("Trash".to_string(), "01/02/2023".to_string()),
        ("Compost".to_string(), "01/02/2023".to_string()),
        ("Organics".to_string(), "99/99/9999".to_string()),
        ("Recyclables".to_string(), "01/09/2023".to_string()),
    ];
    let records = parse_records(&rows);
    assert_eq!(
        records,
        vec![
            Pickup::new(PickupType::Trash, Date::new(2023, 1, 2)),
            Pickup::new(PickupType::Recyclables, Date::new(2023, 1, 9)),
        ]
    );
}

#[test]
fn parse_multiple_pickups() {
    let rows = vec![
        ("Trash".to_string(), "01/01/2023".to_string()),
        ("Organics".to_string(), "01/01/2023".to_string()),
        ("Recyclables".to_string(), "01/01/2023".to_string()),
    ];

    let expected = [
        Pickup::new(PickupType::Recyclables, Date::new(2023, 1, 1)),
        Pickup::new(PickupType::Organics, Date::new(2023, 1, 1)),
        Pickup::new(PickupType::Trash, Date::new(2023, 1, 1)),
    ];

    let actual = PickupCalendar::from_rows("foo", "1234 ANYWHERE ST, San Diego, CA 92101", &rows);

    for (i, x) in expected.iter().enumerate() {
        let actual = actual.pickups.get(i).unwrap();
        assert_eq!(x, actual);
    }
}
