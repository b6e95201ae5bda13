use trashcal::date::Date;
use trashcal::error::Error;
use trashcal::ident::{is_ics_request, is_redirect_page, validate_id};
use trashcal::pickup::{Pickup, PickupType};
use trashcal::pickup_calendar::PickupCalendar;

#[test]
fn display_string_with_whimsy() {
    assert_eq!(PickupType::Trash.display_string(true), "🗑️ Trash");
    assert_eq!(PickupType::Recyclables.display_string(true), "♻️ Recyclables");
    assert_eq!(PickupType::Organics.display_string(true), "🌳 Organics");
}

#[test]
fn display_string_without_whimsy() {
    assert_eq!(PickupType::Trash.display_string(false), "Trash");
    assert_eq!(PickupType::Recyclables.display_string(false), "Recyclables");
    assert_eq!(PickupType::Organics.display_string(false), "Organics");
}

#[test]
fn validate_id_accepts_the_known_prefix() {
    assert_eq!(validate_id("a4Ow1230000Abcd"), Ok("a4Ow1230000Abcd".to_string()));
}

#[test]
fn validate_id_strips_calendar_suffix() {
    assert_eq!(validate_id("a4Ow1230000Abcd.ics"), Ok("a4Ow1230000Abcd".to_string()));
    assert_eq!(validate_id("a4O.ics.ics"), Ok("a4O".to_string()));
}

#[test]
fn validate_id_rejects_other_prefixes() {
    assert_eq!(validate_id("null"), Err(Error::IdError("null".to_string())));
    assert_eq!(validate_id("A4Ow123"), Err(Error::IdError("A4Ow123".to_string())));
    assert_eq!(validate_id(""), Err(Error::IdError("".to_string())));
    assert_eq!(validate_id("a4"), Err(Error::IdError("a4".to_string())));
}

#[test]
fn ics_requests_are_detected() {
    assert!(is_ics_request("a4Ow123.ics"));
    assert!(!is_ics_request("a4Ow123"));
}

#[test]
fn redirect_pages_are_detected() {
    assert!(is_redirect_page(
        "<html><script>function handleRedirect() {}</script></html>"
    ));
    assert!(!is_redirect_page("<html><div class=\"schedule\"></div></html>"));
}

#[test]
fn calendar_entries_carry_titles_and_links() {
    let calendar = PickupCalendar::new(
        "a4Ow123",
        "1234 Anywhere St.",
        vec![
            Pickup::new(PickupType::Trash, Date::new(2023, 1, 2)),
            Pickup::new(PickupType::Recyclables, Date::new(2023, 1, 2)),
            Pickup::new(PickupType::Organics, Date::new(2023, 1, 2)),
        ],
    );

    let whimsical = calendar.calendar_entries(true);
    assert_eq!(whimsical.len(), 3);
    assert_eq!(whimsical[0].title, "♻️ Recyclables");
    assert_eq!(whimsical[1].title, "🌳 Organics");
    assert_eq!(whimsical[2].title, "🗑️ Trash");
    for e in &whimsical {
        assert_eq!(e.date, Date::new(2023, 1, 2));
        assert_eq!(e.url, "https://stabbylambda.com/trashcal/a4Ow123");
        assert_eq!(
            e.description,
            "Trashcal: https://stabbylambda.com/trashcal/a4Ow123\n\nSD Trash Page: https://getitdone.sandiego.gov/CollectionDetail?id=a4Ow123"
        );
    }

    let plain = calendar.calendar_entries(false);
    assert_eq!(plain[0].title, "Recyclables");
    assert_eq!(plain[1].title, "Organics");
    assert_eq!(plain[2].title, "Trash");
}
