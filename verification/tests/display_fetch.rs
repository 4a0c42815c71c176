use ical_to_masto::config::Config;
use ical_to_masto::config::default_token_file;
use ical_to_masto::event::Event;
use ical_to_masto::fetch::FetchError;
use ical_to_masto::fetch::ingest_response;
use ical_to_masto::fetch::normalize_locator;
use ical_to_masto::ical::IcalCalendar;
use ical_to_masto::time::TimeKind;
use ical_to_masto::time::Timestamp;

#[test]
fn formats_utc_start() {
    let doc = "BEGIN:VEVENT\r\nDTSTART:20250611T130500Z\r\nEND:VEVENT\r\n";
    let cal = IcalCalendar::parse(doc);
    let shown = cal.events[0].start_time_formatted();
    assert_eq!(shown.as_deref(), Some("2025-06-11 13:05 UTC"));
}

#[test]
fn formats_zoned_start_in_utc() {
    let doc = "BEGIN:VEVENT\r\nDTSTART;TZID=America/New_York:20250115T120000\r\nEND:VEVENT\r\n";
    let cal = IcalCalendar::parse(doc);
    let shown = cal.events[0].start_time_formatted();
    assert_eq!(shown.as_deref(), Some("2025-01-15 17:00 UTC"));
}

#[test]
fn formats_floating_start_without_zone_mark() {
    let doc = "BEGIN:VEVENT\r\nDTSTART:20250611T130000\r\nEND:VEVENT\r\n";
    let cal = IcalCalendar::parse(doc);
    let shown = cal.events[0].start_time_formatted();
    assert_eq!(shown.as_deref(), Some("2025-06-11 13:00"));
}

#[test]
fn formats_epoch_and_padding() {
    let e = Event {
        uid: None,
        summary: None,
        location: None,
        start: Some(Timestamp {
            seconds: 0,
            kind: TimeKind::Utc,
        }),
        end: None,
        url: None,
    };
    assert_eq!(
        e.start_time_formatted().as_deref(),
        Some("1970-01-01 00:00 UTC")
    );
    let e = Event {
        start: Some(Timestamp {
            seconds: 59,
            kind: TimeKind::Utc,
        }),
        ..e
    };
    assert_eq!(
        e.start_time_formatted().as_deref(),
        Some("1970-01-01 00:00 UTC")
    );
    let e = Event {
        start: Some(Timestamp {
            seconds: -1,
            kind: TimeKind::Utc,
        }),
        ..e
    };
    assert_eq!(
        e.start_time_formatted().as_deref(),
        Some("1969-12-31 23:59 UTC")
    );
}

#[test]
fn absent_start_formats_to_nothing() {
    let e = Event {
        uid: None,
        summary: None,
        location: None,
        start: None,
        end: None,
        url: None,
    };
    assert!(e.start_time_formatted().is_none());
}

#[test]
fn normalizes_subscription_locator() {
    assert_eq!(
        normalize_locator("webcal://example.org/feed.ics"),
        "https://example.org/feed.ics"
    );
    assert_eq!(
        normalize_locator("https://example.org/feed.ics"),
        "https://example.org/feed.ics"
    );
    assert_eq!(normalize_locator("webcal:/short"), "webcal:/short");
    assert_eq!(normalize_locator(""), "");
    assert_eq!(normalize_locator("webcal://"), "https://");
}

#[test]
fn response_with_bad_status_rejected() {
    let r = ingest_response(404, "BEGIN:VEVENT\r\nEND:VEVENT\r\n");
    assert_eq!(r.unwrap_err(), FetchError::BadStatus(404));
    let r = ingest_response(301, "x");
    assert_eq!(r.unwrap_err(), FetchError::BadStatus(301));
}

#[test]
fn response_with_empty_body_rejected() {
    let r = ingest_response(200, "");
    assert_eq!(r.unwrap_err(), FetchError::EmptyBody);
}

#[test]
fn successful_response_parses() {
    let doc = "BEGIN:VEVENT\r\nUID:a\r\nDTSTART:20250611T130000Z\r\nEND:VEVENT\r\n";
    let cal = ingest_response(200, doc).expect("success parses");
    assert_eq!(cal.events.len(), 1);
    assert_eq!(cal.events[0].uid.as_deref(), Some("a"));
    let cal = ingest_response(204, doc).expect("any success status parses");
    assert_eq!(cal.events.len(), 1);
}

#[test]
fn default_token_file_name() {
    assert_eq!(default_token_file(), "token.json");
}

#[test]
fn config_carries_fields() {
    let c = Config {
        instance: "https://example.social".to_string(),
        token_file: default_token_file(),
        webcal: "webcal://example.org/feed.ics".to_string(),
    };
    assert_eq!(c.instance, "https://example.social");
    assert_eq!(c.token_file, "token.json");
    assert_eq!(normalize_locator(&c.webcal), "https://example.org/feed.ics");
}
