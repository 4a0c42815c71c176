use ical_to_masto::ical::IcalCalendar;
use ical_to_masto::time::TimeKind;
use ical_to_masto::time::Timestamp;

fn wrap_event(body: &str) -> String {
    format!("BEGIN:VEVENT\r\n{}\r\nEND:VEVENT\r\n", body)
}

#[test]
fn empty_document_has_no_events() {
    let cal = IcalCalendar::parse("");
    assert_eq!(cal.events.len(), 0);
    assert_eq!(cal.get_upcoming_events("19700101T000000Z").len(), 0);
}

#[test]
fn single_event_fields_carried() {
    let doc = wrap_event(
        "UID:abc-123\r\nSUMMARY:Team sync\r\nLOCATION:Room 4\r\nURL:https://example.org/e\r\nDTSTART:20250611T130000Z\r\nDTEND:20250611T140000Z",
    );
    let cal = IcalCalendar::parse(&doc);
    assert_eq!(cal.events.len(), 1);
    let e = &cal.events[0];
    assert_eq!(e.uid.as_deref(), Some("abc-123"));
    assert_eq!(e.summary.as_deref(), Some("Team sync"));
    assert_eq!(e.location.as_deref(), Some("Room 4"));
    assert_eq!(e.url.as_deref(), Some("https://example.org/e"));
    let start = e.start.expect("start parses");
    let end = e.end.expect("end parses");
    assert_eq!(end.seconds - start.seconds, 3600);
    assert_eq!(start.kind, TimeKind::Utc);
}

#[test]
fn epoch_seconds_exact() {
    let doc = wrap_event("DTSTART:19700101T000000Z");
    let cal = IcalCalendar::parse(&doc);
    assert_eq!(cal.events[0].start.unwrap().seconds, 0);

    let doc = wrap_event("DTSTART:19700102T000000Z");
    let cal = IcalCalendar::parse(&doc);
    assert_eq!(cal.events[0].start.unwrap().seconds, 86400);

    let doc = wrap_event("DTSTART:19691231T235959Z");
    let cal = IcalCalendar::parse(&doc);
    assert_eq!(cal.events[0].start.unwrap().seconds, -1);

    let doc = wrap_event("DTSTART:20250101T000000Z");
    let cal = IcalCalendar::parse(&doc);
    assert_eq!(cal.events[0].start.unwrap().seconds, 1735689600);
}

#[test]
fn folding_round_trip() {
    // "Team Meeting" folded per the format: the fold adds a line break and
    // one space before the rest, here in front of the content space.
    let doc = wrap_event("SUMMARY:Team\r\n  Meeting\r\nDTSTART:20250611T130000Z");
    let cal = IcalCalendar::parse(&doc);
    assert_eq!(cal.events[0].summary.as_deref(), Some("Team Meeting"));
}

#[test]
fn folding_removes_exactly_one_leading_whitespace() {
    // One tab is the fold marker; the spaces after it are content.
    let doc = wrap_event("SUMMARY:A\r\n\t  B");
    let cal = IcalCalendar::parse(&doc);
    assert_eq!(cal.events[0].summary.as_deref(), Some("A  B"));
}

#[test]
fn value_escapes_decoded() {
    let doc = wrap_event("SUMMARY:one\\, two\\Nthree\\; four\\\\five");
    let cal = IcalCalendar::parse(&doc);
    assert_eq!(
        cal.events[0].summary.as_deref(),
        Some("one, two\nthree; four\\five")
    );
}

#[test]
fn unknown_escape_kept_verbatim() {
    let doc = wrap_event("SUMMARY:a\\xb");
    let cal = IcalCalendar::parse(&doc);
    assert_eq!(cal.events[0].summary.as_deref(), Some("a\\xb"));
}

#[test]
fn lf_only_line_endings_accepted() {
    let doc = "BEGIN:VEVENT\nSUMMARY:x\nDTSTART:20250611T130000Z\nEND:VEVENT\n";
    let cal = IcalCalendar::parse(doc);
    assert_eq!(cal.events.len(), 1);
    assert_eq!(cal.events[0].summary.as_deref(), Some("x"));
}

#[test]
fn malformed_event_resilience() {
    let good1 = "UID:g1\r\nDTSTART:20250611T130000Z";
    let bad = "UID:b\r\nDTSTART:20251301T000000Z"; // month 13: no such date
    let good2 = "UID:g2\r\nDTSTART:20250613T120000Z";
    let doc = format!(
        "{}{}{}",
        wrap_event(good1),
        wrap_event(bad),
        wrap_event(good2)
    );
    let cal = IcalCalendar::parse(&doc);
    assert_eq!(cal.events.len(), 3);
    assert!(cal.events[1].start.is_none());
    for reference in ["19700101T000000Z", "20250612T000000Z", "20990101T000000Z"] {
        let up = cal.get_upcoming_events(reference);
        assert!(up.iter().all(|e| e.uid.as_deref() != Some("b")));
    }
    assert_eq!(cal.get_upcoming_events("19700101T000000Z").len(), 2);
}

#[test]
fn event_without_start_excluded() {
    let doc = wrap_event("SUMMARY:no time");
    let cal = IcalCalendar::parse(&doc);
    assert_eq!(cal.events.len(), 1);
    assert!(cal.events[0].start.is_none());
    assert_eq!(cal.get_upcoming_events("19700101T000000Z").len(), 0);
}

#[test]
fn boundary_start_equal_to_reference_included() {
    let doc = wrap_event("DTSTART:20250101T120000Z");
    let cal = IcalCalendar::parse(&doc);
    let up = cal.get_upcoming_events("20250101T120000Z");
    assert_eq!(up.len(), 1);
}

#[test]
fn end_to_end_scenario() {
    let yesterday = wrap_event("UID:past\r\nDTSTART:20250610T120000Z");
    let soon = wrap_event("UID:soon\r\nDTSTART:20250611T130000Z");
    let later = wrap_event("UID:later\r\nDTSTART:20250613T120000Z");
    // Source order deliberately scrambled.
    let doc = format!("{}{}{}", later, yesterday, soon);
    let cal = IcalCalendar::parse(&doc);
    let up = cal.get_upcoming_events("20250611T120000Z");
    assert_eq!(up.len(), 2);
    assert_eq!(up[0].uid.as_deref(), Some("soon"));
    assert_eq!(up[1].uid.as_deref(), Some("later"));
    let one = cal.get_upcoming_events_limited("20250611T120000Z", Some(1));
    assert_eq!(one.len(), 1);
    assert_eq!(one[0].uid.as_deref(), Some("soon"));
}

#[test]
fn selection_is_repeatable() {
    let doc = format!(
        "{}{}",
        wrap_event("UID:a\r\nDTSTART:20250611T130000Z"),
        wrap_event("UID:b\r\nDTSTART:20250613T120000Z")
    );
    let cal = IcalCalendar::parse(&doc);
    let first = cal.get_upcoming_events("20250611T120000Z");
    let second = cal.get_upcoming_events("20250611T120000Z");
    assert_eq!(first, second);
}

#[test]
fn equal_starts_keep_source_order() {
    let doc = format!(
        "{}{}{}",
        wrap_event("UID:first\r\nDTSTART:20250611T130000Z"),
        wrap_event("UID:second\r\nDTSTART:20250611T130000Z"),
        wrap_event("UID:earlier\r\nDTSTART:20250611T124500Z")
    );
    let cal = IcalCalendar::parse(&doc);
    let up = cal.get_upcoming_events("20250101T000000Z");
    assert_eq!(up.len(), 3);
    assert_eq!(up[0].uid.as_deref(), Some("earlier"));
    assert_eq!(up[1].uid.as_deref(), Some("first"));
    assert_eq!(up[2].uid.as_deref(), Some("second"));
}

#[test]
fn ascending_by_start() {
    let doc = format!(
        "{}{}{}{}",
        wrap_event("DTSTART:20250614T120000Z"),
        wrap_event("DTSTART:20250611T130000Z"),
        wrap_event("DTSTART:20250613T120000Z"),
        wrap_event("DTSTART:20250612T120000Z")
    );
    let cal = IcalCalendar::parse(&doc);
    let up = cal.get_upcoming_events("20250101T000000Z");
    assert_eq!(up.len(), 4);
    for pair in up.windows(2) {
        assert!(pair[0].start.unwrap().seconds <= pair[1].start.unwrap().seconds);
    }
}

#[test]
fn limit_zero_selects_nothing() {
    let doc = wrap_event("DTSTART:20250611T130000Z");
    let cal = IcalCalendar::parse(&doc);
    let up = cal.get_upcoming_events_limited("20250101T000000Z", Some(0));
    assert_eq!(up.len(), 0);
}

#[test]
fn limited_is_prefix_of_unlimited() {
    let doc = format!(
        "{}{}{}",
        wrap_event("UID:a\r\nDTSTART:20250611T130000Z"),
        wrap_event("UID:b\r\nDTSTART:20250612T130000Z"),
        wrap_event("UID:c\r\nDTSTART:20250613T130000Z")
    );
    let cal = IcalCalendar::parse(&doc);
    let all = cal.get_upcoming_events_limited("20250101T000000Z", None);
    assert_eq!(all.len(), 3);
    for n in 0..5usize {
        let limited = cal.get_upcoming_events_limited("20250101T000000Z", Some(n));
        let want = n.min(all.len());
        assert_eq!(limited.len(), want);
        assert_eq!(&all[..want], &limited[..]);
    }
}

#[test]
fn unparseable_reference_selects_nothing() {
    let doc = wrap_event("DTSTART:20250611T130000Z");
    let cal = IcalCalendar::parse(&doc);
    assert_eq!(cal.get_upcoming_events("not a time").len(), 0);
    assert_eq!(cal.get_upcoming_events("2025-06-11T13:00Z").len(), 0);
}

#[test]
fn direct_timestamp_selection() {
    let doc = wrap_event("UID:a\r\nDTSTART:20250611T130000Z");
    let cal = IcalCalendar::parse(&doc);
    let reference = Timestamp {
        seconds: 0,
        kind: TimeKind::Utc,
    };
    assert_eq!(cal.upcoming(&reference).len(), 1);
    assert_eq!(cal.upcoming_limited(&reference, 0).len(), 0);
}

#[test]
fn zoned_start_converted_to_utc() {
    // Winter: America/New_York is five hours behind UTC.
    let winter = wrap_event("UID:w\r\nDTSTART;TZID=America/New_York:20250115T120000");
    let utc_winter = wrap_event("UID:u\r\nDTSTART:20250115T170000Z");
    let cal = IcalCalendar::parse(&format!("{}{}", winter, utc_winter));
    let w = cal.events[0].start.expect("zone resolves");
    let u = cal.events[1].start.unwrap();
    assert_eq!(w.seconds, u.seconds);
    assert_eq!(w.kind, TimeKind::Zoned);

    // Summer: four hours behind.
    let summer = wrap_event("DTSTART;TZID=America/New_York:20250715T120000");
    let utc_summer = wrap_event("DTSTART:20250715T160000Z");
    let cal = IcalCalendar::parse(&format!("{}{}", summer, utc_summer));
    assert_eq!(
        cal.events[0].start.unwrap().seconds,
        cal.events[1].start.unwrap().seconds
    );
}

#[test]
fn unknown_zone_excludes_event() {
    let doc = wrap_event("DTSTART;TZID=Nowhere/Nope:20250115T120000");
    let cal = IcalCalendar::parse(&doc);
    assert_eq!(cal.events.len(), 1);
    assert!(cal.events[0].start.is_none());
}

#[test]
fn floating_start_compared_at_wall_clock() {
    let doc = wrap_event("DTSTART:20250611T130000");
    let cal = IcalCalendar::parse(&doc);
    let ts = cal.events[0].start.expect("floating parses");
    assert_eq!(ts.kind, TimeKind::Floating);
    assert_eq!(cal.get_upcoming_events("20250611T130000Z").len(), 1);
    assert_eq!(cal.get_upcoming_events("20250611T130001Z").len(), 0);
}

#[test]
fn unclosed_event_not_part_of_calendar() {
    let doc = "BEGIN:VEVENT\r\nSUMMARY:half\r\nDTSTART:20250611T130000Z\r\n";
    let cal = IcalCalendar::parse(doc);
    assert_eq!(cal.events.len(), 0);
}

#[test]
fn stray_end_marker_ignored() {
    let doc = format!("END:VEVENT\r\n{}", wrap_event("DTSTART:20250611T130000Z"));
    let cal = IcalCalendar::parse(&doc);
    assert_eq!(cal.events.len(), 1);
}

#[test]
fn calendar_level_lines_ignored() {
    let doc = format!(
        "BEGIN:VCALENDAR\r\nVERSION:2.0\r\nPRODID:-//x//y//EN\r\n{}END:VCALENDAR\r\n",
        wrap_event("UID:a\r\nDTSTART:20250611T130000Z")
    );
    let cal = IcalCalendar::parse(&doc);
    assert_eq!(cal.events.len(), 1);
    assert_eq!(cal.events[0].uid.as_deref(), Some("a"));
}

#[test]
fn repeated_property_overwrites() {
    let doc = wrap_event("SUMMARY:first\r\nSUMMARY:second");
    let cal = IcalCalendar::parse(&doc);
    assert_eq!(cal.events[0].summary.as_deref(), Some("second"));
}

#[test]
fn bad_timestamp_shapes_rejected() {
    for v in [
        "20250611",            // date only
        "20250611T1300",       // too short
        "20250611T130000ZZ",   // too long
        "20250611X130000Z",    // wrong separator
        "2025a611T130000Z",    // non-digit
        "00000611T130000Z",    // year zero
        "20250632T130000Z",    // no such day
        "20250611T250000Z",    // no such hour
        "20250611T136000Z",    // no such minute
        "20250611T130060Z",    // no such second
    ] {
        let doc = wrap_event(&format!("DTSTART:{}", v));
        let cal = IcalCalendar::parse(&doc);
        assert!(cal.events[0].start.is_none(), "accepted {:?}", v);
    }
}

#[test]
fn leap_day_accepted_only_in_leap_years() {
    let cal = IcalCalendar::parse(&wrap_event("DTSTART:20240229T000000Z"));
    assert!(cal.events[0].start.is_some());
    let cal = IcalCalendar::parse(&wrap_event("DTSTART:20250229T000000Z"));
    assert!(cal.events[0].start.is_none());
    let cal = IcalCalendar::parse(&wrap_event("DTSTART:19000229T000000Z"));
    assert!(cal.events[0].start.is_none(), "1900 is no leap year");
    let cal = IcalCalendar::parse(&wrap_event("DTSTART:20000229T000000Z"));
    assert!(cal.events[0].start.is_some(), "2000 is a leap year");
}
