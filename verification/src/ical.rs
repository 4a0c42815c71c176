//! The calendar document reader: timestamp interpretation, the
//! begin/end-marker grouping automaton, and the parsed calendar itself.

use vstd::prelude::*;
use crate::event::Event;
use crate::event::EventView;
use crate::event::opt_str_view;
use crate::text::ClView;
use crate::text::ContentLine;
use crate::text::chars_eq_str;
use crate::text::chars_of;
use crate::text::content_line;
use crate::text::param_value;
use crate::text::spec_content_line;
use crate::text::spec_param_value;
use crate::text::spec_split_lines;
use crate::text::spec_unescape;
use crate::text::split_lines;
use crate::text::string_from_chars;
use crate::text::unescape;
use crate::text::unfold_lines;
use crate::text::unfold_run;
use crate::time::TimeKind;
use crate::time::Timestamp;
use crate::time::days_in_month_x;
use crate::time::fields_to_secs;
use crate::time::spec_fields_to_secs;
use crate::time::ts_in_range;
use crate::time::valid_date_fields;
use crate::tz::resolve_zone_offset;
use crate::tz::zone_offset_of;

verus! {

pub open spec fn digit_val(c: char) -> int {
    if c == '0' {
        0
    } else if c == '1' {
        1
    } else if c == '2' {
        2
    } else if c == '3' {
        3
    } else if c == '4' {
        4
    } else if c == '5' {
        5
    } else if c == '6' {
        6
    } else if c == '7' {
        7
    } else if c == '8' {
        8
    } else if c == '9' {
        9
    } else {
        -1
    }
}

pub open spec fn is_digit(c: char) -> bool {
    digit_val(c) >= 0
}

/// The fields of a timestamp value in the compact form
/// `YYYYMMDDTHHMMSS[Z]`: year, month, day, hour, minute, second, and whether
/// the trailing UTC marker is present. Anything else — wrong shape, a
/// non-digit, or fields that name no real date — is no timestamp.
pub open spec fn spec_parse_dt_fields(v: Seq<char>) -> Option<(int, int, int, int, int, int, bool)> {
    if !(v.len() == 15 || (v.len() == 16 && v[15] == 'Z')) {
        None
    } else if v[8] != 'T' {
        None
    } else if !(is_digit(v[0]) && is_digit(v[1]) && is_digit(v[2]) && is_digit(v[3]) && is_digit(
        v[4],
    ) && is_digit(v[5]) && is_digit(v[6]) && is_digit(v[7]) && is_digit(v[9]) && is_digit(v[10])
        && is_digit(v[11]) && is_digit(v[12]) && is_digit(v[13]) && is_digit(v[14])) {
        None
    } else {
        let y = digit_val(v[0]) * 1000 + digit_val(v[1]) * 100 + digit_val(v[2]) * 10 + digit_val(
            v[3],
        );
        let mo = digit_val(v[4]) * 10 + digit_val(v[5]);
        let d = digit_val(v[6]) * 10 + digit_val(v[7]);
        let h = digit_val(v[9]) * 10 + digit_val(v[10]);
        let mi = digit_val(v[11]) * 10 + digit_val(v[12]);
        let s = digit_val(v[13]) * 10 + digit_val(v[14]);
        if valid_date_fields(y, mo, d, h, mi, s) {
            Some((y, mo, d, h, mi, s, v.len() == 16))
        } else {
            None
        }
    }
}

/// The instant a timestamp value denotes. A trailing `Z` reads as UTC; with
/// a timezone-identifier parameter the local time is shifted by the zone's
/// offset, and an unknown zone (or a shift that leaves the working band)
/// yields no instant; a bare value is a floating time kept at its wall-clock
/// reading.
pub open spec fn spec_parse_timestamp(v: Seq<char>, tzid: Option<Seq<char>>) -> Option<Timestamp> {
    match spec_parse_dt_fields(v) {
        None => None,
        Some(f) => {
            let secs = spec_fields_to_secs(f.0, f.1, f.2, f.3, f.4, f.5);
            if f.6 {
                Some(Timestamp { seconds: secs as i64, kind: TimeKind::Utc })
            } else {
                match tzid {
                    Some(z) => (match zone_offset_of(z, f.0, f.1, f.2, f.3, f.4, f.5) {
                        Some(off) => {
                            if ts_in_range(secs - off) {
                                Some(
                                    Timestamp {
                                        seconds: (secs - off) as i64,
                                        kind: TimeKind::Zoned,
                                    },
                                )
                            } else {
                                None
                            }
                        },
                        None => None,
                    }),
                    None => Some(Timestamp { seconds: secs as i64, kind: TimeKind::Floating }),
                }
            }
        },
    }
}

fn digit_val_x(c: char) -> (r: i64)
    ensures
        r == digit_val(c),
{
    if c == '0' {
        0
    } else if c == '1' {
        1
    } else if c == '2' {
        2
    } else if c == '3' {
        3
    } else if c == '4' {
        4
    } else if c == '5' {
        5
    } else if c == '6' {
        6
    } else if c == '7' {
        7
    } else if c == '8' {
        8
    } else if c == '9' {
        9
    } else {
        -1
    }
}

struct DtFields {
    y: u64,
    mo: u64,
    d: u64,
    h: u64,
    mi: u64,
    s: u64,
    utc: bool,
}

fn parse_dt_fields(v: &Vec<char>) -> (r: Option<DtFields>)
    ensures
        (match r {
            Some(f) => spec_parse_dt_fields(v@) == Some(
                (f.y as int, f.mo as int, f.d as int, f.h as int, f.mi as int, f.s as int, f.utc),
            ) && valid_date_fields(
                f.y as int,
                f.mo as int,
                f.d as int,
                f.h as int,
                f.mi as int,
                f.s as int,
            ),
            None => spec_parse_dt_fields(v@) is None,
        }),
{
    if !(v.len() == 15 || (v.len() == 16 && v[15] == 'Z')) {
        return None;
    }
    if v[8] != 'T' {
        return None;
    }
    let d0 = digit_val_x(v[0]);
    let d1 = digit_val_x(v[1]);
    let d2 = digit_val_x(v[2]);
    let d3 = digit_val_x(v[3]);
    let d4 = digit_val_x(v[4]);
    let d5 = digit_val_x(v[5]);
    let d6 = digit_val_x(v[6]);
    let d7 = digit_val_x(v[7]);
    let d9 = digit_val_x(v[9]);
    let d10 = digit_val_x(v[10]);
    let d11 = digit_val_x(v[11]);
    let d12 = digit_val_x(v[12]);
    let d13 = digit_val_x(v[13]);
    let d14 = digit_val_x(v[14]);
    if d0 < 0 || d1 < 0 || d2 < 0 || d3 < 0 || d4 < 0 || d5 < 0 || d6 < 0 || d7 < 0 || d9 < 0
        || d10 < 0 || d11 < 0 || d12 < 0 || d13 < 0 || d14 < 0 {
        return None;
    }
    let y = (d0 * 1000 + d1 * 100 + d2 * 10 + d3) as u64;
    let mo = (d4 * 10 + d5) as u64;
    let d = (d6 * 10 + d7) as u64;
    let h = (d9 * 10 + d10) as u64;
    let mi = (d11 * 10 + d12) as u64;
    let s = (d13 * 10 + d14) as u64;
    if y < 1 || mo < 1 || mo > 12 {
        return None;
    }
    if d < 1 || d > days_in_month_x(y, mo) {
        return None;
    }
    if h > 23 || mi > 59 || s > 59 {
        return None;
    }
    Some(DtFields { y, mo, d, h, mi, s, utc: v.len() == 16 })
}

pub open spec fn opt_chars_view(o: Option<Vec<char>>) -> Option<Seq<char>> {
    match o {
        Some(v) => Some(v@),
        None => None,
    }
}

/// The instant of a timestamp value with its optional timezone-identifier
/// parameter.
pub fn parse_timestamp(v: &Vec<char>, tzid: Option<&Vec<char>>) -> (r: Option<Timestamp>)
    ensures
        r == spec_parse_timestamp(
            v@,
            (match tzid {
                Some(z) => Some(z@),
                None => None,
            }),
        ),
{
    let f = match parse_dt_fields(v) {
        Some(f) => f,
        None => {
            return None;
        },
    };
    let secs = fields_to_secs(f.y, f.mo, f.d, f.h, f.mi, f.s);
    if f.utc {
        return Some(Timestamp { seconds: secs, kind: TimeKind::Utc });
    }
    match tzid {
        Some(z) => {
            match resolve_zone_offset(z, f.y, f.mo, f.d, f.h, f.mi, f.s) {
                Some(off) => {
                    let shifted = secs - off;
                    if -62135596800i64 <= shifted && shifted <= 260000000000i64 {
                        Some(Timestamp { seconds: shifted, kind: TimeKind::Zoned })
                    } else {
                        None
                    }
                },
                None => None,
            }
        },
        None => Some(Timestamp { seconds: secs, kind: TimeKind::Floating }),
    }
}

/// An entry still being collected between its begin and end markers: the
/// text fields already routed to it, and the raw start/end values with
/// their timezone-identifier parameters, decoded only when the entry
/// closes.
pub struct PartialV {
    pub uid: Option<Seq<char>>,
    pub summary: Option<Seq<char>>,
    pub location: Option<Seq<char>>,
    pub url: Option<Seq<char>>,
    pub start_raw: Option<(Seq<char>, Option<Seq<char>>)>,
    pub end_raw: Option<(Seq<char>, Option<Seq<char>>)>,
}

pub open spec fn empty_partial() -> PartialV {
    PartialV {
        uid: None,
        summary: None,
        location: None,
        url: None,
        start_raw: None,
        end_raw: None,
    }
}

pub open spec fn raw_ts(o: Option<(Seq<char>, Option<Seq<char>>)>) -> Option<Timestamp> {
    match o {
        None => None,
        Some(rv) => spec_parse_timestamp(rv.0, rv.1),
    }
}

pub open spec fn finish_partial(p: PartialV) -> EventView {
    EventView {
        uid: p.uid,
        summary: p.summary,
        location: p.location,
        start: raw_ts(p.start_raw),
        end: raw_ts(p.end_raw),
        url: p.url,
    }
}

/// Routing of one property line into the open entry: the recognized
/// properties set their field (a repeated property overwrites), text values
/// are unescaped, timestamps keep their raw value and timezone-identifier
/// parameter, and any other property is ignored.
pub open spec fn route(p: PartialV, cl: ClView) -> PartialV {
    if cl.name == "SUMMARY"@ {
        PartialV { summary: Some(spec_unescape(cl.value)), ..p }
    } else if cl.name == "LOCATION"@ {
        PartialV { location: Some(spec_unescape(cl.value)), ..p }
    } else if cl.name == "URL"@ {
        PartialV { url: Some(spec_unescape(cl.value)), ..p }
    } else if cl.name == "UID"@ {
        PartialV { uid: Some(spec_unescape(cl.value)), ..p }
    } else if cl.name == "DTSTART"@ {
        PartialV { start_raw: Some((cl.value, spec_param_value(cl.params, "TZID"@))), ..p }
    } else if cl.name == "DTEND"@ {
        PartialV { end_raw: Some((cl.value, spec_param_value(cl.params, "TZID"@))), ..p }
    } else {
        p
    }
}

/// The grouping automaton's state: the entries closed so far, and the open
/// one if a begin marker is pending.
pub struct GroupSt {
    pub events: Seq<EventView>,
    pub cur: Option<PartialV>,
}

/// One logical line of grouping. A begin marker opens an entry (one already
/// open stays as it is); an end marker closes and appends the open entry,
/// and without one it is ignored; a property line is routed to the open
/// entry and ignored outside one, as are lines that are no content lines at
/// all.
pub open spec fn group_step(st: GroupSt, line: Seq<char>) -> GroupSt {
    match spec_content_line(line) {
        None => st,
        Some(cl) => {
            if cl.name == "BEGIN"@ && cl.value == "VEVENT"@ {
                if st.cur is None {
                    GroupSt { events: st.events, cur: Some(empty_partial()) }
                } else {
                    st
                }
            } else if cl.name == "END"@ && cl.value == "VEVENT"@ {
                match st.cur {
                    Some(p) => GroupSt { events: st.events.push(finish_partial(p)), cur: None },
                    None => st,
                }
            } else {
                match st.cur {
                    Some(p) => GroupSt { events: st.events, cur: Some(route(p, cl)) },
                    None => st,
                }
            }
        },
    }
}

pub open spec fn group_run(lines: Seq<Seq<char>>) -> GroupSt
    decreases lines.len(),
{
    if lines.len() == 0 {
        GroupSt { events: Seq::empty(), cur: None }
    } else {
        group_step(group_run(lines.drop_last()), lines.last())
    }
}

/// The entries of a calendar document, in source order: physical lines are
/// cut, continuations unfolded, and the grouping automaton run over the
/// logical lines. An entry still open at the end of the document was never
/// closed and is not part of the calendar.
pub open spec fn spec_parse_calendar(text: Seq<char>) -> Seq<EventView> {
    group_run(unfold_run(spec_split_lines(text))).events
}

pub open spec fn events_view(s: Seq<Event>) -> Seq<EventView> {
    s.map_values(|e: Event| e@)
}

struct PartialEvent {
    uid: Option<String>,
    summary: Option<String>,
    location: Option<String>,
    url: Option<String>,
    start_raw: Option<(Vec<char>, Option<Vec<char>>)>,
    end_raw: Option<(Vec<char>, Option<Vec<char>>)>,
}

pub open spec fn raw_view(o: Option<(Vec<char>, Option<Vec<char>>)>) -> Option<
    (Seq<char>, Option<Seq<char>>),
> {
    match o {
        None => None,
        Some(rv) => Some((rv.0@, opt_chars_view(rv.1))),
    }
}

spec fn partial_view(p: PartialEvent) -> PartialV {
    PartialV {
        uid: opt_str_view(p.uid),
        summary: opt_str_view(p.summary),
        location: opt_str_view(p.location),
        url: opt_str_view(p.url),
        start_raw: raw_view(p.start_raw),
        end_raw: raw_view(p.end_raw),
    }
}

fn new_partial() -> (p: PartialEvent)
    ensures
        partial_view(p) == empty_partial(),
{
    PartialEvent {
        uid: None,
        summary: None,
        location: None,
        url: None,
        start_raw: None,
        end_raw: None,
    }
}

fn unescape_to_string(v: &Vec<char>) -> (r: String)
    ensures
        r@ == spec_unescape(v@),
{
    let u = unescape(v);
    string_from_chars(&u)
}

fn route_line(p: &mut PartialEvent, cl: ContentLine)
    ensures
        partial_view(*final(p)) == route(partial_view(*old(p)), cl@),
{
    let ContentLine { name, params, value } = cl;
    if chars_eq_str(&name, "SUMMARY") {
        p.summary = Some(unescape_to_string(&value));
    } else if chars_eq_str(&name, "LOCATION") {
        p.location = Some(unescape_to_string(&value));
    } else if chars_eq_str(&name, "URL") {
        p.url = Some(unescape_to_string(&value));
    } else if chars_eq_str(&name, "UID") {
        p.uid = Some(unescape_to_string(&value));
    } else if chars_eq_str(&name, "DTSTART") {
        let tz = param_value(&params, "TZID");
        p.start_raw = Some((value, tz));
    } else if chars_eq_str(&name, "DTEND") {
        let tz = param_value(&params, "TZID");
        p.end_raw = Some((value, tz));
    }
}

fn finish_event(p: PartialEvent) -> (e: Event)
    ensures
        e@ == finish_partial(partial_view(p)),
{
    let start = match &p.start_raw {
        Some(rv) => (match &rv.1 {
            Some(z) => parse_timestamp(&rv.0, Some(z)),
            None => parse_timestamp(&rv.0, None),
        }),
        None => None,
    };
    let end = match &p.end_raw {
        Some(rv) => (match &rv.1 {
            Some(z) => parse_timestamp(&rv.0, Some(z)),
            None => parse_timestamp(&rv.0, None),
        }),
        None => None,
    };
    Event {
        uid: p.uid,
        summary: p.summary,
        location: p.location,
        start,
        end,
        url: p.url,
    }
}

/// A parsed calendar: the entries of one document, in source order,
/// immutable once built and queried by the selector with any reference
/// time.
#[derive(Debug)]
pub struct IcalCalendar {
    pub events: Vec<Event>,
}

impl View for IcalCalendar {
    type V = Seq<EventView>;

    open spec fn view(&self) -> Seq<EventView> {
        events_view(self.events@)
    }
}

impl IcalCalendar {
    /// Reads a calendar document. Parsing never fails as a whole: an entry
    /// whose start cannot be read keeps an absent start, and stray begin or
    /// end markers are ignored.
    pub fn parse(text: &str) -> (c: IcalCalendar)
        ensures
            c@ == spec_parse_calendar(text@),
    {
        let chars = chars_of(text);
        let phys = split_lines(&chars);
        let logical = unfold_lines(&phys);
        let ghost lv = crate::text::lines_view(logical@);
        let mut events: Vec<Event> = Vec::new();
        let mut cur: Option<PartialEvent> = None;
        let mut i: usize = 0;
        while i < logical.len()
            invariant
                i <= logical@.len(),
                lv == crate::text::lines_view(logical@),
                events_view(events@) == group_run(lv.take(i as int)).events,
                (match cur {
                    Some(p) => group_run(lv.take(i as int)).cur == Some(partial_view(p)),
                    None => group_run(lv.take(i as int)).cur is None,
                }),
            decreases logical@.len() - i,
        {
            proof {
                assert(lv.take(i + 1).drop_last() =~= lv.take(i as int));
                assert(lv.take(i + 1).last() == logical@[i as int]@);
            }
            let line = &logical[i];
            match content_line(line) {
                None => {},
                Some(cl) => {
                    let is_begin = chars_eq_str(&cl.name, "BEGIN") && chars_eq_str(
                        &cl.value,
                        "VEVENT",
                    );
                    let is_end = chars_eq_str(&cl.name, "END") && chars_eq_str(&cl.value, "VEVENT");
                    if is_begin {
                        if cur.is_none() {
                            cur = Some(new_partial());
                        }
                    } else if is_end {
                        let prev = cur;
                        cur = None;
                        match prev {
                            Some(p) => {
                                events.push(finish_event(p));
                                proof {
                                    assert(events_view(events@) =~= group_run(
                                        lv.take(i + 1),
                                    ).events);
                                }
                            },
                            None => {},
                        }
                    } else {
                        let prev = cur;
                        cur = None;
                        match prev {
                            Some(mut p) => {
                                route_line(&mut p, cl);
                                cur = Some(p);
                            },
                            None => {},
                        }
                    }
                },
            }
            i = i + 1;
        }
        proof {
            assert(lv.take(logical@.len() as int) =~= lv);
        }
        IcalCalendar { events }
    }
}

} // verus!
