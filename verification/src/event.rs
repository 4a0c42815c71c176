//! The typed, immutable representation of one calendar entry, and the
//! rendering of its start time for display.

use vstd::prelude::*;
use crate::time::TimeKind;
use crate::time::Timestamp;
use crate::time::secs_to_fields;
use crate::time::spec_secs_to_fields;
use crate::time::ts_in_range;

verus! {

/// One calendar entry. Every field but the timestamps is free text; a field
/// the source document does not carry is absent. An entry whose start could
/// not be parsed keeps `start` absent and is never selected.
#[derive(Debug, PartialEq)]
pub struct Event {
    pub uid: Option<String>,
    pub summary: Option<String>,
    pub location: Option<String>,
    pub start: Option<Timestamp>,
    pub end: Option<Timestamp>,
    pub url: Option<String>,
}

/// The mathematical reading of an `Event`: each text field as its character
/// sequence.
pub struct EventView {
    pub uid: Option<Seq<char>>,
    pub summary: Option<Seq<char>>,
    pub location: Option<Seq<char>>,
    pub start: Option<Timestamp>,
    pub end: Option<Timestamp>,
    pub url: Option<Seq<char>>,
}

pub open spec fn opt_str_view(o: Option<String>) -> Option<Seq<char>> {
    match o {
        Some(s) => Some(s@),
        None => None,
    }
}

impl View for Event {
    type V = EventView;

    open spec fn view(&self) -> EventView {
        EventView {
            uid: opt_str_view(self.uid),
            summary: opt_str_view(self.summary),
            location: opt_str_view(self.location),
            start: self.start,
            end: self.end,
            url: opt_str_view(self.url),
        }
    }
}

pub fn clone_opt_string(o: &Option<String>) -> (r: Option<String>)
    ensures
        r == *o,
{
    match o {
        Some(s) => Some(s.clone()),
        None => None,
    }
}

/// A field-for-field copy; the calendar stays untouched when its events are
/// handed out.
pub fn clone_event(e: &Event) -> (r: Event)
    ensures
        r == *e,
{
    Event {
        uid: clone_opt_string(&e.uid),
        summary: clone_opt_string(&e.summary),
        location: clone_opt_string(&e.location),
        start: e.start,
        end: e.end,
        url: clone_opt_string(&e.url),
    }
}

pub open spec fn digit_char(d: int) -> char {
    if d == 0 {
        '0'
    } else if d == 1 {
        '1'
    } else if d == 2 {
        '2'
    } else if d == 3 {
        '3'
    } else if d == 4 {
        '4'
    } else if d == 5 {
        '5'
    } else if d == 6 {
        '6'
    } else if d == 7 {
        '7'
    } else if d == 8 {
        '8'
    } else {
        '9'
    }
}

pub open spec fn spec_two_digits(n: int) -> Seq<char> {
    seq![digit_char(n / 10), digit_char(n % 10)]
}

pub open spec fn spec_four_digits(n: int) -> Seq<char> {
    seq![
        digit_char(n / 1000),
        digit_char((n / 100) % 10),
        digit_char((n / 10) % 10),
        digit_char(n % 10),
    ]
}

/// The display rendering of a start time: date and minutes, with a UTC mark
/// unless the time is floating (that interpretation was fixed at parse time
/// and is not re-derived here).
pub open spec fn spec_render_time(y: int, mo: int, d: int, h: int, mi: int, kind: TimeKind) -> Seq<
    char,
> {
    spec_four_digits(y) + seq!['-'] + spec_two_digits(mo) + seq!['-'] + spec_two_digits(d)
        + seq![' '] + spec_two_digits(h) + seq![':'] + spec_two_digits(mi) + (if kind is Floating {
        Seq::<char>::empty()
    } else {
        seq![' ', 'U', 'T', 'C']
    })
}

/// What display yields for a defined start: its rendering, provided the
/// instant lies in the working band with a four-digit year (every timestamp
/// the parser produces does).
pub open spec fn spec_display_time(ts: Timestamp) -> Option<Seq<char>> {
    if ts_in_range(ts.seconds as int) && spec_secs_to_fields(ts.seconds as int).0 <= 9999 {
        let f = spec_secs_to_fields(ts.seconds as int);
        Some(spec_render_time(f.0, f.1, f.2, f.3, f.4, ts.kind))
    } else {
        None
    }
}

fn digit_str(d: u64) -> (r: &'static str)
    requires
        d <= 9,
    ensures
        r@ == seq![digit_char(d as int)],
{
    proof {
        reveal_strlit("0");
        reveal_strlit("1");
        reveal_strlit("2");
        reveal_strlit("3");
        reveal_strlit("4");
        reveal_strlit("5");
        reveal_strlit("6");
        reveal_strlit("7");
        reveal_strlit("8");
        reveal_strlit("9");
    }
    if d == 0 {
        "0"
    } else if d == 1 {
        "1"
    } else if d == 2 {
        "2"
    } else if d == 3 {
        "3"
    } else if d == 4 {
        "4"
    } else if d == 5 {
        "5"
    } else if d == 6 {
        "6"
    } else if d == 7 {
        "7"
    } else if d == 8 {
        "8"
    } else {
        "9"
    }
}

fn push_two_digits(out: &mut String, n: u64)
    requires
        n <= 99,
    ensures
        final(out)@ == old(out)@ + spec_two_digits(n as int),
{
    out.append(digit_str(n / 10));
    out.append(digit_str(n % 10));
    proof {
        assert(final(out)@ =~= old(out)@ + spec_two_digits(n as int));
    }
}

fn push_four_digits(out: &mut String, n: u64)
    requires
        n <= 9999,
    ensures
        final(out)@ == old(out)@ + spec_four_digits(n as int),
{
    out.append(digit_str(n / 1000));
    out.append(digit_str((n / 100) % 10));
    out.append(digit_str((n / 10) % 10));
    out.append(digit_str(n % 10));
    proof {
        assert(final(out)@ =~= old(out)@ + spec_four_digits(n as int));
    }
}

impl Event {
    /// A human-oriented rendering of the start time, or nothing when the
    /// entry has no usable start for the caller to substitute a placeholder.
    pub fn start_time_formatted(&self) -> (r: Option<String>)
        ensures
            (match self.start {
                None => r is None,
                Some(ts) => (match spec_display_time(ts) {
                    Some(cs) => r is Some && r->0@ == cs,
                    None => r is None,
                }),
            }),
    {
        let ts = match &self.start {
            None => {
                return None;
            },
            Some(ts) => *ts,
        };
        if ts.seconds < -62135596800i64 || ts.seconds > 260000000000i64 {
            return None;
        }
        let f = secs_to_fields(ts.seconds);
        if f.0 > 9999 {
            return None;
        }
        proof {
            reveal_strlit("-");
            reveal_strlit(":");
            reveal_strlit(" ");
            reveal_strlit(" UTC");
        }
        let mut out = String::new();
        push_four_digits(&mut out, f.0);
        out.append("-");
        push_two_digits(&mut out, f.1);
        out.append("-");
        push_two_digits(&mut out, f.2);
        out.append(" ");
        push_two_digits(&mut out, f.3);
        out.append(":");
        push_two_digits(&mut out, f.4);
        let floating = match ts.kind {
            TimeKind::Floating => true,
            TimeKind::Utc => false,
            TimeKind::Zoned => false,
        };
        if !floating {
            out.append(" UTC");
        }
        proof {
            let fs = spec_secs_to_fields(ts.seconds as int);
            assert(out@ =~= spec_render_time(fs.0, fs.1, fs.2, fs.3, fs.4, ts.kind));
        }
        Some(out)
    }
}

} // verus!
