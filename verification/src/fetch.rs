//! The computing half of the fetch step: normalizing a calendar-subscription
//! locator to the standard retrieval scheme, and classifying a retrieved
//! response into a parsed calendar or a fetch error. The network call itself
//! lives in the surrounding application, which feeds its outcome in here.

use vstd::prelude::*;
use crate::ical::IcalCalendar;
use crate::ical::spec_parse_calendar;
use crate::text::chars_eq_str;
use crate::text::chars_of;

verus! {

/// A calendar-subscription locator means "retrieve over the standard secure
/// scheme": its scheme prefix is rewritten, anything else is kept as it is.
pub open spec fn spec_normalize_locator(s: Seq<char>) -> Seq<char> {
    if s.len() >= 9 && s.subrange(0, 9) == "webcal://"@ {
        "https://"@ + s.skip(9)
    } else {
        s
    }
}

pub fn normalize_locator(s: &str) -> (r: String)
    ensures
        r@ == spec_normalize_locator(s@),
{
    let n = s.unicode_len();
    if n >= 9 {
        let head = s.substring_char(0, 9);
        let hv = chars_of(head);
        if chars_eq_str(&hv, "webcal://") {
            let mut out = String::from_str("https://");
            let tail = s.substring_char(9, n);
            out.append(tail);
            proof {
                assert(out@ =~= "https://"@ + s@.skip(9));
            }
            return out;
        }
    }
    String::from_str(s)
}

/// Why no calendar could be fetched: the transport failed, the response
/// status was no success, or the response body was empty.
#[derive(Debug, PartialEq)]
pub enum FetchError {
    ConnectionFailed,
    BadStatus(u16),
    EmptyBody,
}

/// The calendar in a retrieved response: a success status with a non-empty
/// body parses (parsing itself never fails); any other status is a
/// `BadStatus` with that status, and a success status with an empty body is
/// `EmptyBody`. The transport error is the application's to report.
pub fn ingest_response(status: u16, body: &str) -> (r: Result<IcalCalendar, FetchError>)
    ensures
        (match r {
            Ok(c) => 200 <= status < 300 && body@.len() > 0 && c@ == spec_parse_calendar(body@),
            Err(e) => (match e {
                FetchError::BadStatus(st) => st == status && !(200 <= status < 300),
                FetchError::EmptyBody => 200 <= status < 300 && body@.len() == 0,
                FetchError::ConnectionFailed => false,
            }),
        }),
{
    if !(status >= 200 && status < 300) {
        return Err(FetchError::BadStatus(status));
    }
    if body.unicode_len() == 0 {
        return Err(FetchError::EmptyBody);
    }
    Ok(IcalCalendar::parse(body))
}

} // verus!
