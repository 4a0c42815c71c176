//! Resolution of a timezone-identifier parameter to a UTC offset. The zone
//! table itself is an external collaborator; the engine only consumes the
//! offset it yields.

use vstd::prelude::*;

verus! {

/// The UTC offset, in seconds east, that the bundled zone table gives for
/// the named zone at the given local date and time; nothing when the name is
/// unknown or the local time does not exist in that zone. The table is
/// compiled into the zone crate, so the result is a function of the
/// arguments alone.
pub uninterp spec fn zone_offset_of(
    tzid: Seq<char>,
    y: int,
    mo: int,
    d: int,
    h: int,
    mi: int,
    s: int,
) -> Option<int>;

/// Relies on `chrono_tz::Tz::from_str` to resolve the zone name and on
/// `chrono::TimeZone::offset_from_local_datetime` together with
/// `chrono::Offset::fix` for the zone's UTC offset at that local time; of an
/// ambiguous local time it takes the earlier reading. The bound holds
/// because `fix` yields a `chrono::FixedOffset`, which is strictly within
/// one day of UTC.
#[verifier::external_body]
pub fn resolve_zone_offset(
    tzid: &Vec<char>,
    y: u64,
    mo: u64,
    d: u64,
    h: u64,
    mi: u64,
    s: u64,
) -> (r: Option<i64>)
    ensures
        (r is Some) == (zone_offset_of(
            tzid@,
            y as int,
            mo as int,
            d as int,
            h as int,
            mi as int,
            s as int,
        ) is Some),
        r is Some ==> r->0 as int == zone_offset_of(
            tzid@,
            y as int,
            mo as int,
            d as int,
            h as int,
            mi as int,
            s as int,
        )->0,
        r is Some ==> -86400 < r->0 < 86400,
{
    let name: String = tzid.iter().collect();
    let tz: chrono_tz::Tz = name.parse().ok()?;
    let dt = chrono::NaiveDate::from_ymd_opt(y as i32, mo as u32, d as u32)?.and_hms_opt(
        h as u32,
        mi as u32,
        s as u32,
    )?;
    match chrono::TimeZone::offset_from_local_datetime(&tz, &dt) {
        chrono::LocalResult::None => None,
        chrono::LocalResult::Single(o) | chrono::LocalResult::Ambiguous(o, _) => Some(
            chrono::Offset::fix(&o).local_minus_utc() as i64,
        ),
    }
}

} // verus!
