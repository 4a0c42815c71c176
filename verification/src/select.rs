//! The selector: of a parsed calendar, the entries whose start is at or
//! after a reference time, in ascending start order, entries with equal
//! starts keeping their source order, optionally truncated to a maximum
//! count. Selection is a pure function of the calendar and the reference
//! time.

use vstd::prelude::*;
use crate::event::Event;
use crate::event::EventView;
use crate::event::clone_event;
use crate::ical::IcalCalendar;
use crate::ical::events_view;
use crate::ical::spec_parse_timestamp;
use crate::ical::parse_timestamp;
use crate::text::chars_of;
use crate::time::Timestamp;

verus! {

broadcast use vstd::seq_lib::group_to_multiset_ensures, vstd::seq_lib::group_filter_ensures;

/// Whether an entry is selectable at reference time `t`: a defined start at
/// or after `t` (the boundary is included).
pub open spec fn eligible(e: EventView, t: int) -> bool {
    e.start is Some && e.start->0.seconds >= t
}

pub open spec fn start_key(e: EventView) -> int
    recommends
        e.start is Some,
{
    e.start->0.seconds as int
}

pub open spec fn sorted_by_start(s: Seq<EventView>) -> bool {
    forall|i: int, j: int|
        0 <= i < j < s.len() ==> start_key(#[trigger] s[i]) <= start_key(#[trigger] s[j])
}

/// Insertion of a later entry behind every entry that starts no later: with
/// entries taken in source order this keeps the source order among equal
/// starts.
pub open spec fn sorted_insert(s: Seq<EventView>, e: EventView) -> Seq<EventView>
    decreases s.len(),
{
    if s.len() == 0 {
        seq![e]
    } else if start_key(s.last()) <= start_key(e) {
        s.push(e)
    } else {
        sorted_insert(s.drop_last(), e).push(s.last())
    }
}

/// The stable ascending-by-start ordering of a sequence of entries.
pub open spec fn sort_by_start(s: Seq<EventView>) -> Seq<EventView>
    decreases s.len(),
{
    if s.len() == 0 {
        Seq::empty()
    } else {
        sorted_insert(sort_by_start(s.drop_last()), s.last())
    }
}

pub open spec fn eligible_pred(t: int) -> spec_fn(EventView) -> bool {
    |e: EventView| eligible(e, t)
}

/// What selection yields: the eligible entries, stably sorted by start.
pub open spec fn spec_upcoming(evs: Seq<EventView>, t: int) -> Seq<EventView> {
    sort_by_start(evs.filter(eligible_pred(t)))
}

/// What bounded selection yields: the first `n` selected entries — a prefix
/// of the unbounded selection of length `n` or the whole of it, whichever
/// is shorter.
pub open spec fn spec_upcoming_limited(evs: Seq<EventView>, t: int, n: int) -> Seq<EventView>
    recommends
        n >= 0,
{
    let u = spec_upcoming(evs, t);
    u.take(
        if n <= u.len() {
            n
        } else {
            u.len() as int
        },
    )
}

pub proof fn lemma_sorted_insert_props(s: Seq<EventView>, e: EventView)
    requires
        sorted_by_start(s),
    ensures
        sorted_by_start(sorted_insert(s, e)),
        sorted_insert(s, e).to_multiset() == s.to_multiset().insert(e),
        sorted_insert(s, e).len() == s.len() + 1,
    decreases s.len(),
{
    if s.len() == 0 {
        assert(seq![e] =~= Seq::empty().push(e));
        assert(sorted_insert(s, e).to_multiset() =~= s.to_multiset().insert(e));
    } else if start_key(s.last()) <= start_key(e) {
        assert forall|i: int, j: int|
            0 <= i < j < s.push(e).len() implies start_key(#[trigger] s.push(e)[i]) <= start_key(
            #[trigger] s.push(e)[j],
        ) by {
            if j < s.len() {
            } else {
                assert(s.push(e)[j] == e);
                if i < s.len() - 1 {
                    assert(start_key(s[i]) <= start_key(s[s.len() - 1]));
                }
            }
        }
    } else {
        let dl = s.drop_last();
        assert(sorted_by_start(dl)) by {
            assert(forall|i: int, j: int|
                0 <= i < j < dl.len() ==> start_key(#[trigger] dl[i]) <= start_key(
                    #[trigger] dl[j],
                ));
        }
        lemma_sorted_insert_props(dl, e);
        let si = sorted_insert(dl, e);
        assert(dl.push(s.last()) =~= s);
        assert(sorted_insert(s, e).to_multiset() == s.to_multiset().insert(e)) by {
            assert(si.push(s.last()).to_multiset() =~= si.to_multiset().insert(s.last()));
            assert(dl.push(s.last()).to_multiset() =~= dl.to_multiset().insert(s.last()));
            assert(si.to_multiset().insert(s.last()) =~= dl.to_multiset().insert(e).insert(
                s.last(),
            ));
            assert(dl.to_multiset().insert(s.last()).insert(e) =~= dl.to_multiset().insert(
                e,
            ).insert(s.last()));
        }
        assert forall|i: int, j: int|
            0 <= i < j < si.push(s.last()).len() implies start_key(
            #[trigger] si.push(s.last())[i],
        ) <= start_key(#[trigger] si.push(s.last())[j]) by {
            if j < si.len() {
            } else {
                assert(si.push(s.last())[j] == s.last());
                let x = si.push(s.last())[i];
                assert(si.contains(x));
                assert(si.to_multiset().count(x) > 0);
                assert(dl.to_multiset().insert(e).count(x) > 0);
                if x == e {
                    assert(start_key(x) <= start_key(s.last()));
                } else {
                    assert(dl.to_multiset().count(x) > 0);
                    assert(dl.contains(x));
                    let k = choose|k: int| 0 <= k < dl.len() && dl[k] == x;
                    assert(start_key(s[k]) <= start_key(s[s.len() - 1]));
                }
            }
        }
    }
}

pub proof fn lemma_sort_props(s: Seq<EventView>)
    ensures
        sorted_by_start(sort_by_start(s)),
        sort_by_start(s).to_multiset() == s.to_multiset(),
        sort_by_start(s).len() == s.len(),
    decreases s.len(),
{
    if s.len() == 0 {
    } else {
        let dl = s.drop_last();
        lemma_sort_props(dl);
        lemma_sorted_insert_props(sort_by_start(dl), s.last());
        assert(dl.push(s.last()) =~= s);
        assert(dl.push(s.last()).to_multiset() =~= dl.to_multiset().insert(s.last()));
        assert(sort_by_start(dl).to_multiset().insert(s.last()) =~= dl.to_multiset().insert(
            s.last(),
        ));
    }
}

/// Every selected entry has a defined start at or after the reference time;
/// an entry whose start equals the reference time is selected material, the
/// boundary being inclusive.
pub proof fn lemma_upcoming_starts_at_or_after(evs: Seq<EventView>, t: int)
    ensures
        forall|i: int|
            0 <= i < spec_upcoming(evs, t).len() ==> eligible(
                #[trigger] spec_upcoming(evs, t)[i],
                t,
            ),
{
    let pred = eligible_pred(t);
    let f = evs.filter(pred);
    lemma_sort_props(f);
    let u = spec_upcoming(evs, t);
    assert forall|i: int| 0 <= i < u.len() implies eligible(#[trigger] u[i], t) by {
        assert(u.contains(u[i]));
        assert(u.to_multiset().count(u[i]) > 0);
        assert(f.to_multiset().count(u[i]) > 0);
        assert(f.contains(u[i]));
        let k = choose|k: int| 0 <= k < f.len() && f[k] == u[i];
        assert(pred(f[k]));
    }
}

/// Selected entries come in ascending start order: every pair, and so every
/// adjacent pair, is ordered by start.
pub proof fn lemma_upcoming_sorted(evs: Seq<EventView>, t: int)
    ensures
        sorted_by_start(spec_upcoming(evs, t)),
        forall|i: int|
            0 <= i && i + 1 < spec_upcoming(evs, t).len() ==> start_key(
                #[trigger] spec_upcoming(evs, t)[i],
            ) <= start_key(spec_upcoming(evs, t)[i + 1]),
{
    let pred = eligible_pred(t);
    lemma_sort_props(evs.filter(pred));
    let u = spec_upcoming(evs, t);
    assert forall|i: int| 0 <= i && i + 1 < u.len() implies start_key(#[trigger] u[i])
        <= start_key(u[i + 1]) by {
        assert(0 <= i < i + 1 < u.len());
    }
}

/// Selection is repeatable: what `upcoming` yields is a function of the
/// calendar's entries and the reference time alone, so two runs on the same
/// calendar and reference agree entry for entry; nothing is mutated in
/// between.
pub proof fn lemma_upcoming_repeatable(
    evs: Seq<EventView>,
    t: int,
    r1: Seq<EventView>,
    r2: Seq<EventView>,
)
    requires
        r1 == spec_upcoming(evs, t),
        r2 == spec_upcoming(evs, t),
    ensures
        r1 == r2,
{
}

/// Bounded selection is a prefix of unbounded selection: of length `n` when
/// that many entries are selected, of the full length otherwise, and empty
/// for `n == 0`.
pub proof fn lemma_upcoming_limited_prefix(evs: Seq<EventView>, t: int, n: int)
    requires
        n >= 0,
    ensures
        spec_upcoming_limited(evs, t, n).len() == (if n <= spec_upcoming(evs, t).len() {
            n
        } else {
            spec_upcoming(evs, t).len() as int
        }),
        forall|i: int|
            0 <= i < spec_upcoming_limited(evs, t, n).len() ==> #[trigger] spec_upcoming_limited(
                evs,
                t,
                n,
            )[i] == spec_upcoming(evs, t)[i],
        n == 0 ==> spec_upcoming_limited(evs, t, n) == Seq::<EventView>::empty(),
{
    if n == 0 {
        assert(spec_upcoming_limited(evs, t, n) =~= Seq::<EventView>::empty());
    }
}

fn find_pos(out: &Vec<Event>, ekey: i64) -> (pos: usize)
    requires
        forall|k: int| 0 <= k < out@.len() ==> (#[trigger] out@[k])@.start is Some,
        sorted_by_start(events_view(out@)),
    ensures
        pos <= out@.len(),
        forall|k: int| 0 <= k < pos ==> start_key(#[trigger] events_view(out@)[k]) <= ekey,
        forall|k: int|
            pos <= k < out@.len() ==> start_key(#[trigger] events_view(out@)[k]) > ekey,
{
    let n = out.len();
    let mut pos: usize = 0;
    while pos < n
        invariant
            pos <= n,
            n == out@.len(),
            forall|k: int| 0 <= k < out@.len() ==> (#[trigger] out@[k])@.start is Some,
            sorted_by_start(events_view(out@)),
            forall|k: int| 0 <= k < pos ==> start_key(#[trigger] events_view(out@)[k]) <= ekey,
        decreases n - pos,
    {
        let key_here = match &out[pos].start {
            Some(ts) => ts.seconds,
            None => 0,
        };
        proof {
            assert(events_view(out@)[pos as int] == out@[pos as int]@);
            assert(key_here == start_key(events_view(out@)[pos as int]));
        }
        if key_here > ekey {
            proof {
                assert forall|k: int|
                    pos <= k < out@.len() implies start_key(#[trigger] events_view(out@)[k])
                    > ekey by {
                    if k > pos {
                        assert(start_key(events_view(out@)[pos as int]) <= start_key(
                            events_view(out@)[k],
                        ));
                    }
                }
            }
            return pos;
        }
        pos = pos + 1;
    }
    pos
}

proof fn lemma_sorted_insert_split(s: Seq<EventView>, e: EventView, p: int)
    requires
        0 <= p <= s.len(),
        forall|k: int| 0 <= k < p ==> start_key(#[trigger] s[k]) <= start_key(e),
        forall|k: int| p <= k < s.len() ==> start_key(#[trigger] s[k]) > start_key(e),
    ensures
        sorted_insert(s, e) == s.subrange(0, p).push(e) + s.subrange(p, s.len() as int),
    decreases s.len(),
{
    if s.len() == 0 {
        assert(sorted_insert(s, e) =~= s.subrange(0, 0).push(e) + s.subrange(0, 0));
    } else if p == s.len() {
        assert(start_key(s.last()) <= start_key(e));
        assert(s.push(e) =~= s.subrange(0, p).push(e) + s.subrange(p, s.len() as int));
    } else {
        assert(start_key(s[s.len() - 1]) > start_key(e));
        let dl = s.drop_last();
        lemma_sorted_insert_split(dl, e, p);
        assert(sorted_insert(dl, e).push(s.last()) =~= s.subrange(0, p).push(e) + s.subrange(
            p,
            s.len() as int,
        ));
    }
}

impl IcalCalendar {
    /// Every entry whose start is defined and at or after the reference
    /// instant, in ascending start order, entries with equal starts in
    /// their source order. The calendar itself is untouched.
    pub fn upcoming(&self, at: &Timestamp) -> (r: Vec<Event>)
        ensures
            events_view(r@) == spec_upcoming(self@, at.seconds as int),
    {
        let t = at.seconds;
        let ghost pred = eligible_pred(t as int);
        let mut filtered: Vec<Event> = Vec::new();
        let mut i: usize = 0;
        proof {
            reveal(Seq::filter);
            assert(self@.take(0).filter(pred) =~= Seq::<EventView>::empty());
            assert(events_view(filtered@) =~= Seq::<EventView>::empty());
        }
        while i < self.events.len()
            invariant
                i <= self.events@.len(),
                t == at.seconds,
                pred == eligible_pred(t as int),
                events_view(filtered@) == self@.take(i as int).filter(pred),
            decreases self.events@.len() - i,
        {
            proof {
                reveal(Seq::filter);
                assert(self@.take(i + 1).drop_last() =~= self@.take(i as int));
                assert(self@.take(i + 1).last() == self.events@[i as int]@);
            }
            let e = &self.events[i];
            let sel = match &e.start {
                Some(ts) => ts.seconds >= t,
                None => false,
            };
            proof {
                assert(sel == pred(self.events@[i as int]@));
            }
            if sel {
                filtered.push(clone_event(e));
                proof {
                    assert(events_view(filtered@) =~= self@.take(i as int).filter(pred).push(
                        self.events@[i as int]@,
                    ));
                }
            }
            i = i + 1;
        }
        proof {
            assert(self@.take(self.events@.len() as int) =~= self@);
        }
        let ghost fv = events_view(filtered@);
        proof {
            assert forall|k: int| 0 <= k < fv.len() implies pred(#[trigger] fv[k]) by {
                assert(fv[k] == self@.filter(pred)[k]);
            }
        }
        let mut out: Vec<Event> = Vec::new();
        let mut j: usize = 0;
        proof {
            assert(fv.take(0) =~= Seq::<EventView>::empty());
            assert(events_view(out@) =~= sort_by_start(fv.take(0)));
        }
        while j < filtered.len()
            invariant
                j <= filtered@.len(),
                t == at.seconds,
                pred == eligible_pred(t as int),
                fv == events_view(filtered@),
                forall|k: int| 0 <= k < fv.len() ==> pred(#[trigger] fv[k]),
                events_view(out@) == sort_by_start(fv.take(j as int)),
                forall|k: int| 0 <= k < out@.len() ==> (#[trigger] out@[k])@.start is Some,
            decreases filtered@.len() - j,
        {
            let ghost before = events_view(out@);
            let ghost outseq = out@;
            proof {
                lemma_sort_props(fv.take(j as int));
                assert(fv[j as int] == filtered@[j as int]@);
                assert(pred(fv[j as int]));
                assert(eligible_pred(t as int)(fv[j as int]) == eligible(fv[j as int], t as int));
                assert(eligible(fv[j as int], t as int));
            }
            let e = clone_event(&filtered[j]);
            proof {
                assert(e == filtered@[j as int]);
                assert(e@.start == fv[j as int].start);
                assert(e.start is Some);
            }
            let ekey = match &e.start {
                Some(ts) => ts.seconds,
                None => 0,
            };
            proof {
                assert(ekey == start_key(fv[j as int]));
            }
            let pos = find_pos(&out, ekey);
            proof {
                lemma_sorted_insert_split(before, fv[j as int], pos as int);
            }
            out.insert(pos, e);
            proof {
                outseq.insert_ensures(pos as int, e);
                assert(events_view(out@) =~= before.subrange(0, pos as int).push(fv[j as int])
                    + before.subrange(pos as int, before.len() as int));
                assert(events_view(out@) == sorted_insert(before, fv[j as int]));
                assert(fv.take(j + 1).drop_last() =~= fv.take(j as int));
                assert(fv.take(j + 1).last() == fv[j as int]);
                assert(events_view(out@) == sort_by_start(fv.take(j + 1)));
                assert forall|k: int| 0 <= k < out@.len() implies (#[trigger] out@[k])@.start
                    is Some by {
                    if k < pos {
                        assert(out@[k] == outseq[k]);
                    } else if k == pos {
                        assert(out@[k] == e);
                    } else {
                        assert(out@[k] == outseq[k - 1]);
                    }
                }
            }
            j = j + 1;
        }
        proof {
            assert(fv.take(filtered@.len() as int) =~= fv);
        }
        out
    }

    /// The first `max` upcoming entries; `max == 0` selects nothing.
    pub fn upcoming_limited(&self, at: &Timestamp, max: usize) -> (r: Vec<Event>)
        ensures
            events_view(r@) == spec_upcoming_limited(self@, at.seconds as int, max as int),
            max == 0 ==> events_view(r@) == Seq::<EventView>::empty(),
    {
        let mut r = self.upcoming(at);
        let ghost u = spec_upcoming(self@, at.seconds as int);
        r.truncate(max);
        proof {
            if max as int <= u.len() {
                assert(events_view(r@) =~= u.take(max as int));
            } else {
                assert(events_view(r@) =~= u.take(u.len() as int));
                assert(u.take(u.len() as int) =~= u);
            }
            if max == 0 {
                assert(events_view(r@) =~= Seq::<EventView>::empty());
            }
        }
        r
    }

    /// Upcoming entries against a reference time in the compact
    /// `YYYYMMDDTHHMMSSZ` form (a floating form is read under the same
    /// rules); a reference that is no timestamp selects nothing.
    pub fn get_upcoming_events(&self, current_time: &str) -> (r: Vec<Event>)
        ensures
            (match spec_parse_timestamp(current_time@, None) {
                Some(ts) => events_view(r@) == spec_upcoming(self@, ts.seconds as int),
                None => events_view(r@) == Seq::<EventView>::empty(),
            }),
    {
        let cs = chars_of(current_time);
        match parse_timestamp(&cs, None) {
            Some(ts) => self.upcoming(&ts),
            None => {
                let r: Vec<Event> = Vec::new();
                proof {
                    assert(events_view(r@) =~= Seq::<EventView>::empty());
                }
                r
            },
        }
    }

    /// As `get_upcoming_events`, truncated to `limit` entries when a limit
    /// is given; no limit means no truncation.
    pub fn get_upcoming_events_limited(&self, current_time: &str, limit: Option<usize>) -> (r:
        Vec<Event>)
        ensures
            (match spec_parse_timestamp(current_time@, None) {
                Some(ts) => (match limit {
                    Some(n) => events_view(r@) == spec_upcoming_limited(
                        self@,
                        ts.seconds as int,
                        n as int,
                    ),
                    None => events_view(r@) == spec_upcoming(self@, ts.seconds as int),
                }),
                None => events_view(r@) == Seq::<EventView>::empty(),
            }),
    {
        let cs = chars_of(current_time);
        match parse_timestamp(&cs, None) {
            Some(ts) => {
                match limit {
                    Some(n) => self.upcoming_limited(&ts, n),
                    None => self.upcoming(&ts),
                }
            },
            None => {
                let r: Vec<Event> = Vec::new();
                proof {
                    assert(events_view(r@) =~= Seq::<EventView>::empty());
                }
                r
            },
        }
    }
}

} // verus!
