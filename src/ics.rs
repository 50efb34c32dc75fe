use crate::instant::{utc_stamp, Instant};
use crate::timing::{facts, texts, Day, Section, Timing, TimingFact};
use vstd::prelude::*;

verus! {

/// A weekly recurring class event.
#[derive(Debug)]
pub struct EventGen {
    pub summary: String,
    pub description: String,
    pub start_time: Instant,
    pub end_time: Instant,
    pub weekdays: Vec<Day>,
    pub recurrence_end: Instant,
    pub exdates: Vec<Instant>,
    pub location: String,
}

/// What a recurring event says, as plain values.
pub struct EventFact {
    pub summary: Seq<char>,
    pub description: Seq<char>,
    pub start_time: Instant,
    pub end_time: Instant,
    pub weekdays: Seq<Day>,
    pub recurrence_end: Instant,
    pub exdates: Seq<Instant>,
    pub location: Seq<char>,
}

impl View for EventGen {
    type V = EventFact;

    open spec fn view(&self) -> EventFact {
        EventFact {
            summary: self.summary@,
            description: self.description@,
            start_time: self.start_time,
            end_time: self.end_time,
            weekdays: self.weekdays@,
            recurrence_end: self.recurrence_end,
            exdates: self.exdates@,
            location: self.location@,
        }
    }
}

/// Whether two timings cover the same range of periods.
pub open spec fn same_range(a: TimingFact, b: TimingFact) -> bool {
    a.start == b.start && a.end == b.end
}

/// The first index from `i` on of a group whose range is that of `t`, or `gs.len()`.
pub open spec fn group_index(gs: Seq<Seq<TimingFact>>, t: TimingFact, i: int) -> int
    decreases gs.len() - i,
{
    if i < 0 || i >= gs.len() {
        gs.len() as int
    } else if gs[i].len() > 0 && same_range(gs[i][0], t) {
        i
    } else {
        group_index(gs, t, i + 1)
    }
}

/// The timings grouped by range of periods, whatever the day: groups in order of first
/// appearance, each holding its timings in order.
pub open spec fn grouped(ts: Seq<TimingFact>) -> Seq<Seq<TimingFact>>
    decreases ts.len(),
{
    if ts.len() == 0 {
        Seq::empty()
    } else {
        let gs = grouped(ts.drop_last());
        let k = group_index(gs, ts.last(), 0);
        if k < gs.len() {
            gs.update(k, gs[k].push(ts.last()))
        } else {
            gs.push(seq![ts.last()])
        }
    }
}

/// Whether one of `days` falls on weekday `w` (Monday as 0).
pub open spec fn day_listed(days: Seq<Day>, w: int) -> bool {
    exists|k: int| 0 <= k < days.len() && (#[trigger] days[k]).spec_index() == w
}

/// The first of `d` and the `n` days after it that falls on one of `days`.
pub open spec fn anchor_from(d: Instant, days: Seq<Day>, n: nat) -> Option<Instant>
    decreases n,
{
    if day_listed(days, d.spec_weekday()) {
        Some(d)
    } else if n == 0 {
        None
    } else {
        match d.spec_next_day() {
            Some(e) => anchor_from(e, days, (n - 1) as nat),
            None => None,
        }
    }
}

/// Period `p` begins at `(p + 1):30` on the anchor day.
pub open spec fn period_start(anchor: Instant, p: u8) -> Option<Instant> {
    match anchor.spec_with_hour(p + 1) {
        Some(x) => x.spec_with_minute(30),
        None => None,
    }
}

/// Period `p` ends at `(p + 2):20` on the anchor day.
pub open spec fn period_end(anchor: Instant, p: u8) -> Option<Instant> {
    match anchor.spec_with_hour(p + 2) {
        Some(x) => x.spec_with_minute(20),
        None => None,
    }
}

/// The day after a holiday at hour `p + 1`, where that exists.
pub open spec fn exclusion(h: Instant, p: u8) -> Option<Instant> {
    match h.spec_with_hour(p + 1) {
        Some(x) => x.spec_next_day(),
        None => None,
    }
}

/// The exclusions of the holidays, in order, leaving out those that do not exist.
pub open spec fn exclusions(holidays: Seq<Instant>, p: u8) -> Seq<Instant>
    decreases holidays.len(),
{
    if holidays.len() == 0 {
        Seq::empty()
    } else {
        match exclusion(holidays.last(), p) {
            Some(x) => exclusions(holidays.drop_last(), p).push(x),
            None => exclusions(holidays.drop_last(), p),
        }
    }
}

/// The days of a group of timings.
pub open spec fn days_of(g: Seq<TimingFact>) -> Seq<Day> {
    g.map_values(|t: TimingFact| t.day)
}

/// The event of one group of timings that share a range: it starts on the first day from
/// `sem_start` on that one of them falls on, recurs on their days until `sem_end`, skips the
/// exclusions of the holidays, and takes the room of the first. `None` where a time falls
/// outside the day.
pub open spec fn group_event(
    summary: Seq<char>,
    description: Seq<char>,
    g: Seq<TimingFact>,
    sem_start: Instant,
    sem_end: Instant,
    holidays: Seq<Instant>,
) -> Option<EventFact> {
    match anchor_from(sem_start, days_of(g), 7) {
        None => None,
        Some(anchor) => match (period_start(anchor, g[0].start), period_end(anchor, g[0].end)) {
            (Some(s), Some(e)) => Some(
                EventFact {
                    summary,
                    description,
                    start_time: s,
                    end_time: e,
                    weekdays: days_of(g),
                    recurrence_end: sem_end,
                    exdates: exclusions(holidays, g[0].start),
                    location: g[0].room,
                },
            ),
            _ => None,
        },
    }
}

/// The events of the groups, in order, leaving out those that have none.
pub open spec fn events_of_groups(
    summary: Seq<char>,
    description: Seq<char>,
    gs: Seq<Seq<TimingFact>>,
    sem_start: Instant,
    sem_end: Instant,
    holidays: Seq<Instant>,
) -> Seq<EventFact>
    decreases gs.len(),
{
    if gs.len() == 0 {
        Seq::empty()
    } else {
        let prior = events_of_groups(summary, description, gs.drop_last(), sem_start, sem_end, holidays);
        match group_event(summary, description, gs.last(), sem_start, sem_end, holidays) {
            Some(e) => prior.push(e),
            None => prior,
        }
    }
}

/// The events of a section: one for each range of periods that its timings cover.
pub open spec fn section_events(
    summary: Seq<char>,
    description: Seq<char>,
    ts: Seq<TimingFact>,
    sem_start: Instant,
    sem_end: Instant,
    holidays: Seq<Instant>,
) -> Seq<EventFact> {
    events_of_groups(summary, description, grouped(ts), sem_start, sem_end, holidays)
}

pub open spec fn group_facts(gs: Seq<Vec<Timing>>) -> Seq<Seq<TimingFact>> {
    gs.map_values(|g: Vec<Timing>| facts(g@))
}

/// Groups timings by range of periods, in order of first appearance.
fn group_timings(ts: &Vec<Timing>) -> (r: Vec<Vec<Timing>>)
    ensures
        group_facts(r@) == grouped(facts(ts@)),
        forall|k: int| 0 <= k < r@.len() ==> (#[trigger] r@[k])@.len() > 0,
{
    let mut gs: Vec<Vec<Timing>> = Vec::new();
    let mut i: usize = 0;
    while i < ts.len()
        invariant
            i <= ts@.len(),
            group_facts(gs@) == grouped(facts(ts@.subrange(0, i as int))),
            forall|k: int| 0 <= k < gs@.len() ==> (#[trigger] gs@[k])@.len() > 0,
        decreases ts@.len() - i,
    {
        let t = &ts[i];
        let ghost before = group_facts(gs@);
        proof {
            let p = ts@.subrange(0, i as int + 1);
            assert(p.drop_last() == ts@.subrange(0, i as int));
            assert(facts(p).drop_last() =~= facts(p.drop_last()));
            assert(facts(p).last() == t@);
        }
        let mut k: usize = 0;
        while k < gs.len() && !(gs[k][0].start == t.start && gs[k][0].end == t.end)
            invariant
                k <= gs@.len(),
                before == group_facts(gs@),
                forall|j: int| 0 <= j < gs@.len() ==> (#[trigger] gs@[j])@.len() > 0,
                group_index(before, t@, 0) == group_index(before, t@, k as int),
            decreases gs@.len() - k,
        {
            proof {
                assert(before[k as int] == facts(gs@[k as int]@));
            }
            k = k + 1;
        }
        if k < gs.len() {
            proof {
                assert(before[k as int] == facts(gs@[k as int]@));
            }
            let mut g = gs.remove(k);
            g.push(t.clone());
            proof {
                assert(facts(g@) =~= before[k as int].push(t@));
            }
            gs.insert(k, g);
            proof {
                assert(group_facts(gs@) =~= before.update(k as int, before[k as int].push(t@)));
            }
        } else {
            let mut g: Vec<Timing> = Vec::new();
            g.push(t.clone());
            proof {
                assert(facts(g@) =~= seq![t@]);
            }
            gs.push(g);
            proof {
                assert(group_facts(gs@) =~= before.push(seq![t@]));
            }
        }
        i = i + 1;
    }
    proof {
        assert(ts@.subrange(0, ts@.len() as int) == ts@);
    }
    gs
}

/// Whether one of `days` falls on weekday `w`.
fn lists_weekday(days: &Vec<Day>, w: u8) -> (r: bool)
    ensures
        r == day_listed(days@, w as int),
{
    let mut k: usize = 0;
    while k < days.len()
        invariant
            k <= days@.len(),
            forall|j: int| 0 <= j < k ==> (#[trigger] days@[j]).spec_index() != w as int,
        decreases days@.len() - k,
    {
        if days[k].index() == w {
            return true;
        }
        k = k + 1;
    }
    false
}

/// The first day from `sem_start` on, within a week, that falls on one of `days`.
fn anchor_date(sem_start: &Instant, days: &Vec<Day>) -> (r: Option<Instant>)
    requires
        sem_start.wf(),
    ensures
        r == anchor_from(*sem_start, days@, 7),
        r matches Some(a) ==> a.wf(),
{
    let mut date = *sem_start;
    let mut n: u8 = 7;
    while !lists_weekday(days, date.weekday())
        invariant
            date.wf(),
            n <= 7,
            anchor_from(*sem_start, days@, 7) == anchor_from(date, days@, n as nat),
        decreases n,
    {
        if n == 0 {
            return None;
        }
        match date.next_day() {
            Some(d) => {
                date = d;
            },
            None => {
                return None;
            },
        }
        n = n - 1;
    }
    Some(date)
}

/// When period `timing_start` begins on the first class day from `sem_start` on: `(p + 1):30`.
pub fn start_time(sem_start: &Instant, weekday: &Vec<Day>, timing_start: u8) -> (r: Option<Instant>)
    requires
        sem_start.wf(),
    ensures
        r == (match anchor_from(*sem_start, weekday@, 7) {
            Some(a) => period_start(a, timing_start),
            None => None,
        }),
        r matches Some(x) ==> x.wf(),
{
    let date = anchor_date(sem_start, weekday)?;
    let h = date.with_hour(1 + timing_start as u32)?;
    h.with_minute(30)
}

/// When period `timing_end` ends on the first class day from `sem_start` on: `(p + 2):20`.
pub fn end_time(sem_start: &Instant, weekday: &Vec<Day>, timing_end: u8) -> (r: Option<Instant>)
    requires
        sem_start.wf(),
    ensures
        r == (match anchor_from(*sem_start, weekday@, 7) {
            Some(a) => period_end(a, timing_end),
            None => None,
        }),
        r matches Some(x) ==> x.wf(),
{
    let date = anchor_date(sem_start, weekday)?;
    let h = date.with_hour(2 + timing_end as u32)?;
    h.with_minute(20)
}

/// The exclusion of each holiday for a class that begins in period `p`.
fn exclusion_dates(holidays: &[Instant], p: u8) -> (r: Vec<Instant>)
    requires
        forall|k: int| 0 <= k < holidays@.len() ==> (#[trigger] holidays@[k]).wf(),
    ensures
        r@ == exclusions(holidays@, p),
        forall|k: int| 0 <= k < r@.len() ==> (#[trigger] r@[k]).wf(),
{
    let mut r: Vec<Instant> = Vec::new();
    let mut i: usize = 0;
    while i < holidays.len()
        invariant
            i <= holidays@.len(),
            forall|k: int| 0 <= k < holidays@.len() ==> (#[trigger] holidays@[k]).wf(),
            r@ == exclusions(holidays@.subrange(0, i as int), p),
            forall|k: int| 0 <= k < r@.len() ==> (#[trigger] r@[k]).wf(),
        decreases holidays@.len() - i,
    {
        proof {
            let q = holidays@.subrange(0, i as int + 1);
            assert(q.drop_last() == holidays@.subrange(0, i as int));
            assert(q.last() == holidays@[i as int]);
        }
        match holidays[i].with_hour(1 + p as u32) {
            Some(x) => match x.next_day() {
                Some(y) => r.push(y),
                None => {},
            },
            None => {},
        }
        i = i + 1;
    }
    proof {
        assert(holidays@.subrange(0, holidays@.len() as int) == holidays@);
    }
    r
}

/// The days of a group of timings, in order.
fn days_of_group(g: &Vec<Timing>) -> (r: Vec<Day>)
    ensures
        r@ == days_of(facts(g@)),
{
    let mut r: Vec<Day> = Vec::new();
    let mut i: usize = 0;
    while i < g.len()
        invariant
            i <= g@.len(),
            r@ == days_of(facts(g@.subrange(0, i as int))),
        decreases g@.len() - i,
    {
        r.push(g[i].day);
        i = i + 1;
        proof {
            assert(days_of(facts(g@.subrange(0, i as int))) =~= days_of(facts(g@.subrange(0, i - 1 as int))).push(g@[i - 1].day));
        }
    }
    proof {
        assert(g@.subrange(0, g@.len() as int) == g@);
    }
    r
}

pub open spec fn event_wf(e: EventFact) -> bool {
    &&& e.start_time.wf()
    &&& e.end_time.wf()
    &&& e.recurrence_end.wf()
    &&& forall|k: int| 0 <= k < e.exdates.len() ==> (#[trigger] e.exdates[k]).wf()
}

fn group_to_event(
    summary: &String,
    description: &String,
    g: &Vec<Timing>,
    sem_start: &Instant,
    sem_end: &Instant,
    holidays: &[Instant],
) -> (r: Option<EventGen>)
    requires
        g@.len() > 0,
        sem_start.wf(),
        sem_end.wf(),
        forall|k: int| 0 <= k < holidays@.len() ==> (#[trigger] holidays@[k]).wf(),
    ensures
        match r {
            Some(e) => group_event(summary@, description@, facts(g@), *sem_start, *sem_end, holidays@)
                == Some(e@) && event_wf(e@),
            None => group_event(summary@, description@, facts(g@), *sem_start, *sem_end, holidays@) is None,
        },
{
    let weekdays = days_of_group(g);
    let first = &g[0];
    proof {
        assert(facts(g@)[0] == first@);
    }
    let start = start_time(sem_start, &weekdays, first.start)?;
    let end = end_time(sem_start, &weekdays, first.end)?;
    let exdates = exclusion_dates(holidays, first.start);
    Some(
        EventGen {
            summary: summary.clone(),
            description: description.clone(),
            start_time: start,
            end_time: end,
            weekdays,
            recurrence_end: *sem_end,
            exdates,
            location: first.classroom.clone(),
        },
    )
}

impl EventGen {
    /// The recurring events of a section: its timings grouped by range of periods, whatever the
    /// day, and one event for each group, in order of first appearance.
    pub fn new(
        summary: String,
        description: String,
        section: &Section,
        sem_start: &Instant,
        sem_end: &Instant,
        holidays: &[Instant],
    ) -> (r: Vec<EventGen>)
        requires
            sem_start.wf(),
            sem_end.wf(),
            forall|k: int| 0 <= k < holidays@.len() ==> (#[trigger] holidays@[k]).wf(),
        ensures
            r@.map_values(|e: EventGen| e@) == section_events(
                summary@,
                description@,
                facts(section.timings@),
                *sem_start,
                *sem_end,
                holidays@,
            ),
            forall|k: int| 0 <= k < r@.len() ==> event_wf(#[trigger] r@[k]@),
    {
        let gs = group_timings(&section.timings);
        let ghost all = group_facts(gs@);
        let mut r: Vec<EventGen> = Vec::new();
        let mut i: usize = 0;
        while i < gs.len()
            invariant
                i <= gs@.len(),
                all == group_facts(gs@),
                forall|k: int| 0 <= k < gs@.len() ==> (#[trigger] gs@[k])@.len() > 0,
                sem_start.wf(),
                sem_end.wf(),
                forall|k: int| 0 <= k < holidays@.len() ==> (#[trigger] holidays@[k]).wf(),
                r@.map_values(|e: EventGen| e@) == events_of_groups(
                    summary@,
                    description@,
                    all.subrange(0, i as int),
                    *sem_start,
                    *sem_end,
                    holidays@,
                ),
                forall|k: int| 0 <= k < r@.len() ==> event_wf(#[trigger] r@[k]@),
            decreases gs@.len() - i,
        {
            proof {
                let q = all.subrange(0, i as int + 1);
                assert(q.drop_last() == all.subrange(0, i as int));
                assert(q.last() == facts(gs@[i as int]@));
            }
            let ghost before = r@.map_values(|e: EventGen| e@);
            match group_to_event(&summary, &description, &gs[i], sem_start, sem_end, holidays) {
                Some(e) => {
                    r.push(e);
                    proof {
                        assert(r@.map_values(|e: EventGen| e@) =~= before.push(e@));
                    }
                },
                None => {},
            }
            i = i + 1;
        }
        proof {
            assert(all.subrange(0, all.len() as int) == all);
        }
        r
    }
}

/// Items joined by commas.
pub open spec fn comma_joined(items: Seq<Seq<char>>) -> Seq<char>
    decreases items.len(),
{
    if items.len() == 0 {
        Seq::empty()
    } else if items.len() == 1 {
        items[0]
    } else {
        comma_joined(items.drop_last()) + ","@ + items.last()
    }
}

/// The iCalendar codes of the days, joined by commas: `MO,WE`.
pub open spec fn ical_days(days: Seq<Day>) -> Seq<char> {
    comma_joined(days.map_values(|d: Day| d.spec_ical_code()))
}

/// The UTC stamps of the instants, joined by commas.
pub open spec fn stamps(xs: Seq<Instant>) -> Seq<char> {
    comma_joined(xs.map_values(|x: Instant| utc_stamp(x)))
}

/// The weekly recurrence of an event: `FREQ=WEEKLY;UNTIL=<end>;BYDAY=<days>`.
pub open spec fn recurrence_rule(e: EventFact) -> Seq<char> {
    "FREQ=WEEKLY;UNTIL="@ + utc_stamp(e.recurrence_end) + ";BYDAY="@ + ical_days(e.weekdays)
}

/// The properties of the calendar entry of a recurring event, in order.
pub open spec fn event_properties(e: EventFact) -> Seq<(Seq<char>, Seq<char>)> {
    seq![
        ("SUMMARY"@, e.summary),
        ("DESCRIPTION"@, e.description),
        ("DTSTART"@, utc_stamp(e.start_time)),
        ("RRULE"@, recurrence_rule(e)),
        ("EXDATE"@, stamps(e.exdates)),
        ("DTEND"@, utc_stamp(e.end_time)),
        ("LOCATION"@, e.location),
        ("TRANSP"@, "TRANSPARENT"@),
    ]
}

/// The views of a list of text pairs.
pub open spec fn pair_texts(ps: Seq<(String, String)>) -> Seq<(Seq<char>, Seq<char>)> {
    ps.map_values(|p: (String, String)| (p.0@, p.1@))
}

/// Texts joined by commas.
fn join_commas(items: &Vec<String>) -> (r: String)
    ensures
        r@ == comma_joined(texts(items@)),
{
    let mut r = String::new();
    let mut i: usize = 0;
    while i < items.len()
        invariant
            i <= items@.len(),
            r@ == comma_joined(texts(items@.subrange(0, i as int))),
        decreases items@.len() - i,
    {
        proof {
            let q = texts(items@.subrange(0, i as int + 1));
            assert(q.drop_last() =~= texts(items@.subrange(0, i as int)));
            assert(q.last() == items@[i as int]@);
            if i == 0 {
                assert(q[0] == items@[0]@);
            }
        }
        if i > 0 {
            r.append(",");
        }
        r.append(items[i].as_str());
        i = i + 1;
    }
    proof {
        assert(items@.subrange(0, items@.len() as int) == items@);
    }
    r
}

/// The iCalendar codes of the days, joined by commas: `MO,WE`.
pub fn weekdays_to_string(weekdays: &Vec<Day>) -> (r: String)
    ensures
        r@ == ical_days(weekdays@),
{
    let mut codes: Vec<String> = Vec::new();
    let mut i: usize = 0;
    while i < weekdays.len()
        invariant
            i <= weekdays@.len(),
            texts(codes@) =~= weekdays@.subrange(0, i as int).map_values(|d: Day| d.spec_ical_code()),
        decreases weekdays@.len() - i,
    {
        let ghost before = codes@;
        let code = String::from_str(weekdays[i].ical_code());
        codes.push(code);
        proof {
            assert(texts(codes@) =~= texts(before).push(code@));
            assert(weekdays@.subrange(0, i as int + 1).map_values(|d: Day| d.spec_ical_code())
                =~= weekdays@.subrange(0, i as int).map_values(|d: Day| d.spec_ical_code()).push(
                weekdays@[i as int].spec_ical_code()));
        }
        i = i + 1;
    }
    proof {
        assert(weekdays@.subrange(0, weekdays@.len() as int) == weekdays@);
    }
    join_commas(&codes)
}

/// The UTC stamps of the instants, joined by commas.
fn stamps_to_string(xs: &Vec<Instant>) -> (r: String)
    requires
        forall|k: int| 0 <= k < xs@.len() ==> (#[trigger] xs@[k]).wf(),
    ensures
        r@ == stamps(xs@),
{
    let mut items: Vec<String> = Vec::new();
    let mut i: usize = 0;
    while i < xs.len()
        invariant
            i <= xs@.len(),
            forall|k: int| 0 <= k < xs@.len() ==> (#[trigger] xs@[k]).wf(),
            texts(items@) =~= xs@.subrange(0, i as int).map_values(|x: Instant| utc_stamp(x)),
        decreases xs@.len() - i,
    {
        let ghost before = items@;
        let stamp = xs[i].to_utc_stamp();
        items.push(stamp);
        proof {
            assert(texts(items@) =~= texts(before).push(stamp@));
            assert(xs@.subrange(0, i as int + 1).map_values(|x: Instant| utc_stamp(x)) =~= xs@.subrange(
                0,
                i as int,
            ).map_values(|x: Instant| utc_stamp(x)).push(utc_stamp(xs@[i as int])));
        }
        i = i + 1;
    }
    proof {
        assert(xs@.subrange(0, xs@.len() as int) == xs@);
    }
    join_commas(&items)
}

/// A key and a value, both copied from literals or texts.
pub(crate) fn pair(key: &str, value: String) -> (r: (String, String))
    ensures
        r.0@ == key@,
        r.1@ == value@,
{
    (String::from_str(key), value)
}

impl EventGen {
    /// The properties of the event's calendar entry, in order: summary, description, start,
    /// weekly recurrence until the end of classwork on its weekdays, excluded dates, end,
    /// location, and a transparent (not busy) marker.
    pub fn properties(&self) -> (r: Vec<(String, String)>)
        requires
            event_wf(self@),
        ensures
            pair_texts(r@) == event_properties(self@),
    {
        proof {
            assert forall|k: int| 0 <= k < self.exdates@.len() implies (#[trigger] self.exdates@[k]).wf() by {
                assert(self@.exdates[k] == self.exdates@[k]);
            }
        }
        let mut rule = String::from_str("FREQ=WEEKLY;UNTIL=");
        rule.append(self.recurrence_end.to_utc_stamp().as_str());
        rule.append(";BYDAY=");
        rule.append(weekdays_to_string(&self.weekdays).as_str());
        let mut r: Vec<(String, String)> = Vec::new();
        r.push(pair("SUMMARY", self.summary.clone()));
        r.push(pair("DESCRIPTION", self.description.clone()));
        r.push(pair("DTSTART", self.start_time.to_utc_stamp()));
        r.push(pair("RRULE", rule));
        r.push(pair("EXDATE", stamps_to_string(&self.exdates)));
        r.push(pair("DTEND", self.end_time.to_utc_stamp()));
        r.push(pair("LOCATION", self.location.clone()));
        r.push(pair("TRANSP", String::from_str("TRANSPARENT")));
        proof {
            assert(pair_texts(r@) =~= event_properties(self@));
        }
        r
    }
}

} // verus!
