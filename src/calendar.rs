use icalendar::Component;
use crate::data::{CourseFact, TimeTable, TimeTableFact, course_facts, window_wf};
use crate::ics::{event_properties, event_wf, pair, pair_texts, section_events, EventFact, EventGen};
use crate::instant::{current_year, utc_stamp, year_replaced, Instant};
use crate::timing::SectionFact;
use vstd::prelude::*;

verus! {

/// The summary of a lecture event: `Lec:<name> `.
pub open spec fn lecture_summary(name: Seq<char>) -> Seq<char> {
    "Lec:"@ + name + " "@
}

/// The summary of a lab event: `Lab: <name> `.
pub open spec fn lab_summary(name: Seq<char>) -> Seq<char> {
    "Lab: "@ + name + " "@
}

/// The summary of a tutorial event: `Tut:<name> `.
pub open spec fn tutorial_summary(name: Seq<char>) -> Seq<char> {
    "Tut:"@ + name + " "@
}

/// The summary of an exam event: `Exam: <name>`.
pub open spec fn exam_summary(name: Seq<char>) -> Seq<char> {
    "Exam: "@ + name
}

/// Every day from `a` up to `b` inclusive, a day apart, at the time of day of `a`.
pub open spec fn days_between(a: Instant, b: Instant) -> Seq<Instant>
    decreases b.secs - a.secs + 86400,
{
    if a.spec_le(b) {
        match a.spec_next_day() {
            Some(n) => seq![a] + days_between(n, b),
            None => seq![a],
        }
    } else {
        Seq::empty()
    }
}

/// The dates on which classes do not take place: the holidays, then every day of the
/// mid-semester window.
pub open spec fn exclusion_pool(t: TimeTableFact) -> Seq<Instant> {
    t.holidays.map_values(|h: crate::data::HolidayFact| h.date) + match t.midsem_dates {
        Some((a, b)) => days_between(a, b),
        None => Seq::empty(),
    }
}

/// The events of a section slot, if the slot is filled.
pub open spec fn slot_events(
    slot: Option<SectionFact>,
    summary: Seq<char>,
    description: Seq<char>,
    start: Instant,
    end: Instant,
    pool: Seq<Instant>,
) -> Seq<EventFact> {
    match slot {
        Some(s) => section_events(summary, description, s.timings, start, end, pool),
        None => Seq::empty(),
    }
}

/// The recurring events of a course: lecture, then lab, then tutorial.
pub open spec fn course_events(c: CourseFact, start: Instant, end: Instant, pool: Seq<Instant>) -> Seq<EventFact> {
    slot_events(c.lecture, lecture_summary(c.name), c.code, start, end, pool) + slot_events(
        c.lab,
        lab_summary(c.name),
        c.code,
        start,
        end,
        pool,
    ) + slot_events(c.tutorial, tutorial_summary(c.name), c.code, start, end, pool)
}

/// The recurring events of the courses, course by course.
pub open spec fn class_events(cs: Seq<CourseFact>, start: Instant, end: Instant, pool: Seq<Instant>) -> Seq<EventFact>
    decreases cs.len(),
{
    if cs.len() == 0 {
        Seq::empty()
    } else {
        class_events(cs.drop_last(), start, end, pool) + course_events(cs.last(), start, end, pool)
    }
}

/// The instant moved to year `year`, or left as it is where that date does not exist.
pub open spec fn in_year(i: Instant, year: int) -> Instant {
    match year_replaced(i, year) {
        Some(j) => j,
        None => i,
    }
}

/// The properties of an exam entry: its window moved to year `year`.
pub open spec fn exam_properties(
    start: Instant,
    end: Instant,
    summary: Seq<char>,
    year: int,
) -> Seq<(Seq<char>, Seq<char>)> {
    seq![
        ("SUMMARY"@, summary),
        ("DTSTART"@, utc_stamp(in_year(start, year))),
        ("DTEND"@, utc_stamp(in_year(end, year))),
        ("DESCRIPTION"@, "something "@),
    ]
}

/// The exam entries of an exam window, if there is one.
pub open spec fn window_entries(
    w: Option<(Instant, Instant)>,
    name: Seq<char>,
    year: int,
) -> Seq<Seq<(Seq<char>, Seq<char>)>> {
    match w {
        Some((a, b)) => seq![exam_properties(a, b, exam_summary(name), year)],
        None => Seq::empty(),
    }
}

/// The exam entries of the courses, course by course: mid-semester, then comprehensive.
pub open spec fn exam_entries(cs: Seq<CourseFact>, year: int) -> Seq<Seq<(Seq<char>, Seq<char>)>>
    decreases cs.len(),
{
    if cs.len() == 0 {
        Seq::empty()
    } else {
        exam_entries(cs.drop_last(), year) + window_entries(cs.last().midsem, cs.last().name, year)
            + window_entries(cs.last().compre, cs.last().name, year)
    }
}

/// The entries of the calendar of a timetable, with exams moved to year `year`: the exam
/// entries, then the recurring class events.
pub open spec fn calendar_entries_of(t: TimeTableFact, year: int) -> Seq<Seq<(Seq<char>, Seq<char>)>> {
    exam_entries(t.courses, year) + class_events(
        t.courses,
        t.classwork_start,
        t.classwork_end,
        exclusion_pool(t),
    ).map_values(|e: EventFact| event_properties(e))
}

pub open spec fn entry_texts(es: Seq<Vec<(String, String)>>) -> Seq<Seq<(Seq<char>, Seq<char>)>> {
    es.map_values(|e: Vec<(String, String)>| pair_texts(e@))
}

proof fn lemma_days_between_wf(a: Instant, b: Instant)
    requires
        a.wf(),
    ensures
        forall|k: int| 0 <= k < days_between(a, b).len() ==> (#[trigger] days_between(a, b)[k]).wf(),
    decreases b.secs - a.secs + 86400,
{
    if a.spec_le(b) {
        match a.spec_next_day() {
            Some(n) => {
                lemma_days_between_wf(n, b);
                assert forall|k: int| 0 <= k < days_between(a, b).len() implies (#[trigger] days_between(a, b)[k]).wf() by {
                    if k > 0 {
                        assert(days_between(a, b)[k] == days_between(n, b)[k - 1]);
                    }
                }
            },
            None => {},
        }
    }
}

/// The properties of an exam entry whose window is moved to year `year`: the exam data carry a
/// stale year. A date that does not exist in that year is kept as it is.
pub fn generate_exam_event(exam_start: &Instant, exam_end: &Instant, summary: &String, year: i32) -> (r: Vec<(String, String)>)
    requires
        exam_start.wf(),
        exam_end.wf(),
    ensures
        pair_texts(r@) == exam_properties(*exam_start, *exam_end, summary@, year as int),
{
    let start = match exam_start.with_year(year) {
        Some(s) => s,
        None => *exam_start,
    };
    let end = match exam_end.with_year(year) {
        Some(e) => e,
        None => *exam_end,
    };
    let mut r: Vec<(String, String)> = Vec::new();
    r.push(pair("SUMMARY", summary.clone()));
    r.push(pair("DTSTART", start.to_utc_stamp()));
    r.push(pair("DTEND", end.to_utc_stamp()));
    r.push(pair("DESCRIPTION", String::from_str("something ")));
    proof {
        assert(pair_texts(r@) =~= exam_properties(*exam_start, *exam_end, summary@, year as int));
    }
    r
}

/// The dates on which classes do not take place: the holidays, then every day of the
/// mid-semester window.
fn exclusion_dates_of(time_table: &TimeTable) -> (r: Vec<Instant>)
    requires
        time_table@.wf(),
    ensures
        r@ == exclusion_pool(time_table@),
        forall|k: int| 0 <= k < r@.len() ==> (#[trigger] r@[k]).wf(),
{
    let ghost t = time_table@;
    let mut r: Vec<Instant> = Vec::new();
    let mut i: usize = 0;
    while i < time_table.holidays.len()
        invariant
            t == time_table@,
            t.wf(),
            i <= time_table.holidays@.len(),
            r@ == t.holidays.subrange(0, i as int).map_values(|h: crate::data::HolidayFact| h.date),
            forall|k: int| 0 <= k < r@.len() ==> (#[trigger] r@[k]).wf(),
        decreases time_table.holidays@.len() - i,
    {
        let ghost before = r@;
        r.push(time_table.holidays[i].date);
        proof {
            assert(t.holidays[i as int].date == time_table.holidays@[i as int].date);
            assert(t.holidays.subrange(0, i as int + 1).map_values(|h: crate::data::HolidayFact| h.date) =~= before.push(
                time_table.holidays@[i as int].date));
        }
        i = i + 1;
    }
    proof {
        assert(t.holidays.subrange(0, t.holidays.len() as int) == t.holidays);
    }
    match time_table.midsem_dates {
        Some((a, b)) => {
            let ghost head = r@;
            let mut day = a;
            proof {
                lemma_days_between_wf(a, b);
            }
            while day.le(&b)
                invariant
                    day.wf(),
                    t == time_table@,
                    t.midsem_dates == Some((a, b)),
                    head == t.holidays.map_values(|h: crate::data::HolidayFact| h.date),
                    head + days_between(a, b) == r@ + days_between(day, b),
                    forall|k: int| 0 <= k < r@.len() ==> (#[trigger] r@[k]).wf(),
                decreases b.secs - day.secs + 86400,
            {
                let ghost before = r@;
                r.push(day);
                proof {
                    assert(days_between(day, b) == seq![day] + match day.spec_next_day() {
                        Some(n) => days_between(n, b),
                        None => Seq::empty(),
                    });
                }
                match day.next_day() {
                    Some(n) => {
                        proof {
                            assert(before + days_between(day, b) =~= r@ + days_between(n, b));
                        }
                        day = n;
                    },
                    None => {
                        proof {
                            assert(days_between(day, b) =~= seq![day]);
                            assert(before + days_between(day, b) =~= r@);
                        }
                        return r;
                    },
                }
            }
            proof {
                assert(r@ + days_between(day, b) =~= r@);
            }
        },
        None => {
            proof {
                assert(r@ + Seq::<Instant>::empty() =~= r@);
            }
        },
    }
    r
}

/// `prefix`, then `name`, then `suffix`.
fn framed_name(prefix: &str, name: &String, suffix: &str) -> (r: String)
    ensures
        r@ == prefix@ + name@ + suffix@,
{
    let mut r = String::from_str(prefix);
    r.append(name.as_str());
    r.append(suffix);
    r
}

/// The exam entries of the courses, course by course.
fn exam_entries_of(time_table: &TimeTable, year: i32) -> (r: Vec<Vec<(String, String)>>)
    requires
        time_table@.wf(),
    ensures
        entry_texts(r@) == exam_entries(time_table@.courses, year as int),
{
    let ghost t = time_table@;
    let courses = &time_table.courses;
    proof {
        assert(t.courses == course_facts(courses@));
        assert(t.courses.len() == courses@.len());
    }
    let mut r: Vec<Vec<(String, String)>> = Vec::new();
    let mut i: usize = 0;
    while i < courses.len()
        invariant
            t == time_table@,
            t.wf(),
            t.courses == course_facts(courses@),
            t.courses.len() == courses@.len(),
            i <= courses@.len(),
            entry_texts(r@) == exam_entries(t.courses.subrange(0, i as int), year as int),
        decreases courses@.len() - i,
    {
        let c = &courses[i];
        let ghost cf = t.courses[i as int];
        proof {
            assert(cf == c@);
            let q = t.courses.subrange(0, i as int + 1);
            assert(q.drop_last() == t.courses.subrange(0, i as int));
            assert(q.last() == cf);
            assert(window_wf(cf.midsem) && window_wf(cf.compre));
        }
        let mut summary = String::from_str("Exam: ");
        summary.append(c.name.as_str());
        proof {
            assert(summary@ =~= exam_summary(c.name@));
        }
        let ghost before = entry_texts(r@);
        match c.midsem_date_time {
            Some((a, b)) => {
                r.push(generate_exam_event(&a, &b, &summary, year));
            },
            None => {},
        }
        let ghost middle = entry_texts(r@);
        proof {
            assert(middle =~= before + window_entries(cf.midsem, cf.name, year as int));
        }
        match c.compre_date_time {
            Some((a, b)) => {
                r.push(generate_exam_event(&a, &b, &summary, year));
            },
            None => {},
        }
        proof {
            assert(entry_texts(r@) =~= middle + window_entries(cf.compre, cf.name, year as int));
            assert(entry_texts(r@) =~= before + window_entries(cf.midsem, cf.name, year as int)
                + window_entries(cf.compre, cf.name, year as int));
        }
        i = i + 1;
    }
    proof {
        assert(t.courses.subrange(0, t.courses.len() as int) == t.courses);
    }
    r
}

/// The events of a section slot, if the slot is filled.
fn slot_events_of(
    slot: &Option<crate::timing::Section>,
    summary: String,
    description: String,
    start: &Instant,
    end: &Instant,
    pool: &Vec<Instant>,
) -> (r: Vec<EventGen>)
    requires
        start.wf(),
        end.wf(),
        forall|k: int| 0 <= k < pool@.len() ==> (#[trigger] pool@[k]).wf(),
    ensures
        r@.map_values(|e: EventGen| e@) == slot_events(
            crate::data::section_view(*slot),
            summary@,
            description@,
            *start,
            *end,
            pool@,
        ),
        forall|k: int| 0 <= k < r@.len() ==> event_wf(#[trigger] r@[k]@),
{
    match slot {
        Some(s) => EventGen::new(summary, description, s, start, end, pool.as_slice()),
        None => {
            proof {
                assert(Seq::<EventGen>::empty().map_values(|e: EventGen| e@) =~= Seq::<EventFact>::empty());
            }
            Vec::new()
        },
    }
}

/// The recurring class events of the courses, course by course.
fn class_events_of(time_table: &TimeTable, pool: &Vec<Instant>) -> (r: Vec<EventGen>)
    requires
        time_table@.wf(),
        forall|k: int| 0 <= k < pool@.len() ==> (#[trigger] pool@[k]).wf(),
    ensures
        r@.map_values(|e: EventGen| e@) == class_events(
            time_table@.courses,
            time_table@.classwork_start,
            time_table@.classwork_end,
            pool@,
        ),
        forall|k: int| 0 <= k < r@.len() ==> event_wf(#[trigger] r@[k]@),
{
    let ghost t = time_table@;
    let courses = &time_table.courses;
    proof {
        assert(t.courses == course_facts(courses@));
        assert(t.courses.len() == courses@.len());
    }
    let start = &time_table.classwork_start;
    let end = &time_table.classwork_end;
    let mut r: Vec<EventGen> = Vec::new();
    let mut i: usize = 0;
    while i < courses.len()
        invariant
            t == time_table@,
            t.wf(),
            t.courses == course_facts(courses@),
            t.courses.len() == courses@.len(),
            *start == t.classwork_start,
            *end == t.classwork_end,
            forall|k: int| 0 <= k < pool@.len() ==> (#[trigger] pool@[k]).wf(),
            i <= courses@.len(),
            r@.map_values(|e: EventGen| e@) == class_events(
                t.courses.subrange(0, i as int),
                *start,
                *end,
                pool@,
            ),
            forall|k: int| 0 <= k < r@.len() ==> event_wf(#[trigger] r@[k]@),
        decreases courses@.len() - i,
    {
        let c = &courses[i];
        let ghost cf = t.courses[i as int];
        proof {
            assert(cf == c@);
            let q = t.courses.subrange(0, i as int + 1);
            assert(q.drop_last() == t.courses.subrange(0, i as int));
            assert(q.last() == cf);
        }
        let ghost before = r@.map_values(|e: EventGen| e@);
        let mut lec = slot_events_of(&c.lecture, framed_name("Lec:", &c.name, " "), c.code.clone(), start, end, pool);
        let mut lab = slot_events_of(&c.lab, framed_name("Lab: ", &c.name, " "), c.code.clone(), start, end, pool);
        let mut tut = slot_events_of(&c.tutorial, framed_name("Tut:", &c.name, " "), c.code.clone(), start, end, pool);
        let ghost (lv, bv, tv) = (
            lec@.map_values(|e: EventGen| e@),
            lab@.map_values(|e: EventGen| e@),
            tut@.map_values(|e: EventGen| e@),
        );
        let ghost (l0, b0, t0) = (lec@, lab@, tut@);
        let ghost r0 = r@;
        r.append(&mut lec);
        r.append(&mut lab);
        r.append(&mut tut);
        proof {
            assert(r@ == r0 + l0 + b0 + t0);
            assert(lecture_summary(c.name@) =~= "Lec:"@ + c.name@ + " "@);
            assert(r@.map_values(|e: EventGen| e@) =~= before + lv + bv + tv);
            assert(lv + bv + tv == course_events(cf, *start, *end, pool@));
            assert forall|k: int| 0 <= k < r@.len() implies event_wf(#[trigger] r@[k]@) by {
                if k < r0.len() {
                    assert(r@[k] == r0[k]);
                } else if k < r0.len() + l0.len() {
                    assert(r@[k] == l0[k - r0.len()]);
                } else if k < r0.len() + l0.len() + b0.len() {
                    assert(r@[k] == b0[k - r0.len() - l0.len()]);
                } else {
                    assert(r@[k] == t0[k - r0.len() - l0.len() - b0.len()]);
                }
            }
        }
        i = i + 1;
    }
    proof {
        assert(t.courses.subrange(0, t.courses.len() as int) == t.courses);
    }
    r
}

/// The entries of the calendar of a timetable, each a list of properties, with exams moved to
/// year `year`: first the exam entries of every course, then the weekly class events of every
/// course (lecture, lab, tutorial), which skip the holidays and the days of the mid-semester
/// window.
pub fn calendar_entries(time_table: &TimeTable, year: i32) -> (r: Vec<Vec<(String, String)>>)
    requires
        time_table@.wf(),
    ensures
        entry_texts(r@) == calendar_entries_of(time_table@, year as int),
{
    let pool = exclusion_dates_of(time_table);
    let mut r = exam_entries_of(time_table, year);
    let events = class_events_of(time_table, &pool);
    let ghost head = entry_texts(r@);
    let ghost evs = events@.map_values(|e: EventGen| e@);
    let mut i: usize = 0;
    while i < events.len()
        invariant
            i <= events@.len(),
            evs == events@.map_values(|e: EventGen| e@),
            forall|k: int| 0 <= k < events@.len() ==> event_wf(#[trigger] events@[k]@),
            entry_texts(r@) == head + evs.subrange(0, i as int).map_values(|e: EventFact| event_properties(e)),
        decreases events@.len() - i,
    {
        let ghost before = entry_texts(r@);
        let props = events[i].properties();
        r.push(props);
        proof {
            assert(evs[i as int] == events@[i as int]@);
            assert(evs.subrange(0, i as int + 1).map_values(|e: EventFact| event_properties(e))
                =~= evs.subrange(0, i as int).map_values(|e: EventFact| event_properties(e)).push(
                event_properties(evs[i as int])));
            assert(entry_texts(r@) =~= before.push(pair_texts(props@)));
        }
        i = i + 1;
    }
    proof {
        assert(evs.subrange(0, evs.len() as int) == evs);
    }
    r
}

#[verifier::external_type_specification]
#[verifier::external_body]
pub struct ExCalendar(icalendar::Calendar);

#[verifier::external_type_specification]
#[verifier::external_body]
pub struct ExEvent(icalendar::Event);

#[verifier::external_type_specification]
#[verifier::external_body]
pub struct ExCalendarComponent(icalendar::CalendarComponent);

/// The properties of an event, by key.
pub uninterp spec fn event_fields(e: icalendar::Event) -> Map<Seq<char>, Seq<char>>;

/// The properties of each component of a calendar, in order.
pub uninterp spec fn calendar_events(c: icalendar::Calendar) -> Seq<Map<Seq<char>, Seq<char>>>;

/// Whether an event holds only plain properties: none with parameters, no repeated
/// properties and no nested components.
pub uninterp spec fn event_plain(e: icalendar::Event) -> bool;

/// The calendar-level properties of a calendar, in order.
pub uninterp spec fn calendar_properties(c: icalendar::Calendar) -> Seq<(Seq<char>, Seq<char>)>;

/// Whether a calendar's properties carry no parameters and all its components are plain events.
pub uninterp spec fn calendar_plain(c: icalendar::Calendar) -> bool;

/// The iCalendar text of a calendar with plain properties `props` and plain events `events`,
/// where the `k`-th event gets the time stamp `stamps[k]` and the identifier `uids[k]`.
pub uninterp spec fn ics_document(
    props: Seq<(Seq<char>, Seq<char>)>,
    events: Seq<Map<Seq<char>, Seq<char>>>,
    stamps: Seq<Seq<char>>,
    uids: Seq<Seq<char>>,
) -> Seq<char>;

/// The properties that every new calendar starts with.
pub open spec fn default_calendar_properties() -> Seq<(Seq<char>, Seq<char>)> {
    seq![("VERSION"@, "2.0"@), ("PRODID"@, "ICALENDAR-RS"@), ("CALSCALE"@, "GREGORIAN"@)]
}

/// Relies on icalendar's `Event::new`: an event without properties.
#[verifier::external_body]
fn new_event() -> (r: icalendar::Event)
    ensures
        event_fields(r).dom() == Set::<Seq<char>>::empty(),
        event_plain(r),
{
    icalendar::Event::new()
}

/// Relies on icalendar's `Component::add_property` for `Event`: the property is stored under its
/// key, replacing one with the same key.
#[verifier::external_body]
fn set_event_property(e: &mut icalendar::Event, key: &str, value: &str)
    ensures
        event_fields(*final(e)) == event_fields(*old(e)).insert(key@, value@),
        event_plain(*old(e)) ==> event_plain(*final(e)),
{
    e.add_property(key, value);
}

/// Relies on icalendar's `Calendar::new` (its `Default`): no components yet, and the properties
/// VERSION, PRODID and CALSCALE without parameters.
#[verifier::external_body]
fn new_calendar() -> (r: icalendar::Calendar)
    ensures
        calendar_events(r).len() == 0,
        calendar_properties(r) == default_calendar_properties(),
        calendar_plain(r),
{
    icalendar::Calendar::new()
}

/// Relies on icalendar's `Calendar::append_property` and `Property::new`: a calendar-level
/// property, which leaves the components as they are.
#[verifier::external_body]
fn set_calendar_property(c: &mut icalendar::Calendar, key: &str, value: &str)
    ensures
        calendar_events(*final(c)) == calendar_events(*old(c)),
        calendar_properties(*final(c)) == calendar_properties(*old(c)).push((key@, value@)),
        calendar_plain(*old(c)) ==> calendar_plain(*final(c)),
{
    c.append_property(icalendar::Property::new(key, value));
}

/// Relies on icalendar's `Calendar::push`: the event becomes the last component.
#[verifier::external_body]
fn push_event(c: &mut icalendar::Calendar, e: icalendar::Event)
    ensures
        calendar_events(*final(c)) == calendar_events(*old(c)).push(event_fields(e)),
        calendar_properties(*final(c)) == calendar_properties(*old(c)),
        calendar_plain(*old(c)) && event_plain(e) ==> calendar_plain(*final(c)),
{
    c.push(e);
}

/// Relies on icalendar's `Display` for `Calendar` (`Calendar::fmt_write` and
/// `Component::fmt_write`): the text depends on the properties and the events alone, except
/// that each event gets a time stamp of the present and a fresh random identifier.
#[verifier::external_body]
fn calendar_text(c: &icalendar::Calendar) -> (r: String)
    requires
        calendar_plain(*c),
    ensures
        exists|stamps: Seq<Seq<char>>, uids: Seq<Seq<char>>|
            r@ == #[trigger] ics_document(calendar_properties(*c), calendar_events(*c), stamps, uids),
{
    c.to_string()
}

/// The properties by key, a later one replacing an earlier one with the same key.
pub open spec fn fields_of(ps: Seq<(Seq<char>, Seq<char>)>) -> Map<Seq<char>, Seq<char>>
    decreases ps.len(),
{
    if ps.len() == 0 {
        Map::empty()
    } else {
        fields_of(ps.drop_last()).insert(ps.last().0, ps.last().1)
    }
}

/// The event that a list of properties describes.
fn event_of(props: &Vec<(String, String)>) -> (r: icalendar::Event)
    ensures
        event_fields(r) == fields_of(pair_texts(props@)),
        event_plain(r),
{
    let mut e = new_event();
    proof {
        assert(event_fields(e) =~= fields_of(pair_texts(props@.subrange(0, 0))));
    }
    let mut i: usize = 0;
    while i < props.len()
        invariant
            i <= props@.len(),
            event_fields(e) == fields_of(pair_texts(props@.subrange(0, i as int))),
            event_plain(e),
        decreases props@.len() - i,
    {
        set_event_property(&mut e, props[i].0.as_str(), props[i].1.as_str());
        proof {
            let q = pair_texts(props@.subrange(0, i as int + 1));
            assert(q.drop_last() =~= pair_texts(props@.subrange(0, i as int)));
            assert(q.last() == (props@[i as int].0@, props@[i as int].1@));
        }
        i = i + 1;
    }
    proof {
        assert(props@.subrange(0, props@.len() as int) == props@);
    }
    e
}

impl EventGen {
    /// The calendar event of this recurring event, with the properties of `properties`.
    pub fn to_event(&self) -> (r: icalendar::Event)
        requires
            event_wf(self@),
        ensures
            event_fields(r) == fields_of(event_properties(self@)),
            event_plain(r),
    {
        event_of(&self.properties())
    }
}

/// The calendar-level properties of a timetable's calendar: the defaults and its name.
pub open spec fn calendar_header() -> Seq<(Seq<char>, Seq<char>)> {
    default_calendar_properties().push(("NAME"@, "bphc calendar"@))
}

/// The events of a timetable's calendar, with exams moved to year `year`.
pub open spec fn calendar_fields(t: TimeTableFact, year: int) -> Seq<Map<Seq<char>, Seq<char>>> {
    calendar_entries_of(t, year).map_values(|ps: Seq<(Seq<char>, Seq<char>)>| fields_of(ps))
}

/// The calendar named `bphc calendar` that holds one event for each entry, in order.
pub fn build_calendar(entries: &Vec<Vec<(String, String)>>) -> (r: icalendar::Calendar)
    ensures
        calendar_events(r) == entry_texts(entries@).map_values(
            |ps: Seq<(Seq<char>, Seq<char>)>| fields_of(ps),
        ),
        calendar_properties(r) == calendar_header(),
        calendar_plain(r),
{
    let mut c = new_calendar();
    set_calendar_property(&mut c, "NAME", "bphc calendar");
    proof {
        assert(calendar_events(c) =~= entry_texts(entries@.subrange(0, 0)).map_values(
            |ps: Seq<(Seq<char>, Seq<char>)>| fields_of(ps),
        ));
    }
    let mut i: usize = 0;
    while i < entries.len()
        invariant
            i <= entries@.len(),
            calendar_events(c) == entry_texts(entries@.subrange(0, i as int)).map_values(
                |ps: Seq<(Seq<char>, Seq<char>)>| fields_of(ps),
            ),
            calendar_properties(c) == calendar_header(),
            calendar_plain(c),
        decreases entries@.len() - i,
    {
        let ghost before = calendar_events(c);
        let e = event_of(&entries[i]);
        push_event(&mut c, e);
        proof {
            assert(entry_texts(entries@.subrange(0, i as int + 1)).map_values(
                |ps: Seq<(Seq<char>, Seq<char>)>| fields_of(ps),
            ) =~= before.push(fields_of(pair_texts(entries@[i as int]@))));
        }
        i = i + 1;
    }
    proof {
        assert(entries@.subrange(0, entries@.len() as int) == entries@);
    }
    c
}

/// The calendar of a timetable with exams moved to year `year`, as iCalendar text: the header
/// with the name `bphc calendar`, then one event for each entry of `calendar_entries`, each
/// with a time stamp and an identifier of its own.
pub fn make_calendar_in_year(time_table: &TimeTable, year: i32) -> (r: String)
    requires
        time_table@.wf(),
    ensures
        exists|stamps: Seq<Seq<char>>, uids: Seq<Seq<char>>|
            r@ == #[trigger] ics_document(calendar_header(), calendar_fields(time_table@, year as int), stamps, uids),
{
    let entries = calendar_entries(time_table, year);
    let c = build_calendar(&entries);
    let r = calendar_text(&c);
    proof {
        assert(calendar_events(c) == calendar_fields(time_table@, year as int));
    }
    r
}

/// The calendar of a timetable as iCalendar text, with exams moved to the present year: as
/// `make_calendar_in_year` for that year.
pub fn make_calendar(time_table: &TimeTable) -> (r: String)
    requires
        time_table@.wf(),
    ensures
        exists|year: i32, stamps: Seq<Seq<char>>, uids: Seq<Seq<char>>|
            r@ == #[trigger] ics_document(calendar_header(), calendar_fields(time_table@, year as int), stamps, uids),
{
    let year = current_year();
    let r = make_calendar_in_year(time_table, year);
    proof {
        let (stamps, uids) = choose|stamps: Seq<Seq<char>>, uids: Seq<Seq<char>>|
            r@ == #[trigger] ics_document(calendar_header(), calendar_fields(time_table@, year as int), stamps, uids);
        assert(r@ == ics_document(calendar_header(), calendar_fields(time_table@, year as int), stamps, uids));
    }
    r
}

} // verus!
