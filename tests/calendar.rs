use chrono_to_ics::calendar::{calendar_entries, make_calendar, make_calendar_in_year};
use chrono_to_ics::data::TimeTable;
use chrono_to_ics::ics::{end_time, start_time, weekdays_to_string, EventGen};
use chrono_to_ics::instant::Instant;
use chrono_to_ics::responses::{self, CourseResponse, HolidayResponse, HolidayString, SectionResponse, TimeTableResponse};
use chrono_to_ics::timing::{Day, Section, Timing};

fn timing(day: Day, start: u8, end: u8, room: &str) -> Timing {
    Timing { day, classroom: room.to_string(), start, end }
}

fn at(text: &str) -> Instant {
    Instant::parse(text).unwrap()
}

fn prop<'a>(props: &'a [(String, String)], key: &str) -> &'a str {
    &props.iter().find(|p| p.0 == key).unwrap().1
}

#[test]
fn same_range_on_two_days_is_one_event() {
    let s = Section { number: 1, instructors: vec![], timings: vec![timing(Day::Monday, 3, 3, "A1"), timing(Day::Wednesday, 3, 3, "B2")] };
    let evs = EventGen::new("Lec:X ".to_string(), "CS".to_string(), &s, &at("2023-01-02T00:00:00Z"), &at("2023-04-28T00:00:00Z"), &[]);
    assert_eq!(evs.len(), 1);
    assert_eq!(evs[0].weekdays, vec![Day::Monday, Day::Wednesday]);
    assert_eq!(evs[0].location, "A1");
    let props = evs[0].properties();
    assert_eq!(prop(&props, "RRULE"), "FREQ=WEEKLY;UNTIL=20230428T000000Z;BYDAY=MO,WE");
}

#[test]
fn different_ranges_are_separate_events() {
    let s = Section { number: 1, instructors: vec![], timings: vec![timing(Day::Monday, 3, 3, "A1"), timing(Day::Tuesday, 1, 2, "A2"), timing(Day::Friday, 3, 3, "A3")] };
    let evs = EventGen::new("s".to_string(), "d".to_string(), &s, &at("2023-01-02T00:00:00Z"), &at("2023-04-28T00:00:00Z"), &[]);
    assert_eq!(evs.len(), 2);
    assert_eq!(evs[0].weekdays, vec![Day::Monday, Day::Friday]);
    assert_eq!(evs[1].weekdays, vec![Day::Tuesday]);
    assert_eq!(evs[1].start_time.to_utc_stamp(), "20230103T023000Z");
    assert_eq!(evs[1].end_time.to_utc_stamp(), "20230103T042000Z");
}

#[test]
fn section_without_timings_has_no_events() {
    let s = Section { number: 1, instructors: vec![], timings: vec![] };
    assert!(EventGen::new("s".to_string(), "d".to_string(), &s, &at("2023-01-02T00:00:00Z"), &at("2023-04-28T00:00:00Z"), &[]).is_empty());
}

#[test]
fn late_period_has_no_event() {
    let s = Section { number: 1, instructors: vec![], timings: vec![timing(Day::Monday, 22, 22, "A1")] };
    assert!(EventGen::new("s".to_string(), "d".to_string(), &s, &at("2023-01-02T00:00:00Z"), &at("2023-04-28T00:00:00Z"), &[]).is_empty());
}

#[test]
fn monday_lecture_from_a_monday_start() {
    let s = Section { number: 1, instructors: vec![], timings: vec![timing(Day::Monday, 1, 1, "F105")] };
    let evs = EventGen::new("Lec:P ".to_string(), "CS".to_string(), &s, &at("2023-01-02T00:00:00Z"), &at("2023-04-28T00:00:00Z"), &[]);
    assert_eq!(evs.len(), 1);
    let props = evs[0].properties();
    assert_eq!(prop(&props, "DTSTART"), "20230102T023000Z");
    assert_eq!(prop(&props, "DTEND"), "20230102T032000Z");
    assert_eq!(prop(&props, "RRULE"), "FREQ=WEEKLY;UNTIL=20230428T000000Z;BYDAY=MO");
    assert_eq!(prop(&props, "EXDATE"), "");
    assert_eq!(prop(&props, "LOCATION"), "F105");
    assert_eq!(prop(&props, "TRANSP"), "TRANSPARENT");
    assert_eq!(prop(&props, "SUMMARY"), "Lec:P ");
    assert_eq!(prop(&props, "DESCRIPTION"), "CS");
}

#[test]
fn anchor_moves_to_the_first_class_day() {
    let days = vec![Day::Thursday, Day::Friday];
    let s = start_time(&at("2023-01-02T00:00:00Z"), &days, 2).unwrap();
    assert_eq!(s.to_utc_stamp(), "20230105T033000Z");
    let e = end_time(&at("2023-01-02T00:00:00Z"), &days, 2).unwrap();
    assert_eq!(e.to_utc_stamp(), "20230105T042000Z");
    assert!(start_time(&at("2023-01-02T00:00:00Z"), &days, 23).is_none());
}

#[test]
fn holidays_are_excluded_a_day_later_at_the_start_hour() {
    let s = Section { number: 1, instructors: vec![], timings: vec![timing(Day::Monday, 1, 1, "F105")] };
    let hols = [at("2023-01-10T00:00:00Z"), at("2023-01-26T00:15:00Z")];
    let evs = EventGen::new("s".to_string(), "d".to_string(), &s, &at("2023-01-02T00:00:00Z"), &at("2023-04-28T00:00:00Z"), &hols);
    let props = evs[0].properties();
    assert_eq!(prop(&props, "EXDATE"), "20230111T020000Z,20230127T021500Z");
}

#[test]
fn weekday_codes_are_joined() {
    assert_eq!(weekdays_to_string(&vec![Day::Monday, Day::Wednesday, Day::Thursday]), "MO,WE,TH");
    assert_eq!(weekdays_to_string(&vec![Day::Tuesday, Day::Friday]), "TU,FR");
    assert_eq!(weekdays_to_string(&vec![]), "");
}

#[test]
fn instant_arithmetic() {
    let i = at("2023-01-02T05:45:10Z");
    assert_eq!(i.weekday(), 0);
    assert_eq!(at("1970-01-01T00:00:00Z").weekday(), 3);
    assert_eq!(at("1969-12-31T23:00:00Z").weekday(), 2);
    assert_eq!(i.with_hour(9).unwrap().to_utc_stamp(), "20230102T094510Z");
    assert!(i.with_hour(24).is_none());
    assert_eq!(i.with_minute(0).unwrap().to_utc_stamp(), "20230102T050010Z");
    assert_eq!(i.next_day().unwrap().to_utc_stamp(), "20230103T054510Z");
    assert!(i.le(&i.next_day().unwrap()));
    assert_eq!(i.with_year(2030).unwrap().to_utc_stamp(), "20300102T054510Z");
}

fn timetable() -> TimeTable {
    let ttr = TimeTableResponse {
        id: "t".to_string(),
        name: "n".to_string(),
        degrees: vec![],
        year: 1,
        acad_year: 2023,
        sections: vec![
            SectionResponse { course_id: "c1".to_string(), section_type: "L".to_string(), number: 1, instructors: vec![], room_time: vec!["1 A123:F105:M:1".to_string()] },
            SectionResponse { course_id: "c1".to_string(), section_type: "T".to_string(), number: 2, instructors: vec![], room_time: vec!["1 A123:F106:F:2".to_string()] },
            SectionResponse { course_id: "c1".to_string(), section_type: "P".to_string(), number: 3, instructors: vec![], room_time: vec!["1 A123:L001:W:5".to_string()] },
        ],
        timings: vec![],
        exam_times: vec!["CS F111|COMPRE|2023-05-10T08:30:00Z|2023-05-10T10:30:00Z".to_string()],
    };
    let cr = CourseResponse { courses: vec![responses::Course { id: "c1".to_string(), code: "CS F111".to_string(), name: "Programming".to_string() }] };
    let hr = HolidayResponse {
        classwork_start: "2023-01-02T00:00:00Z".to_string(),
        classwork_end: "2023-04-28T00:00:00Z".to_string(),
        midsem_start: "2023-03-09T00:00:00Z".to_string(),
        midsem_end: "2023-03-10T00:00:00Z".to_string(),
        holidays: vec![HolidayString { name: "h".to_string(), date: "2023-01-26T00:00:00Z".to_string() }],
        time_table_changes: vec![],
    };
    TimeTable::new(&ttr, &cr, &hr).unwrap()
}

#[test]
fn calendar_entries_list_exams_then_classes() {
    let entries = calendar_entries(&timetable(), 2031);
    assert_eq!(entries.len(), 4);
    assert_eq!(prop(&entries[0], "SUMMARY"), "Exam: Programming");
    assert_eq!(prop(&entries[0], "DTSTART"), "20310510T083000Z");
    assert_eq!(prop(&entries[0], "DESCRIPTION"), "something ");
    assert_eq!(prop(&entries[1], "SUMMARY"), "Lec:Programming ");
    assert_eq!(prop(&entries[2], "SUMMARY"), "Lab: Programming ");
    assert_eq!(prop(&entries[3], "SUMMARY"), "Tut:Programming ");
    assert_eq!(prop(&entries[1], "DESCRIPTION"), "CS F111");
    assert_eq!(prop(&entries[1], "EXDATE"), "20230127T020000Z,20230310T020000Z,20230311T020000Z");
    assert_eq!(prop(&entries[2], "DTSTART"), "20230104T063000Z");
}

#[test]
fn calendar_text_holds_the_events() {
    let text = make_calendar_in_year(&timetable(), 2031);
    assert!(text.starts_with("BEGIN:VCALENDAR"));
    assert!(text.contains("NAME:bphc calendar"));
    assert!(text.contains("RRULE:FREQ=WEEKLY;UNTIL=20230428T000000Z;BYDAY=MO"));
    assert!(text.contains("DTSTART:20310510T083000Z"));
    assert_eq!(text.matches("BEGIN:VEVENT").count(), 4);
    let now = make_calendar(&timetable());
    assert_eq!(now.matches("BEGIN:VEVENT").count(), 4);
}

#[test]
fn monday_lecture_of_an_assembled_timetable() {
    let ttr = TimeTableResponse {
        id: "t".to_string(),
        name: "n".to_string(),
        degrees: vec![],
        year: 1,
        acad_year: 2023,
        sections: vec![SectionResponse { course_id: "c1".to_string(), section_type: "L".to_string(), number: 1, instructors: vec![], room_time: vec!["1 A123:F105:M:1".to_string()] }],
        timings: vec![],
        exam_times: vec![],
    };
    let cr = CourseResponse { courses: vec![responses::Course { id: "c1".to_string(), code: "CS F111".to_string(), name: "Programming".to_string() }] };
    let hr = HolidayResponse {
        classwork_start: "2023-01-02T00:00:00Z".to_string(),
        classwork_end: "2023-04-28T00:00:00Z".to_string(),
        midsem_start: "".to_string(),
        midsem_end: "".to_string(),
        holidays: vec![],
        time_table_changes: vec![],
    };
    let t = TimeTable::new(&ttr, &cr, &hr).unwrap();
    let entries = calendar_entries(&t, 2031);
    assert_eq!(entries.len(), 1);
    assert_eq!(prop(&entries[0], "DTSTART"), "20230102T023000Z");
    assert_eq!(prop(&entries[0], "RRULE"), "FREQ=WEEKLY;UNTIL=20230428T000000Z;BYDAY=MO");
    assert_eq!(prop(&entries[0], "EXDATE"), "");
}

fn without_stamps_and_ids(text: &str) -> Vec<String> {
    text.lines().filter(|l| !l.starts_with("DTSTAMP:") && !l.starts_with("UID:")).map(|l| l.to_string()).collect()
}

#[test]
fn two_calendars_of_one_timetable_differ_only_in_stamps_and_ids() {
    let a = make_calendar_in_year(&timetable(), 2031);
    let b = make_calendar_in_year(&timetable(), 2031);
    assert_eq!(without_stamps_and_ids(&a), without_stamps_and_ids(&b));
    assert!(a.contains("VERSION:2.0"));
    assert!(a.contains("PRODID:ICALENDAR-RS"));
    assert!(a.contains("CALSCALE:GREGORIAN"));
    assert_eq!(a.matches("\nUID:").count(), 4);
    assert_eq!(a.matches("\nDTSTAMP:").count(), 4);
}
