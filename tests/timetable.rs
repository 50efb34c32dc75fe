use chrono_to_ics::data::TimeTable;
use chrono_to_ics::instant::Instant;
use chrono_to_ics::responses::{self, CourseResponse, HolidayResponse, HolidayString, SectionResponse, TimeTableChangeResponse, TimeTableResponse};
use chrono_to_ics::timing::Day;

fn entry(id: &str, code: &str, name: &str) -> responses::Course {
    responses::Course { id: id.to_string(), code: code.to_string(), name: name.to_string() }
}

fn section(course: &str, kind: &str, number: i32, tokens: &[&str]) -> SectionResponse {
    SectionResponse {
        course_id: course.to_string(),
        section_type: kind.to_string(),
        number,
        instructors: vec!["Someone".to_string()],
        room_time: tokens.iter().map(|t| t.to_string()).collect(),
    }
}

fn directory() -> CourseResponse {
    CourseResponse { courses: vec![entry("c1", "CS F111", "Programming"), entry("c2", "MATH F112", "Maths")] }
}

fn raw_timetable() -> TimeTableResponse {
    TimeTableResponse {
        id: "tt1".to_string(),
        name: "Mine".to_string(),
        degrees: vec![],
        year: 1,
        acad_year: 2023,
        sections: vec![
            section("c1", "L", 1, &["101 A123:B210:M:1", "101 A123:B210:W:1"]),
            section("zz", "L", 9, &["101 A123:B210:M:2"]),
            section("c2", "T", 3, &["101 A123:C101:F:4"]),
            section("c1", "P", 2, &["101 A123:L001:Th:7", "101 A123:L001:Th:8"]),
            section("c1", "X", 5, &["101 A123:B210:T:2"]),
            section("c1", "L", 4, &["101 A123:B211:T:3"]),
        ],
        timings: vec![],
        exam_times: vec![
            "CS F111|MIDSEM|2023-03-10T08:30:00Z|2023-03-10T10:00:00Z".to_string(),
            "CS F111|MIDSEM|2023-03-11T08:30:00Z|2023-03-11T10:00:00Z".to_string(),
            "MATH F112|COMPRE|2023-05-10T08:30:00Z|2023-05-10T10:30:00Z".to_string(),
            "broken".to_string(),
        ],
    }
}

fn calendar_feed(end: &str) -> HolidayResponse {
    HolidayResponse {
        classwork_start: "2023-01-02T00:00:00Z".to_string(),
        classwork_end: end.to_string(),
        midsem_start: "2023-03-10T00:00:00Z".to_string(),
        midsem_end: "2023-03-12T00:00:00Z".to_string(),
        holidays: vec![
            HolidayString { name: "Republic Day".to_string(), date: "2023-01-26T00:00:00Z".to_string() },
            HolidayString { name: "Unknown".to_string(), date: "someday".to_string() },
        ],
        time_table_changes: vec![
            TimeTableChangeResponse { date: "2023-02-04T00:00:00Z".to_string(), day: "M".to_string() },
            TimeTableChangeResponse { date: "2023-02-11T00:00:00Z".to_string(), day: "S".to_string() },
        ],
    }
}

#[test]
fn missing_classwork_end_gives_no_timetable() {
    assert!(TimeTable::new(&raw_timetable(), &directory(), &calendar_feed("")).is_none());
    assert!(TimeTable::new(&raw_timetable(), &directory(), &calendar_feed("not a date")).is_none());
}

#[test]
fn classwork_ending_before_it_starts_gives_no_timetable() {
    assert!(TimeTable::new(&raw_timetable(), &directory(), &calendar_feed("2022-12-01T00:00:00Z")).is_none());
}

#[test]
fn assembles_courses_sections_and_exams() {
    let t = TimeTable::new(&raw_timetable(), &directory(), &calendar_feed("2023-04-28T00:00:00Z")).unwrap();
    assert_eq!(t.id, "tt1");
    assert_eq!(t.name, "Mine");
    assert_eq!(t.acad_year, 2023);
    assert_eq!(t.classwork_start, Instant { secs: 1672617600, nanos: 0 });
    assert_eq!(t.classwork_end, Instant { secs: 1682640000, nanos: 0 });
    assert_eq!(t.courses.len(), 2);
    let c1 = &t.courses[0];
    assert_eq!(c1.id, "c1");
    assert_eq!(c1.code, "CS F111");
    assert_eq!(c1.name, "Programming");
    let lec = c1.lecture.as_ref().unwrap();
    assert_eq!(lec.number, 4);
    assert_eq!(lec.timings.len(), 1);
    assert_eq!(lec.timings[0].day, Day::Tuesday);
    assert_eq!(lec.timings[0].classroom, "B211");
    let lab = c1.lab.as_ref().unwrap();
    assert_eq!((lab.timings.len(), lab.timings[0].start, lab.timings[0].end), (1, 7, 8));
    assert!(c1.tutorial.is_none());
    let (a, _) = c1.midsem_date_time.unwrap();
    assert_eq!(a, Instant::parse("2023-03-11T08:30:00Z").unwrap());
    assert!(c1.compre_date_time.is_none());
    let c2 = &t.courses[1];
    assert_eq!(c2.code, "MATH F112");
    assert!(c2.tutorial.is_some());
    assert!(c2.midsem_date_time.is_none());
    assert_eq!(c2.compre_date_time.unwrap().1, Instant::parse("2023-05-10T10:30:00Z").unwrap());
    assert_eq!(t.holidays.len(), 1);
    assert_eq!(t.holidays[0].name, "Republic Day");
    assert_eq!(t.time_table_changes.len(), 1);
    assert_eq!(t.time_table_changes[0].day, Day::Monday);
    let (m0, m1) = t.midsem_dates.unwrap();
    assert_eq!(m1.secs - m0.secs, 2 * 86400);
}

#[test]
fn unreadable_midsem_window_is_left_empty() {
    let mut feed = calendar_feed("2023-04-28T00:00:00Z");
    feed.midsem_end = "".to_string();
    let t = TimeTable::new(&raw_timetable(), &directory(), &feed).unwrap();
    assert!(t.midsem_dates.is_none());
}
