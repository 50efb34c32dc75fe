use chrono_to_ics::data::Course;
use chrono_to_ics::responses::{self, CourseResponse, SectionResponse};
use chrono_to_ics::timing::{Day, Section, Timing, TimingError};

fn timing(day: Day, start: u8, end: u8) -> Timing {
    Timing { day, classroom: "F105".to_string(), start, end }
}

fn ranges(ts: &[Timing]) -> Vec<(Day, u8, u8)> {
    ts.iter().map(|t| (t.day, t.start, t.end)).collect()
}

#[test]
fn parses_room_day_and_period() {
    let t = Timing::from_string("101 A123:B210:M:3").unwrap();
    assert_eq!(t.classroom, "B210");
    assert_eq!(t.day, Day::Monday);
    assert_eq!(t.start, 3);
    assert_eq!(t.end, 3);
}

#[test]
fn reads_every_day_code() {
    let cases = [("M", Day::Monday), ("T", Day::Tuesday), ("W", Day::Wednesday), ("Th", Day::Thursday), ("F", Day::Friday)];
    for (code, day) in cases {
        let t = Timing::from_string(&format!("CS F111 F105:G204:{}:12", code)).unwrap();
        assert_eq!(t.day, day);
        assert_eq!(t.classroom, "G204");
        assert_eq!((t.start, t.end), (12, 12));
    }
}

#[test]
fn saturday_code_is_an_invalid_day() {
    assert!(matches!(Timing::from_string("101 A123:B210:S:3"), Err(TimingError::InvalidDay)));
    assert!(matches!(Timing::from_string("101 A123:B210:MW:3"), Err(TimingError::InvalidDay)));
}

#[test]
fn token_without_frame_is_bad_format() {
    assert!(matches!(Timing::from_string("hello"), Err(TimingError::BadStringFormat)));
    assert!(matches!(Timing::from_string(""), Err(TimingError::BadStringFormat)));
    assert!(matches!(Timing::from_string("101 A12:B210:M:3"), Err(TimingError::BadStringFormat)));
}

#[test]
fn frame_without_day_and_period_is_invalid_timing() {
    assert!(matches!(Timing::from_string("101 A123:B210:"), Err(TimingError::InvalidTimingFormat)));
    assert!(matches!(Timing::from_string("101 A123:B210:M:x"), Err(TimingError::InvalidTimingFormat)));
}

#[test]
fn period_over_a_byte_is_invalid_time() {
    assert!(matches!(Timing::from_string("101 A123:B210:M:256"), Err(TimingError::InvalidTime)));
    let t = Timing::from_string("101 A123:B210:M:255").unwrap();
    assert_eq!(t.start, 255);
    let t = Timing::from_string("101 A123:B210:M:007").unwrap();
    assert_eq!(t.start, 7);
}

#[test]
fn first_token_in_the_text_is_read() {
    let t = Timing::from_string("x y 101 A123:B210:W:4 202 C111:D222:F:5").unwrap();
    assert_eq!(t.classroom, "B210");
    assert_eq!(t.day, Day::Wednesday);
    assert_eq!(t.start, 4);
}

#[test]
fn merges_consecutive_periods_of_a_day() {
    let mut s = Section { number: 1, instructors: vec![], timings: vec![timing(Day::Monday, 1, 1), timing(Day::Monday, 2, 2), timing(Day::Monday, 3, 3), timing(Day::Tuesday, 4, 4)] };
    s.optimize_timings();
    assert_eq!(ranges(&s.timings), vec![(Day::Monday, 1, 3), (Day::Tuesday, 4, 4)]);
}

#[test]
fn merges_backwards_and_keeps_order_sensitivity() {
    let mut s = Section { number: 1, instructors: vec![], timings: vec![timing(Day::Monday, 3, 3), timing(Day::Monday, 2, 2)] };
    s.optimize_timings();
    assert_eq!(ranges(&s.timings), vec![(Day::Monday, 2, 3)]);
    let mut s = Section { number: 1, instructors: vec![], timings: vec![timing(Day::Monday, 1, 1), timing(Day::Monday, 3, 3), timing(Day::Monday, 2, 2)] };
    s.optimize_timings();
    assert_eq!(ranges(&s.timings), vec![(Day::Monday, 1, 2), (Day::Monday, 3, 3)]);
}

#[test]
fn different_days_do_not_merge() {
    let mut s = Section { number: 1, instructors: vec![], timings: vec![timing(Day::Monday, 3, 3), timing(Day::Wednesday, 4, 4)] };
    s.optimize_timings();
    assert_eq!(ranges(&s.timings), vec![(Day::Monday, 3, 3), (Day::Wednesday, 4, 4)]);
}

#[test]
fn merging_a_merged_list_changes_nothing() {
    let mut s = Section { number: 2, instructors: vec!["A".to_string()], timings: vec![timing(Day::Monday, 1, 1), timing(Day::Monday, 2, 2), timing(Day::Wednesday, 5, 5), timing(Day::Monday, 5, 5)] };
    s.optimize_timings();
    let once = ranges(&s.timings);
    s.optimize_timings();
    assert_eq!(ranges(&s.timings), once);
    assert_eq!(once, vec![(Day::Monday, 1, 2), (Day::Wednesday, 5, 5), (Day::Monday, 5, 5)]);
}

#[test]
fn unreadable_token_is_skipped_and_siblings_kept() {
    let dir = CourseResponse { courses: vec![responses::Course { id: "c1".to_string(), code: "CS F111".to_string(), name: "Computer Programming".to_string() }] };
    let mut course = Course::new("c1".to_string(), &dir).unwrap();
    let sr = SectionResponse {
        course_id: "c1".to_string(),
        section_type: "L".to_string(),
        number: 1,
        instructors: vec!["Prof".to_string()],
        room_time: vec!["101 A123:B210:S:3".to_string(), "101 A123:B210:W:4".to_string(), "101 A123:B210:W:5".to_string()],
    };
    course.add_section(&sr);
    let lecture = course.lecture.unwrap();
    assert_eq!(ranges(&lecture.timings), vec![(Day::Wednesday, 4, 5)]);
    assert_eq!(lecture.instructors, vec!["Prof".to_string()]);
}
