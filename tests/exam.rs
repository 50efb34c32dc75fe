use chrono::Datelike;
use chrono_to_ics::calendar::generate_exam_event;
use chrono_to_ics::exam::{ExamKind, ExamTime, ExamTimeError};
use chrono_to_ics::instant::Instant;

#[test]
fn parses_midsem_entry() {
    let e = ExamTime::from_string("CS101|MIDSEM|2023-05-10T08:30:00Z|2023-05-10T10:30:00Z").unwrap();
    assert_eq!(e.code, "CS101");
    assert_eq!(e.exam_type, ExamKind::Midsem);
    assert_eq!(e.start_date_time, Instant { secs: 1683707400, nanos: 0 });
    assert_eq!(e.end_date_time, Instant { secs: 1683714600, nanos: 0 });
}

#[test]
fn parses_compre_entry_with_spaced_code() {
    let e = ExamTime::from_string("CS F111|COMPRE|2023-05-10T08:30:00+05:30|2023-05-10T10:30:00Z").unwrap();
    assert_eq!(e.code, "CS F111");
    assert_eq!(e.exam_type, ExamKind::Compre);
    assert_eq!(e.start_date_time.secs, 1683707400 - 5 * 3600 - 30 * 60);
}

#[test]
fn exam_entry_errors() {
    assert!(matches!(ExamTime::from_string("CS101|MIDSEM"), Err(ExamTimeError::BadFormat)));
    assert!(matches!(ExamTime::from_string("|MIDSEM|2023-05-10T08:30:00Z|2023-05-10T10:30:00Z"), Err(ExamTimeError::BadFormat)));
    assert!(matches!(ExamTime::from_string("CS101|ENDSEM|2023-05-10T08:30:00Z|2023-05-10T10:30:00Z"), Err(ExamTimeError::InvalidKind)));
    assert!(matches!(ExamTime::from_string("CS101|COMPRE|tomorrow|2023-05-10T10:30:00Z"), Err(ExamTimeError::InvalidStart)));
    assert!(matches!(ExamTime::from_string("CS101|COMPRE|2023-05-10T08:30:00Z|"), Err(ExamTimeError::InvalidEnd)));
}

#[test]
fn exam_event_moves_to_the_current_year() {
    let e = ExamTime::from_string("CS101|MIDSEM|2023-05-10T08:30:00Z|2023-05-10T10:30:00Z").unwrap();
    let year = chrono::Utc::now().year();
    let props = generate_exam_event(&e.start_date_time, &e.end_date_time, &"Exam: Programming".to_string(), year);
    assert_eq!(props[0], ("SUMMARY".to_string(), "Exam: Programming".to_string()));
    assert_eq!(props[1], ("DTSTART".to_string(), format!("{}0510T083000Z", year)));
    assert_eq!(props[2], ("DTEND".to_string(), format!("{}0510T103000Z", year)));
}

#[test]
fn exam_on_a_missing_leap_day_keeps_its_year() {
    let e = ExamTime::from_string("CS101|MIDSEM|2024-02-29T08:30:00Z|2024-02-29T10:30:00Z").unwrap();
    let props = generate_exam_event(&e.start_date_time, &e.end_date_time, &"Exam: X".to_string(), 2025);
    assert_eq!(props[1].1, "20240229T083000Z");
    let props = generate_exam_event(&e.start_date_time, &e.end_date_time, &"Exam: X".to_string(), 2028);
    assert_eq!(props[1].1, "20280229T083000Z");
}
