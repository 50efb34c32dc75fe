use chrono_to_ics::directory::{get_id_from_link, Client, CourseName, GuiError};
use chrono_to_ics::responses::{self, CourseResponse, TimeTableResponse};
use chrono_to_ics::timing::Day;

#[test]
fn link_id_is_the_last_segment() {
    assert_eq!(get_id_from_link("https://www.chrono.crux-bphc.com/view/abc123").unwrap(), "abc123");
    assert_eq!(get_id_from_link("abc").unwrap(), "abc");
    assert_eq!(get_id_from_link("abc/").unwrap(), "");
    assert_eq!(get_id_from_link("").unwrap(), "");
}

#[test]
fn error_messages() {
    assert_eq!(GuiError::InvalidLink.to_string(), "your link is invalid");
    assert_eq!(GuiError::UnableToFetchCourseData.to_string(), "unable to access internet");
    assert_eq!(GuiError::UnableToWriteData.to_string(), "unable to write data");
    assert_eq!(GuiError::InvalidTimeTableData.to_string(), "timetable is invalid");
}

#[test]
fn course_names_of_the_directory() {
    let c = responses::Course { id: "1".to_string(), code: "BIO F111".to_string(), name: "Biology".to_string() };
    let n = CourseName::from_response_course(&c);
    assert_eq!((n.id.as_str(), n.code.as_str(), n.name.as_str()), ("1", "BIO F111", "Biology"));
    let cr = CourseResponse { courses: vec![c, responses::Course { id: "2".to_string(), code: "X".to_string(), name: "Y".to_string() }] };
    let client = Client::new("tt".to_string(), TimeTableResponse::default(), cr);
    assert_eq!(client.courses.len(), 2);
    assert_eq!(client.courses[1].name, "Y");
}

#[test]
fn day_codes() {
    assert_eq!(Day::from_letters("Th"), Some(Day::Thursday));
    assert_eq!(Day::from_letters("T"), Some(Day::Tuesday));
    assert_eq!(Day::from_letters("S"), None);
    assert_eq!(Day::from_letters("th"), None);
    assert_eq!(Day::Friday.ical_code(), "FR");
}
