use vstd::prelude::*;

verus! {

/// A timetable as the scheduling service reports it.
#[derive(Debug, Default)]
pub struct TimeTableResponse {
    pub id: String,
    pub name: String,
    pub degrees: Vec<String>,
    pub year: i32,
    pub acad_year: i32,
    pub sections: Vec<SectionResponse>,
    /// Room-and-period tokens of the whole timetable; the sections carry their own.
    pub timings: Vec<String>,
    /// Exam entries `<code>|<MIDSEM or COMPRE>|<start>|<end>`.
    pub exam_times: Vec<String>,
}

/// One section of a timetable: its course, its kind (`L`, `T` or `P`) and its room-and-period
/// tokens.
#[derive(Debug, Default)]
pub struct SectionResponse {
    pub course_id: String,
    pub section_type: String,
    pub number: i32,
    pub instructors: Vec<String>,
    pub room_time: Vec<String>,
}

/// The directory of all courses.
#[derive(Debug, Default)]
pub struct CourseResponse {
    pub courses: Vec<Course>,
}

/// One entry of the course directory.
#[derive(Debug, Default)]
pub struct Course {
    pub id: String,
    pub code: String,
    pub name: String,
}

/// A holiday: its name and its date as an RFC 3339 text.
#[derive(Debug, Default)]
pub struct HolidayString {
    pub name: String,
    pub date: String,
}

/// A day on which another weekday's timetable is followed.
#[derive(Debug, Default)]
pub struct TimeTableChangeResponse {
    pub date: String,
    pub day: String,
}

/// The semester calendar: classwork and mid-semester dates, holidays and timetable changes.
#[derive(Debug, Default)]
pub struct HolidayResponse {
    pub classwork_start: String,
    pub classwork_end: String,
    pub midsem_start: String,
    pub midsem_end: String,
    pub holidays: Vec<HolidayString>,
    pub time_table_changes: Vec<TimeTableChangeResponse>,
}

} // verus!
