//! Turns a university timetable (sections, weekly period codes, exam schedule and
//! holiday calendar) into an iCalendar document of weekly class events and exam events.

pub mod instant;
pub mod text;
pub mod timing;
pub mod responses;
pub mod exam;
pub mod data;
pub mod ics;
pub mod calendar;
pub mod directory;
