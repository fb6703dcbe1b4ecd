//! Turns course schedule records into iCalendar documents.
pub mod icalendar;
pub mod internal;
pub mod lecture;
pub mod text;
pub mod timestamp;
