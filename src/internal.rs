//! A lecture record as the schedule service delivers it.
use vstd::prelude::*;
use crate::timestamp::Timestamp;

verus! {

/// One lecture as the schedule service delivers it: all lecturers in one
/// text, and room information that may still sit inside the name.
pub struct Lecture {
    pub id: u32,
    pub date: Timestamp,
    pub start_time: Timestamp,
    pub end_time: Timestamp,
    pub name: String,
    pub lecturer: String,
    pub rooms: Vec<String>,
}

} // verus!
