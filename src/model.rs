//! The records that the time-table is made of, and their mathematical views.
use vstd::prelude::*;

verus! {

/// A weekday on which a period meets; `Unknown` stands for an unrecognised day.
#[derive(Debug, Clone, Copy, PartialEq, Eq, Structural, PartialOrd, Ord, Hash)]
pub enum DayOfWeek {
    Monday,
    Tuesday,
    Wednesday,
    Thursday,
    Friday,
    Unknown,
}

/// One weekly meeting of a course section.
#[derive(Debug, Clone)]
pub struct Period {
    pub day: DayOfWeek,
    pub room: String,
    pub start_hour: u8,
    pub start_minute: u8,
    pub end_hour: u8,
    pub end_minute: u8,
}

pub struct PeriodView {
    pub day: DayOfWeek,
    pub room: Seq<char>,
    pub start_hour: u8,
    pub start_minute: u8,
    pub end_hour: u8,
    pub end_minute: u8,
}

impl View for Period {
    type V = PeriodView;

    open spec fn view(&self) -> PeriodView {
        PeriodView {
            day: self.day,
            room: self.room@,
            start_hour: self.start_hour,
            start_minute: self.start_minute,
            end_hour: self.end_hour,
            end_minute: self.end_minute,
        }
    }
}

/// One scheduled course section.
#[derive(Debug, Clone)]
pub struct Course {
    pub section: u16,
    pub course: String,
    pub title: String,
    pub teacher: String,
    pub periods: Vec<Period>,
    pub available_seats: u8,
    pub recently_changed: bool,
}

pub struct CourseView {
    pub section: u16,
    pub course: Seq<char>,
    pub title: Seq<char>,
    pub teacher: Seq<char>,
    pub periods: Seq<PeriodView>,
    pub available_seats: u8,
    pub recently_changed: bool,
}

pub open spec fn periods_view(v: Seq<Period>) -> Seq<PeriodView> {
    v.map_values(|p: Period| p@)
}

impl View for Course {
    type V = CourseView;

    open spec fn view(&self) -> CourseView {
        CourseView {
            section: self.section,
            course: self.course@,
            title: self.title@,
            teacher: self.teacher@,
            periods: periods_view(self.periods@),
            available_seats: self.available_seats,
            recently_changed: self.recently_changed,
        }
    }
}

pub open spec fn courses_view(v: Seq<Course>) -> Seq<CourseView> {
    v.map_values(|c: Course| c@)
}

/// What can go wrong while fetching and decoding the time-table.
#[derive(Debug, Clone, Copy, PartialEq, Eq, Structural)]
pub enum ScrapeError {
    /// A page could not be reached.
    Fetch,
    /// An expected structural element is absent.
    Parse,
    /// A script of the site failed to run.
    Execution,
    /// A caller-supplied department or course code is malformed.
    Validation,
}

/// The HTTP status that an error is reported with.
pub fn error_status(e: ScrapeError) -> (r: u16)
    ensures
        r == (if e == ScrapeError::Validation { 400u16 } else { 500u16 }),
{
    match e {
        ScrapeError::Validation => 400,
        _ => 500,
    }
}

/// A successful API answer: a status code and its payload.
pub struct OkResponse<T> {
    pub code: u16,
    pub data: T,
}

/// A failed API answer: a status code and a message.
pub struct ErrResponse {
    pub code: u16,
    pub message: String,
}

impl ErrResponse {
    /// The answer for `e`, with its status code.
    pub fn from_error(e: ScrapeError, message: String) -> (r: ErrResponse)
        ensures
            r.code == (if e == ScrapeError::Validation { 400u16 } else { 500u16 }),
            r.message@ == message@,
    {
        ErrResponse { code: error_status(e), message }
    }
}

} // verus!
