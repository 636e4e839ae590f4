//! Course time-table extraction for a bot-protected college scheduling site.
pub mod text;
pub mod model;
pub mod periods;
pub mod schedule;
pub mod token;
pub mod departments;
pub mod lookup;

pub use model::{Course, DayOfWeek, ErrResponse, OkResponse, Period, ScrapeError};
