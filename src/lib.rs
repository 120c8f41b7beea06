//! Parsing of the Spazio Alfieri programming newsletter: the date range of the
//! subject line, the schedule boxes of the HTML body, the small grammar of their
//! date text and the resolution of day-only dates against the subject's range.

pub mod calendar;
pub mod error;
pub mod grammar;
pub mod html;
pub mod newsletter;
pub mod resolve;
pub mod subject;
pub mod text;
