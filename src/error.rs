//! The ways a newsletter can fail to parse.

use crate::calendar::LocalDateTime;
use vstd::prelude::*;

verus! {

/// Why a newsletter could not be parsed. Every failure is fatal to the whole parse.
#[derive(Clone, Debug, PartialEq, Eq)]
pub enum ParseError {
    /// A month name stands before any day number, or after more than two of them.
    MisplacedMonth,
    /// The subject line holds this many day numbers instead of two.
    DayNumberCount(usize),
    /// The subject line holds this many month names instead of one or two.
    MonthCount(usize),
    /// A name that is not the Italian name of a month.
    InvalidMonth(String),
    /// Year, month and day that make no calendar date.
    InvalidDate(i32, u32, u32),
    /// The year after the subject's year cannot be represented.
    YearOutOfRange,
    /// A selector of the newsletter template does not parse.
    InvalidSelector,
    /// The document holds no newsletter link.
    MissingLink,
    /// The newsletter link has no `href` attribute.
    MissingHref,
    /// The title heading at this position, counted from zero in document order, holds
    /// no text.
    MissingTitleText(usize),
    /// The title heading at this position does not stand three levels below a table body.
    MissingScheduleBox(usize),
    /// A failure inside the schedule box of the title heading at this position.
    InBlock(usize, BlockError),
}

/// Why the date text of one schedule box could not be resolved.
#[derive(Clone, Debug, PartialEq, Eq)]
pub enum BlockError {
    /// A date entry lacks its day number, its times, or both.
    MissingData { day: bool, times: bool },
    /// A date entry names a month whose day falls outside the subject's range.
    DateOutOfRange(u32, u32),
    /// A day that falls in neither month of the subject's range.
    UnresolvableDay(u32),
    /// Hours and minutes that make no time of day.
    InvalidTime(u32, u32),
    /// A wall-clock time that Rome skips or repeats.
    NoSingleRomeTime(LocalDateTime),
}

} // verus!
