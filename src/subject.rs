//! The date range named by the subject line ("programmazione 25 settembre > 2 ottobre").

use crate::calendar::{
    is_valid_date, make_date, month_number_in, month_number_of, CalendarDate, LocalDateTime,
};
use crate::error::ParseError;
use crate::text::{
    chars_of, digit_run, digit_run_at, digits_value, is_digit, is_digit_char, is_letter,
    is_letter_char, lemma_digit_run_prefix, lemma_runs_bounded, letter_run, letter_run_at, small_number_at,
};
use vstd::prelude::*;

verus! {

/// A token of the subject line; all other text is ignored.
#[derive(Clone, Copy, Debug, PartialEq, Eq, Structural)]
pub enum SubjectToken {
    /// A run of one or two digits.
    DayNumber(u32),
    /// A run of letters that is the Italian name of a month.
    Month(u32),
}

/// The range of days that a newsletter covers: from midnight of its first day to
/// 23:59:59 of its last.
#[derive(Clone, Copy, Debug, PartialEq, Eq, Structural)]
pub struct BoundaryPair {
    pub lower: LocalDateTime,
    pub upper: LocalDateTime,
}

impl BoundaryPair {
    pub open spec fn wf(self) -> bool {
        &&& self.lower.wf()
        &&& self.upper.wf()
        &&& self.lower.spec_le(self.upper)
        &&& self.lower.hour == 0 && self.lower.minute == 0 && self.lower.second == 0
        &&& self.upper.hour == 23 && self.upper.minute == 59 && self.upper.second == 59
    }
}

/// The tokens of `s` from position `i` on. Runs of digits and runs of letters are read
/// whole; a run of more than two digits, or of letters that name no month, is skipped.
pub open spec fn subject_tokens_from(s: Seq<char>, i: int) -> Seq<SubjectToken>
    decreases s.len() - i,
    via subject_tokens_decreases
{
    if i < 0 || i >= s.len() {
        seq![]
    } else if is_digit(s[i]) {
        let n = 1 + digit_run(s, i + 1);
        if n <= 2 {
            seq![SubjectToken::DayNumber(digits_value(s, i, n) as u32)] + subject_tokens_from(
                s,
                i + n,
            )
        } else {
            subject_tokens_from(s, i + n)
        }
    } else if is_letter(s[i]) {
        let n = 1 + letter_run(s, i + 1);
        match month_number_of(s.subrange(i, i + n)) {
            Some(m) => seq![SubjectToken::Month(m)] + subject_tokens_from(s, i + n),
            None => subject_tokens_from(s, i + n),
        }
    } else {
        subject_tokens_from(s, i + 1)
    }
}

#[via_fn]
proof fn subject_tokens_decreases(s: Seq<char>, i: int) {
    if 0 <= i < s.len() {
        lemma_runs_bounded(s, i + 1);
    }
}

pub open spec fn subject_tokens(s: Seq<char>) -> Seq<SubjectToken> {
    subject_tokens_from(s, 0)
}

/// The day numbers and month numbers of the first `k` tokens, in order, or the error
/// of a month that stands before any day number or after more than two.
pub open spec fn collect_tokens(toks: Seq<SubjectToken>, k: int) -> Result<
    (Seq<u32>, Seq<u32>),
    ParseError,
>
    decreases k,
{
    if k <= 0 {
        Ok((seq![], seq![]))
    } else {
        match collect_tokens(toks, k - 1) {
            Err(e) => Err(e),
            Ok((days, months)) => match toks[k - 1] {
                SubjectToken::DayNumber(d) => Ok((days.push(d), months)),
                SubjectToken::Month(m) => if (months.len() == 0 && days.len() == 0) || days.len()
                    > 2 {
                    Err(ParseError::MisplacedMonth)
                } else {
                    Ok((days, months.push(m)))
                },
            },
        }
    }
}

/// The range that day numbers `d1`, `d2` and months `m1`, `m2` name in `year`: the
/// second date moves to the next year where it falls before the first.
pub open spec fn bounds_of(year: i32, d1: u32, m1: u32, d2: u32, m2: u32) -> Result<
    BoundaryPair,
    ParseError,
> {
    let first = CalendarDate { year, month: m1, day: d1 };
    let second = CalendarDate { year, month: m2, day: d2 };
    if !is_valid_date(year as int, m1 as int, d1 as int) {
        Err(ParseError::InvalidDate(year, m1, d1))
    } else if !is_valid_date(year as int, m2 as int, d2 as int) {
        Err(ParseError::InvalidDate(year, m2, d2))
    } else if second.spec_le(first) && second != first && year == i32::MAX {
        Err(ParseError::YearOutOfRange)
    } else if second.spec_le(first) && second != first && !is_valid_date(
        year + 1,
        m2 as int,
        d2 as int,
    ) {
        Err(ParseError::InvalidDate((year + 1) as i32, m2, d2))
    } else {
        let last = if second.spec_le(first) && second != first {
            CalendarDate { year: (year + 1) as i32, month: m2, day: d2 }
        } else {
            second
        };
        Ok(
            BoundaryPair {
                lower: LocalDateTime { date: first, hour: 0, minute: 0, second: 0 },
                upper: LocalDateTime { date: last, hour: 23, minute: 59, second: 59 },
            },
        )
    }
}

/// The range that subject line `s` names, with `year` the current year.
pub open spec fn subject_bounds(s: Seq<char>, year: i32) -> Result<BoundaryPair, ParseError> {
    let toks = subject_tokens(s);
    match collect_tokens(toks, toks.len() as int) {
        Err(e) => Err(e),
        Ok((days, months)) => if days.len() != 2 {
            Err(ParseError::DayNumberCount(days.len() as usize))
        } else if months.len() == 0 || months.len() > 2 {
            Err(ParseError::MonthCount(months.len() as usize))
        } else {
            let m2 = if months.len() == 1 {
                months[0]
            } else {
                months[1]
            };
            bounds_of(year, days[0], months[0], days[1], m2)
        },
    }
}

/// The tokenizer of subject lines.
pub struct SubjectLineParser;

impl SubjectLineParser {
    /// The day numbers and month names of `subject`, in order.
    pub fn tokens(subject: &str) -> (r: Vec<SubjectToken>)
        ensures
            r@ == subject_tokens(subject@),
    {
        let s = chars_of(subject);
        let mut out: Vec<SubjectToken> = Vec::new();
        let mut i: usize = 0;
        while i < s.len()
            invariant
                i <= s.len(),
                s@ == subject@,
                out@ + subject_tokens_from(s@, i as int) == subject_tokens(s@),
            decreases s.len() - i,
        {
            proof {
                lemma_runs_bounded(s@, i as int);
            }
            if is_digit_char(s[i]) {
                let n = digit_run_at(&s, i);
                if n <= 2 {
                    proof {
                        assert forall|k: int| i <= k < i + n implies is_digit(#[trigger] s@[k]) by {
                            lemma_digit_run_prefix(s@, i as int, k);
                        }
                    }
                    let d = small_number_at(&s, i, n);
                    proof {
                        assert(out@.push(SubjectToken::DayNumber(d)) + subject_tokens_from(
                            s@,
                            (i + n) as int,
                        ) =~= out@ + subject_tokens_from(s@, i as int));
                    }
                    out.push(SubjectToken::DayNumber(d));
                }
                i = i + n;
            } else if is_letter_char(s[i]) {
                let n = letter_run_at(&s, i);
                match month_number_in(&s, i, i + n) {
                    Some(m) => {
                        proof {
                            assert(out@.push(SubjectToken::Month(m)) + subject_tokens_from(
                                s@,
                                (i + n) as int,
                            ) =~= out@ + subject_tokens_from(s@, i as int));
                        }
                        out.push(SubjectToken::Month(m));
                    },
                    None => {},
                }
                i = i + n;
            } else {
                i = i + 1;
            }
        }
        proof {
            assert(out@ + subject_tokens_from(s@, i as int) =~= out@);
        }
        out
    }
}

/// The day numbers and months of `toks`, or the error of a misplaced month.
fn collect(toks: &Vec<SubjectToken>) -> (r: Result<(Vec<u32>, Vec<u32>), ParseError>)
    ensures
        match collect_tokens(toks@, toks@.len() as int) {
            Ok((days, months)) => r matches Ok((d, m)) && d@ == days && m@ == months,
            Err(e) => r == Err::<(Vec<u32>, Vec<u32>), ParseError>(e),
        },
{
    let mut days: Vec<u32> = Vec::new();
    let mut months: Vec<u32> = Vec::new();
    let mut k: usize = 0;
    while k < toks.len()
        invariant
            k <= toks.len(),
            collect_tokens(toks@, k as int) == Ok::<(Seq<u32>, Seq<u32>), ParseError>(
                (days@, months@),
            ),
        decreases toks.len() - k,
    {
        match toks[k] {
            SubjectToken::DayNumber(d) => {
                days.push(d);
            },
            SubjectToken::Month(m) => {
                if (months.len() == 0 && days.len() == 0) || days.len() > 2 {
                    proof {
                        lemma_collect_error_stays(toks@, (k + 1) as int, toks@.len() as int);
                    }
                    return Err(ParseError::MisplacedMonth);
                }
                months.push(m);
            },
        }
        k = k + 1;
    }
    Ok((days, months))
}

/// Once the tokens collected fail, all longer prefixes fail the same way.
proof fn lemma_collect_error_stays(toks: Seq<SubjectToken>, k: int, n: int)
    requires
        1 <= k <= n,
        collect_tokens(toks, k) is Err,
    ensures
        collect_tokens(toks, n) == collect_tokens(toks, k),
    decreases n - k,
{
    if k < n {
        lemma_collect_error_stays(toks, k + 1, n);
    }
}

/// The range of days that `subject` names, with `current_year` the year of its first day.
pub fn parse_subject_line_dates(subject: &str, current_year: i32) -> (r: Result<
    BoundaryPair,
    ParseError,
>)
    ensures
        r == subject_bounds(subject@, current_year),
        r matches Ok(b) ==> b.wf(),
{
    let toks = SubjectLineParser::tokens(subject);
    let (days, months) = match collect(&toks) {
        Ok(dm) => dm,
        Err(e) => return Err(e),
    };
    if days.len() != 2 {
        return Err(ParseError::DayNumberCount(days.len()));
    }
    if months.len() == 0 || months.len() > 2 {
        return Err(ParseError::MonthCount(months.len()));
    }
    let m2 = if months.len() == 1 {
        months[0]
    } else {
        months[1]
    };
    let r = boundary_pair(current_year, days[0], months[0], days[1], m2);
    proof {
        lemma_bounds_ordered(current_year, days[0], months[0], days[1], m2);
    }
    r
}

/// The range of days from `d1` of `m1` to `d2` of `m2`, in `year` or, where the
/// second date falls before the first, into the next year.
pub fn boundary_pair(year: i32, d1: u32, m1: u32, d2: u32, m2: u32) -> (r: Result<
    BoundaryPair,
    ParseError,
>)
    ensures
        r == bounds_of(year, d1, m1, d2, m2),
{
    let first = match make_date(year, m1, d1) {
        Some(d) => d,
        None => return Err(ParseError::InvalidDate(year, m1, d1)),
    };
    let second = match make_date(year, m2, d2) {
        Some(d) => d,
        None => return Err(ParseError::InvalidDate(year, m2, d2)),
    };
    let last = if second.le(&first) && second != first {
        if year == i32::MAX {
            return Err(ParseError::YearOutOfRange);
        }
        match make_date(year + 1, m2, d2) {
            Some(d) => d,
            None => return Err(ParseError::InvalidDate(year + 1, m2, d2)),
        }
    } else {
        second
    };
    Ok(
        BoundaryPair {
            lower: LocalDateTime { date: first, hour: 0, minute: 0, second: 0 },
            upper: LocalDateTime { date: last, hour: 23, minute: 59, second: 59 },
        },
    )
}

/// The range a subject line names runs forward: its lower end is never after its
/// upper end.
pub proof fn lemma_bounds_ordered(year: i32, d1: u32, m1: u32, d2: u32, m2: u32)
    ensures
        bounds_of(year, d1, m1, d2, m2) matches Ok(b) ==> b.wf(),
{
}

/// Whatever subject line and year are given, a range that is parsed from them starts
/// no later than it ends.
pub proof fn lemma_subject_bounds_ordered(s: Seq<char>, year: i32)
    ensures
        subject_bounds(s, year) matches Ok(b) ==> b.lower.spec_le(b.upper) && b.wf(),
{
    let toks = subject_tokens(s);
    match collect_tokens(toks, toks.len() as int) {
        Err(e) => {},
        Ok((days, months)) => if days.len() == 2 && months.len() > 0 && months.len() <= 2 {
            let m2 = if months.len() == 1 {
                months[0]
            } else {
                months[1]
            };
            lemma_bounds_ordered(year, days[0], months[0], days[1], m2);
        },
    }
}

} // verus!
