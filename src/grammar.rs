//! The grammar of the date text of a schedule box:
//!
//! ```text
//! text        := (date_entry | other)*
//! date_entry  := day_number month? time+ additional_details?
//! time        := hours ':' minutes
//! ```
//!
//! A day number is a run of one or two digits that a colon does not follow, hours are
//! one or two digits and minutes exactly two. Blank characters may stand between the
//! parts. The additional details are what follows the last time up to the end of its
//! line, without surrounding blanks. Text that starts no date entry is skipped, a run
//! of digits at a time.

use crate::calendar::{month_number_in, month_number_of};
use crate::text::{
    chars_of, substring,
    digit_run, digit_run_at, digits_value, is_digit, is_digit_char, is_space, is_space_char,
    lemma_digit_run_prefix, lemma_runs_bounded, letter_run, letter_run_at, small_number_at, space_run, space_run_at,
};
use vstd::prelude::*;

verus! {

/// One date entry of a schedule box: a day, perhaps its month, the times of the
/// showings on that day and a note that holds for all of them.
#[derive(Clone, Debug, PartialEq, Eq)]
pub struct DateEntryToken {
    pub day: Option<u32>,
    pub month: Option<u32>,
    pub times: Vec<(u32, u32)>,
    pub details: Option<String>,
}

/// A date entry token as a mathematical value.
pub struct DateEntryTokenView {
    pub day: Option<u32>,
    pub month: Option<u32>,
    pub times: Seq<(u32, u32)>,
    pub details: Option<Seq<char>>,
}

pub open spec fn opt_string_view(o: Option<String>) -> Option<Seq<char>> {
    match o {
        Some(s) => Some(s@),
        None => None,
    }
}

impl View for DateEntryToken {
    type V = DateEntryTokenView;

    open spec fn view(&self) -> DateEntryTokenView {
        DateEntryTokenView {
            day: self.day,
            month: self.month,
            times: self.times@,
            details: opt_string_view(self.details),
        }
    }
}

pub open spec fn tokens_view(v: Seq<DateEntryToken>) -> Seq<DateEntryTokenView> {
    v.map_values(|t: DateEntryToken| t@)
}

/// The time `hours:minutes` at position `j`, with the position after it.
pub open spec fn time_at(s: Seq<char>, j: int) -> Option<((u32, u32), int)> {
    let h = digit_run(s, j);
    if 1 <= h <= 2 && j + h < s.len() && s[j + h] == ':' && digit_run(s, j + h + 1) == 2 {
        Some(
            (
                (digits_value(s, j, h) as u32, digits_value(s, j + h + 1, 2) as u32),
                j + h + 3,
            ),
        )
    } else {
        None
    }
}

/// The times that follow position `j`, each after optional blanks, with the position
/// after the last of them (`j` where there is none).
pub open spec fn times_from(s: Seq<char>, j: int) -> (Seq<(u32, u32)>, int)
    decreases s.len() - j,
    via times_from_decreases
{
    if 0 <= j <= s.len() {
        match time_at(s, j + space_run(s, j)) {
            Some((t, e)) => {
                let rest = times_from(s, e);
                (seq![t] + rest.0, rest.1)
            },
            None => (seq![], j),
        }
    } else {
        (seq![], j)
    }
}

#[via_fn]
proof fn times_from_decreases(s: Seq<char>, j: int) {
    if 0 <= j <= s.len() {
        lemma_time_at_bounded(s, j + space_run(s, j));
    }
}

pub proof fn lemma_time_at_bounded(s: Seq<char>, j: int)
    requires
        0 <= j,
    ensures
        time_at(s, j) matches Some((t, e)) ==> j < e <= s.len() && t.0 < 100 && t.1 < 100,
{
    let h = digit_run(s, j);
    if 1 <= h <= 2 && j + h < s.len() && s[j + h] == ':' && digit_run(s, j + h + 1) == 2 {
        lemma_runs_bounded(s, j + h + 1);
        assert forall|k: int| j <= k < j + h implies is_digit(#[trigger] s[k]) by {
            lemma_digit_run_prefix(s, j, k);
        }
        assert forall|k: int| j + h + 1 <= k < j + h + 3 implies is_digit(#[trigger] s[k]) by {
            lemma_digit_run_prefix(s, j + h + 1, k);
        }
        lemma_digits_value_small(s, j, h);
        lemma_digits_value_small(s, j + h + 1, 2);
    }
}

pub proof fn lemma_digits_value_small(s: Seq<char>, i: int, n: nat)
    requires
        n <= 2,
        forall|k: int| i <= k < i + n ==> is_digit(#[trigger] s[k]),
    ensures
        digits_value(s, i, n) < 100,
        n <= 1 ==> digits_value(s, i, n) < 10,
    decreases n,
{
    if n > 0 {
        lemma_digits_value_small(s, i, (n - 1) as nat);
    }
}

pub proof fn lemma_times_from_bounded(s: Seq<char>, j: int)
    requires
        0 <= j <= s.len(),
    ensures
        j <= times_from(s, j).1 <= s.len(),
    decreases s.len() - j,
{
    lemma_runs_bounded(s, j);
    lemma_time_at_bounded(s, j + space_run(s, j));
    match time_at(s, j + space_run(s, j)) {
        Some((t, e)) => lemma_times_from_bounded(s, e),
        None => {},
    }
}

/// The position of the first line break from `j` on, or the end of `s`.
pub open spec fn line_end(s: Seq<char>, j: int) -> int
    decreases s.len() - j,
{
    if j < 0 || j >= s.len() || s[j] == '\n' {
        j
    } else {
        line_end(s, j + 1)
    }
}

pub proof fn lemma_line_end_bounded(s: Seq<char>, j: int)
    requires
        0 <= j <= s.len(),
    ensures
        j <= line_end(s, j) <= s.len(),
    decreases s.len() - j,
{
    if j < s.len() && s[j] != '\n' {
        lemma_line_end_bounded(s, j + 1);
    }
}

/// The end of the text in `[a, b)` once trailing blanks are taken off.
pub open spec fn trim_end(s: Seq<char>, a: int, b: int) -> int
    decreases b - a,
{
    if b > a && is_space(s[b - 1]) {
        trim_end(s, a, b - 1)
    } else {
        b
    }
}

/// The text in `[e, nl)` without surrounding blanks, where any is left.
pub open spec fn details_of(s: Seq<char>, e: int, nl: int) -> Option<Seq<char>> {
    let a = e + space_run(s, e);
    if a >= nl {
        None
    } else {
        Some(s.subrange(a, trim_end(s, a, nl)))
    }
}

/// The date entry that starts with the run of digits at `i`, with the position of the
/// end of its line.
pub open spec fn entry_at(s: Seq<char>, i: int) -> Option<(DateEntryTokenView, int)> {
    let n = digit_run(s, i);
    if n < 1 || n > 2 || (i + n < s.len() && s[i + n] == ':') {
        None
    } else {
        let j = i + n + space_run(s, i + n);
        let w = letter_run(s, j);
        let month = if w > 0 {
            month_number_of(s.subrange(j, j + w))
        } else {
            None
        };
        let after_month = if month is Some {
            j + w
        } else {
            i + n
        };
        let (times, e) = times_from(s, after_month);
        if times.len() == 0 {
            None
        } else {
            let nl = line_end(s, e);
            Some(
                (
                    DateEntryTokenView {
                        day: Some(digits_value(s, i, n) as u32),
                        month,
                        times,
                        details: details_of(s, e, nl),
                    },
                    nl,
                ),
            )
        }
    }
}

pub proof fn lemma_entry_at_bounded(s: Seq<char>, i: int)
    requires
        0 <= i < s.len(),
    ensures
        entry_at(s, i) matches Some((t, end)) ==> i < end <= s.len(),
{
    let n = digit_run(s, i);
    lemma_runs_bounded(s, i);
    if 1 <= n <= 2 && !(i + n < s.len() && s[i + n] == ':') {
        lemma_runs_bounded(s, i + n);
        let j = i + n + space_run(s, i + n);
        lemma_runs_bounded(s, j);
        let w = letter_run(s, j);
        let month = if w > 0 {
            month_number_of(s.subrange(j, j + w))
        } else {
            None
        };
        let after_month = if month is Some {
            j + w
        } else {
            i + n
        };
        lemma_times_from_bounded(s, after_month);
        lemma_line_end_bounded(s, times_from(s, after_month).1);
    }
}

/// The date entries of `s` from position `i` on, in order.
pub open spec fn entries_from(s: Seq<char>, i: int) -> Seq<DateEntryTokenView>
    decreases s.len() - i,
    via entries_from_decreases
{
    if i < 0 || i >= s.len() {
        seq![]
    } else if is_digit(s[i]) {
        match entry_at(s, i) {
            Some((t, end)) => seq![t] + entries_from(s, end),
            None => entries_from(s, i + 1 + digit_run(s, i + 1)),
        }
    } else {
        entries_from(s, i + 1)
    }
}

#[via_fn]
proof fn entries_from_decreases(s: Seq<char>, i: int) {
    if 0 <= i < s.len() {
        lemma_entry_at_bounded(s, i);
        lemma_runs_bounded(s, i + 1);
    }
}

/// The date entries of schedule text `s`, in order.
pub open spec fn date_entry_tokens(s: Seq<char>) -> Seq<DateEntryTokenView> {
    entries_from(s, 0)
}


/// The time at position `j`, with the position after it.
fn time_at_exec(s: &Vec<char>, j: usize) -> (r: Option<((u32, u32), usize)>)
    requires
        j <= s.len(),
    ensures
        time_at(s@, j as int) == match r {
            Some((t, e)) => Some((t, e as int)),
            None => None::<((u32, u32), int)>,
        },
{
    let h = digit_run_at(s, j);
    if 1 <= h && h <= 2 && j + h < s.len() && s[j + h] == ':' {
        let m = digit_run_at(s, j + h + 1);
        if m == 2 {
            proof {
                lemma_runs_bounded(s@, (j + h + 1) as int);
                assert forall|k: int| j <= k < j + h implies is_digit(#[trigger] s@[k]) by {
                    lemma_digit_run_prefix(s@, j as int, k);
                }
                assert forall|k: int| j + h + 1 <= k < j + h + 3 implies is_digit(
                    #[trigger] s@[k],
                ) by {
                    lemma_digit_run_prefix(s@, (j + h + 1) as int, k);
                }
            }
            let hours = small_number_at(s, j, h);
            let minutes = small_number_at(s, j + h + 1, 2);
            return Some(((hours, minutes), j + h + 3));
        }
    }
    None
}

/// The times that follow position `j`, with the position after the last of them.
fn times_from_exec(s: &Vec<char>, j: usize) -> (r: (Vec<(u32, u32)>, usize))
    requires
        j <= s.len(),
    ensures
        (r.0@, r.1 as int) == times_from(s@, j as int),
        j <= r.1 <= s.len(),
{
    let mut times: Vec<(u32, u32)> = Vec::new();
    let mut k: usize = j;
    loop
        invariant
            j <= k <= s.len(),
            times_from(s@, j as int) == (
                times@ + times_from(s@, k as int).0,
                times_from(s@, k as int).1,
            ),
        decreases s.len() - k,
    {
        let start = k + space_run_at(s, k);
        proof {
            lemma_time_at_bounded(s@, start as int);
        }
        match time_at_exec(s, start) {
            Some((t, e)) => {
                proof {
                    assert(times@.push(t) + times_from(s@, e as int).0 =~= times@ + times_from(
                        s@,
                        k as int,
                    ).0);
                }
                times.push(t);
                k = e;
            },
            None => {
                proof {
                    assert(times@ + times_from(s@, k as int).0 =~= times@);
                }
                return (times, k);
            },
        }
    }
}

/// The position of the first line break from `j` on, or the end of `s`.
fn line_end_exec(s: &Vec<char>, j: usize) -> (r: usize)
    requires
        j <= s.len(),
    ensures
        r as int == line_end(s@, j as int),
{
    let mut k: usize = j;
    while k < s.len() && s[k] != '\n'
        invariant
            j <= k <= s.len(),
            line_end(s@, j as int) == line_end(s@, k as int),
        decreases s.len() - k,
    {
        k = k + 1;
    }
    k
}

/// The text in `[e, nl)` without surrounding blanks, where any is left.
fn details_exec(s: &Vec<char>, e: usize, nl: usize) -> (r: Option<String>)
    requires
        e <= nl <= s.len(),
    ensures
        opt_string_view(r) == details_of(s@, e as int, nl as int),
{
    let a = e + space_run_at(s, e);
    if a >= nl {
        return None;
    }
    let mut b: usize = nl;
    while b > a && is_space_char(s[b - 1])
        invariant
            a <= b <= nl <= s.len(),
            trim_end(s@, a as int, nl as int) == trim_end(s@, a as int, b as int),
        decreases b,
    {
        b = b - 1;
    }
    Some(substring(s, a, b))
}

/// The date entry that starts at position `i`, with the position of the end of its line.
fn entry_at_exec(s: &Vec<char>, i: usize) -> (r: Option<(DateEntryToken, usize)>)
    requires
        i < s.len(),
    ensures
        entry_at(s@, i as int) == match r {
            Some((t, end)) => Some((t@, end as int)),
            None => None::<(DateEntryTokenView, int)>,
        },
{
    let n = digit_run_at(s, i);
    if n < 1 || n > 2 || (i + n < s.len() && s[i + n] == ':') {
        return None;
    }
    proof {
        assert forall|k: int| i <= k < i + n implies is_digit(#[trigger] s@[k]) by {
            lemma_digit_run_prefix(s@, i as int, k);
        }
    }
    let day = small_number_at(s, i, n);
    let j = i + n + space_run_at(s, i + n);
    let w = letter_run_at(s, j);
    let month = if w > 0 {
        month_number_in(s, j, j + w)
    } else {
        None
    };
    let after_month = if month.is_some() {
        j + w
    } else {
        i + n
    };
    let (times, e) = times_from_exec(s, after_month);
    if times.len() == 0 {
        return None;
    }
    proof {
        lemma_line_end_bounded(s@, e as int);
    }
    let nl = line_end_exec(s, e);
    let details = details_exec(s, e, nl);
    Some((DateEntryToken { day: Some(day), month, times, details }, nl))
}

/// The parser of the date text of schedule boxes.
pub struct DateEntryParser;

impl DateEntryParser {
    /// The date entries of schedule text `text`, in order.
    pub fn parse(text: &str) -> (r: Vec<DateEntryToken>)
        ensures
            tokens_view(r@) == date_entry_tokens(text@),
    {
        let s = chars_of(text);
        let mut out: Vec<DateEntryToken> = Vec::new();
        let mut i: usize = 0;
        while i < s.len()
            invariant
                i <= s.len(),
                s@ == text@,
                tokens_view(out@) + entries_from(s@, i as int) == date_entry_tokens(s@),
            decreases s.len() - i,
        {
            if is_digit_char(s[i]) {
                proof {
                    lemma_entry_at_bounded(s@, i as int);
                    lemma_runs_bounded(s@, (i + 1) as int);
                }
                match entry_at_exec(&s, i) {
                    Some((t, end)) => {
                        proof {
                            assert(tokens_view(out@.push(t)) =~= tokens_view(out@).push(t@));
                            assert(tokens_view(out@).push(t@) + entries_from(s@, end as int)
                                =~= tokens_view(out@) + entries_from(s@, i as int));
                        }
                        out.push(t);
                        i = end;
                    },
                    None => {
                        i = i + 1 + digit_run_at(&s, i + 1);
                    },
                }
            } else {
                i = i + 1;
            }
        }
        proof {
            assert(tokens_view(out@) + entries_from(s@, i as int) =~= tokens_view(out@));
        }
        out
    }
}

} // verus!
