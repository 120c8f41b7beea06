//! Dates for the entries of a schedule box: a day without its month takes the month
//! of the lower or of the upper end of the subject's range, whichever places it inside
//! the range.

use crate::calendar::{is_valid_time, make_date, CalendarDate, LocalDateTime};
use crate::error::BlockError;
use crate::grammar::{opt_string_view, tokens_view, DateEntryToken, DateEntryTokenView};
use crate::subject::BoundaryPair;
use vstd::prelude::*;

verus! {

/// A showing as read on the wall clock in Rome, with its note.
#[derive(Clone, Debug, PartialEq, Eq)]
pub struct LocalEntry {
    pub date: LocalDateTime,
    pub additional_details: Option<String>,
}

impl View for LocalEntry {
    type V = (LocalDateTime, Option<Seq<char>>);

    open spec fn view(&self) -> (LocalDateTime, Option<Seq<char>>) {
        (self.date, opt_string_view(self.additional_details))
    }
}

pub open spec fn local_entries_view(v: Seq<LocalEntry>) -> Seq<(LocalDateTime, Option<Seq<char>>)> {
    v.map_values(|e: LocalEntry| e@)
}

/// What became of one date entry.
#[derive(Debug)]
pub enum ParsedDateEntries {
    /// The showings of the entry, one for each of its times.
    Parsed(Vec<LocalEntry>),
    /// Its day falls in neither month of the range: it waits for a second attempt.
    Uncertain,
}

/// The outcome of one date entry as a mathematical value.
pub enum EntryOutcome {
    Parsed(Seq<(LocalDateTime, Option<Seq<char>>)>),
    Uncertain,
}

/// Whether date `c` exists and falls on a day of range `b`.
pub open spec fn in_range(b: BoundaryPair, c: CalendarDate) -> bool {
    c.wf() && b.lower.date.spec_le(c) && c.spec_le(b.upper.date)
}

/// The date of `day` in `month`, in the year of the lower end of `b` or else of its
/// upper end, that falls inside `b`.
pub open spec fn place_in_month(b: BoundaryPair, day: u32, month: u32) -> Option<CalendarDate> {
    let c1 = CalendarDate { year: b.lower.date.year, month, day };
    let c2 = CalendarDate { year: b.upper.date.year, month, day };
    if in_range(b, c1) {
        Some(c1)
    } else if in_range(b, c2) {
        Some(c2)
    } else {
        None
    }
}

/// The date of `day` in the month of the lower end of `b`, or else in that of its upper
/// end, that falls inside `b`.
pub open spec fn place_day(b: BoundaryPair, day: u32) -> Option<CalendarDate> {
    let c1 = CalendarDate { year: b.lower.date.year, month: b.lower.date.month, day };
    let c2 = CalendarDate { year: b.upper.date.year, month: b.upper.date.month, day };
    if in_range(b, c1) {
        Some(c1)
    } else if in_range(b, c2) {
        Some(c2)
    } else {
        None
    }
}

/// The showings on `date` at the times of `times` from the `k`-th on, or the first of
/// those times that is no time of day.
pub open spec fn showings_from(
    date: CalendarDate,
    times: Seq<(u32, u32)>,
    details: Option<Seq<char>>,
    k: int,
) -> Result<Seq<(LocalDateTime, Option<Seq<char>>)>, BlockError>
    decreases times.len() - k,
{
    if k < 0 || k >= times.len() {
        Ok(seq![])
    } else {
        let (h, m) = times[k];
        if !is_valid_time(h as int, m as int, 0) {
            Err(BlockError::InvalidTime(h, m))
        } else {
            match showings_from(date, times, details, k + 1) {
                Err(e) => Err(e),
                Ok(rest) => Ok(
                    seq![(LocalDateTime { date, hour: h, minute: m, second: 0 }, details)] + rest,
                ),
            }
        }
    }
}

/// What becomes of date entry `t` within range `b`.
pub open spec fn entry_outcome(t: DateEntryTokenView, b: BoundaryPair) -> Result<
    EntryOutcome,
    BlockError,
> {
    if t.day is None || t.times.len() == 0 {
        Err(BlockError::MissingData { day: t.day is None, times: t.times.len() == 0 })
    } else {
        let day = t.day->0;
        let placed = match t.month {
            Some(m) => place_in_month(b, day, m),
            None => place_day(b, day),
        };
        match placed {
            None => match t.month {
                Some(m) => Err(BlockError::DateOutOfRange(day, m)),
                None => Ok(EntryOutcome::Uncertain),
            },
            Some(date) => match showings_from(date, t.times, t.details, 0) {
                Err(e) => Err(e),
                Ok(v) => Ok(EntryOutcome::Parsed(v)),
            },
        }
    }
}

/// The first pass over the first `k` entries: the showings of those that resolve, in
/// order, and the entries left for the second pass.
pub open spec fn first_pass(toks: Seq<DateEntryTokenView>, b: BoundaryPair, k: int) -> Result<
    (Seq<(LocalDateTime, Option<Seq<char>>)>, Seq<DateEntryTokenView>),
    BlockError,
>
    decreases k,
{
    if k <= 0 {
        Ok((seq![], seq![]))
    } else {
        match first_pass(toks, b, k - 1) {
            Err(e) => Err(e),
            Ok((done, deferred)) => match entry_outcome(toks[k - 1], b) {
                Err(e) => Err(e),
                Ok(EntryOutcome::Parsed(v)) => Ok((done + v, deferred)),
                Ok(EntryOutcome::Uncertain) => Ok((done, deferred.push(toks[k - 1]))),
            },
        }
    }
}

/// The second pass over the first `k` deferred entries, after the showings `done`:
/// an entry that still resolves to no date fails the block.
pub open spec fn second_pass(
    deferred: Seq<DateEntryTokenView>,
    b: BoundaryPair,
    done: Seq<(LocalDateTime, Option<Seq<char>>)>,
    k: int,
) -> Result<Seq<(LocalDateTime, Option<Seq<char>>)>, BlockError>
    decreases k,
{
    if k <= 0 {
        Ok(done)
    } else {
        match second_pass(deferred, b, done, k - 1) {
            Err(e) => Err(e),
            Ok(acc) => match entry_outcome(deferred[k - 1], b) {
                Err(e) => Err(e),
                Ok(EntryOutcome::Parsed(v)) => Ok(acc + v),
                Ok(EntryOutcome::Uncertain) => Err(
                    BlockError::UnresolvableDay(deferred[k - 1].day->0),
                ),
            },
        }
    }
}

/// The showings of the date entries `toks` of one schedule box within range `b`.
pub open spec fn resolve_block(toks: Seq<DateEntryTokenView>, b: BoundaryPair) -> Result<
    Seq<(LocalDateTime, Option<Seq<char>>)>,
    BlockError,
> {
    match first_pass(toks, b, toks.len() as int) {
        Err(e) => Err(e),
        Ok((done, deferred)) => second_pass(deferred, b, done, deferred.len() as int),
    }
}

/// The outcome of a block as a mathematical value.
pub open spec fn block_view(r: Result<Vec<LocalEntry>, BlockError>) -> Result<
    Seq<(LocalDateTime, Option<Seq<char>>)>,
    BlockError,
> {
    match r {
        Ok(v) => Ok(local_entries_view(v@)),
        Err(e) => Err(e),
    }
}

fn clone_details(d: &Option<String>) -> (r: Option<String>)
    ensures
        opt_string_view(r) == opt_string_view(*d),
{
    match d {
        Some(s) => Some(s.clone()),
        None => None,
    }
}

/// Whether date `c` exists and falls on a day of range `b`.
fn in_range_exec(b: &BoundaryPair, c: &CalendarDate) -> (r: bool)
    ensures
        r == in_range(*b, *c),
{
    make_date(c.year, c.month, c.day).is_some() && b.lower.date.le(c) && c.le(&b.upper.date)
}

/// The first of the two candidate dates that falls inside `b`.
fn first_in_range(b: &BoundaryPair, c1: CalendarDate, c2: CalendarDate) -> (r: Option<
    CalendarDate,
>)
    ensures
        r == (if in_range(*b, c1) {
            Some(c1)
        } else if in_range(*b, c2) {
            Some(c2)
        } else {
            None
        }),
{
    if in_range_exec(b, &c1) {
        Some(c1)
    } else if in_range_exec(b, &c2) {
        Some(c2)
    } else {
        None
    }
}

/// The date of `day` in the month of the lower end of `b`, or else in that of its
/// upper end, that falls inside `b`.
pub fn place_day_exec(b: &BoundaryPair, day: u32) -> (r: Option<CalendarDate>)
    ensures
        r == place_day(*b, day),
{
    first_in_range(
        b,
        CalendarDate { year: b.lower.date.year, month: b.lower.date.month, day },
        CalendarDate { year: b.upper.date.year, month: b.upper.date.month, day },
    )
}

/// The date of `day` in `month` that falls inside `b`.
pub fn place_in_month_exec(b: &BoundaryPair, day: u32, month: u32) -> (r: Option<CalendarDate>)
    ensures
        r == place_in_month(*b, day, month),
{
    first_in_range(
        b,
        CalendarDate { year: b.lower.date.year, month, day },
        CalendarDate { year: b.upper.date.year, month, day },
    )
}

/// The showings on `date` at each of `times`, each with the note `details`.
fn showings(date: CalendarDate, times: &Vec<(u32, u32)>, details: &Option<String>) -> (r: Result<
    Vec<LocalEntry>,
    BlockError,
>)
    ensures
        block_view(r) == showings_from(date, times@, opt_string_view(*details), 0),
{
    let ghost d = opt_string_view(*details);
    let mut out: Vec<LocalEntry> = Vec::new();
    let mut k: usize = 0;
    while k < times.len()
        invariant
            k <= times.len(),
            d == opt_string_view(*details),
            showings_from(date, times@, d, 0) == match showings_from(date, times@, d, k as int) {
                Ok(rest) => Ok(local_entries_view(out@) + rest),
                Err(e) => Err(e),
            },
        decreases times.len() - k,
    {
        let (h, m) = times[k];
        if h >= 24 || m >= 60 {
            return Err(BlockError::InvalidTime(h, m));
        }
        let e = LocalEntry {
            date: LocalDateTime { date, hour: h, minute: m, second: 0 },
            additional_details: clone_details(details),
        };
        proof {
            assert(local_entries_view(out@.push(e)) =~= local_entries_view(out@).push(e@));
            match showings_from(date, times@, d, k + 1) {
                Ok(rest) => {
                    assert(local_entries_view(out@).push(e@) + rest =~= local_entries_view(out@)
                        + (seq![e@] + rest));
                },
                Err(_) => {},
            }
        }
        out.push(e);
        k = k + 1;
    }
    proof {
        assert(local_entries_view(out@) + seq![] =~= local_entries_view(out@));
    }
    Ok(out)
}

/// What becomes of date entry `token` within range `b`: its showings, or `Uncertain`
/// where its day falls in neither month of the range.
pub fn parse_date_entry(token: &DateEntryToken, b: &BoundaryPair) -> (r: Result<
    ParsedDateEntries,
    BlockError,
>)
    ensures
        match entry_outcome(token@, *b) {
            Ok(EntryOutcome::Parsed(v)) => r matches Ok(ParsedDateEntries::Parsed(w))
                && local_entries_view(w@) == v,
            Ok(EntryOutcome::Uncertain) => r matches Ok(ParsedDateEntries::Uncertain),
            Err(e) => r == Err::<ParsedDateEntries, BlockError>(e),
        },
        token.day is None || token.times.len() == 0 ==> r == Err::<ParsedDateEntries, BlockError>(
            BlockError::MissingData { day: token.day is None, times: token.times.len() == 0 },
        ),
{
    let day = match token.day {
        Some(d) => d,
        None => {
            return Err(
                BlockError::MissingData { day: true, times: token.times.len() == 0 },
            );
        },
    };
    if token.times.len() == 0 {
        return Err(BlockError::MissingData { day: false, times: true });
    }
    let placed = match token.month {
        Some(m) => place_in_month_exec(b, day, m),
        None => place_day_exec(b, day),
    };
    match placed {
        None => match token.month {
            Some(m) => Err(BlockError::DateOutOfRange(day, m)),
            None => Ok(ParsedDateEntries::Uncertain),
        },
        Some(date) => match showings(date, &token.times, &token.details) {
            Err(e) => Err(e),
            Ok(v) => Ok(ParsedDateEntries::Parsed(v)),
        },
    }
}

/// Once a pass fails, it fails the same way over all longer prefixes.
proof fn lemma_first_pass_error_stays(toks: Seq<DateEntryTokenView>, b: BoundaryPair, k: int, n: int)
    requires
        1 <= k <= n,
        first_pass(toks, b, k) is Err,
    ensures
        first_pass(toks, b, n) == first_pass(toks, b, k),
    decreases n - k,
{
    if k < n {
        lemma_first_pass_error_stays(toks, b, k + 1, n);
    }
}

proof fn lemma_second_pass_error_stays(
    deferred: Seq<DateEntryTokenView>,
    b: BoundaryPair,
    done: Seq<(LocalDateTime, Option<Seq<char>>)>,
    k: int,
    n: int,
)
    requires
        1 <= k <= n,
        second_pass(deferred, b, done, k) is Err,
    ensures
        second_pass(deferred, b, done, n) == second_pass(deferred, b, done, k),
    decreases n - k,
{
    if k < n {
        lemma_second_pass_error_stays(deferred, b, done, k + 1, n);
    }
}

/// The showings of the date entries of one schedule box, within range `b`, in the order
/// of the entries; those whose day first fell in neither month of the range are tried
/// once more after all others, and fail the block if they still do not resolve.
pub fn resolve_date_entries(tokens: &Vec<DateEntryToken>, b: &BoundaryPair) -> (r: Result<
    Vec<LocalEntry>,
    BlockError,
>)
    ensures
        block_view(r) == resolve_block(tokens_view(tokens@), *b),
{
    let ghost toks = tokens_view(tokens@);
    let mut done: Vec<LocalEntry> = Vec::new();
    let mut deferred: Vec<usize> = Vec::new();
    let mut k: usize = 0;
    proof {
        assert(local_entries_view(done@) =~= seq![]);
        assert(deferred@.map_values(|i: usize| toks[i as int]) =~= seq![]);
    }
    while k < tokens.len()
        invariant
            k <= tokens.len(),
            toks == tokens_view(tokens@),
            forall|j: int| 0 <= j < deferred.len() ==> #[trigger] deferred@[j] < tokens.len(),
            first_pass(toks, *b, k as int) == Ok::<_, BlockError>(
                (
                    local_entries_view(done@),
                    deferred@.map_values(|i: usize| toks[i as int]),
                ),
            ),
        decreases tokens.len() - k,
    {
        match parse_date_entry(&tokens[k], b) {
            Err(e) => {
                proof {
                    lemma_first_pass_error_stays(toks, *b, (k + 1) as int, toks.len() as int);
                }
                return Err(e);
            },
            Ok(ParsedDateEntries::Parsed(v)) => {
                let ghost before = done@;
                let ghost added = v@;
                let mut v = v;
                done.append(&mut v);
                proof {
                    assert(local_entries_view(done@) =~= local_entries_view(before)
                        + local_entries_view(added));
                }
            },
            Ok(ParsedDateEntries::Uncertain) => {
                let ghost before = deferred@;
                deferred.push(k);
                proof {
                    assert(deferred@.map_values(|i: usize| toks[i as int]) =~= before.map_values(
                        |i: usize| toks[i as int],
                    ).push(toks[k as int]));
                }
            },
        }
        k = k + 1;
    }
    let ghost first_done = local_entries_view(done@);
    assert(toks.len() == tokens.len());
    let ghost ds = deferred@.map_values(|i: usize| toks[i as int]);
    let mut j: usize = 0;
    while j < deferred.len()
        invariant
            j <= deferred.len(),
            toks == tokens_view(tokens@),
            ds == deferred@.map_values(|i: usize| toks[i as int]),
            toks.len() == tokens.len(),
            first_pass(toks, *b, toks.len() as int) == Ok::<_, BlockError>((first_done, ds)),
            forall|m: int| 0 <= m < deferred.len() ==> #[trigger] deferred@[m] < tokens.len(),
            second_pass(ds, *b, first_done, j as int) == Ok::<_, BlockError>(
                local_entries_view(done@),
            ),
        decreases deferred.len() - j,
    {
        let i = deferred[j];
        assert(ds[j as int] == toks[i as int]);
        match parse_date_entry(&tokens[i], b) {
            Err(e) => {
                proof {
                    lemma_second_pass_error_stays(ds, *b, first_done, (j + 1) as int, ds.len() as int);
                }
                return Err(e);
            },
            Ok(ParsedDateEntries::Parsed(v)) => {
                let ghost before = done@;
                let ghost added = v@;
                let mut v = v;
                done.append(&mut v);
                proof {
                    assert(local_entries_view(done@) =~= local_entries_view(before)
                        + local_entries_view(added));
                }
            },
            Ok(ParsedDateEntries::Uncertain) => {
                let day = match tokens[i].day {
                    Some(d) => d,
                    None => 0,
                };
                proof {
                    lemma_second_pass_error_stays(ds, *b, first_done, (j + 1) as int, ds.len() as int);
                }
                return Err(BlockError::UnresolvableDay(day));
            },
        }
        j = j + 1;
    }
    Ok(done)
}

/// An entry that lacks its day number, or has no time, fails its whole block: it is
/// never dropped in silence.
pub proof fn lemma_incomplete_entry_fails_block(
    toks: Seq<DateEntryTokenView>,
    b: BoundaryPair,
    i: int,
)
    requires
        0 <= i < toks.len(),
        toks[i].day is None || toks[i].times.len() == 0,
    ensures
        resolve_block(toks, b) is Err,
{
    assert(first_pass(toks, b, i + 1) is Err);
    lemma_first_pass_error_stays(toks, b, i + 1, toks.len() as int);
}

/// Every showing in `v` is a wall-clock time that exists, on a day of range `b`.
pub open spec fn all_within(b: BoundaryPair, v: Seq<(LocalDateTime, Option<Seq<char>>)>) -> bool {
    forall|i: int| 0 <= i < v.len() ==> in_range(b, #[trigger] v[i].0.date) && v[i].0.wf()
}

proof fn lemma_all_within_concat(
    b: BoundaryPair,
    x: Seq<(LocalDateTime, Option<Seq<char>>)>,
    y: Seq<(LocalDateTime, Option<Seq<char>>)>,
)
    requires
        all_within(b, x),
        all_within(b, y),
    ensures
        all_within(b, x + y),
{
    assert forall|i: int| 0 <= i < (x + y).len() implies in_range(b, #[trigger] (x + y)[i].0.date)
        && (x + y)[i].0.wf() by {
        if i >= x.len() {
            assert((x + y)[i] == y[i - x.len()]);
        }
    }
}

proof fn lemma_showings_within(
    b: BoundaryPair,
    date: CalendarDate,
    times: Seq<(u32, u32)>,
    details: Option<Seq<char>>,
    k: int,
)
    requires
        in_range(b, date),
    ensures
        showings_from(date, times, details, k) matches Ok(v) ==> all_within(b, v),
    decreases times.len() - k,
{
    if 0 <= k < times.len() {
        lemma_showings_within(b, date, times, details, k + 1);
        match showings_from(date, times, details, k + 1) {
            Ok(rest) => {
                let (h, m) = times[k];
                if is_valid_time(h as int, m as int, 0) {
                    let one = seq![(LocalDateTime { date, hour: h, minute: m, second: 0 }, details)];
                    assert(all_within(b, one));
                    lemma_all_within_concat(b, one, rest);
                }
            },
            Err(_) => {},
        }
    }
}

proof fn lemma_entry_within(t: DateEntryTokenView, b: BoundaryPair)
    ensures
        entry_outcome(t, b) matches Ok(EntryOutcome::Parsed(v)) ==> all_within(b, v),
{
    if t.day is Some && t.times.len() > 0 {
        let placed = match t.month {
            Some(m) => place_in_month(b, t.day->0, m),
            None => place_day(b, t.day->0),
        };
        match placed {
            Some(date) => lemma_showings_within(b, date, t.times, t.details, 0),
            None => {},
        }
    }
}

proof fn lemma_first_pass_within(toks: Seq<DateEntryTokenView>, b: BoundaryPair, k: int)
    ensures
        first_pass(toks, b, k) matches Ok((done, _)) ==> all_within(b, done),
    decreases k,
{
    if k > 0 {
        lemma_first_pass_within(toks, b, k - 1);
        lemma_entry_within(toks[k - 1], b);
        match first_pass(toks, b, k - 1) {
            Ok((done, _)) => match entry_outcome(toks[k - 1], b) {
                Ok(EntryOutcome::Parsed(v)) => lemma_all_within_concat(b, done, v),
                _ => {},
            },
            Err(_) => {},
        }
    }
}

proof fn lemma_second_pass_within(
    deferred: Seq<DateEntryTokenView>,
    b: BoundaryPair,
    done: Seq<(LocalDateTime, Option<Seq<char>>)>,
    k: int,
)
    requires
        all_within(b, done),
    ensures
        second_pass(deferred, b, done, k) matches Ok(v) ==> all_within(b, v),
    decreases k,
{
    if k > 0 {
        lemma_second_pass_within(deferred, b, done, k - 1);
        lemma_entry_within(deferred[k - 1], b);
        match second_pass(deferred, b, done, k - 1) {
            Ok(acc) => match entry_outcome(deferred[k - 1], b) {
                Ok(EntryOutcome::Parsed(v)) => lemma_all_within_concat(b, acc, v),
                _ => {},
            },
            Err(_) => {},
        }
    }
}

/// Every showing that a block resolves to lies inside the subject's range, from the
/// midnight of its first day to 23:59:59 of its last, and is a time that exists.
pub proof fn lemma_block_within_range(toks: Seq<DateEntryTokenView>, b: BoundaryPair)
    requires
        b.wf(),
    ensures
        resolve_block(toks, b) matches Ok(v) ==> forall|i: int|
            0 <= i < v.len() ==> #[trigger] v[i].0.wf() && b.lower.spec_le(v[i].0) && v[i].0.spec_le(
                b.upper,
            ),
{
    lemma_first_pass_within(toks, b, toks.len() as int);
    match first_pass(toks, b, toks.len() as int) {
        Ok((done, deferred)) => {
            lemma_second_pass_within(deferred, b, done, deferred.len() as int);
            match resolve_block(toks, b) {
                Ok(v) => {
                    assert forall|i: int| 0 <= i < v.len() implies #[trigger] v[i].0.wf()
                        && b.lower.spec_le(v[i].0) && v[i].0.spec_le(b.upper) by {
                        assert(in_range(b, v[i].0.date));
                    }
                },
                Err(_) => {},
            }
        },
        Err(_) => {},
    }
}

} // verus!
