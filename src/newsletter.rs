//! The whole parse: the subject's range, the document's schedule boxes, and for each
//! box the showings of its date entries in Rome time. Any failure fails the whole parse.

use crate::calendar::{current_year, rome_offset, rome_offset_of, LocalDateTime, RomeDateTime};
use crate::error::{BlockError, ParseError};
use crate::grammar::{date_entry_tokens, opt_string_view, DateEntryParser};
use crate::html::{
    document_of, document_structure, read_document, walk_document, DocumentNodes, DomNodeView,
};
use crate::resolve::{local_entries_view, resolve_block, resolve_date_entries, LocalEntry};
use crate::subject::{parse_subject_line_dates, subject_bounds, BoundaryPair};
use vstd::prelude::*;

verus! {

/// One showing of a title: when, in Rome, and a note such as the language it is shown in.
#[derive(Clone, Debug, PartialEq, Eq)]
pub struct DateEntry {
    pub date: RomeDateTime,
    pub additional_details: Option<String>,
}

/// A title and its showings, in the order of its schedule text.
#[derive(Clone, Debug, PartialEq, Eq)]
pub struct ProgrammingEntry {
    pub title: String,
    pub date_entries: Vec<DateEntry>,
}

/// A parsed newsletter: its titles in document order, and its link.
#[derive(Clone, Debug, PartialEq, Eq)]
pub struct NewsletterEntry {
    pub programming_entries: Vec<ProgrammingEntry>,
    pub newsletter_link: String,
}

impl View for DateEntry {
    type V = (RomeDateTime, Option<Seq<char>>);

    open spec fn view(&self) -> (RomeDateTime, Option<Seq<char>>) {
        (self.date, opt_string_view(self.additional_details))
    }
}

pub open spec fn date_entries_view(v: Seq<DateEntry>) -> Seq<(RomeDateTime, Option<Seq<char>>)> {
    v.map_values(|e: DateEntry| e@)
}

impl View for ProgrammingEntry {
    type V = (Seq<char>, Seq<(RomeDateTime, Option<Seq<char>>)>);

    open spec fn view(&self) -> (Seq<char>, Seq<(RomeDateTime, Option<Seq<char>>)>) {
        (self.title@, date_entries_view(self.date_entries@))
    }
}

pub open spec fn programs_view(v: Seq<ProgrammingEntry>) -> Seq<
    (Seq<char>, Seq<(RomeDateTime, Option<Seq<char>>)>),
> {
    v.map_values(|p: ProgrammingEntry| p@)
}

impl View for NewsletterEntry {
    type V = (Seq<(Seq<char>, Seq<(RomeDateTime, Option<Seq<char>>)>)>, Seq<char>);

    open spec fn view(&self) -> (Seq<(Seq<char>, Seq<(RomeDateTime, Option<Seq<char>>)>)>, Seq<char>) {
        (programs_view(self.programming_entries@), self.newsletter_link@)
    }
}

/// A parse outcome as a mathematical value.
pub open spec fn outcome_view(r: Result<NewsletterEntry, ParseError>) -> Result<
    (Seq<(Seq<char>, Seq<(RomeDateTime, Option<Seq<char>>)>)>, Seq<char>),
    ParseError,
> {
    match r {
        Ok(n) => Ok(n@),
        Err(e) => Err(e),
    }
}

/// The first `k` local showings with their offsets in Rome, or the first local time
/// that Rome's clock does not show exactly once.
pub open spec fn with_offsets(locals: Seq<(LocalDateTime, Option<Seq<char>>)>, k: int) -> Result<
    Seq<(RomeDateTime, Option<Seq<char>>)>,
    LocalDateTime,
>
    decreases k,
{
    if k <= 0 {
        Ok(seq![])
    } else {
        match with_offsets(locals, k - 1) {
            Err(l) => Err(l),
            Ok(done) => {
                let (local, details) = locals[k - 1];
                match rome_offset_of(local) {
                    None => Err(local),
                    Some(o) => Ok(
                        done.push((RomeDateTime { local, utc_offset_seconds: o }, details)),
                    ),
                }
            },
        }
    }
}

/// The showings of the schedule text `text` within range `b`.
pub open spec fn block_entries(text: Seq<char>, b: BoundaryPair) -> Result<
    Seq<(RomeDateTime, Option<Seq<char>>)>,
    BlockError,
> {
    match resolve_block(date_entry_tokens(text), b) {
        Err(e) => Err(e),
        Ok(locals) => match with_offsets(locals, locals.len() as int) {
            Err(l) => Err(BlockError::NoSingleRomeTime(l)),
            Ok(v) => Ok(v),
        },
    }
}

/// The titles and showings of the first `k` schedule boxes, or the first failure.
pub open spec fn programs_upto(
    boxes: Seq<(Seq<char>, Seq<char>)>,
    b: BoundaryPair,
    k: int,
) -> Result<Seq<(Seq<char>, Seq<(RomeDateTime, Option<Seq<char>>)>)>, ParseError>
    decreases k,
{
    if k <= 0 {
        Ok(seq![])
    } else {
        match programs_upto(boxes, b, k - 1) {
            Err(e) => Err(e),
            Ok(done) => match block_entries(boxes[k - 1].1, b) {
                Err(e) => Err(ParseError::InBlock((k - 1) as usize, e)),
                Ok(v) => Ok(done.push((boxes[k - 1].0, v))),
            },
        }
    }
}

/// The newsletter in document `doc` (its nodes, and the nodes that the link and title
/// selectors match), within range `b`.
pub open spec fn html_outcome(doc: (Seq<DomNodeView>, Seq<bool>, Seq<bool>), b: BoundaryPair) -> Result<
    (Seq<(Seq<char>, Seq<(RomeDateTime, Option<Seq<char>>)>)>, Seq<char>),
    ParseError,
> {
    match document_structure(doc.0, doc.1, doc.2) {
        Err(e) => Err(e),
        Ok((link, boxes)) => match programs_upto(boxes, b, boxes.len() as int) {
            Err(e) => Err(e),
            Ok(p) => Ok((p, link)),
        },
    }
}

/// The newsletter of an email with subject line `subject` and HTML body `html`, with
/// `year` the current year.
pub open spec fn newsletter_outcome(subject: Seq<char>, html: Seq<char>, year: i32) -> Result<
    (Seq<(Seq<char>, Seq<(RomeDateTime, Option<Seq<char>>)>)>, Seq<char>),
    ParseError,
> {
    match subject_bounds(subject, year) {
        Err(e) => Err(e),
        Ok(b) => match document_of(html) {
            Err(e) => Err(e),
            Ok(doc) => html_outcome(doc, b),
        },
    }
}

/// Local time `local` with its offset in Rome, where Rome's clock shows it exactly once.
pub fn rome_date_time(local: LocalDateTime) -> (r: Option<RomeDateTime>)
    ensures
        r == match rome_offset_of(local) {
            Some(o) => Some(RomeDateTime { local, utc_offset_seconds: o }),
            None => None,
        },
{
    match rome_offset(local) {
        Some(o) => Some(RomeDateTime { local, utc_offset_seconds: o }),
        None => None,
    }
}

proof fn lemma_offsets_error_stays(locals: Seq<(LocalDateTime, Option<Seq<char>>)>, k: int, n: int)
    requires
        1 <= k <= n,
        with_offsets(locals, k) is Err,
    ensures
        with_offsets(locals, n) == with_offsets(locals, k),
    decreases n - k,
{
    if k < n {
        lemma_offsets_error_stays(locals, k + 1, n);
    }
}

/// The local showings `locals` with their offsets in Rome.
fn dated_entries(locals: Vec<LocalEntry>) -> (r: Result<Vec<DateEntry>, LocalDateTime>)
    ensures
        match with_offsets(local_entries_view(locals@), locals.len() as int) {
            Ok(v) => r matches Ok(w) && date_entries_view(w@) == v,
            Err(l) => r == Err::<Vec<DateEntry>, LocalDateTime>(l),
        },
{
    let ghost lv = local_entries_view(locals@);
    let mut out: Vec<DateEntry> = Vec::new();
    let mut k: usize = 0;
    assert(date_entries_view(out@) =~= seq![]);
    while k < locals.len()
        invariant
            k <= locals.len(),
            lv == local_entries_view(locals@),
            with_offsets(lv, k as int) == Ok::<_, LocalDateTime>(date_entries_view(out@)),
        decreases locals.len() - k,
    {
        let local = locals[k].date;
        match rome_date_time(local) {
            None => {
                proof {
                    lemma_offsets_error_stays(lv, (k + 1) as int, lv.len() as int);
                }
                return Err(local);
            },
            Some(date) => {
                let e = DateEntry { date, additional_details: locals[k].additional_details.clone() };
                proof {
                    assert(date_entries_view(out@.push(e)) =~= date_entries_view(out@).push(e@));
                }
                out.push(e);
            },
        }
        k = k + 1;
    }
    Ok(out)
}

/// The showings of schedule text `text` within range `b`, in the order of its entries.
pub fn parse_block(text: &str, b: &BoundaryPair) -> (r: Result<Vec<DateEntry>, BlockError>)
    ensures
        match block_entries(text@, *b) {
            Ok(v) => r matches Ok(w) && date_entries_view(w@) == v,
            Err(e) => r == Err::<Vec<DateEntry>, BlockError>(e),
        },
{
    let tokens = DateEntryParser::parse(text);
    let locals = match resolve_date_entries(&tokens, b) {
        Ok(l) => l,
        Err(e) => return Err(e),
    };
    match dated_entries(locals) {
        Ok(v) => Ok(v),
        Err(l) => Err(BlockError::NoSingleRomeTime(l)),
    }
}

proof fn lemma_programs_error_stays(
    boxes: Seq<(Seq<char>, Seq<char>)>,
    b: BoundaryPair,
    k: int,
    n: int,
)
    requires
        1 <= k <= n,
        programs_upto(boxes, b, k) is Err,
    ensures
        programs_upto(boxes, b, n) == programs_upto(boxes, b, k),
    decreases n - k,
{
    if k < n {
        lemma_programs_error_stays(boxes, b, k + 1, n);
    }
}

/// The newsletter in document `document`, within range `b`.
pub fn parse_html(document: &DocumentNodes, b: &BoundaryPair) -> (r: Result<
    NewsletterEntry,
    ParseError,
>)
    ensures
        outcome_view(r) == html_outcome(document@, *b),
{
    let doc = match walk_document(&document.nodes, &document.links, &document.titles) {
        Ok(d) => d,
        Err(e) => return Err(e),
    };
    let ghost boxes = doc@.1;
    let mut programs: Vec<ProgrammingEntry> = Vec::new();
    let mut k: usize = 0;
    assert(programs_view(programs@) =~= seq![]);
    while k < doc.boxes.len()
        invariant
            k <= doc.boxes.len(),
            boxes == doc@.1,
            html_outcome(document@, *b) == match programs_upto(
                boxes,
                *b,
                boxes.len() as int,
            ) {
                Err(e) => Err(e),
                Ok(p) => Ok((p, doc.newsletter_link@)),
            },
            programs_upto(boxes, *b, k as int) == Ok::<_, ParseError>(programs_view(programs@)),
        decreases doc.boxes.len() - k,
    {
        let bx = &doc.boxes[k];
        assert(boxes[k as int] == (bx.title@, bx.text@));
        match parse_block(bx.text.as_str(), b) {
            Err(e) => {
                proof {
                    lemma_programs_error_stays(boxes, *b, (k + 1) as int, boxes.len() as int);
                }
                return Err(ParseError::InBlock(k, e));
            },
            Ok(entries) => {
                let p = ProgrammingEntry { title: bx.title.clone(), date_entries: entries };
                proof {
                    assert(programs_view(programs@.push(p)) =~= programs_view(programs@).push(p@));
                }
                programs.push(p);
            },
        }
        k = k + 1;
    }
    Ok(NewsletterEntry { programming_entries: programs, newsletter_link: doc.newsletter_link })
}

/// The newsletter of an email with subject line `subject` and HTML body `body`, with
/// `current_year` the year of the range's first day.
pub fn parse_email_body_in_year(subject: String, body: String, current_year: i32) -> (r: Result<
    NewsletterEntry,
    ParseError,
>)
    ensures
        outcome_view(r) == newsletter_outcome(subject@, body@, current_year),
{
    let b = match parse_subject_line_dates(subject.as_str(), current_year) {
        Ok(b) => b,
        Err(e) => return Err(e),
    };
    let document = match read_document(body.as_str()) {
        Ok(d) => d,
        Err(e) => return Err(e),
    };
    parse_html(&document, &b)
}

/// The newsletter of an email with subject line `subject` and HTML body `body`, in the
/// current year.
pub fn parse_email_body(subject: String, body: String) -> (r: Result<NewsletterEntry, ParseError>)
    ensures
        exists|year: i32|
            outcome_view(r) == #[trigger] newsletter_outcome(subject@, body@, year),
{
    let year = current_year();
    let r = parse_email_body_in_year(subject, body, year);
    assert(outcome_view(r) == newsletter_outcome(subject@, body@, year));
    r
}

/// Parsing is a function of the subject line, the body and the year alone: two parses
/// of the same inputs give the same newsletter, or fail the same way.
pub proof fn lemma_parse_deterministic(
    subject1: Seq<char>,
    body1: Seq<char>,
    subject2: Seq<char>,
    body2: Seq<char>,
    year: i32,
)
    requires
        subject1 == subject2,
        body1 == body2,
    ensures
        newsletter_outcome(subject1, body1, year) == newsletter_outcome(subject2, body2, year),
{
}

} // verus!
