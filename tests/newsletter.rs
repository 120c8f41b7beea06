use alfieri_newsletter::calendar::{CalendarDate, LocalDateTime, RomeDateTime};
use alfieri_newsletter::error::{BlockError, ParseError};
use alfieri_newsletter::newsletter::{
    parse_block, parse_email_body, parse_email_body_in_year, rome_date_time, DateEntry,
    NewsletterEntry, ProgrammingEntry,
};
use alfieri_newsletter::subject::parse_subject_line_dates;

const SUBJECT: &str = "Spazio Alfieri • programmazione 25 settembre > 2 ottobre";
const LINK: &str = "https://example.org/newsletter?mailid=231&lang=it";

fn nest(inner: &str) -> String {
    format!("<table><tbody><tr><td>{}</td></tr></tbody></table>", inner)
}

fn schedule(title: &str, lines: &[&str]) -> String {
    let mut inner = format!("<table><tbody><tr><td><h1>{}</h1></td></tr><tr><td>", title);
    inner.push_str(&lines.join("<br>"));
    inner.push_str("</td></tr></tbody></table>");
    nest(&nest(&nest(&nest(&inner))))
}

fn document(link: &str, boxes: &[String]) -> String {
    let anchor = nest(&nest(&format!("<p><a href=\"{}\">Apri nel browser</a></p>", link)));
    format!(
        "<!DOCTYPE html><html><head><title>Newsletter</title></head><body>{}<div><div><div>{}</div></div></div></body></html>",
        anchor,
        boxes.join("")
    )
}

fn rome(year: i32, month: u32, day: u32, hour: u32, minute: u32, offset: i32) -> RomeDateTime {
    RomeDateTime {
        local: LocalDateTime { date: CalendarDate { year, month, day }, hour, minute, second: 0 },
        utc_offset_seconds: offset,
    }
}

fn entry(year: i32, month: u32, day: u32, hour: u32, minute: u32, details: Option<&str>) -> DateEntry {
    DateEntry { date: rome(year, month, day, hour, minute, 7200), additional_details: details.map(String::from) }
}

#[test]
fn parser_with_inline_newsletter_returns_expected_result() {
    let body = document(
        LINK,
        &[
            schedule("LA SINDROME DEGLI AMORI PASSATI", &["mercoledì 25 17:00"]),
            schedule(
                "MARIA MONTESSORI",
                &["mercoledì 25 21:00", "giovedì 26 17:00", "venerdì 27 17:00 21:15", "mercoledì 2 ottobre 21:15"],
            ),
            schedule(
                "MAKING OF",
                &["giovedì 26 15:00", "venerdì 27 19:00 —  versione originale con sottotitoli", "martedì 1 21:15"],
            ),
        ],
    );
    let parsed = parse_email_body_in_year(SUBJECT.to_string(), body, 2024).unwrap();
    let expected = NewsletterEntry {
        programming_entries: vec![
            ProgrammingEntry {
                title: "LA SINDROME DEGLI AMORI PASSATI".to_string(),
                date_entries: vec![entry(2024, 9, 25, 17, 0, None)],
            },
            ProgrammingEntry {
                title: "MARIA MONTESSORI".to_string(),
                date_entries: vec![
                    entry(2024, 9, 25, 21, 0, None),
                    entry(2024, 9, 26, 17, 0, None),
                    entry(2024, 9, 27, 17, 0, None),
                    entry(2024, 9, 27, 21, 15, None),
                    entry(2024, 10, 2, 21, 15, None),
                ],
            },
            ProgrammingEntry {
                title: "MAKING OF".to_string(),
                date_entries: vec![
                    entry(2024, 9, 26, 15, 0, None),
                    entry(2024, 9, 27, 19, 0, Some("—  versione originale con sottotitoli")),
                    entry(2024, 10, 1, 21, 15, None),
                ],
            },
        ],
        newsletter_link: LINK.to_string(),
    };
    assert_eq!(parsed, expected);
}

#[test]
fn parsing_twice_gives_identical_results() {
    let body = document(LINK, &[schedule("GLORIA MUNDI", &["giovedì 26 19:00"])]);
    let first = parse_email_body_in_year(SUBJECT.to_string(), body.clone(), 2024);
    let second = parse_email_body_in_year(SUBJECT.to_string(), body, 2024);
    assert_eq!(first, second);
    assert!(first.is_ok());
}

#[test]
fn newsletter_without_titles_has_no_entries() {
    let parsed = parse_email_body_in_year(SUBJECT.to_string(), document(LINK, &[]), 2024).unwrap();
    assert_eq!(parsed.programming_entries, Vec::<ProgrammingEntry>::new());
    assert_eq!(parsed.newsletter_link, LINK.to_string());
}

#[test]
fn missing_link_fails() {
    let body = format!("<html><body><div><div><div>{}</div></div></div></body></html>", schedule("CUORI LIBERI", &["giovedì 26 21:15"]));
    assert_eq!(parse_email_body_in_year(SUBJECT.to_string(), body, 2024), Err(ParseError::MissingLink));
}

#[test]
fn link_without_href_fails() {
    let anchor = nest(&nest("<p><a name=\"top\">Apri</a></p>"));
    let body = format!("<html><body>{}</body></html>", anchor);
    assert_eq!(parse_email_body_in_year(SUBJECT.to_string(), body, 2024), Err(ParseError::MissingHref));
}

#[test]
fn title_without_text_fails() {
    let body = document(LINK, &[schedule("", &["giovedì 26 21:15"])]);
    assert_eq!(
        parse_email_body_in_year(SUBJECT.to_string(), body, 2024),
        Err(ParseError::MissingTitleText(0))
    );
}

#[test]
fn title_outside_a_table_body_fails() {
    let odd = nest(&nest(&nest(&nest("<table><tbody><tr><td><div><h1>MARIUS E JEANNETTE</h1></div></td></tr></tbody></table>"))));
    let body = document(LINK, &[schedule("GLORIA MUNDI", &["giovedì 26 19:00"]), odd]);
    assert_eq!(
        parse_email_body_in_year(SUBJECT.to_string(), body, 2024),
        Err(ParseError::MissingScheduleBox(1))
    );
}

#[test]
fn block_failure_fails_the_whole_parse() {
    let body = document(
        LINK,
        &[schedule("GLORIA MUNDI", &["giovedì 26 19:00"]), schedule("CUORI LIBERI", &["martedì 31 21:15"])],
    );
    assert_eq!(
        parse_email_body_in_year(SUBJECT.to_string(), body, 2024),
        Err(ParseError::InBlock(1, BlockError::UnresolvableDay(31)))
    );
}

#[test]
fn subject_failure_fails_the_whole_parse() {
    let body = document(LINK, &[schedule("GLORIA MUNDI", &["giovedì 26 19:00"])]);
    assert_eq!(
        parse_email_body_in_year("programmazione 25 settembre".to_string(), body, 2024),
        Err(ParseError::DayNumberCount(1))
    );
}

#[test]
fn winter_dates_get_the_winter_offset() {
    let body = document(LINK, &[schedule("LA MOGLIE DELL'AVIATORE", &["lunedì 30 19:15 — versione originale con sottotitoli", "giovedì 2 17:00"])]);
    let parsed = parse_email_body_in_year("programmazione 27 dicembre > 3 gennaio".to_string(), body, 2024).unwrap();
    assert_eq!(
        parsed.programming_entries[0].date_entries,
        vec![
            DateEntry {
                date: rome(2024, 12, 30, 19, 15, 3600),
                additional_details: Some("— versione originale con sottotitoli".to_string()),
            },
            DateEntry { date: rome(2025, 1, 2, 17, 0, 3600), additional_details: None },
        ]
    );
}

#[test]
fn rome_offsets_follow_daylight_saving_time() {
    let at = |month: u32, day: u32, hour: u32, minute: u32| LocalDateTime {
        date: CalendarDate { year: 2024, month, day },
        hour,
        minute,
        second: 0,
    };
    assert_eq!(rome_date_time(at(9, 25, 17, 0)), Some(rome(2024, 9, 25, 17, 0, 7200)));
    assert_eq!(rome_date_time(at(1, 15, 9, 0)), Some(rome(2024, 1, 15, 9, 0, 3600)));
    assert_eq!(rome_date_time(at(3, 31, 2, 30)), None);
    assert_eq!(rome_date_time(at(10, 27, 2, 30)), None);
}

#[test]
fn parse_in_current_year_reads_the_same_document() {
    let body = document(LINK, &[]);
    let parsed = parse_email_body("programmazione 2 > 8 ottobre".to_string(), body).unwrap();
    assert_eq!(parsed.newsletter_link, LINK.to_string());
}

#[test]
fn skipped_wall_clock_time_fails() {
    let body = document(LINK, &[schedule("CUORI LIBERI", &["domenica 31 2:30"])]);
    let local = LocalDateTime { date: CalendarDate { year: 2024, month: 3, day: 31 }, hour: 2, minute: 30, second: 0 };
    assert_eq!(
        parse_email_body_in_year("programmazione 31 marzo > 31 marzo".to_string(), body, 2024),
        Err(ParseError::InBlock(0, BlockError::NoSingleRomeTime(local)))
    );
}

#[test]
fn parse_block_dates_one_schedule_text() {
    let b = parse_subject_line_dates(SUBJECT, 2024).unwrap();
    assert_eq!(
        parse_block("GLORIA MUNDI \n giovedì 26 19:00 \n lunedì 30 17:15", &b),
        Ok(vec![entry(2024, 9, 26, 19, 0, None), entry(2024, 9, 30, 17, 15, None)])
    );
    assert_eq!(parse_block("lunedì 31 17:15", &b), Err(BlockError::UnresolvableDay(31)));
}
