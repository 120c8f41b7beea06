use alfieri_newsletter::calendar::{CalendarDate, LocalDateTime};
use alfieri_newsletter::error::BlockError;
use alfieri_newsletter::grammar::{DateEntryParser, DateEntryToken};
use alfieri_newsletter::resolve::{
    parse_date_entry, resolve_date_entries, LocalEntry, ParsedDateEntries,
};
use alfieri_newsletter::subject::{parse_subject_line_dates, BoundaryPair};

fn september_range() -> BoundaryPair {
    parse_subject_line_dates("programmazione 25 settembre > 2 ottobre", 2024).unwrap()
}

fn token(day: Option<u32>, month: Option<u32>, times: Vec<(u32, u32)>) -> DateEntryToken {
    DateEntryToken { day, month, times, details: None }
}

fn local(year: i32, month: u32, day: u32, hour: u32, minute: u32) -> LocalDateTime {
    LocalDateTime { date: CalendarDate { year, month, day }, hour, minute, second: 0 }
}

#[test]
fn grammar_reads_day_times_and_details() {
    let toks = DateEntryParser::parse(
        "MAKING OF \n mercoledì 26 15:00 \n venerdì 27 19:00 —  versione originale con sottotitoli \n sabato 28 21:15",
    );
    assert_eq!(
        toks,
        vec![
            token(Some(26), None, vec![(15, 0)]),
            DateEntryToken {
                day: Some(27),
                month: None,
                times: vec![(19, 0)],
                details: Some("—  versione originale con sottotitoli".to_string()),
            },
            token(Some(28), None, vec![(21, 15)]),
        ]
    );
}

#[test]
fn grammar_reads_month_and_several_times() {
    let toks = DateEntryParser::parse("martedì 1 ottobre 17:30 21:15\n");
    assert_eq!(toks, vec![token(Some(1), Some(10), vec![(17, 30), (21, 15)])]);
}

#[test]
fn grammar_skips_text_that_starts_no_entry() {
    let toks = DateEntryParser::parse("Sala 2 \n ore 21:00 \n anno 2024 \n 25 settembre");
    assert_eq!(toks, Vec::<DateEntryToken>::new());
}

#[test]
fn day_fitting_lower_month_resolves_there() {
    let b = september_range();
    let r = parse_date_entry(&token(Some(27), None, vec![(17, 0)]), &b).unwrap();
    match r {
        ParsedDateEntries::Parsed(v) => {
            assert_eq!(v, vec![LocalEntry { date: local(2024, 9, 27, 17, 0), additional_details: None }]);
        }
        ParsedDateEntries::Uncertain => panic!("day 27 should resolve"),
    }
}

#[test]
fn day_fitting_upper_month_resolves_there() {
    let b = september_range();
    let v = resolve_date_entries(&vec![token(Some(1), None, vec![(17, 30)])], &b).unwrap();
    assert_eq!(v, vec![LocalEntry { date: local(2024, 10, 1, 17, 30), additional_details: None }]);
}

#[test]
fn unresolvable_day_fails_the_block() {
    let b = september_range();
    let r = parse_date_entry(&token(Some(31), None, vec![(17, 0)]), &b).unwrap();
    assert!(matches!(r, ParsedDateEntries::Uncertain));
    assert_eq!(
        resolve_date_entries(&vec![token(Some(27), None, vec![(17, 0)]), token(Some(31), None, vec![(17, 0)])], &b),
        Err(BlockError::UnresolvableDay(31))
    );
}

#[test]
fn missing_day_or_times_fails() {
    let b = september_range();
    assert_eq!(
        resolve_date_entries(&vec![token(None, None, vec![(17, 0)])], &b),
        Err(BlockError::MissingData { day: true, times: false })
    );
    assert_eq!(
        resolve_date_entries(&vec![token(Some(27), None, vec![])], &b),
        Err(BlockError::MissingData { day: false, times: true })
    );
    assert_eq!(
        resolve_date_entries(&vec![token(None, None, vec![])], &b),
        Err(BlockError::MissingData { day: true, times: true })
    );
}

#[test]
fn explicit_month_is_kept_and_checked() {
    let b = september_range();
    let v = resolve_date_entries(&vec![token(Some(2), Some(10), vec![(21, 15)])], &b).unwrap();
    assert_eq!(v, vec![LocalEntry { date: local(2024, 10, 2, 21, 15), additional_details: None }]);
    assert_eq!(
        resolve_date_entries(&vec![token(Some(5), Some(11), vec![(17, 0)])], &b),
        Err(BlockError::DateOutOfRange(5, 11))
    );
}

#[test]
fn invalid_time_fails() {
    let b = september_range();
    assert_eq!(
        resolve_date_entries(&vec![token(Some(27), None, vec![(17, 0), (25, 0)])], &b),
        Err(BlockError::InvalidTime(25, 0))
    );
    assert_eq!(
        resolve_date_entries(&vec![token(Some(27), None, vec![(17, 60)])], &b),
        Err(BlockError::InvalidTime(17, 60))
    );
}

#[test]
fn times_fan_out_with_shared_details_in_entry_order() {
    let b = september_range();
    let toks = vec![
        DateEntryToken {
            day: Some(28),
            month: None,
            times: vec![(15, 30), (19, 15)],
            details: Some("v.o.".to_string()),
        },
        token(Some(25), None, vec![(21, 0)]),
    ];
    let v = resolve_date_entries(&toks, &b).unwrap();
    assert_eq!(
        v,
        vec![
            LocalEntry { date: local(2024, 9, 28, 15, 30), additional_details: Some("v.o.".to_string()) },
            LocalEntry { date: local(2024, 9, 28, 19, 15), additional_details: Some("v.o.".to_string()) },
            LocalEntry { date: local(2024, 9, 25, 21, 0), additional_details: None },
        ]
    );
}

#[test]
fn crossover_range_places_days_in_both_years() {
    let b = parse_subject_line_dates("27 dicembre > 3 gennaio", 2024).unwrap();
    let v = resolve_date_entries(
        &vec![token(Some(30), None, vec![(18, 0)]), token(Some(2), None, vec![(20, 0)])],
        &b,
    )
    .unwrap();
    assert_eq!(
        v,
        vec![
            LocalEntry { date: local(2024, 12, 30, 18, 0), additional_details: None },
            LocalEntry { date: local(2025, 1, 2, 20, 0), additional_details: None },
        ]
    );
}
