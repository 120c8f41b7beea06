use alfieri_newsletter::calendar::{month_name_to_number, CalendarDate, LocalDateTime};
use alfieri_newsletter::error::ParseError;
use alfieri_newsletter::subject::{parse_subject_line_dates, SubjectLineParser, SubjectToken};

fn at(year: i32, month: u32, day: u32, hour: u32, minute: u32, second: u32) -> LocalDateTime {
    LocalDateTime { date: CalendarDate { year, month, day }, hour, minute, second }
}

#[test]
fn month_names_map_to_numbers() {
    assert_eq!(month_name_to_number("gennaio"), Ok(1));
    assert_eq!(month_name_to_number("settembre"), Ok(9));
    assert_eq!(month_name_to_number("dicembre"), Ok(12));
}

#[test]
fn unknown_month_name_is_rejected() {
    assert_eq!(
        month_name_to_number("september"),
        Err(ParseError::InvalidMonth("september".to_string()))
    );
    assert_eq!(month_name_to_number("Settembre"), Err(ParseError::InvalidMonth("Settembre".to_string())));
}

#[test]
fn subject_tokens_skip_other_text() {
    let toks = SubjectLineParser::tokens("Spazio Alfieri • programmazione 25 settembre > 2 ottobre 2024");
    assert_eq!(
        toks,
        vec![
            SubjectToken::DayNumber(25),
            SubjectToken::Month(9),
            SubjectToken::DayNumber(2),
            SubjectToken::Month(10),
        ]
    );
}

#[test]
fn subject_with_two_months_gives_range() {
    let b = parse_subject_line_dates("Spazio Alfieri • programmazione 25 settembre > 2 ottobre", 2024).unwrap();
    assert_eq!(b.lower, at(2024, 9, 25, 0, 0, 0));
    assert_eq!(b.upper, at(2024, 10, 2, 23, 59, 59));
}

#[test]
fn subject_with_one_month_shares_it() {
    let b = parse_subject_line_dates("programmazione 2 > 8 ottobre", 2024).unwrap();
    assert_eq!(b.lower, at(2024, 10, 2, 0, 0, 0));
    assert_eq!(b.upper, at(2024, 10, 8, 23, 59, 59));
}

#[test]
fn year_crossover_moves_upper_to_next_year() {
    let b = parse_subject_line_dates("programmazione 27 dicembre > 3 gennaio", 2024).unwrap();
    assert_eq!(b.lower.date.year, 2024);
    assert_eq!(b.upper.date.year, 2025);
    assert_eq!(b.lower, at(2024, 12, 27, 0, 0, 0));
    assert_eq!(b.upper, at(2025, 1, 3, 23, 59, 59));
}

#[test]
fn range_within_one_day_is_ordered() {
    let b = parse_subject_line_dates("5 maggio > 5 maggio", 2023).unwrap();
    assert!(b.lower.date == b.upper.date);
    assert_eq!(b.upper, at(2023, 5, 5, 23, 59, 59));
}

#[test]
fn wrong_day_number_count_fails() {
    assert_eq!(
        parse_subject_line_dates("programmazione 25 settembre", 2024),
        Err(ParseError::DayNumberCount(1))
    );
    assert_eq!(
        parse_subject_line_dates("1 > 2 > 3 ottobre", 2024),
        Err(ParseError::MisplacedMonth)
    );
    assert_eq!(parse_subject_line_dates("programmazione", 2024), Err(ParseError::DayNumberCount(0)));
}

#[test]
fn month_before_any_day_fails() {
    assert_eq!(
        parse_subject_line_dates("settembre 25 > 2 ottobre", 2024),
        Err(ParseError::MisplacedMonth)
    );
}

#[test]
fn missing_or_extra_months_fail() {
    assert_eq!(parse_subject_line_dates("25 > 2", 2024), Err(ParseError::MonthCount(0)));
    assert_eq!(
        parse_subject_line_dates("25 settembre ottobre > 2 novembre", 2024),
        Err(ParseError::MonthCount(3))
    );
}

#[test]
fn invalid_calendar_dates_fail() {
    assert_eq!(
        parse_subject_line_dates("31 settembre > 2 ottobre", 2024),
        Err(ParseError::InvalidDate(2024, 9, 31))
    );
    assert_eq!(
        parse_subject_line_dates("1 marzo > 29 febbraio", 2024),
        Err(ParseError::InvalidDate(2025, 2, 29))
    );
    assert_eq!(
        parse_subject_line_dates("29 febbraio > 3 marzo", 2023),
        Err(ParseError::InvalidDate(2023, 2, 29))
    );
}

#[test]
fn crossover_past_the_last_year_fails() {
    assert_eq!(
        parse_subject_line_dates("27 dicembre > 3 gennaio", i32::MAX),
        Err(ParseError::YearOutOfRange)
    );
}
