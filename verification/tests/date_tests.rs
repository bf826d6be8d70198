use rs_weight_tracker::date::{parse_date, Date, DateField, ParseError};

fn ymd(year: i32, month: u32, day: u32) -> Date {
    Date::from_ymd(year, month, day).unwrap()
}

#[test]
fn day_numbers_match_the_proleptic_gregorian_count() {
    assert_eq!(ymd(1, 1, 1).day, 1);
    assert_eq!(ymd(1, 12, 31).day, 365);
    assert_eq!(ymd(2, 1, 1).day, 366);
    assert_eq!(ymd(0, 1, 1).day, -365);
    assert_eq!(ymd(1970, 1, 1).day, 719_163);
    assert_eq!(ymd(2024, 1, 1).day, 738_886);
}

#[test]
fn day_numbers_agree_with_chrono() {
    // The trusted conversion must match what chrono itself computes.
    for (y, m, d) in [
        (2024, 2, 29),
        (1999, 12, 31),
        (1, 1, 1),
        (-4, 2, 29),
        (400, 3, 1),
        (1900, 3, 1),
        (2000, 12, 31),
        (-262143, 1, 1),
        (262142, 12, 31),
    ] {
        let expected = chrono::Datelike::num_days_from_ce(
            &chrono::NaiveDate::from_ymd_opt(y, m, d).unwrap(),
        ) as i64;
        assert_eq!(ymd(y, m, d).day, expected);
    }
}

#[test]
fn consecutive_days_differ_by_one() {
    assert_eq!(ymd(2023, 12, 31).day + 1, ymd(2024, 1, 1).day);
    assert_eq!(ymd(2024, 2, 28).day + 1, ymd(2024, 2, 29).day);
    assert_eq!(ymd(2024, 2, 29).day + 1, ymd(2024, 3, 1).day);
    assert_eq!(ymd(2023, 2, 28).day + 1, ymd(2023, 3, 1).day);
}

#[test]
fn from_ymd_rejects_only_the_invalid_triples() {
    assert!(Date::from_ymd(2015, 3, 14).is_some());
    assert!(Date::from_ymd(2015, 0, 14).is_none());
    assert!(Date::from_ymd(2015, 13, 14).is_none());
    assert!(Date::from_ymd(2015, 2, 29).is_none());
    assert!(Date::from_ymd(2016, 2, 29).is_some());
    assert!(Date::from_ymd(1900, 2, 29).is_none());
    assert!(Date::from_ymd(2000, 2, 29).is_some());
    assert!(Date::from_ymd(2023, 4, 31).is_none());
    assert!(Date::from_ymd(2023, 4, 30).is_some());
    assert!(Date::from_ymd(400000, 1, 1).is_none());
    assert!(Date::from_ymd(-400000, 1, 1).is_none());
}

#[test]
fn parse_date_accepts_dashed_dates() {
    assert_eq!(parse_date("2024-01-15"), Ok(ymd(2024, 1, 15)));
    assert_eq!(parse_date("2024-1-5"), Ok(ymd(2024, 1, 5)));
    assert_eq!(parse_date("0001-01-01"), Ok(ymd(1, 1, 1)));
    // Text after a fourth separator is ignored.
    assert_eq!(parse_date("2024-01-15-extra"), Ok(ymd(2024, 1, 15)));
}

#[test]
fn parse_date_reports_the_offending_field() {
    assert_eq!(
        parse_date(""),
        Err(ParseError::InvalidNumber { field: DateField::Year })
    );
    assert_eq!(
        parse_date("abc-01-02"),
        Err(ParseError::InvalidNumber { field: DateField::Year })
    );
    assert_eq!(
        parse_date("+2024-01-02"),
        Err(ParseError::InvalidNumber { field: DateField::Year })
    );
    assert_eq!(
        parse_date("99999999999-01-02"),
        Err(ParseError::InvalidNumber { field: DateField::Year })
    );
    assert_eq!(
        parse_date("2024"),
        Err(ParseError::MissingField { field: DateField::Month })
    );
    assert_eq!(
        parse_date("2024-"),
        Err(ParseError::InvalidNumber { field: DateField::Month })
    );
    assert_eq!(
        parse_date("2024-01"),
        Err(ParseError::MissingField { field: DateField::Day })
    );
    assert_eq!(
        parse_date("2024-01-"),
        Err(ParseError::InvalidNumber { field: DateField::Day })
    );
    assert_eq!(
        parse_date("2024-01-05x"),
        Err(ParseError::InvalidNumber { field: DateField::Day })
    );
    assert_eq!(parse_date("2023-02-29"), Err(ParseError::InvalidDate));
    assert_eq!(parse_date("2024-13-01"), Err(ParseError::InvalidDate));
    assert_eq!(parse_date("2024-00-01"), Err(ParseError::InvalidDate));
}
