use skid::assignment::Assignment;
use skid::date::{Date, MAX_YEAR, MIN_YEAR};
use skid::error::Error;

fn dt_day(year: i32, month: u32, day: u32) -> Date {
    Date::from_ymd(year, month, day).unwrap()
}

#[test]
fn from_ymd_accepts_days_that_exist() {
    let d = dt_day(2025, 1, 31);
    assert_eq!((d.year(), d.month(), d.day()), (2025, 1, 31));
    assert!(Date::from_ymd(2024, 2, 29).is_some());
    assert!(Date::from_ymd(2000, 2, 29).is_some());
    assert!(Date::from_ymd(0, 1, 1).is_some());
    assert!(Date::from_ymd(MIN_YEAR, 1, 1).is_some());
    assert!(Date::from_ymd(MAX_YEAR, 12, 31).is_some());
}

#[test]
fn from_ymd_refuses_days_that_do_not_exist() {
    assert!(Date::from_ymd(2025, 2, 29).is_none());
    assert!(Date::from_ymd(1900, 2, 29).is_none());
    assert!(Date::from_ymd(2025, 4, 31).is_none());
    assert!(Date::from_ymd(2025, 0, 1).is_none());
    assert!(Date::from_ymd(2025, 13, 1).is_none());
    assert!(Date::from_ymd(2025, 1, 0).is_none());
    assert!(Date::from_ymd(2025, 1, 32).is_none());
    assert!(Date::from_ymd(MIN_YEAR - 1, 1, 1).is_none());
    assert!(Date::from_ymd(MAX_YEAR + 1, 1, 1).is_none());
}

#[test]
fn from_ymd_agrees_with_chrono() {
    for year in [-262143, -4, -1, 0, 1, 1900, 2000, 2023, 2024, 2100, 9999, 262142] {
        for month in 0..14u32 {
            for d in 0..33u32 {
                assert_eq!(
                    Date::from_ymd(year, month, d).is_some(),
                    chrono::NaiveDate::from_ymd_opt(year, month, d).is_some(),
                    "{} {} {}",
                    year,
                    month,
                    d
                );
            }
        }
    }
    assert!(chrono::NaiveDate::from_ymd_opt(MAX_YEAR + 1, 1, 1).is_none());
    assert!(chrono::NaiveDate::from_ymd_opt(MIN_YEAR - 1, 12, 31).is_none());
}

#[test]
fn before_is_strict() {
    assert!(dt_day(2024, 12, 31).before(&dt_day(2025, 1, 1)));
    assert!(dt_day(2025, 1, 31).before(&dt_day(2025, 2, 1)));
    assert!(dt_day(2025, 2, 1).before(&dt_day(2025, 2, 2)));
    assert!(!dt_day(2025, 2, 2).before(&dt_day(2025, 2, 2)));
    assert!(!dt_day(2025, 2, 3).before(&dt_day(2025, 2, 2)));
    assert!(!dt_day(2025, 1, 1).before(&dt_day(2024, 12, 31)));
    assert!(dt_day(-1, 12, 31).before(&dt_day(0, 1, 1)));
}

#[test]
fn date_encode_pads_with_zeros() {
    assert_eq!(dt_day(2025, 1, 1).encode(), "01-01-2025");
    assert_eq!(dt_day(2021, 12, 31).encode(), "31-12-2021");
    assert_eq!(dt_day(800, 3, 5).encode(), "05-03-0800");
    assert_eq!(dt_day(0, 1, 1).encode(), "01-01-0000");
    assert_eq!(dt_day(9999, 12, 31).encode(), "31-12-9999");
    assert_eq!(dt_day(12345, 6, 7).encode(), "07-06-12345");
    assert_eq!(dt_day(-44, 3, 15).encode(), "15-03--0044");
}

#[test]
fn date_display_names_the_month() {
    assert_eq!(dt_day(2025, 1, 1).display(), "Jan  1 2025");
    assert_eq!(dt_day(2021, 12, 31).display(), "Dec 31 2021");
    assert_eq!(dt_day(800, 5, 9).display(), "May  9 0800");
    assert_eq!(dt_day(0, 2, 29).display(), "Feb 29 0000");
    let names = ["Jan", "Feb", "Mar", "Apr", "May", "Jun", "Jul", "Aug", "Sep", "Oct", "Nov", "Dec"];
    for m in 1..13u32 {
        assert_eq!(dt_day(2023, m, 10).display(), format!("{} 10 2023", names[(m - 1) as usize]));
    }
}

#[test]
fn date_iso_is_year_month_day() {
    assert_eq!(dt_day(2025, 1, 1).iso(), "2025-01-01");
    assert_eq!(dt_day(2021, 12, 31).iso(), "2021-12-31");
    assert_eq!(dt_day(800, 5, 9).iso(), "0800-05-09");
    assert_eq!(dt_day(0, 1, 1).iso(), "0000-01-01");
    assert_eq!(dt_day(9999, 12, 31).iso(), "9999-12-31");
}

#[test]
fn parse_date_reads_plain_day_month_year() {
    assert_eq!(Assignment::parse_date("01-01-2025"), Ok(dt_day(2025, 1, 1)));
    assert_eq!(Assignment::parse_date("31-12-2021"), Ok(dt_day(2021, 12, 31)));
    assert_eq!(Assignment::parse_date("29-02-2024"), Ok(dt_day(2024, 2, 29)));
    assert_eq!(Assignment::parse_date("01-01-0000"), Ok(dt_day(0, 1, 1)));
    assert_eq!(Assignment::parse_date("31-12-9999"), Ok(dt_day(9999, 12, 31)));
}

#[test]
fn parse_date_reads_short_forms() {
    assert_eq!(Assignment::parse_date("1-1-2025"), Ok(dt_day(2025, 1, 1)));
    assert_eq!(Assignment::parse_date("31-1-2021"), Ok(dt_day(2021, 1, 31)));
}

#[test]
fn parse_date_undoes_encode() {
    for year in [0, 1, 999, 1000, 2024, 9999] {
        for month in 1..13u32 {
            for d in [1u32, 9, 10, 28] {
                let date = dt_day(year, month, d);
                assert_eq!(Assignment::parse_date(date.encode().as_str()), Ok(date));
            }
        }
    }
}

#[test]
fn parse_date_refuses_what_is_no_date() {
    for text in ["", "abc", "2025-01-01", "31-02-2025", "00-01-2025", "01-13-2025", "1/1/2025", "01-01-20255"] {
        match Assignment::parse_date(text) {
            Err(Error::InvalidFormat { text: t, reason }) => {
                assert_eq!(t, text);
                assert!(!reason.is_empty());
            }
            other => panic!("{:?} gave {:?}", text, other),
        }
    }
}

#[test]
fn parse_date_carries_the_parsers_complaint() {
    let complaint = chrono::NaiveDate::parse_from_str("31-02-2025", "%d-%m-%Y").unwrap_err().to_string();
    assert_eq!(
        Assignment::parse_date("31-02-2025"),
        Err(Error::InvalidFormat { text: String::from("31-02-2025"), reason: complaint })
    );
}

#[test]
fn date_display_signs_years_beyond_four_digits() {
    assert_eq!(dt_day(10000, 1, 1).display(), "Jan  1 +10000");
    assert_eq!(dt_day(262142, 12, 31).display(), "Dec 31 +262142");
    assert_eq!(dt_day(-1, 3, 15).display(), "Mar 15 -0001");
    assert_eq!(dt_day(-44, 3, 15).display(), "Mar 15 -0044");
    assert_eq!(dt_day(-262143, 1, 1).display(), "Jan  1 -262143");
}

#[test]
fn date_iso_signs_years_beyond_four_digits() {
    assert_eq!(dt_day(10000, 1, 1).iso(), "+10000-01-01");
    assert_eq!(dt_day(-1, 3, 5).iso(), "-0001-03-05");
    assert_eq!(dt_day(-12345, 11, 30).iso(), "-12345-11-30");
}

#[test]
fn parse_date_reads_every_digit_shape() {
    for (text, y, m, d) in [
        ("1-1-2025", 2025, 1, 1),
        ("01-1-2025", 2025, 1, 1),
        ("1-01-2025", 2025, 1, 1),
        ("31-12-5", 5, 12, 31),
        ("9-9-99", 99, 9, 9),
        ("09-09-999", 999, 9, 9),
        ("29-2-0", 0, 2, 29),
        ("1-1-0000", 0, 1, 1),
    ] {
        assert_eq!(Assignment::parse_date(text), Ok(dt_day(y, m, d)), "{}", text);
    }
}

#[test]
fn parse_date_refuses_digit_shapes_that_name_no_day() {
    for text in ["31-02-2025", "31-2-2025", "0-1-2025", "1-0-2025", "32-1-2025", "1-13-2025", "29-2-2023", "31-4-1", "00-00-0000"] {
        assert!(Assignment::parse_date(text).is_err(), "{}", text);
    }
}
