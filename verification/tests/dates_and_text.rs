use personal_finances::dates::{is_after_month_end, last_day_of_month, leap_year, Date};
use personal_finances::net_worth::Period;
use personal_finances::text::{
    decimal_text, digit_text, four_digits_text, iso_date_text, iso_year_text, join,
    signed_decimal_text, two_digits_text,
};

fn date(year: i32, month: u32, day: u32) -> Date {
    Date { year, month, day }
}

#[test]
fn leap_years_follow_the_gregorian_rule() {
    assert!(leap_year(2024));
    assert!(!leap_year(2023));
    assert!(!leap_year(1900));
    assert!(leap_year(2000));
    assert!(leap_year(0));
    assert!(leap_year(-4));
    assert!(!leap_year(-1));
    assert!(!leap_year(-100));
    assert!(leap_year(-400));
}

#[test]
fn last_day_of_each_month() {
    let days: Vec<u32> = (1..=12).map(|m| last_day_of_month(2023, m).day).collect();
    assert_eq!(days, vec![31, 28, 31, 30, 31, 30, 31, 31, 30, 31, 30, 31]);
    assert_eq!(last_day_of_month(2024, 2), date(2024, 2, 29));
    assert_eq!(last_day_of_month(1900, 2), date(1900, 2, 28));
    assert_eq!(last_day_of_month(2023, 12), date(2023, 12, 31));
}

#[test]
fn dates_are_ordered_by_year_month_and_day() {
    assert!(date(2024, 1, 2).is_after(&date(2024, 1, 1)));
    assert!(!date(2024, 1, 1).is_after(&date(2024, 1, 1)));
    assert!(date(2024, 2, 1).is_after(&date(2024, 1, 31)));
    assert!(date(2025, 1, 1).is_after(&date(2024, 12, 31)));
    assert!(!date(2023, 12, 31).is_after(&date(2024, 1, 1)));
}

#[test]
fn only_a_later_month_is_after_the_end_of_a_month() {
    assert!(!is_after_month_end(&date(2024, 1, 31), 2024, 1));
    assert!(is_after_month_end(&date(2024, 2, 1), 2024, 1));
    assert!(!is_after_month_end(&date(2024, 12, 31), 2024, 12));
    assert!(is_after_month_end(&date(2025, 1, 1), 2024, 12));
    assert!(!is_after_month_end(&date(2023, 12, 31), 2024, 1));
}

#[test]
fn months_are_ordered_by_year_and_month() {
    let june = Period { year: 2024, month: 6 };
    assert!(Period { year: 2024, month: 5 }.is_before(&june));
    assert!(Period { year: 2023, month: 12 }.is_before(&june));
    assert!(!june.is_before(&june));
    assert!(!Period { year: 2025, month: 1 }.is_before(&june));
}

#[test]
fn numbers_are_written_in_decimal() {
    assert_eq!(digit_text(0), "0");
    assert_eq!(digit_text(9), "9");
    assert_eq!(decimal_text(0), "0");
    assert_eq!(decimal_text(7), "7");
    assert_eq!(decimal_text(10), "10");
    assert_eq!(decimal_text(2024), "2024");
    assert_eq!(decimal_text(u64::MAX), "18446744073709551615");
    assert_eq!(signed_decimal_text(0), "0");
    assert_eq!(signed_decimal_text(-5), "-5");
    assert_eq!(signed_decimal_text(-2147483648), "-2147483648");
    assert_eq!(signed_decimal_text(2147483647), "2147483647");
    assert_eq!(signed_decimal_text(i64::MIN), "-9223372036854775808");
    assert_eq!(signed_decimal_text(i64::MAX), "9223372036854775807");
    assert_eq!(two_digits_text(0), "00");
    assert_eq!(two_digits_text(9), "09");
    assert_eq!(two_digits_text(10), "10");
    assert_eq!(two_digits_text(123), "123");
    assert_eq!(four_digits_text(0), "0000");
    assert_eq!(four_digits_text(33), "0033");
    assert_eq!(four_digits_text(476), "0476");
    assert_eq!(four_digits_text(2024), "2024");
    assert_eq!(four_digits_text(12345), "12345");
}

#[test]
fn dates_are_written_as_year_month_day() {
    assert_eq!(iso_date_text(date(2024, 3, 7)), "2024-03-07");
    assert_eq!(iso_date_text(date(2024, 12, 31)), "2024-12-31");
    assert_eq!(iso_date_text(date(33, 1, 1)), "0033-01-01");
    assert_eq!(iso_year_text(0), "0000");
    assert_eq!(iso_year_text(9999), "9999");
    assert_eq!(iso_year_text(10000), "+10000");
    assert_eq!(iso_year_text(-1), "-0001");
    assert_eq!(iso_year_text(-12345), "-12345");
}

#[test]
fn texts_are_joined_with_a_separator() {
    let none: Vec<String> = Vec::new();
    assert_eq!(join(&none, ","), "");
    assert_eq!(join(&vec!["USD".to_string()], ","), "USD");
    assert_eq!(join(&vec!["USD".to_string(), "EUR".to_string(), "GBP".to_string()], ","), "USD,EUR,GBP");
    assert_eq!(join(&vec!["a".to_string(), "b".to_string()], ", "), "a, b");
}
