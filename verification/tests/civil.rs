use snif::civil::days_to_ymd;

#[test]
fn day_zero_is_new_year_1970() {
    assert_eq!(days_to_ymd(0), (1970, 1, 1));
    assert_eq!(days_to_ymd(31), (1970, 2, 1));
    assert_eq!(days_to_ymd(58), (1970, 2, 28));
    assert_eq!(days_to_ymd(59), (1970, 3, 1));
}

#[test]
fn leap_days_fall_where_the_calendar_puts_them() {
    // 2000-02-29 is day 11_016; 1900 was not a leap year but 2000 was.
    assert_eq!(days_to_ymd(11_016), (2000, 2, 29));
    assert_eq!(days_to_ymd(11_017), (2000, 3, 1));
    assert_eq!(days_to_ymd(19_416), (2023, 2, 28));
    assert_eq!(days_to_ymd(19_417), (2023, 3, 1));
    assert_eq!(days_to_ymd(10_956), (1999, 12, 31));
    assert_eq!(days_to_ymd(10_957), (2000, 1, 1));
}
