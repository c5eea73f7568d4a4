use orgstats::dates::{format_date, next_day, normalize_range, parse_date, Date};

#[test]
fn parse_valid_dates() {
    let d = parse_date("2024-05-03").unwrap();
    assert_eq!(d, Date { year: 2024, month: 5, day: 3 });
    let d = parse_date("2024-02-29").unwrap();
    assert_eq!(d, Date { year: 2024, month: 2, day: 29 });
    let d = parse_date("2000-02-29").unwrap();
    assert_eq!(d, Date { year: 2000, month: 2, day: 29 });
}

#[test]
fn parse_rejects_bad_dates() {
    assert!(parse_date("2023-02-29").is_none());
    assert!(parse_date("1900-02-29").is_none());
    assert!(parse_date("2024-13-01").is_none());
    assert!(parse_date("2024-00-10").is_none());
    assert!(parse_date("2024-04-31").is_none());
    assert!(parse_date("2024-04-00").is_none());
    assert!(parse_date("0000-01-01").is_none());
    assert!(parse_date("2024-5-3").is_none());
    assert!(parse_date("2024/05/03").is_none());
    assert!(parse_date("2024-05-03T").is_none());
    assert!(parse_date("").is_none());
    assert!(parse_date("yyyy-mm-dd").is_none());
}

#[test]
fn next_day_handles_boundaries() {
    let d = next_day(Date { year: 2024, month: 2, day: 29 });
    assert_eq!(d, Date { year: 2024, month: 3, day: 1 });
    let d = next_day(Date { year: 2023, month: 2, day: 28 });
    assert_eq!(d, Date { year: 2023, month: 3, day: 1 });
    let d = next_day(Date { year: 2023, month: 12, day: 31 });
    assert_eq!(d, Date { year: 2024, month: 1, day: 1 });
    let d = next_day(Date { year: 2024, month: 4, day: 30 });
    assert_eq!(d, Date { year: 2024, month: 5, day: 1 });
    let d = next_day(Date { year: 2024, month: 5, day: 30 });
    assert_eq!(d, Date { year: 2024, month: 5, day: 31 });
}

#[test]
fn format_is_zero_padded() {
    let s = format_date(Date { year: 987, month: 1, day: 9 });
    assert_eq!(s, "0987-01-09");
    let s = format_date(Date { year: 2024, month: 12, day: 31 });
    assert_eq!(s, "2024-12-31");
}

#[test]
fn normalize_range_moves_end_one_day() {
    let (since, until) = normalize_range("2024-05-03", "2024-05-31").unwrap();
    assert_eq!(since, "2024-05-03");
    assert_eq!(until, "2024-06-01");
    let (_, until) = normalize_range("2024-01-01", "2024-12-31").unwrap();
    assert_eq!(until, "2025-01-01");
    assert!(normalize_range("2024-01-01", "not-a-date").is_none());
    assert!(normalize_range("nope", "2024-01-01").is_none());
    assert!(normalize_range("2024-01-01", "9999-12-31").is_none());
}
