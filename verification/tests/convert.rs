use rust_iso20022::convert::{to_date, to_datetime, to_decimal};

#[test]
fn conversions() {
    assert_eq!(to_decimal("  7866240.23491 ").unwrap().to_string(), "7866240.23491");
    assert!(to_decimal("not-a-number").is_none());
    assert_eq!(to_date("2026-06-27").unwrap().to_string(), "2026-06-27");
    assert_eq!(to_date("2026-06-27+02:00").unwrap().to_string(), "2026-06-27");
    assert!(to_datetime("2026-06-27T10:30:00Z").is_some());
    assert!(to_datetime("2026-06-27T10:30:00").is_some());
    assert!(to_datetime("2026-06-27T10:30:00.123+01:00").is_some());
}

#[test]
fn datetime_keeps_utc_and_offset() {
    let dt = to_datetime(" 2026-06-27T10:30:00.123+01:00 ").unwrap();
    assert_eq!(dt.offset_seconds, 3600);
    assert_eq!(dt.utc.to_string(), "2026-06-27 09:30:00.123");
    let naive = to_datetime("2026-06-27T10:30:00").unwrap();
    assert_eq!(naive.offset_seconds, 0);
    assert_eq!(naive.utc.to_string(), "2026-06-27 10:30:00");
    let frac = to_datetime("2026-06-27T10:30:00.5").unwrap();
    assert_eq!(frac.utc.to_string(), "2026-06-27 10:30:00.500");
    assert!(to_datetime("2026-06-27").is_none());
    assert!(to_datetime("yesterday").is_none());
}

#[test]
fn date_and_decimal_edges() {
    assert_eq!(to_date("  2026-01-02Z").unwrap().to_string(), "2026-01-02");
    assert!(to_date("2026-13-01").is_none());
    assert!(to_date("2026/01/02").is_none());
    assert!(to_date("").is_none());
    assert!(to_date("2026-06-2\u{e9}").is_none());
    assert!(to_date("2026-06-\u{e9}\u{e9}").is_none());
    assert_eq!(to_decimal("-0.50").unwrap().to_string(), "-0.50");
    assert!(to_decimal("").is_none());
}
