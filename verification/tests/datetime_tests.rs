use chrono::NaiveDateTime;
use nicodo::datetime::{DateTime, Duration};
use std::str::FromStr;

fn epoch(s: &str) -> i64 {
    NaiveDateTime::from_str(s).unwrap().and_utc().timestamp()
}

#[test]
fn datetime_test_datetime() {
    let dt = epoch("2019-01-01T00:00:00");
    let d = DateTime::parse("posted").unwrap();
    assert_eq!(d.datetime(dt), epoch("2019-01-01T00:00:00"));
    let d = DateTime::parse("posted+1w").unwrap();
    assert_eq!(d.datetime(dt), epoch("2019-01-08T00:00:00"));
    let d = DateTime::parse("2010-01-01 10:01:02").unwrap();
    assert_eq!(d.datetime(dt), epoch("2010-01-01T10:01:02"));
    let d = DateTime::parse("2010-01-01").unwrap();
    assert_eq!(d.datetime(dt), epoch("2010-01-01T00:00:00"));
}

#[test]
fn test_duration() {
    let d = Duration::parse("1h").unwrap();
    assert_eq!(d.duration(), chrono::Duration::hours(1).num_seconds());
    let d = Duration::parse("14h").unwrap();
    assert_eq!(d.duration(), chrono::Duration::hours(14).num_seconds());
    let d = Duration::parse("1d").unwrap();
    assert_eq!(d.duration(), chrono::Duration::days(1).num_seconds());
    let d = Duration::parse("10d").unwrap();
    assert_eq!(d.duration(), chrono::Duration::days(10).num_seconds());
    let d = Duration::parse("1w").unwrap();
    assert_eq!(d.duration(), chrono::Duration::days(7).num_seconds());
    let d = Duration::parse("7w").unwrap();
    assert_eq!(d.duration(), chrono::Duration::days(49).num_seconds());
}

#[test]
fn duration_rejects_bad_shapes() {
    assert!(Duration::parse("").is_none());
    assert!(Duration::parse("h").is_none());
    assert!(Duration::parse("12").is_none());
    assert!(Duration::parse("12m").is_none());
    assert!(Duration::parse("a1h").is_none());
    assert!(Duration::parse("99999999999999999999h").is_none());
}

#[test]
fn duration_keeps_its_source_text() {
    let d = Duration::parse("14h").unwrap();
    assert_eq!(d.source(), "14h");
}

#[test]
fn datetime_rejects_bad_shapes() {
    assert!(DateTime::parse("yesterday").is_none());
    assert!(DateTime::parse("posted+").is_none());
    assert!(DateTime::parse("posted+xyz").is_none());
    assert!(DateTime::parse("2010-13-01").is_none());
}

#[test]
fn datetime_latest_parses() {
    let d = DateTime::parse("latest").unwrap();
    assert!(matches!(d, DateTime::Latest));
}
