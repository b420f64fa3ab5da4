use chrono::NaiveDateTime;
use nicodo::config::Config;
use nicodo::datetime::{DateTime, Duration};
use nicodo::error::Error;
use nicodo::process::{Format, Timespan};
use nicodo::text::{i64_to_string, u64_to_string};
use nicodo::wayback::Wayback;
use std::str::FromStr;

fn epoch(s: &str) -> i64 {
    NaiveDateTime::from_str(s).unwrap().and_utc().timestamp()
}

#[test]
fn decimal_rendering() {
    assert_eq!(u64_to_string(0), "0");
    assert_eq!(u64_to_string(7), "7");
    assert_eq!(u64_to_string(12345), "12345");
    assert_eq!(u64_to_string(u64::MAX), "18446744073709551615");
    assert_eq!(i64_to_string(0), "0");
    assert_eq!(i64_to_string(-42), "-42");
    assert_eq!(i64_to_string(-1000), "-1000");
    assert_eq!(i64_to_string(i64::MIN), "-9223372036854775808");
}

#[test]
fn json_string_escaping() {
    let mut s = String::new();
    nicodo::json::write_json_str(&mut s, "plain");
    assert_eq!(s, "\"plain\"");
    let mut s = String::new();
    nicodo::json::write_json_str(&mut s, "a\"b\\c\nd\te\ru\u{8}f\u{c}g\u{1f}h");
    assert_eq!(s, "\"a\\\"b\\\\c\\nd\\te\\ru\\bf\\fg\\u001fh\"");
}

#[test]
fn format_parse_and_ext() {
    assert_eq!(Format::parse("xml").unwrap(), Format::XML);
    assert_eq!(Format::parse("json").unwrap(), Format::JSON);
    assert!(Format::parse("yaml").is_err());
    assert_eq!(Format::XML.ext(), "xml");
    assert_eq!(Format::JSON.ext(), "json");
}

#[test]
fn timespan_resolves_to_wayback() {
    let posted = epoch("2019-01-01T00:00:00");
    let t = Timespan::Period {
        start: DateTime::parse("posted").unwrap(),
        end: DateTime::parse("posted+1w").unwrap(),
        interval: Duration::parse("1d").unwrap(),
        include_latest: false,
    };
    match t.wayback(posted) {
        Wayback::Period { start, end, interval, include_latest } => {
            assert_eq!(start, posted);
            assert_eq!(end, epoch("2019-01-08T00:00:00"));
            assert_eq!(interval, 86400);
            assert!(!include_latest);
        },
        _ => panic!("expected a period"),
    }
    assert_eq!(t.interval().unwrap().duration(), 86400);
    assert!(matches!(Timespan::Latest.wayback(posted), Wayback::Latest));
    let d = Timespan::DateTime(DateTime::parse("2010-01-01").unwrap());
    match d.wayback(posted) {
        Wayback::DateTime(v) => assert_eq!(v, epoch("2010-01-01T00:00:00")),
        _ => panic!("expected a single instant"),
    }
    assert!(d.interval().is_none());
}

#[test]
fn config_default_is_empty() {
    let c = Config::default();
    assert_eq!(c.session, "");
}

#[test]
fn error_messages() {
    assert_eq!(Error::InvalidKey.message(), "invalid key");
    assert_eq!(Error::NotAuthorized.message(), "not authorized");
    assert_ne!(Error::InvalidKey, Error::Request);
}
