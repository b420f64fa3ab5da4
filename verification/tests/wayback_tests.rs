use chrono::NaiveDateTime;
use nicodo::wayback::Wayback;
use std::str::FromStr;

fn epoch(s: &str) -> i64 {
    NaiveDateTime::from_str(s).unwrap().and_utc().timestamp()
}

#[test]
fn test_latest() {
    let mut iter = Wayback::Latest.iter();
    assert_eq!(iter.next().unwrap(), None);
    assert_eq!(iter.next(), None);
}

#[test]
fn comment_wayback_test_datetime() {
    let dt = epoch("2019-11-03T00:00:00");
    let mut iter = Wayback::DateTime(dt).iter();
    assert_eq!(iter.next().unwrap(), Some(dt));
    assert_eq!(iter.next(), None);
}

#[test]
fn test_period() {
    let mut iter = Wayback::Period {
        start: epoch("2019-11-03T00:00:00"),
        end: epoch("2019-11-10T00:00:00"),
        interval: chrono::Duration::days(1).num_seconds(),
        include_latest: false,
    }
    .iter();
    assert_eq!(iter.next().unwrap(), Some(epoch("2019-11-03T00:00:00")));
    assert_eq!(iter.next().unwrap(), Some(epoch("2019-11-04T00:00:00")));
    assert_eq!(iter.next().unwrap(), Some(epoch("2019-11-05T00:00:00")));
    assert_eq!(iter.next().unwrap(), Some(epoch("2019-11-06T00:00:00")));
    assert_eq!(iter.next().unwrap(), Some(epoch("2019-11-07T00:00:00")));
    assert_eq!(iter.next().unwrap(), Some(epoch("2019-11-08T00:00:00")));
    assert_eq!(iter.next().unwrap(), Some(epoch("2019-11-09T00:00:00")));
    assert_eq!(iter.next().unwrap(), Some(epoch("2019-11-10T00:00:00")));
    assert_eq!(iter.next(), None);
}

// The step lands exactly on the end here, so no trailing live snapshot is
// emitted even though include_latest is set: the boundary hit suppresses it.
#[test]
fn test_period2() {
    let mut iter = Wayback::Period {
        start: epoch("2019-11-03T00:00:00"),
        end: epoch("2019-11-04T00:00:00"),
        interval: chrono::Duration::hours(6).num_seconds(),
        include_latest: true,
    }
    .iter();
    assert_eq!(iter.next().unwrap(), Some(epoch("2019-11-03T00:00:00")));
    assert_eq!(iter.next().unwrap(), Some(epoch("2019-11-03T06:00:00")));
    assert_eq!(iter.next().unwrap(), Some(epoch("2019-11-03T12:00:00")));
    assert_eq!(iter.next().unwrap(), Some(epoch("2019-11-03T18:00:00")));
    assert_eq!(iter.next().unwrap(), Some(epoch("2019-11-04T00:00:00")));
    assert_eq!(iter.next(), None);
    assert_eq!(iter.next(), None);
}

#[test]
fn test_period_error() {
    let mut iter = Wayback::Period {
        start: epoch("2019-11-10T00:00:00"),
        end: epoch("2019-11-03T00:00:00"),
        interval: chrono::Duration::days(1).num_seconds(),
        include_latest: false,
    }
    .iter();
    assert_eq!(iter.next(), None);
    let mut iter = Wayback::Period {
        start: epoch("2019-11-03T00:00:00"),
        end: epoch("2019-11-10T00:00:00"),
        interval: 0,
        include_latest: false,
    }
    .iter();
    assert_eq!(iter.next(), None);
}

#[test]
fn period_week_of_days_has_eight_snapshots() {
    let w = Wayback::Period {
        start: epoch("2019-11-03T00:00:00"),
        end: epoch("2019-11-10T00:00:00"),
        interval: chrono::Duration::days(1).num_seconds(),
        include_latest: false,
    };
    assert_eq!(w.len(), Some(8));
    let mut iter = w.iter();
    let mut first = None;
    let mut last = None;
    let mut count = 0u64;
    while let Some(item) = iter.next() {
        assert!(item.is_some(), "no live marker expected");
        if first.is_none() {
            first = item;
        }
        last = item;
        count += 1;
    }
    assert_eq!(count, 8);
    assert_eq!(first, Some(epoch("2019-11-03T00:00:00")));
    assert_eq!(last, Some(epoch("2019-11-10T00:00:00")));
}

#[test]
fn period_six_hours_exact_end_has_five_timed_snapshots() {
    let w = Wayback::Period {
        start: epoch("2019-11-03T00:00:00"),
        end: epoch("2019-11-04T00:00:00"),
        interval: chrono::Duration::hours(6).num_seconds(),
        include_latest: true,
    };
    assert_eq!(w.len(), Some(5));
    assert!(w.is_wayback());
}

#[test]
fn period_miss_appends_one_live_snapshot() {
    let w = Wayback::Period {
        start: epoch("2019-11-03T00:00:00"),
        end: epoch("2019-11-03T10:00:00"),
        interval: chrono::Duration::hours(4).num_seconds(),
        include_latest: true,
    };
    assert_eq!(w.len(), Some(4));
    let mut iter = w.iter();
    assert_eq!(iter.next().unwrap(), Some(epoch("2019-11-03T00:00:00")));
    assert_eq!(iter.next().unwrap(), Some(epoch("2019-11-03T04:00:00")));
    assert_eq!(iter.next().unwrap(), Some(epoch("2019-11-03T08:00:00")));
    assert_eq!(iter.next().unwrap(), None);
    assert_eq!(iter.next(), None);
}

#[test]
fn empty_windows_have_zero_length() {
    let reversed = Wayback::Period {
        start: epoch("2019-11-10T00:00:00"),
        end: epoch("2019-11-03T00:00:00"),
        interval: 86400,
        include_latest: true,
    };
    assert_eq!(reversed.len(), Some(0));
    assert!(!reversed.is_wayback());
    let zero_step = Wayback::Period {
        start: epoch("2019-11-03T00:00:00"),
        end: epoch("2019-11-10T00:00:00"),
        interval: 0,
        include_latest: true,
    };
    assert_eq!(zero_step.len(), Some(0));
    assert!(!zero_step.is_wayback());
}

#[test]
fn latest_and_single_instant_lengths() {
    assert_eq!(Wayback::Latest.len(), Some(1));
    assert!(!Wayback::Latest.is_wayback());
    let w = Wayback::DateTime(epoch("2019-11-03T00:00:00"));
    assert_eq!(w.len(), Some(1));
    assert!(w.is_wayback());
}
