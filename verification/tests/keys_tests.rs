use nicodo::error::Error;
use nicodo::keys::{parse_threadkey_response, parse_waybackkey_response};

#[test]
fn threadkey_response_parses() {
    let (key, flag) = parse_threadkey_response("threadkey=abc123&force_184=1").unwrap();
    assert_eq!(key, "abc123");
    assert_eq!(flag, "1");
}

#[test]
fn threadkey_key_stops_at_first_separator() {
    let (key, flag) = parse_threadkey_response("threadkey=a&force_184=b&force_184=c").unwrap();
    assert_eq!(key, "a");
    assert_eq!(flag, "b&force_184=c");
}

#[test]
fn threadkey_response_rejected() {
    assert_eq!(
        parse_threadkey_response("nonsense").unwrap_err(),
        Error::InvalidKey
    );
    assert_eq!(
        parse_threadkey_response("threadkey=abc").unwrap_err(),
        Error::InvalidKey
    );
    assert_eq!(
        parse_threadkey_response("threadkey=abc&force_184=").unwrap_err(),
        Error::InvalidKey
    );
    assert_eq!(
        parse_threadkey_response("threadkey=&force_184=1").unwrap_err(),
        Error::InvalidKey
    );
    assert_eq!(
        parse_threadkey_response("threadkey=a\nb&force_184=1").unwrap_err(),
        Error::InvalidKey
    );
}

#[test]
fn waybackkey_response_parses() {
    let key = parse_waybackkey_response("waybackkey=deadbeef").unwrap();
    assert_eq!(key, "deadbeef");
}

#[test]
fn waybackkey_response_rejected() {
    assert_eq!(
        parse_waybackkey_response("nonsense").unwrap_err(),
        Error::InvalidKey
    );
    assert_eq!(
        parse_waybackkey_response("waybackkey=").unwrap_err(),
        Error::InvalidKey
    );
    assert_eq!(
        parse_waybackkey_response("waybackkey=a\nb").unwrap_err(),
        Error::InvalidKey
    );
}
