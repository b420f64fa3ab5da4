use nicodo::channel::{video_from_anchor, video_rejected};
use nicodo::id::Id;

#[test]
fn test_id_parse() {
    assert_eq!(Id::parse("xxx"), Id::Video("xxx".to_string()));
    assert_eq!(
        Id::parse("https://www.nicovideo.jp/watch/yyy"),
        Id::Video("yyy".to_string())
    );
    assert_eq!(
        Id::parse("https://ch.nicovideo.jp/zzz"),
        Id::Channel("zzz".to_string())
    );
    assert_eq!(
        Id::parse("https://www.nicovideo.jp/series/zzz"),
        Id::Channel("zzz".to_string())
    );
    assert_eq!(
        Id::parse("https://www.nicovideo.jp/series/zzz?aaa"),
        Id::Channel("zzz".to_string())
    );
}

#[test]
fn test_video_rejected() {
    assert!(!video_rejected("normal"));
    assert!(!video_rejected("第1話 「PVを撮影した」"));
    assert!(video_rejected("hogehoge PV"));
    assert!(video_rejected("hogehoge　PV　第2弾"));
}

#[test]
fn anchor_strips_watch_prefix_and_filters() {
    let v = video_from_anchor("https://www.nicovideo.jp/watch/sm123", "第1話").unwrap();
    assert_eq!(v.id, "sm123");
    assert_eq!(v.title, "第1話");
    assert!(video_from_anchor("https://www.nicovideo.jp/watch/sm124", "some PV").is_none());
}
