use nicodo::comment::{chats_to_comments, snapshot_options, Chat, Comment, CommentSet,
    ResolvedKeys};
use nicodo::error::Error;
use nicodo::info::{Client, Comment as CommentMeta, CommentKeys, CommentThread, Info, Viewer,
    Video};
use nicodo::wayback::Wayback;

fn chat(no: usize, vpos: isize, content: Option<&str>) -> Chat {
    Chat {
        thread: "1000".to_string(),
        no,
        vpos,
        date: 1_500_000_000,
        user_id: Some("u".to_string()),
        mail: None,
        content: content.map(|s| s.to_string()),
    }
}

fn comment(no: usize, vpos: isize, content: &str) -> Comment {
    Comment {
        thread: "1000".to_string(),
        no,
        vpos,
        date: 1_500_000_000,
        user_id: Some("u".to_string()),
        content: content.to_string(),
        mail: None,
    }
}

fn info_with_threads(threads: Vec<CommentThread>) -> Info {
    Info {
        video: Video {
            id: "sm1".to_string(),
            title: "t".to_string(),
            duration: 60,
            registered_at: 0,
        },
        comment: CommentMeta {
            keys: CommentKeys { user_key: "ukey".to_string() },
            threads,
        },
        client: Client { watch_id: "sm1".to_string() },
        viewer: Viewer { id: 7 },
    }
}

fn default_thread() -> CommentThread {
    CommentThread {
        id: 1000,
        fork: 0,
        is_active: true,
        is_default_post_target: true,
        is_thread_key_required: false,
        is_leaf_required: false,
        is_owner_thread: false,
        thread_key: None,
        is_184_forced: None,
    }
}

#[test]
fn chats_without_content_are_discarded() {
    let chats = vec![
        chat(1, 100, Some("first")),
        chat(2, 200, None),
        chat(3, 300, Some("")),
        chat(4, 400, Some("fourth")),
    ];
    let comments = chats_to_comments(chats);
    assert_eq!(comments.len(), 2);
    assert_eq!(comments[0].no, 1);
    assert_eq!(comments[0].content, "first");
    assert_eq!(comments[1].no, 4);
    assert_eq!(comments[1].content, "fourth");
}

// Two batches hold the comment with sequence number 2 in different
// versions: the later-merged batch wins.
#[test]
fn merge_keeps_later_batch_on_same_sequence_number() {
    let mut set = CommentSet::new();
    set.merge(vec![comment(1, 100, "one"), comment(2, 250, "early")]);
    set.merge(vec![comment(2, 200, "late"), comment(3, 300, "three")]);
    let sorted = set.into_sorted_by_vpos();
    assert_eq!(sorted.len(), 3);
    let c2 = sorted.iter().find(|c| c.no == 2).unwrap();
    assert_eq!(c2.content, "late");
    assert_eq!(c2.vpos, 200);
}

#[test]
fn merged_result_is_sorted_by_vpos() {
    let mut set = CommentSet::new();
    set.merge(vec![
        comment(5, 900, "e"),
        comment(1, 100, "a"),
        comment(3, 500, "c"),
    ]);
    set.merge(vec![comment(2, 300, "b"), comment(4, 700, "d")]);
    let sorted = set.into_sorted_by_vpos();
    let vposes: Vec<isize> = sorted.iter().map(|c| c.vpos).collect();
    assert_eq!(vposes, vec![100, 300, 500, 700, 900]);
}

// The round trip of one live snapshot: the plan resolves the default
// thread without keys, the request builder produces a payload, and the
// stubbed endpoint's echoed comment set comes back deduplicated and
// strictly ordered by video position.
#[test]
fn round_trip_latest_snapshot() {
    let info = info_with_threads(vec![default_thread()]);
    let wayback = Wayback::Latest;
    let plan = info.plan_fetch(&wayback).unwrap();
    assert_eq!(plan.thread_id, "1000");
    assert!(!plan.needs_keys);
    assert_eq!(plan.total, Some(1));

    let keys: Option<ResolvedKeys> = None;
    let mut set = CommentSet::new();
    let mut iter = wayback.iter();
    while let Some(instant) = iter.next() {
        let opts = snapshot_options(instant, &keys);
        let body = nicodo::body::get_body(&info, &opts, &wayback);
        // the endpoint is stubbed: whatever the payload, it echoes a fixed
        // comment set with a duplicated sequence number
        assert!(body.starts_with("[{\"ping\":{\"content\":\"rs:0\"}}"));
        let echoed = vec![
            chat(7, 800, Some("late seven")),
            chat(3, 200, Some("three")),
            chat(7, 750, Some("early seven")),
            chat(5, 400, Some("five")),
        ];
        let batch = chats_to_comments(echoed);
        set.merge(batch);
    }
    let sorted = set.into_sorted_by_vpos();
    assert_eq!(sorted.len(), 3);
    for w in sorted.windows(2) {
        assert!(w[0].vpos < w[1].vpos);
    }
    let seven = sorted.iter().find(|c| c.no == 7).unwrap();
    assert_eq!(seven.content, "early seven");
    assert_eq!(seven.vpos, 750);
}

// A Latest-only run never invokes the key resolver: the test double's call
// counter stays at zero.
#[test]
fn latest_only_run_never_resolves_keys() {
    let info = info_with_threads(vec![default_thread()]);
    let plan = info.plan_fetch(&Wayback::Latest).unwrap();
    let mut resolver_calls = 0u32;
    let keys: Option<ResolvedKeys> = if plan.needs_keys {
        resolver_calls += 1;
        Some(ResolvedKeys {
            threadkey: "tk".to_string(),
            force_184: "0".to_string(),
            waybackkey: "wb".to_string(),
        })
    } else {
        None
    };
    assert_eq!(resolver_calls, 0);
    assert!(keys.is_none());
}

#[test]
fn historical_run_resolves_keys_once() {
    let info = info_with_threads(vec![default_thread()]);
    let plan = info.plan_fetch(&Wayback::DateTime(1_572_739_200)).unwrap();
    let mut resolver_calls = 0u32;
    let _keys: Option<ResolvedKeys> = if plan.needs_keys {
        resolver_calls += 1;
        Some(ResolvedKeys {
            threadkey: "tk".to_string(),
            force_184: "0".to_string(),
            waybackkey: "wb".to_string(),
        })
    } else {
        None
    };
    assert_eq!(resolver_calls, 1);
}

#[test]
fn plan_fails_without_default_post_target() {
    let mut t = default_thread();
    t.is_default_post_target = false;
    let info = info_with_threads(vec![t]);
    assert_eq!(info.plan_fetch(&Wayback::Latest).unwrap_err(), Error::InvalidKey);
}

#[test]
fn snapshot_options_follow_instant_and_keys() {
    let keys = Some(ResolvedKeys {
        threadkey: "tk".to_string(),
        force_184: "1".to_string(),
        waybackkey: "wb".to_string(),
    });
    let opts = snapshot_options(Some(123), &keys);
    assert_eq!(opts.wayback.as_ref().unwrap().waybackkey, "wb");
    assert_eq!(opts.wayback.as_ref().unwrap().wayback, 123);
    assert_eq!(opts.official.as_ref().unwrap().threadkey, "tk");
    let opts = snapshot_options(None, &keys);
    assert!(opts.wayback.is_none());
    assert!(opts.official.is_some());
    let opts = snapshot_options(Some(123), &None);
    assert!(opts.wayback.is_none());
    assert!(opts.official.is_none());
}

#[test]
fn info_thread_queries() {
    let mut keyed = default_thread();
    keyed.is_default_post_target = false;
    keyed.is_thread_key_required = true;
    keyed.id = 2000;
    let info = info_with_threads(vec![keyed, default_thread()]);
    assert_eq!(info.comment.thread_id(), Some("1000".to_string()));
    assert!(!info.comment.is_thread_key_required());
    assert_eq!(info.comment.thread_key_required_thread().unwrap().id, 2000);
}
