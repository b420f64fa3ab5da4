use nicodo::body::{get_body, OfficialOptions, Options, WaybackOptions};
use nicodo::info::{Client, Comment, CommentKeys, CommentThread, Info, Viewer, Video};
use nicodo::wayback::Wayback;

fn thread(id: u64) -> CommentThread {
    CommentThread {
        id,
        fork: 0,
        is_active: true,
        is_default_post_target: false,
        is_thread_key_required: false,
        is_leaf_required: false,
        is_owner_thread: false,
        thread_key: None,
        is_184_forced: None,
    }
}

fn info_with(threads: Vec<CommentThread>, duration: u64) -> Info {
    Info {
        video: Video {
            id: "sm1".to_string(),
            title: "a title".to_string(),
            duration,
            registered_at: 0,
        },
        comment: Comment {
            keys: CommentKeys { user_key: "ukey".to_string() },
            threads,
        },
        client: Client { watch_id: "sm1".to_string() },
        viewer: Viewer { id: 42 },
    }
}

#[test]
fn live_body_with_leaf_thread() {
    let mut t = thread(1000);
    t.is_default_post_target = true;
    t.is_leaf_required = true;
    let info = info_with(vec![t], 120);
    let opts = Options { wayback: None, official: None };
    let body = get_body(&info, &opts, &Wayback::Latest);
    assert_eq!(
        body,
        "[{\"ping\":{\"content\":\"rs:0\"}},{\"ping\":{\"content\":\"ps:0\"}},{\"thread\":{\"thread\":\"1000\",\"version\":\"20090904\",\"language\":0,\"user_id\":\"42\",\"with_global\":1,\"scores\":1,\"nicoru\":3,\"fork\":0,\"userkey\":\"ukey\"}},{\"ping\":{\"content\":\"pf:0\"}},{\"ping\":{\"content\":\"ps:1\"}},{\"thread_leaves\":{\"thread\":\"1000\",\"language\":0,\"user_id\":\"42\",\"scores\":1,\"nicoru\":3,\"fork\":0,\"content\":\"0-2:100,1000,nicoru:100\",\"userkey\":\"ukey\"}},{\"ping\":{\"content\":\"pf:1\"}},{\"ping\":{\"content\":\"rf:0\"}}]"
    );
}

#[test]
fn historical_body_with_owner_thread() {
    let mut t = thread(5);
    t.fork = 1;
    t.is_thread_key_required = true;
    t.is_owner_thread = true;
    t.thread_key = Some("pre".to_string());
    t.is_184_forced = Some(true);
    let info = info_with(vec![t], 61);
    let when = 1572739200i64;
    let opts = Options {
        wayback: Some(WaybackOptions { waybackkey: "wbk".to_string(), wayback: when }),
        official: Some(OfficialOptions {
            threadkey: "tk".to_string(),
            force_184: "1".to_string(),
        }),
    };
    let body = get_body(&info, &opts, &Wayback::DateTime(when));
    assert_eq!(
        body,
        "[{\"ping\":{\"content\":\"rs:2\"}},{\"ping\":{\"content\":\"ps:22\"}},{\"thread\":{\"thread\":\"5\",\"version\":\"20061206\",\"language\":0,\"user_id\":\"42\",\"with_global\":1,\"scores\":1,\"nicoru\":3,\"res_from\":-1000,\"fork\":1,\"threadkey\":\"tk\",\"force_184\":\"1\",\"waybackkey\":\"wbk\",\"when\":1572739200}},{\"ping\":{\"content\":\"pf:22\"}},{\"ping\":{\"content\":\"rf:2\"}}]"
    );
}

// An inactive thread is skipped; in live mode a thread that requires a key
// is still included, with its pre-supplied key, and the user key is omitted
// for it.
#[test]
fn live_body_filter_and_key_fallback() {
    let mut inactive = thread(1);
    inactive.is_active = false;
    let mut keyed = thread(2);
    keyed.is_thread_key_required = true;
    keyed.thread_key = Some("own".to_string());
    let info = info_with(vec![inactive, keyed], 59);
    let opts = Options { wayback: None, official: None };
    let body = get_body(&info, &opts, &Wayback::Latest);
    assert_eq!(
        body,
        "[{\"ping\":{\"content\":\"rs:0\"}},{\"ping\":{\"content\":\"ps:0\"}},{\"thread\":{\"thread\":\"2\",\"version\":\"20090904\",\"language\":0,\"user_id\":\"42\",\"with_global\":1,\"scores\":1,\"nicoru\":3,\"fork\":0,\"threadkey\":\"own\"}},{\"ping\":{\"content\":\"pf:0\"}},{\"ping\":{\"content\":\"rf:0\"}}]"
    );
}

// The payload text is escaped: a user key holding a quote and a backslash
// cannot break out of its JSON string.
#[test]
fn body_escapes_key_material() {
    let mut t = thread(9);
    t.is_default_post_target = true;
    let mut info = info_with(vec![t], 60);
    info.comment.keys.user_key = "a\"b\\c\nd".to_string();
    let opts = Options { wayback: None, official: None };
    let body = get_body(&info, &opts, &Wayback::Latest);
    assert!(body.contains("\"userkey\":\"a\\\"b\\\\c\\nd\""));
}
