//! The protocol request builder: turns thread descriptors, a snapshot
//! instant and the resolved authorization tokens into the serialized payload
//! of the legacy framed multi-thread subscribe protocol.
//!
//! The payload is an ordered list of typed elements: an opening framing
//! marker, for each qualifying thread an open/element/close triple (and a
//! second triple for its leaf window when required), and a closing framing
//! marker. Building the list and rendering it as JSON text are both pure.

use vstd::prelude::*;
use vstd::string::StringExecFns;

use crate::info::{CommentThread, CommentThreadView, Info, InfoView};
use crate::json::{key_prefix, opt_i64_member, opt_str_member, opt_u64_member, str_member,
    u64_member, write_key, write_opt_i64_member, write_opt_str_member, write_opt_u64_member,
    write_str_member, write_u64_member};
use crate::text::{dec_str, lemma_concat_extend, push_char, u64_to_string};
use crate::wayback::Wayback;

verus! {

/// The thread key and force-184 flag resolved for threads that require a
/// thread key.
pub struct OfficialOptions {
    pub threadkey: String,
    pub force_184: String,
}

/// The wayback key and the snapshot instant, in epoch seconds, of one
/// historical request.
pub struct WaybackOptions {
    pub waybackkey: String,
    pub wayback: i64,
}

/// The per-request options: present wayback options make the request
/// historical, present official options carry the resolved thread key.
pub struct Options {
    pub wayback: Option<WaybackOptions>,
    pub official: Option<OfficialOptions>,
}

/// The mathematical image of `OfficialOptions`.
pub struct OfficialOptionsView {
    pub threadkey: Seq<char>,
    pub force_184: Seq<char>,
}

/// The mathematical image of `WaybackOptions`.
pub struct WaybackOptionsView {
    pub waybackkey: Seq<char>,
    pub wayback: i64,
}

/// The mathematical image of `Options`.
pub struct OptionsView {
    pub wayback: Option<WaybackOptionsView>,
    pub official: Option<OfficialOptionsView>,
}

impl View for OfficialOptions {
    type V = OfficialOptionsView;

    open spec fn view(&self) -> OfficialOptionsView {
        OfficialOptionsView { threadkey: self.threadkey@, force_184: self.force_184@ }
    }
}

impl View for WaybackOptions {
    type V = WaybackOptionsView;

    open spec fn view(&self) -> WaybackOptionsView {
        WaybackOptionsView { waybackkey: self.waybackkey@, wayback: self.wayback }
    }
}

impl View for Options {
    type V = OptionsView;

    open spec fn view(&self) -> OptionsView {
        OptionsView {
            wayback: match self.wayback {
                Some(ref w) => Some(w@),
                None => None,
            },
            official: match self.official {
                Some(ref o) => Some(o@),
                None => None,
            },
        }
    }
}

/// One thread-open element of the protocol, fields in wire order; absent
/// optional fields are omitted from the serialized form.
pub struct Thread {
    pub thread: String,
    pub version: Option<String>,
    pub language: u64,
    pub user_id: String,
    pub with_global: Option<u64>,
    pub scores: u64,
    pub nicoru: u64,
    pub res_from: Option<i64>,
    pub fork: Option<u64>,
    pub content: Option<String>,
    pub userkey: Option<String>,
    pub threadkey: Option<String>,
    pub force_184: Option<String>,
    pub waybackkey: Option<String>,
    pub when: Option<i64>,
}

/// The mathematical image of a thread-open element.
pub struct ThreadView {
    pub thread: Seq<char>,
    pub version: Option<Seq<char>>,
    pub language: u64,
    pub user_id: Seq<char>,
    pub with_global: Option<u64>,
    pub scores: u64,
    pub nicoru: u64,
    pub res_from: Option<i64>,
    pub fork: Option<u64>,
    pub content: Option<Seq<char>>,
    pub userkey: Option<Seq<char>>,
    pub threadkey: Option<Seq<char>>,
    pub force_184: Option<Seq<char>>,
    pub waybackkey: Option<Seq<char>>,
    pub when: Option<i64>,
}

pub open spec fn view_opt_string(o: Option<String>) -> Option<Seq<char>> {
    match o {
        Some(s) => Some(s@),
        None => None,
    }
}

impl View for Thread {
    type V = ThreadView;

    open spec fn view(&self) -> ThreadView {
        ThreadView {
            thread: self.thread@,
            version: view_opt_string(self.version),
            language: self.language,
            user_id: self.user_id@,
            with_global: self.with_global,
            scores: self.scores,
            nicoru: self.nicoru,
            res_from: self.res_from,
            fork: self.fork,
            content: view_opt_string(self.content),
            userkey: view_opt_string(self.userkey),
            threadkey: view_opt_string(self.threadkey),
            force_184: view_opt_string(self.force_184),
            waybackkey: view_opt_string(self.waybackkey),
            when: self.when,
        }
    }
}

/// One element of the payload: a framing or segment marker, a thread-open
/// element, or its leaf-window variant.
pub enum Element {
    Ping { content: String },
    Thread(Thread),
    ThreadLeaves(Thread),
}

/// The mathematical image of one payload element.
pub enum ElementView {
    Ping { content: Seq<char> },
    Thread(ThreadView),
    ThreadLeaves(ThreadView),
}

impl View for Element {
    type V = ElementView;

    open spec fn view(&self) -> ElementView {
        match *self {
            Element::Ping { content: ref c } => ElementView::Ping { content: c@ },
            Element::Thread(ref t) => ElementView::Thread(t@),
            Element::ThreadLeaves(ref t) => ElementView::ThreadLeaves(t@),
        }
    }
}

/// The elements of a vector, as their images.
pub open spec fn elements_view(s: Seq<Element>) -> Seq<ElementView> {
    s.map_values(|e: Element| e@)
}

/// The JSON text of one thread-open element, fields in wire order, absent
/// optional fields omitted.
pub open spec fn thread_json(t: ThreadView) -> Seq<char> {
    seq!['{'] + str_member("thread"@, t.thread, false) + opt_str_member("version"@, t.version)
        + u64_member("language"@, t.language, true) + str_member("user_id"@, t.user_id, true)
        + opt_u64_member("with_global"@, t.with_global) + u64_member("scores"@, t.scores, true)
        + u64_member("nicoru"@, t.nicoru, true) + opt_i64_member("res_from"@, t.res_from)
        + opt_u64_member("fork"@, t.fork) + opt_str_member("content"@, t.content)
        + opt_str_member("userkey"@, t.userkey) + opt_str_member("threadkey"@, t.threadkey)
        + opt_str_member("force_184"@, t.force_184) + opt_str_member("waybackkey"@, t.waybackkey)
        + opt_i64_member("when"@, t.when) + seq!['}']
}

/// The JSON text of one payload element, tagged by its kind.
pub open spec fn element_json(e: ElementView) -> Seq<char> {
    match e {
        ElementView::Ping { content } => seq!['{'] + key_prefix("ping"@, false) + seq!['{']
            + str_member("content"@, content, false) + seq!['}'] + seq!['}'],
        ElementView::Thread(t) => seq!['{'] + key_prefix("thread"@, false) + thread_json(t)
            + seq!['}'],
        ElementView::ThreadLeaves(t) => seq!['{'] + key_prefix("thread_leaves"@, false)
            + thread_json(t) + seq!['}'],
    }
}

/// The elements' JSON texts joined with commas.
pub open spec fn elements_json_inner(es: Seq<ElementView>) -> Seq<char>
    decreases es.len(),
{
    if es.len() == 0 {
        Seq::empty()
    } else if es.len() == 1 {
        element_json(es[0])
    } else {
        elements_json_inner(es.drop_last()) + seq![','] + element_json(es.last())
    }
}

/// The JSON array of the whole payload.
pub open spec fn elements_json(es: Seq<ElementView>) -> Seq<char> {
    seq!['['] + elements_json_inner(es) + seq![']']
}

/// The receive-sequence tag of the framing markers: 0 for a live request,
/// 2 for a historical one.
pub open spec fn spec_rs_tag(opts: OptionsView) -> u64 {
    if opts.wayback is Some {
        2
    } else {
        0
    }
}

/// Whether a thread is included in the payload: it must be active, and
/// either the request mode matches the run mode, or the thread
/// unconditionally requires a thread key.
pub open spec fn qualifies(t: CommentThreadView, historical: bool, opts: OptionsView) -> bool {
    t.is_active && ((!historical && !(opts.wayback is Some)) || (historical
        && opts.wayback is Some) || t.is_thread_key_required)
}

/// The video length in minutes, rounded up.
pub open spec fn ceil_minutes(duration: u64) -> nat {
    (duration as nat) / 60 + (if duration as nat % 60 > 0 {
        1nat
    } else {
        0nat
    })
}

/// The leaf window: from minute zero through the whole video, with the
/// resolution differing between live and historical mode.
pub open spec fn leaf_content(info: InfoView, opts: OptionsView) -> Seq<char> {
    "0-"@ + dec_str(ceil_minutes(info.duration)) + ":"@ + (if opts.wayback is Some {
        "0,1000"@
    } else {
        "100,1000,nicoru:100"@
    })
}

/// The thread-open element for one thread: the version string differs by
/// the owner-thread flag and is absent in the leaf variant; `res_from` is
/// fixed for owner threads; the thread key comes from the resolved tokens
/// when present, else from the descriptor when the thread requires one; the
/// user key is sent only in live mode and only without a thread key; the
/// wayback key and instant are sent only in historical mode.
pub open spec fn spec_thread(
    info: InfoView,
    opts: OptionsView,
    t: CommentThreadView,
    leaf: bool,
) -> ThreadView {
    ThreadView {
        thread: dec_str(t.id as nat),
        version: if !leaf {
            if t.is_owner_thread {
                Some("20061206"@)
            } else {
                Some("20090904"@)
            }
        } else {
            None
        },
        language: 0,
        user_id: dec_str(info.viewer_id as nat),
        with_global: if leaf {
            None
        } else {
            Some(1u64)
        },
        scores: 1,
        nicoru: 3,
        res_from: if t.is_owner_thread {
            Some(-1000i64)
        } else {
            None
        },
        fork: Some(t.fork),
        content: if leaf {
            Some(leaf_content(info, opts))
        } else {
            None
        },
        userkey: if t.is_thread_key_required || opts.wayback is Some {
            None
        } else {
            Some(info.user_key)
        },
        threadkey: if t.is_thread_key_required {
            match opts.official {
                Some(o) => Some(o.threadkey),
                None => t.thread_key,
            }
        } else {
            None
        },
        force_184: if t.is_thread_key_required && opts.official is Some {
            Some(opts.official->Some_0.force_184)
        } else if t.is_184_forced == Some(true) {
            Some("1"@)
        } else {
            None
        },
        waybackkey: match opts.wayback {
            Some(w) => Some(w.waybackkey),
            None => None,
        },
        when: match opts.wayback {
            Some(w) => Some(w.wayback),
            None => None,
        },
    }
}

/// A segment marker: the prefix and the counter value.
pub open spec fn ping_el(prefix: Seq<char>, n: nat) -> ElementView {
    ElementView::Ping { content: prefix + dec_str(n) }
}

/// How many segment-counter values one thread consumes.
pub open spec fn group_width(t: CommentThreadView) -> nat {
    if t.is_leaf_required {
        2
    } else {
        1
    }
}

/// The open/element/close triple of one thread, and the second triple for
/// its leaf window when required, using the next counter value.
pub open spec fn spec_thread_group(
    info: InfoView,
    opts: OptionsView,
    t: CommentThreadView,
    c: nat,
) -> Seq<ElementView> {
    let base = seq![
        ping_el("ps:"@, c),
        ElementView::Thread(spec_thread(info, opts, t, false)),
        ping_el("pf:"@, c),
    ];
    if t.is_leaf_required {
        base + seq![
            ping_el("ps:"@, c + 1),
            ElementView::ThreadLeaves(spec_thread(info, opts, t, true)),
            ping_el("pf:"@, c + 1),
        ]
    } else {
        base
    }
}

/// The groups of all qualifying threads, in descriptor order, with a
/// strictly increasing segment counter.
pub open spec fn spec_groups(
    info: InfoView,
    opts: OptionsView,
    historical: bool,
    ts: Seq<CommentThreadView>,
    c: nat,
) -> Seq<ElementView>
    decreases ts.len(),
{
    if ts.len() == 0 {
        Seq::empty()
    } else {
        let t = ts[0];
        if qualifies(t, historical, opts) {
            spec_thread_group(info, opts, t, c) + spec_groups(
                info,
                opts,
                historical,
                ts.skip(1),
                c + group_width(t),
            )
        } else {
            spec_groups(info, opts, historical, ts.skip(1), c)
        }
    }
}

/// The whole payload: the opening framing marker, the thread groups with
/// the counter starting at 0 for live and 22 for historical requests, and
/// the closing framing marker.
pub open spec fn spec_body_elements(
    info: InfoView,
    opts: OptionsView,
    historical: bool,
) -> Seq<ElementView> {
    seq![ping_el("rs:"@, spec_rs_tag(opts) as nat)] + spec_groups(
        info,
        opts,
        historical,
        info.threads,
        if opts.wayback is Some {
            22nat
        } else {
            0nat
        },
    ) + seq![ping_el("rf:"@, spec_rs_tag(opts) as nat)]
}

fn ping_string(prefix: &str, n: u64) -> (r: String)
    ensures
        r@ == prefix@ + dec_str(n as nat),
{
    let mut s = prefix.to_owned();
    let d = u64_to_string(n);
    s.append(d.as_str());
    s
}

fn make_leaf_content(info: &Info, opts: &Options) -> (r: String)
    ensures
        r@ == leaf_content(info@, opts@),
{
    let mut s = String::from_str("0-");
    let minutes: u64 = info.video.duration / 60 + (if info.video.duration % 60 > 0 {
        1
    } else {
        0
    });
    let d = u64_to_string(minutes);
    s.append(d.as_str());
    s.append(":");
    s.append(
        if opts.wayback.is_some() {
            "0,1000"
        } else {
            "100,1000,nicoru:100"
        },
    );
    assert(s@ =~= leaf_content(info@, opts@));
    s
}

fn make_thread(info: &Info, opts: &Options, t: &CommentThread, leaf: bool) -> (r: Thread)
    ensures
        r@ == spec_thread(info@, opts@, t@, leaf),
{
    let r = Thread {
        thread: u64_to_string(t.id),
        version: if !leaf {
            if t.is_owner_thread {
                Some(String::from_str("20061206"))
            } else {
                Some(String::from_str("20090904"))
            }
        } else {
            None
        },
        language: 0,
        user_id: u64_to_string(info.viewer.id),
        with_global: if leaf {
            None
        } else {
            Some(1u64)
        },
        scores: 1,
        nicoru: 3,
        res_from: if t.is_owner_thread {
            Some(-1000i64)
        } else {
            None
        },
        fork: Some(t.fork),
        content: if leaf {
            Some(make_leaf_content(info, opts))
        } else {
            None
        },
        userkey: if t.is_thread_key_required || opts.wayback.is_some() {
            None
        } else {
            Some(info.comment.keys.user_key.clone())
        },
        threadkey: if t.is_thread_key_required {
            match opts.official {
                Some(ref o) => Some(o.threadkey.clone()),
                None => match t.thread_key {
                    Some(ref k) => Some(k.clone()),
                    None => None,
                },
            }
        } else {
            None
        },
        force_184: if t.is_thread_key_required && opts.official.is_some() {
            match opts.official {
                Some(ref o) => Some(o.force_184.clone()),
                None => None,
            }
        } else if t.is_184_forced == Some(true) {
            Some(String::from_str("1"))
        } else {
            None
        },
        waybackkey: match opts.wayback {
            Some(ref w) => Some(w.waybackkey.clone()),
            None => None,
        },
        when: match opts.wayback {
            Some(ref w) => Some(w.wayback),
            None => None,
        },
    };
    r
}

/// Builds the payload as its element list, before serialization.
pub fn build_elements(info: &Info, opts: &Options, wayback: &Wayback) -> (r: Vec<Element>)
    requires
        info.comment.threads@.len() <= 0x1000_0000,
    ensures
        elements_view(r@) == spec_body_elements(info@, opts@, wayback.spec_has_historical()),
{
    let historical = wayback.is_wayback();
    let rs: u64 = if opts.wayback.is_some() {
        2
    } else {
        0
    };
    let c0: u64 = if opts.wayback.is_some() {
        22
    } else {
        0
    };
    let ghost threads_v = info@.threads;
    let mut out: Vec<Element> = Vec::new();
    out.push(Element::Ping { content: ping_string("rs:", rs) });
    assert(elements_view(out@) =~= seq![ping_el("rs:"@, spec_rs_tag(opts@) as nat)]);
    let mut c: u64 = c0;
    let mut i: usize = 0;
    let ghost mut built: Seq<ElementView> = Seq::empty();
    proof {
        assert(threads_v.skip(0) =~= threads_v);
        assert(Seq::<ElementView>::empty() + spec_groups(
            info@,
            opts@,
            historical,
            threads_v,
            c0 as nat,
        ) =~= spec_groups(info@, opts@, historical, threads_v, c0 as nat));
    }
    while i < info.comment.threads.len()
        invariant
            i <= info.comment.threads@.len(),
            info.comment.threads@.len() <= 0x1000_0000,
            threads_v == info@.threads,
            threads_v.len() == info.comment.threads@.len(),
            c0 <= 22,
            c0 as nat <= c as nat <= c0 as nat + 2 * i,
            historical == wayback.spec_has_historical(),
            elements_view(out@) == seq![ping_el("rs:"@, spec_rs_tag(opts@) as nat)] + built,
            spec_groups(info@, opts@, historical, threads_v, c0 as nat) == built + spec_groups(
                info@,
                opts@,
                historical,
                threads_v.skip(i as int),
                c as nat,
            ),
        decreases info.comment.threads@.len() - i,
    {
        let ghost rest = threads_v.skip(i as int);
        let t = &info.comment.threads[i];
        assert(rest[0] == threads_v[i as int]);
        assert(threads_v[i as int] == t@);
        let takes = t.is_active && ((!historical && !opts.wayback.is_some()) || (historical
            && opts.wayback.is_some()) || t.is_thread_key_required);
        assert(takes == qualifies(t@, historical, opts@));
        proof {
            assert(rest.len() > 0);
            assert(rest.skip(1) =~= threads_v.skip(i + 1));
            assert(spec_groups(info@, opts@, historical, rest, c as nat) == (if qualifies(
                rest[0],
                historical,
                opts@,
            ) {
                spec_thread_group(info@, opts@, rest[0], c as nat) + spec_groups(
                    info@,
                    opts@,
                    historical,
                    rest.skip(1),
                    c as nat + group_width(rest[0]),
                )
            } else {
                spec_groups(info@, opts@, historical, rest.skip(1), c as nat)
            }));
        }
        if takes {
            out.push(Element::Ping { content: ping_string("ps:", c) });
            out.push(Element::Thread(make_thread(info, opts, t, false)));
            out.push(Element::Ping { content: ping_string("pf:", c) });
            if t.is_leaf_required {
                out.push(Element::Ping { content: ping_string("ps:", c + 1) });
                out.push(Element::ThreadLeaves(make_thread(info, opts, t, true)));
                out.push(Element::Ping { content: ping_string("pf:", c + 1) });
                proof {
                    assert(elements_view(out@) =~= seq![
                        ping_el("rs:"@, spec_rs_tag(opts@) as nat),
                    ] + built + spec_thread_group(info@, opts@, t@, c as nat));
                    built = built + spec_thread_group(info@, opts@, t@, c as nat);
                }
                c = c + 2;
            } else {
                proof {
                    assert(elements_view(out@) =~= seq![
                        ping_el("rs:"@, spec_rs_tag(opts@) as nat),
                    ] + built + spec_thread_group(info@, opts@, t@, c as nat));
                    built = built + spec_thread_group(info@, opts@, t@, c as nat);
                }
                c = c + 1;
            }
        }
        i = i + 1;
    }
    proof {
        assert(threads_v.skip(threads_v.len() as int) =~= Seq::<CommentThreadView>::empty());
        assert(spec_groups(info@, opts@, historical, threads_v, c0 as nat) =~= built);
    }
    out.push(Element::Ping { content: ping_string("rf:", rs) });
    assert(elements_view(out@) =~= spec_body_elements(info@, opts@, wayback.spec_has_historical()));
    out
}

fn write_thread(out: &mut String, t: &Thread)
    ensures
        final(out)@ == old(out)@ + thread_json(t@),
{
    let ghost p0 = old(out)@;
    push_char(out, '{');
    let ghost s0 = seq!['{'];
    assert(out@ == p0 + s0);
    write_str_member(out, "thread", t.thread.as_str(), false);
    let ghost s1 = s0 + str_member("thread"@, t@.thread, false);
    proof {
        lemma_concat_extend(p0, s0, str_member("thread"@, t@.thread, false));
    }
    write_opt_str_member(out, "version", &t.version);
    let ghost s2 = s1 + opt_str_member("version"@, t@.version);
    proof {
        lemma_concat_extend(p0, s1, opt_str_member("version"@, t@.version));
    }
    write_u64_member(out, "language", t.language, true);
    let ghost s3 = s2 + u64_member("language"@, t@.language, true);
    proof {
        lemma_concat_extend(p0, s2, u64_member("language"@, t@.language, true));
    }
    write_str_member(out, "user_id", t.user_id.as_str(), true);
    let ghost s4 = s3 + str_member("user_id"@, t@.user_id, true);
    proof {
        lemma_concat_extend(p0, s3, str_member("user_id"@, t@.user_id, true));
    }
    write_opt_u64_member(out, "with_global", &t.with_global);
    let ghost s5 = s4 + opt_u64_member("with_global"@, t@.with_global);
    proof {
        lemma_concat_extend(p0, s4, opt_u64_member("with_global"@, t@.with_global));
    }
    write_u64_member(out, "scores", t.scores, true);
    let ghost s6 = s5 + u64_member("scores"@, t@.scores, true);
    proof {
        lemma_concat_extend(p0, s5, u64_member("scores"@, t@.scores, true));
    }
    write_u64_member(out, "nicoru", t.nicoru, true);
    let ghost s7 = s6 + u64_member("nicoru"@, t@.nicoru, true);
    proof {
        lemma_concat_extend(p0, s6, u64_member("nicoru"@, t@.nicoru, true));
    }
    write_opt_i64_member(out, "res_from", &t.res_from);
    let ghost s8 = s7 + opt_i64_member("res_from"@, t@.res_from);
    proof {
        lemma_concat_extend(p0, s7, opt_i64_member("res_from"@, t@.res_from));
    }
    write_opt_u64_member(out, "fork", &t.fork);
    let ghost s9 = s8 + opt_u64_member("fork"@, t@.fork);
    proof {
        lemma_concat_extend(p0, s8, opt_u64_member("fork"@, t@.fork));
    }
    write_opt_str_member(out, "content", &t.content);
    let ghost s10 = s9 + opt_str_member("content"@, t@.content);
    proof {
        lemma_concat_extend(p0, s9, opt_str_member("content"@, t@.content));
    }
    write_opt_str_member(out, "userkey", &t.userkey);
    let ghost s11 = s10 + opt_str_member("userkey"@, t@.userkey);
    proof {
        lemma_concat_extend(p0, s10, opt_str_member("userkey"@, t@.userkey));
    }
    write_opt_str_member(out, "threadkey", &t.threadkey);
    let ghost s12 = s11 + opt_str_member("threadkey"@, t@.threadkey);
    proof {
        lemma_concat_extend(p0, s11, opt_str_member("threadkey"@, t@.threadkey));
    }
    write_opt_str_member(out, "force_184", &t.force_184);
    let ghost s13 = s12 + opt_str_member("force_184"@, t@.force_184);
    proof {
        lemma_concat_extend(p0, s12, opt_str_member("force_184"@, t@.force_184));
    }
    write_opt_str_member(out, "waybackkey", &t.waybackkey);
    let ghost s14 = s13 + opt_str_member("waybackkey"@, t@.waybackkey);
    proof {
        lemma_concat_extend(p0, s13, opt_str_member("waybackkey"@, t@.waybackkey));
    }
    write_opt_i64_member(out, "when", &t.when);
    let ghost s15 = s14 + opt_i64_member("when"@, t@.when);
    proof {
        lemma_concat_extend(p0, s14, opt_i64_member("when"@, t@.when));
    }
    push_char(out, '}');
    let ghost s16 = s15 + seq!['}'];
    proof {
        lemma_concat_extend(p0, s15, seq!['}']);
    }
    assert(out@ == p0 + s16);
    assert(s16 == thread_json(t@));
}

fn write_element(out: &mut String, e: &Element)
    ensures
        final(out)@ == old(out)@ + element_json(e@),
{
    let ghost p0 = old(out)@;
    match e {
        Element::Ping { content } => {
            push_char(out, '{');
            let ghost s0 = seq!['{'];
            write_key(out, "ping", false);
            let ghost s1 = s0 + key_prefix("ping"@, false);
            proof {
                lemma_concat_extend(p0, s0, key_prefix("ping"@, false));
            }
            push_char(out, '{');
            let ghost s2 = s1 + seq!['{'];
            proof {
                lemma_concat_extend(p0, s1, seq!['{']);
            }
            write_str_member(out, "content", content.as_str(), false);
            let ghost s3 = s2 + str_member("content"@, content@, false);
            proof {
                lemma_concat_extend(p0, s2, str_member("content"@, content@, false));
            }
            push_char(out, '}');
            let ghost s4 = s3 + seq!['}'];
            proof {
                lemma_concat_extend(p0, s3, seq!['}']);
            }
            push_char(out, '}');
            let ghost s5 = s4 + seq!['}'];
            proof {
                lemma_concat_extend(p0, s4, seq!['}']);
            }
            assert(out@ == p0 + s5);
            assert(s5 == element_json(e@));
        },
        Element::Thread(t) => {
            push_char(out, '{');
            let ghost s0 = seq!['{'];
            write_key(out, "thread", false);
            let ghost s1 = s0 + key_prefix("thread"@, false);
            proof {
                lemma_concat_extend(p0, s0, key_prefix("thread"@, false));
            }
            write_thread(out, t);
            let ghost s2 = s1 + thread_json(t@);
            proof {
                lemma_concat_extend(p0, s1, thread_json(t@));
            }
            push_char(out, '}');
            let ghost s3 = s2 + seq!['}'];
            proof {
                lemma_concat_extend(p0, s2, seq!['}']);
            }
            assert(out@ == p0 + s3);
            assert(s3 == element_json(e@));
        },
        Element::ThreadLeaves(t) => {
            push_char(out, '{');
            let ghost s0 = seq!['{'];
            write_key(out, "thread_leaves", false);
            let ghost s1 = s0 + key_prefix("thread_leaves"@, false);
            proof {
                lemma_concat_extend(p0, s0, key_prefix("thread_leaves"@, false));
            }
            write_thread(out, t);
            let ghost s2 = s1 + thread_json(t@);
            proof {
                lemma_concat_extend(p0, s1, thread_json(t@));
            }
            push_char(out, '}');
            let ghost s3 = s2 + seq!['}'];
            proof {
                lemma_concat_extend(p0, s2, seq!['}']);
            }
            assert(out@ == p0 + s3);
            assert(s3 == element_json(e@));
        },
    }
}

/// Renders the element list as the JSON array the endpoint expects.
pub fn serialize_elements(es: &Vec<Element>) -> (r: String)
    ensures
        r@ == elements_json(elements_view(es@)),
{
    let ghost evs = elements_view(es@);
    let mut out = String::new();
    push_char(&mut out, '[');
    let mut i: usize = 0;
    while i < es.len()
        invariant
            i <= es@.len(),
            evs == elements_view(es@),
            evs.len() == es@.len(),
            out@ == seq!['['] + elements_json_inner(evs.take(i as int)),
        decreases es@.len() - i,
    {
        if i > 0 {
            push_char(&mut out, ',');
        }
        write_element(&mut out, &es[i]);
        proof {
            assert(evs.take(i + 1).drop_last() =~= evs.take(i as int));
            assert(evs.take(i + 1).last() == evs[i as int]);
        }
        i = i + 1;
        assert(out@ =~= seq!['['] + elements_json_inner(evs.take(i as int)));
    }
    push_char(&mut out, ']');
    proof {
        assert(evs.take(evs.len() as int) =~= evs);
    }
    assert(out@ =~= elements_json(evs));
    out
}

/// Builds and serializes the whole request payload. The result is the JSON
/// array of the element list determined by the thread descriptors, the run
/// mode and the per-request options.
pub fn get_body(info: &Info, opts: &Options, wayback: &Wayback) -> (r: String)
    requires
        info.comment.threads@.len() <= 0x1000_0000,
    ensures
        r@ == elements_json(spec_body_elements(info@, opts@, wayback.spec_has_historical())),
{
    let es = build_elements(info, opts, wayback);
    serialize_elements(&es)
}

} // verus!
