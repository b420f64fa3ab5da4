//! What the user hands on the command line: a bare video identifier, a
//! watch URL, a channel URL, or a series URL. Channel and series URLs name
//! a channel by the path segment before any query string; anything else is
//! taken as a video, with any watch-URL prefix stripped.

use vstd::prelude::*;

use crate::text::{chars_to_string, find_from, first_match_from, has_prefix, match_at, remove_all,
    remove_all_chars, str_to_chars, sub_chars};

verus! {

/// A video to fetch, or a channel whose videos are to be fetched.
#[derive(Debug)]
pub enum Id {
    Video(String),
    Channel(String),
}

/// The mathematical image of an identifier.
pub enum IdView {
    Video(Seq<char>),
    Channel(Seq<char>),
}

impl View for Id {
    type V = IdView;

    open spec fn view(&self) -> IdView {
        match *self {
            Id::Video(ref s) => IdView::Video(s@),
            Id::Channel(ref s) => IdView::Channel(s@),
        }
    }
}

impl PartialEq for Id {
    /// Two identifiers are equal when they name the same kind and text.
    fn eq(&self, other: &Id) -> (r: bool) {
        match (self, other) {
            (Id::Video(a), Id::Video(b)) => *a == *b,
            (Id::Channel(a), Id::Channel(b)) => *a == *b,
            _ => false,
        }
    }
}

impl vstd::std_specs::cmp::PartialEqSpecImpl for Id {
    open spec fn obeys_eq_spec() -> bool {
        true
    }

    open spec fn eq_spec(&self, other: &Id) -> bool {
        match (self, other) {
            (Id::Video(a), Id::Video(b)) => a@ == b@,
            (Id::Channel(a), Id::Channel(b)) => a@ == b@,
            _ => false,
        }
    }
}

/// What a channel-style URL captures: after the prefix, the non-empty text
/// up to the first question mark, or to the end when there is none.
pub open spec fn channel_capture(s: Seq<char>, pre: Seq<char>) -> Option<Seq<char>> {
    if match_at(s, pre, 0) {
        let rest = s.skip(pre.len() as int);
        let cap = match first_match_from(rest, seq!['?'], 0) {
            Some(i) => rest.take(i),
            None => rest,
        };
        if cap.len() > 0 {
            Some(cap)
        } else {
            None
        }
    } else {
        None
    }
}

/// How an identifier string is read: a channel URL or a series URL names a
/// channel; everything else is a video, with every occurrence of the watch
/// URL prefix removed.
pub open spec fn spec_parse_id(s: Seq<char>) -> IdView {
    match channel_capture(s, "https://ch.nicovideo.jp/"@) {
        Some(c) => IdView::Channel(c),
        None => match channel_capture(s, "https://www.nicovideo.jp/series/"@) {
            Some(c) => IdView::Channel(c),
            None => IdView::Video(remove_all(s, "https://www.nicovideo.jp/watch/"@)),
        },
    }
}

fn try_channel(cs: &Vec<char>, pre: &Vec<char>) -> (r: Option<String>)
    ensures
        (match (r, channel_capture(cs@, pre@)) {
            (Some(s), Some(c)) => s@ == c,
            (None, None) => true,
            _ => false,
        }),
{
    if !has_prefix(cs, pre) {
        return None;
    }
    let rest = sub_chars(cs, pre.len(), cs.len());
    proof {
        assert(rest@ =~= cs@.skip(pre@.len() as int));
    }
    let qm: Vec<char> = vec!['?'];
    assert(qm@ =~= seq!['?']);
    proof {
        crate::text::lemma_first_match_bounds(rest@, qm@, 0);
    }
    let cap = match find_from(&rest, &qm, 0) {
        Some(i) => sub_chars(&rest, 0, i),
        None => rest,
    };
    proof {
        if let Some(i) = first_match_from(rest@, seq!['?'], 0) {
            assert(cap@ =~= rest@.take(i));
        }
    }
    if cap.len() > 0 {
        Some(chars_to_string(&cap))
    } else {
        None
    }
}

impl Id {
    /// Reads an identifier string. Never fails: what is no channel or
    /// series URL is a video identifier.
    pub fn parse(s: &str) -> (r: Id)
        ensures
            r@ == spec_parse_id(s@),
    {
        let cs = str_to_chars(s);
        let pre1 = str_to_chars("https://ch.nicovideo.jp/");
        if let Some(c) = try_channel(&cs, &pre1) {
            return Id::Channel(c);
        }
        let pre2 = str_to_chars("https://www.nicovideo.jp/series/");
        if let Some(c) = try_channel(&cs, &pre2) {
            return Id::Channel(c);
        }
        proof {
            reveal_strlit("https://www.nicovideo.jp/watch/");
        }
        let watch = str_to_chars("https://www.nicovideo.jp/watch/");
        let stripped = remove_all_chars(&cs, &watch);
        Id::Video(chars_to_string(&stripped))
    }
}

} // verus!
