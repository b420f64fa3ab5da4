//! The channel listing's video filter. A video is rejected when its title
//! still mentions "PV" after the first bracketed span is removed: the span
//! runs from the first opening bracket that has a closing bracket later on
//! its line to the last such closing bracket.

use vstd::prelude::*;

use crate::text::{chars_to_string, contains_from, find_from, first_match_from, match_at,
    remove_all,
    remove_all_chars, str_to_chars, sub_chars};

verus! {

/// One video of a channel listing.
pub struct Video {
    pub id: String,
    pub title: String,
}

/// Where the line holding position `from` ends: at the first line break at
/// or after it, or at the end of the text.
pub open spec fn line_end(s: Seq<char>, from: int) -> int {
    match first_match_from(s, seq!['\n'], from) {
        Some(i) => i,
        None => s.len() as int,
    }
}

/// The last closing bracket in positions `from` (inclusive) to `end`
/// (exclusive), if any.
pub open spec fn last_close_before(s: Seq<char>, from: int, end: int) -> Option<int>
    decreases end - from,
{
    if end <= from || end < 1 || end > s.len() {
        None
    } else if s[end - 1] == '」' {
        Some(end - 1)
    } else {
        last_close_before(s, from, end - 1)
    }
}

/// The first opening bracket, at or after `i`, that has a closing bracket
/// later on its line, paired with the last such closing bracket.
pub open spec fn bracket_span_from(s: Seq<char>, i: int) -> Option<(int, int)>
    decreases s.len() - i,
{
    if i < 0 || i >= s.len() {
        None
    } else if s[i] == '「' {
        match last_close_before(s, i + 1, line_end(s, i)) {
            Some(j) => Some((i, j)),
            None => bracket_span_from(s, i + 1),
        }
    } else {
        bracket_span_from(s, i + 1)
    }
}

/// The title with its first bracketed span removed, brackets included; a
/// title without such a span stands unchanged.
pub open spec fn strip_bracketed(s: Seq<char>) -> Seq<char> {
    match bracket_span_from(s, 0) {
        Some(span) => s.take(span.0) + s.skip(span.1 + 1),
        None => s,
    }
}

/// Whether a title is rejected: it mentions "PV" outside the first
/// bracketed span.
pub open spec fn spec_video_rejected(title: Seq<char>) -> bool {
    contains_from(strip_bracketed(title), "PV"@, 0)
}

/// The span search lands within bounds, open before close.
proof fn lemma_last_close_bounds(s: Seq<char>, from: int, end: int)
    ensures
        match last_close_before(s, from, end) {
            Some(j) => from <= j < end && j < s.len() && s[j] == '」',
            None => true,
        },
    decreases end - from,
{
    if end <= from || end < 1 || end > s.len() {
    } else if s[end - 1] == '」' {
    } else {
        lemma_last_close_bounds(s, from, end - 1);
    }
}

/// The bracket search lands within bounds, open before close.
proof fn lemma_bracket_span_bounds(s: Seq<char>, i: int)
    ensures
        match bracket_span_from(s, i) {
            Some(span) => i <= span.0 < span.1 < s.len(),
            None => true,
        },
    decreases s.len() - i,
{
    if i < 0 || i >= s.len() {
    } else if s[i] == '「' {
        lemma_last_close_bounds(s, i + 1, line_end(s, i));
        if last_close_before(s, i + 1, line_end(s, i)) is None {
            lemma_bracket_span_bounds(s, i + 1);
        }
    } else {
        lemma_bracket_span_bounds(s, i + 1);
    }
}

/// Positions without an opening bracket do not move the span search.
proof fn lemma_bracket_span_skip(s: Seq<char>, a: int, b: int)
    requires
        0 <= a <= b <= s.len(),
        forall|k: int| a <= k < b ==> s[k] != '「',
    ensures
        bracket_span_from(s, a) == bracket_span_from(s, b),
    decreases b - a,
{
    if a < b {
        lemma_bracket_span_skip(s, a + 1, b);
    }
}

fn find_last_close(s: &Vec<char>, from: usize, end: usize) -> (r: Option<usize>)
    requires
        end <= s@.len(),
    ensures
        (match (r, last_close_before(s@, from as int, end as int)) {
            (Some(a), Some(b)) => a as int == b,
            (None, None) => true,
            _ => false,
        }),
{
    let mut e = end;
    while e > from && e >= 1
        invariant
            e <= end <= s@.len(),
            last_close_before(s@, from as int, end as int) == last_close_before(
                s@,
                from as int,
                e as int,
            ),
        decreases e,
    {
        if s[e - 1] == '」' {
            return Some(e - 1);
        }
        e = e - 1;
    }
    None
}

fn find_bracket_span(cs: &Vec<char>) -> (r: Option<(usize, usize)>)
    ensures
        (match (r, bracket_span_from(cs@, 0)) {
            (Some(p), Some(q)) => p.0 as int == q.0 && p.1 as int == q.1,
            (None, None) => true,
            _ => false,
        }),
{
    let n = cs.len();
    let open_pat: Vec<char> = vec!['「'];
    let nl_pat: Vec<char> = vec!['\n'];
    assert(open_pat@ =~= seq!['「']);
    assert(nl_pat@ =~= seq!['\n']);
    let mut start: usize = 0;
    loop
        invariant
            start <= n,
            n == cs@.len(),
            open_pat@ == seq!['「'],
            nl_pat@ == seq!['\n'],
            bracket_span_from(cs@, 0) == bracket_span_from(cs@, start as int),
        decreases n - start,
    {
        proof {
            crate::text::lemma_first_match_bounds(cs@, open_pat@, start as int);
            crate::text::lemma_first_match_first(cs@, open_pat@, start as int);
        }
        let i = match find_from(&cs, &open_pat, start) {
            Some(i) => i,
            None => {
                proof {
                    assert forall|k: int| start <= k < n implies cs@[k] != '「' by {
                        if cs@[k] == '「' {
                            assert(match_at(cs@, seq!['「'], k));
                        }
                    }
                    lemma_bracket_span_skip(cs@, start as int, n as int);
                }
                return None;
            },
        };
        proof {
            assert forall|k: int| start <= k < i implies cs@[k] != '「' by {
                if cs@[k] == '「' {
                    assert(match_at(cs@, seq!['「'], k));
                }
            }
            lemma_bracket_span_skip(cs@, start as int, i as int);
            assert(match_at(cs@, seq!['「'], i as int));
            assert(cs@[i + 0] == seq!['「'][0]);
            assert(cs@[i as int] == '「');
            crate::text::lemma_first_match_bounds(cs@, nl_pat@, i as int);
        }
        let nl = match find_from(&cs, &nl_pat, i) {
            Some(j) => j,
            None => n,
        };
        assert(nl as int == line_end(cs@, i as int));
        match find_last_close(&cs, i + 1, nl) {
            Some(j) => {
                proof {
                    lemma_last_close_bounds(cs@, i + 1, nl as int);
                }
                return Some((i, j));
            },
            None => {
                start = i + 1;
            },
        }
    }
}

/// Whether a channel video's title is rejected.
pub fn video_rejected(title: &str) -> (r: bool)
    ensures
        r == spec_video_rejected(title@),
{
    let cs = str_to_chars(title);
    let n = cs.len();
    let pv_pat = str_to_chars("PV");
    let stripped: Vec<char> = match find_bracket_span(&cs) {
        Some((i, j)) => {
            proof {
                lemma_bracket_span_bounds(cs@, 0);
            }
            let mut head = sub_chars(&cs, 0, i);
            let tail = sub_chars(&cs, j + 1, n);
            let m = tail.len();
            let mut k: usize = 0;
            while k < m
                invariant
                    k <= m,
                    m == tail@.len(),
                    i <= cs@.len(),
                    head@ == cs@.subrange(0, i as int) + tail@.subrange(0, k as int),
                decreases m - k,
            {
                head.push(tail[k]);
                k = k + 1;
                assert(head@ =~= cs@.subrange(0, i as int) + tail@.subrange(0, k as int));
            }
            proof {
                assert(tail@.subrange(0, tail@.len() as int) =~= tail@);
                assert(head@ =~= cs@.take(i as int) + cs@.skip(j + 1));
            }
            head
        },
        None => cs,
    };
    assert(stripped@ == strip_bracketed(title@));
    match find_from(&stripped, &pv_pat, 0) {
        Some(_) => true,
        None => false,
    }
}

/// What one listing anchor becomes: the video with the watch-URL prefix
/// stripped from its link, unless its title is rejected.
pub fn video_from_anchor(href: &str, title: &str) -> (r: Option<Video>)
    ensures
        (match r {
            Some(v) => !spec_video_rejected(title@) && v.id@ == remove_all(
                href@,
                "https://www.nicovideo.jp/watch/"@,
            ) && v.title@ == title@,
            None => spec_video_rejected(title@),
        }),
{
    if video_rejected(title) {
        return None;
    }
    proof {
        reveal_strlit("https://www.nicovideo.jp/watch/");
    }
    let cs = str_to_chars(href);
    let watch = str_to_chars("https://www.nicovideo.jp/watch/");
    let stripped = remove_all_chars(&cs, &watch);
    Some(Video { id: chars_to_string(&stripped), title: title.to_owned() })
}

} // verus!
