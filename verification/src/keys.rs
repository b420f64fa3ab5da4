//! The key resolver's response parsing. The two key endpoints answer in a
//! fixed plaintext shape: `threadkey=<key>&force_184=<flag>` and
//! `waybackkey=<key>`; anything else is an invalid key response.

use vstd::prelude::*;

use crate::error::Error;
use crate::text::{chars_to_string, find_from, first_match_from, has_prefix, match_at,
    str_to_chars, sub_chars};

verus! {

/// The text holds no line break; a response with one never matches.
pub open spec fn no_newline(s: Seq<char>) -> bool {
    forall|i: int| 0 <= i < s.len() ==> s[i] != '\n'
}

/// What the thread-key response parses to: the response must begin with
/// `threadkey=`, the key runs to the first `&force_184=` separator that
/// leaves it non-empty, the flag is the non-empty rest, and no line break
/// appears anywhere.
pub open spec fn threadkey_parse(s: Seq<char>) -> Option<(Seq<char>, Seq<char>)> {
    let pre = "threadkey="@;
    let sep = "&force_184="@;
    if match_at(s, pre, 0) && no_newline(s) {
        match first_match_from(s, sep, pre.len() + 1 as int) {
            Some(i) => if i + sep.len() < s.len() {
                Some(
                    (
                        s.subrange(pre.len() as int, i),
                        s.subrange(i + sep.len(), s.len() as int),
                    ),
                )
            } else {
                None
            },
            None => None,
        }
    } else {
        None
    }
}

/// What the wayback-key response parses to: the response must begin with
/// `waybackkey=`, the non-empty rest is the key, and no line break appears.
pub open spec fn waybackkey_parse(s: Seq<char>) -> Option<Seq<char>> {
    let pre = "waybackkey="@;
    if match_at(s, pre, 0) && no_newline(s) && s.len() > pre.len() {
        Some(s.subrange(pre.len() as int, s.len() as int))
    } else {
        None
    }
}

fn check_no_newline(s: &Vec<char>) -> (r: bool)
    ensures
        r == no_newline(s@),
{
    let mut i: usize = 0;
    while i < s.len()
        invariant
            i <= s@.len(),
            forall|j: int| 0 <= j < i ==> s@[j] != '\n',
        decreases s@.len() - i,
    {
        if s[i] == '\n' {
            return false;
        }
        i = i + 1;
    }
    true
}

/// Parses the thread-key endpoint's response into the thread key and the
/// force-184 flag. Fails with `InvalidKey` exactly when the response does
/// not match the expected shape.
pub fn parse_threadkey_response(s: &str) -> (r: Result<(String, String), Error>)
    ensures
        r is Ok <==> threadkey_parse(s@) is Some,
        (match r {
            Ok(p) => threadkey_parse(s@) == Some((p.0@, p.1@)),
            Err(e) => e == Error::InvalidKey,
        }),
{
    proof {
        reveal_strlit("threadkey=");
        reveal_strlit("&force_184=");
    }
    let cs = str_to_chars(s);
    let pre = str_to_chars("threadkey=");
    let sep = str_to_chars("&force_184=");
    if !has_prefix(&cs, &pre) {
        return Err(Error::InvalidKey);
    }
    if !check_no_newline(&cs) {
        return Err(Error::InvalidKey);
    }
    proof {
        crate::text::lemma_first_match_bounds(cs@, sep@, pre@.len() + 1 as int);
    }
    let n = cs.len();
    match find_from(&cs, &sep, pre.len() + 1) {
        Some(i) => {
            if i + sep.len() < n {
                let key = sub_chars(&cs, pre.len(), i);
                let flag = sub_chars(&cs, i + sep.len(), n);
                Ok((chars_to_string(&key), chars_to_string(&flag)))
            } else {
                Err(Error::InvalidKey)
            }
        },
        None => Err(Error::InvalidKey),
    }
}

/// Parses the wayback-key endpoint's response into the wayback key. Fails
/// with `InvalidKey` exactly when the response does not match the expected
/// shape.
pub fn parse_waybackkey_response(s: &str) -> (r: Result<String, Error>)
    ensures
        r is Ok <==> waybackkey_parse(s@) is Some,
        (match r {
            Ok(k) => waybackkey_parse(s@) == Some(k@),
            Err(e) => e == Error::InvalidKey,
        }),
{
    proof {
        reveal_strlit("waybackkey=");
    }
    let cs = str_to_chars(s);
    let pre = str_to_chars("waybackkey=");
    if !has_prefix(&cs, &pre) {
        return Err(Error::InvalidKey);
    }
    if !check_no_newline(&cs) {
        return Err(Error::InvalidKey);
    }
    if cs.len() > pre.len() {
        let key = sub_chars(&cs, pre.len(), cs.len());
        Ok(chars_to_string(&key))
    } else {
        Err(Error::InvalidKey)
    }
}

} // verus!
