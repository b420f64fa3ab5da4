//! Verified construction of JSON text: string escaping and object members.
//! The escaping follows the common convention: quote and backslash get a
//! backslash, the named control characters their short form, the remaining
//! control characters the `\u00XX` form with lower-case hex digits.

use vstd::prelude::*;
use vstd::string::StringExecFns;

use crate::text::{dec_str, digit_char_spec, int_str, i64_to_string, push_char, str_to_chars,
    u64_to_string};

verus! {

/// The hex character for one value below 16, lower case.
pub open spec fn hex_char_spec(d: nat) -> char {
    if d < 10 {
        digit_char_spec(d)
    } else if d == 10 {
        'a'
    } else if d == 11 {
        'b'
    } else if d == 12 {
        'c'
    } else if d == 13 {
        'd'
    } else if d == 14 {
        'e'
    } else {
        'f'
    }
}

/// The JSON escape of one character.
pub open spec fn escape_char(c: char) -> Seq<char> {
    if c == '"' {
        seq!['\\', '"']
    } else if c == '\\' {
        seq!['\\', '\\']
    } else if c == '\u{8}' {
        seq!['\\', 'b']
    } else if c == '\t' {
        seq!['\\', 't']
    } else if c == '\n' {
        seq!['\\', 'n']
    } else if c == '\u{c}' {
        seq!['\\', 'f']
    } else if c == '\r' {
        seq!['\\', 'r']
    } else if (c as u32) < 0x20 {
        seq!['\\', 'u', '0', '0', hex_char_spec(((c as u32) / 16) as nat), hex_char_spec(
            ((c as u32) % 16) as nat,
        )]
    } else {
        seq![c]
    }
}

/// The JSON escape of a whole string body.
pub open spec fn escaped(s: Seq<char>) -> Seq<char>
    decreases s.len(),
{
    if s.len() == 0 {
        Seq::empty()
    } else {
        escaped(s.drop_last()) + escape_char(s.last())
    }
}

/// A JSON string: the escaped body in double quotes.
pub open spec fn json_str(s: Seq<char>) -> Seq<char> {
    seq!['"'] + escaped(s) + seq!['"']
}

/// What introduces an object member: a comma when it is not the first, then
/// the quoted key and a colon.
pub open spec fn key_prefix(key: Seq<char>, comma: bool) -> Seq<char> {
    (if comma {
        seq![',']
    } else {
        Seq::<char>::empty()
    }) + seq!['"'] + key + seq!['"', ':']
}

/// A member whose value is a JSON string.
pub open spec fn str_member(key: Seq<char>, val: Seq<char>, comma: bool) -> Seq<char> {
    key_prefix(key, comma) + json_str(val)
}

/// A member whose value is an unsigned number.
pub open spec fn u64_member(key: Seq<char>, n: u64, comma: bool) -> Seq<char> {
    key_prefix(key, comma) + dec_str(n as nat)
}

/// A member whose value is a signed number.
pub open spec fn i64_member(key: Seq<char>, n: i64, comma: bool) -> Seq<char> {
    key_prefix(key, comma) + int_str(n as int)
}

/// A string member that is omitted when absent; never the first member.
pub open spec fn opt_str_member(key: Seq<char>, o: Option<Seq<char>>) -> Seq<char> {
    match o {
        Some(v) => str_member(key, v, true),
        None => Seq::empty(),
    }
}

/// An unsigned member that is omitted when absent; never the first member.
pub open spec fn opt_u64_member(key: Seq<char>, o: Option<u64>) -> Seq<char> {
    match o {
        Some(n) => u64_member(key, n, true),
        None => Seq::empty(),
    }
}

/// A signed member that is omitted when absent; never the first member.
pub open spec fn opt_i64_member(key: Seq<char>, o: Option<i64>) -> Seq<char> {
    match o {
        Some(n) => i64_member(key, n, true),
        None => Seq::empty(),
    }
}

fn hex_char(d: u32) -> (c: char)
    requires
        d < 16,
    ensures
        c == hex_char_spec(d as nat),
{
    if d == 0 {
        '0'
    } else if d == 1 {
        '1'
    } else if d == 2 {
        '2'
    } else if d == 3 {
        '3'
    } else if d == 4 {
        '4'
    } else if d == 5 {
        '5'
    } else if d == 6 {
        '6'
    } else if d == 7 {
        '7'
    } else if d == 8 {
        '8'
    } else if d == 9 {
        '9'
    } else if d == 10 {
        'a'
    } else if d == 11 {
        'b'
    } else if d == 12 {
        'c'
    } else if d == 13 {
        'd'
    } else if d == 14 {
        'e'
    } else {
        'f'
    }
}

fn write_escaped_char(out: &mut String, c: char)
    ensures
        final(out)@ == old(out)@ + escape_char(c),
{
    if c == '"' {
        push_char(out, '\\');
        push_char(out, '"');
    } else if c == '\\' {
        push_char(out, '\\');
        push_char(out, '\\');
    } else if c == '\u{8}' {
        push_char(out, '\\');
        push_char(out, 'b');
    } else if c == '\t' {
        push_char(out, '\\');
        push_char(out, 't');
    } else if c == '\n' {
        push_char(out, '\\');
        push_char(out, 'n');
    } else if c == '\u{c}' {
        push_char(out, '\\');
        push_char(out, 'f');
    } else if c == '\r' {
        push_char(out, '\\');
        push_char(out, 'r');
    } else if (c as u32) < 0x20 {
        let u = c as u32;
        push_char(out, '\\');
        push_char(out, 'u');
        push_char(out, '0');
        push_char(out, '0');
        push_char(out, hex_char(u / 16));
        push_char(out, hex_char(u % 16));
    } else {
        push_char(out, c);
    }
    assert(final(out)@ =~= old(out)@ + escape_char(c));
}

/// Appends the JSON string for `s`, quotes and escapes included.
pub fn write_json_str(out: &mut String, s: &str)
    ensures
        final(out)@ == old(out)@ + json_str(s@),
{
    push_char(out, '"');
    let cs = str_to_chars(s);
    let mut i: usize = 0;
    while i < cs.len()
        invariant
            i <= cs@.len(),
            cs@ == s@,
            out@ == old(out)@ + seq!['"'] + escaped(s@.take(i as int)),
        decreases cs@.len() - i,
    {
        write_escaped_char(out, cs[i]);
        i = i + 1;
        assert(s@.take(i as int).drop_last() =~= s@.take(i - 1));
        assert(s@.take(i as int).last() == s@[i - 1]);
        assert(out@ =~= old(out)@ + seq!['"'] + escaped(s@.take(i as int)));
    }
    push_char(out, '"');
    assert(s@.take(s@.len() as int) =~= s@);
    assert(final(out)@ =~= old(out)@ + json_str(s@));
}

/// Appends a comma when asked, then the quoted key and a colon.
pub fn write_key(out: &mut String, key: &str, comma: bool)
    ensures
        final(out)@ == old(out)@ + key_prefix(key@, comma),
{
    if comma {
        push_char(out, ',');
    }
    push_char(out, '"');
    out.append(key);
    push_char(out, '"');
    push_char(out, ':');
    assert(final(out)@ =~= old(out)@ + key_prefix(key@, comma));
}

/// Appends a member whose value is a JSON string.
pub fn write_str_member(out: &mut String, key: &str, val: &str, comma: bool)
    ensures
        final(out)@ == old(out)@ + str_member(key@, val@, comma),
{
    write_key(out, key, comma);
    write_json_str(out, val);
    assert(final(out)@ =~= old(out)@ + str_member(key@, val@, comma));
}

/// Appends a member whose value is an unsigned number.
pub fn write_u64_member(out: &mut String, key: &str, n: u64, comma: bool)
    ensures
        final(out)@ == old(out)@ + u64_member(key@, n, comma),
{
    write_key(out, key, comma);
    let d = u64_to_string(n);
    out.append(d.as_str());
    assert(final(out)@ =~= old(out)@ + u64_member(key@, n, comma));
}

/// Appends a member whose value is a signed number.
pub fn write_i64_member(out: &mut String, key: &str, n: i64, comma: bool)
    ensures
        final(out)@ == old(out)@ + i64_member(key@, n, comma),
{
    write_key(out, key, comma);
    let d = i64_to_string(n);
    out.append(d.as_str());
    assert(final(out)@ =~= old(out)@ + i64_member(key@, n, comma));
}

/// Appends a string member, or nothing when the value is absent.
pub fn write_opt_str_member(out: &mut String, key: &str, o: &Option<String>)
    ensures
        final(out)@ == old(out)@ + opt_str_member(
            key@,
            match o {
                Some(v) => Some(v@),
                None => None,
            },
        ),
{
    match o {
        Some(v) => write_str_member(out, key, v.as_str(), true),
        None => {
            assert(final(out)@ =~= old(out)@ + Seq::<char>::empty());
        },
    }
}

/// Appends an unsigned member, or nothing when the value is absent.
pub fn write_opt_u64_member(out: &mut String, key: &str, o: &Option<u64>)
    ensures
        final(out)@ == old(out)@ + opt_u64_member(key@, *o),
{
    match o {
        Some(n) => write_u64_member(out, key, *n, true),
        None => {
            assert(final(out)@ =~= old(out)@ + Seq::<char>::empty());
        },
    }
}

/// Appends a signed member, or nothing when the value is absent.
pub fn write_opt_i64_member(out: &mut String, key: &str, o: &Option<i64>)
    ensures
        final(out)@ == old(out)@ + opt_i64_member(key@, *o),
{
    match o {
        Some(n) => write_i64_member(out, key, *n, true),
        None => {
            assert(final(out)@ =~= old(out)@ + Seq::<char>::empty());
        },
    }
}

} // verus!
