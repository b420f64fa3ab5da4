//! The user-facing time expressions: an instant given as `posted`,
//! `posted+<duration>`, `latest`, or a literal date or datetime, and a step
//! duration such as `6h`, `1d` or `2w`. Instants are epoch seconds; only
//! the parsing of literal dates goes through the calendar, behind trusted
//! wrappers.

use vstd::prelude::*;

use crate::text::{chars_to_string, eq_chars, match_at, str_to_chars, sub_chars};

verus! {

/// A step duration: its length in seconds and the text it was written as.
#[derive(Debug, Clone)]
pub struct Duration {
    pub seconds: i64,
    pub source: String,
}

/// The mathematical image of a duration.
pub struct DurationView {
    pub seconds: i64,
    pub source: Seq<char>,
}

impl View for Duration {
    type V = DurationView;

    open spec fn view(&self) -> DurationView {
        DurationView { seconds: self.seconds, source: self.source@ }
    }
}

/// The character is a decimal digit.
pub open spec fn is_digit(c: char) -> bool {
    ('0' as u32) <= (c as u32) && (c as u32) <= ('9' as u32)
}

/// The value of one digit character.
pub open spec fn digit_val(c: char) -> nat
    recommends
        is_digit(c),
{
    ((c as u32) - ('0' as u32)) as nat
}

/// Every character is a digit.
pub open spec fn all_digits(s: Seq<char>) -> bool {
    forall|i: int| 0 <= i < s.len() ==> is_digit(s[i])
}

/// The value of a digit string, most significant digit first.
pub open spec fn digits_val(s: Seq<char>) -> nat
    decreases s.len(),
{
    if s.len() == 0 {
        0
    } else {
        digits_val(s.drop_last()) * 10 + digit_val(s.last())
    }
}

/// The seconds of one duration unit letter.
pub open spec fn unit_seconds(c: char) -> nat {
    if c == 'h' {
        3600
    } else if c == 'd' {
        86400
    } else {
        604800
    }
}

/// The duration grammar: one or more digits, then `h`, `d` or `w`.
pub open spec fn duration_grammar_ok(s: Seq<char>) -> bool {
    &&& s.len() >= 2
    &&& all_digits(s.take(s.len() - 1))
    &&& (s.last() == 'h' || s.last() == 'd' || s.last() == 'w')
}

/// The seconds a well-formed duration string denotes.
pub open spec fn duration_seconds_of(s: Seq<char>) -> nat
    recommends
        duration_grammar_ok(s),
{
    digits_val(s.take(s.len() - 1)) * unit_seconds(s.last())
}

/// A well-formed duration string parses exactly when its digit value fits
/// a machine word and its seconds fit a timestamp.
pub open spec fn duration_parses(s: Seq<char>) -> bool {
    &&& duration_grammar_ok(s)
    &&& digits_val(s.take(s.len() - 1)) <= u64::MAX
    &&& duration_seconds_of(s) <= i64::MAX
}

/// A longer digit prefix never has a smaller value.
proof fn lemma_digits_prefix_le(s: Seq<char>, k: int)
    requires
        0 <= k < s.len(),
    ensures
        digits_val(s.take(k)) <= digits_val(s.take(k + 1)),
{
    assert(s.take(k + 1).drop_last() =~= s.take(k));
    assert(digits_val(s.take(k + 1)) == digits_val(s.take(k)) * 10 + digit_val(s.take(k + 1).last()));
    assert(digits_val(s.take(k)) * 10 >= digits_val(s.take(k))) by (nonlinear_arith);
}

/// Digit values grow along prefixes.
proof fn lemma_digits_monotone(s: Seq<char>, a: int, b: int)
    requires
        0 <= a <= b <= s.len(),
    ensures
        digits_val(s.take(a)) <= digits_val(s.take(b)),
    decreases b - a,
{
    if a < b {
        lemma_digits_prefix_le(s, a);
        lemma_digits_monotone(s, a + 1, b);
    }
}

impl Duration {
    /// Reads a duration such as `6h`, `1d` or `2w`. `None` exactly when
    /// the text does not match the grammar, or its value does not fit.
    pub fn parse(s: &str) -> (r: Option<Duration>)
        ensures
            r is Some <==> duration_parses(s@),
            (match r {
                Some(d) => d.seconds >= 0 && d.seconds as nat == duration_seconds_of(s@)
                    && d.source@ == s@,
                None => true,
            }),
    {
        let cs = str_to_chars(s);
        let n = cs.len();
        if n < 2 {
            return None;
        }
        let unit = cs[n - 1];
        if !(unit == 'h' || unit == 'd' || unit == 'w') {
            return None;
        }
        let ghost digits = s@.take(s@.len() - 1);
        let mut val: u64 = 0;
        let mut i: usize = 0;
        while i < n - 1
            invariant
                i <= n - 1,
                n == s@.len(),
                n >= 2,
                cs@ == s@,
                digits == s@.take(s@.len() - 1),
                all_digits(s@.take(i as int)),
                val == digits_val(s@.take(i as int)),
            decreases n - 1 - i,
        {
            let c = cs[i];
            let u = c as u32;
            if u < '0' as u32 || u > '9' as u32 {
                assert(!is_digit(s@[i as int]));
                assert(digits[i as int] == s@[i as int]);
                assert(!all_digits(digits));
                return None;
            }
            let d: u64 = (u - '0' as u32) as u64;
            let next = match val.checked_mul(10) {
                Some(m) => m.checked_add(d),
                None => None,
            };
            proof {
                assert(s@.take(i + 1).drop_last() =~= s@.take(i as int));
                assert(s@.take(i + 1).last() == s@[i as int]);
            }
            match next {
                Some(v) => {
                    val = v;
                },
                None => {
                    proof {
                        assert(digits_val(s@.take(i + 1)) > u64::MAX);
                        lemma_digits_monotone(s@, i + 1, s@.len() - 1);
                        assert(digits_val(digits) > u64::MAX);
                    }
                    return None;
                },
            }
            i = i + 1;
        }
        proof {
            assert(s@.take(n - 1 as int) =~= digits);
        }
        let unit_secs: u64 = if unit == 'h' {
            3600
        } else if unit == 'd' {
            86400
        } else {
            604800
        };
        assert(unit_secs == unit_seconds(s@.last()));
        let total = match val.checked_mul(unit_secs) {
            Some(t) => t,
            None => {
                return None;
            },
        };
        if total > i64::MAX as u64 {
            return None;
        }
        Some(Duration { seconds: total as i64, source: s.to_owned() })
    }

    /// The length in seconds.
    pub fn duration(&self) -> (r: i64)
        ensures
            r == self.seconds,
    {
        self.seconds
    }

    /// The text the duration was written as.
    pub fn source(&self) -> (r: &str)
        ensures
            r@ == self.source@,
    {
        self.source.as_str()
    }
}

/// An instant expression: the posting instant, the posting instant plus a
/// duration, the current instant, or a literal instant in epoch seconds.
#[derive(Debug, Clone)]
pub enum DateTime {
    Posted,
    PostedPlus(Duration),
    Latest,
    DateTime(i64),
}

/// The mathematical image of an instant expression.
pub enum DateTimeView {
    Posted,
    PostedPlus(DurationView),
    Latest,
    DateTime(i64),
}

impl View for DateTime {
    type V = DateTimeView;

    open spec fn view(&self) -> DateTimeView {
        match *self {
            DateTime::Posted => DateTimeView::Posted,
            DateTime::PostedPlus(ref d) => DateTimeView::PostedPlus(d@),
            DateTime::Latest => DateTimeView::Latest,
            DateTime::DateTime(t) => DateTimeView::DateTime(t),
        }
    }
}

/// What chrono parses a `%Y-%m-%d %H:%M:%S` datetime string to, in epoch
/// seconds; the result depends on the text alone.
pub uninterp spec fn datetime_parse_seconds(s: Seq<char>) -> Option<i64>;

/// What chrono parses a `%Y-%m-%d` date string to, taken at midnight, in
/// epoch seconds; the result depends on the text alone.
pub uninterp spec fn date_parse_seconds(s: Seq<char>) -> Option<i64>;

/// Relies on chrono's `NaiveDateTime::parse_from_str` with the
/// `%Y-%m-%d %H:%M:%S` format, and `and_utc().timestamp()`: parsing is a
/// function of the text alone.
#[verifier::external_body]
fn parse_datetime_seconds(s: &str) -> (r: Option<i64>)
    ensures
        r == datetime_parse_seconds(s@),
{
    chrono::NaiveDateTime::parse_from_str(s, "%Y-%m-%d %H:%M:%S").ok().map(
        |d| d.and_utc().timestamp(),
    )
}

/// Relies on chrono's `NaiveDate::parse_from_str` with the `%Y-%m-%d`
/// format, `and_hms_opt(0, 0, 0)` and `and_utc().timestamp()`: parsing is
/// a function of the text alone.
#[verifier::external_body]
fn parse_date_seconds(s: &str) -> (r: Option<i64>)
    ensures
        r == date_parse_seconds(s@),
{
    chrono::NaiveDate::parse_from_str(s, "%Y-%m-%d").ok().and_then(|d| d.and_hms_opt(0, 0, 0)).map(
        |d| d.and_utc().timestamp(),
    )
}

/// Relies on chrono's `Local::now` and `naive_local`: the current
/// wall-clock instant in epoch seconds. Nothing is promised of the value.
#[verifier::external_body]
fn now_seconds() -> i64 {
    chrono::Local::now().naive_local().and_utc().timestamp()
}

/// What an instant expression parses to, if anything: the two keywords,
/// then `posted+<duration>`, then a literal datetime, then a literal date.
pub open spec fn spec_parse_datetime(s: Seq<char>) -> Option<DateTimeView> {
    if s == "latest"@ {
        Some(DateTimeView::Latest)
    } else if s == "posted"@ {
        Some(DateTimeView::Posted)
    } else if match_at(s, "posted+"@, 0) && s.len() > "posted+"@.len() {
        let rest = s.skip("posted+"@.len() as int);
        if duration_parses(rest) {
            Some(
                DateTimeView::PostedPlus(
                    DurationView {
                        seconds: duration_seconds_of(rest) as i64,
                        source: rest,
                    },
                ),
            )
        } else {
            None
        }
    } else {
        match datetime_parse_seconds(s) {
            Some(t) => Some(DateTimeView::DateTime(t)),
            None => match date_parse_seconds(s) {
                Some(t) => Some(DateTimeView::DateTime(t)),
                None => None,
            },
        }
    }
}

/// What an instant expression resolves to, relative to the posting
/// instant: exact for everything but `latest`, whose value is the clock's.
pub open spec fn resolves_to(dt: DateTimeView, posted: int, r: int) -> bool {
    match dt {
        DateTimeView::Posted => r == posted,
        DateTimeView::PostedPlus(d) => r == posted + d.seconds,
        DateTimeView::Latest => true,
        DateTimeView::DateTime(t) => r == t,
    }
}

/// The resolved sum stays within timestamp range.
pub open spec fn resolve_fits(dt: DateTimeView, posted: int) -> bool {
    match dt {
        DateTimeView::PostedPlus(d) => i64::MIN <= posted + d.seconds <= i64::MAX,
        _ => true,
    }
}

impl DateTime {
    /// Reads an instant expression. `None` exactly when the text is none
    /// of the keywords, no well-formed `posted+<duration>`, and no literal
    /// date or datetime.
    pub fn parse(s: &str) -> (r: Option<DateTime>)
        ensures
            (match (r, spec_parse_datetime(s@)) {
                (Some(d), Some(v)) => d@ == v,
                (None, None) => true,
                _ => false,
            }),
    {
        proof {
            reveal_strlit("latest");
            reveal_strlit("posted");
            reveal_strlit("posted+");
        }
        let cs = str_to_chars(s);
        let lat = str_to_chars("latest");
        if eq_chars(&cs, &lat) {
            assert(s@ == "latest"@);
            return Some(DateTime::Latest);
        }
        let pos = str_to_chars("posted");
        if eq_chars(&cs, &pos) {
            assert(s@ == "posted"@);
            return Some(DateTime::Posted);
        }
        let pre = str_to_chars("posted+");
        if crate::text::has_prefix(&cs, &pre) && cs.len() > pre.len() {
            let rest = sub_chars(&cs, pre.len(), cs.len());
            proof {
                assert(rest@ =~= s@.skip("posted+"@.len() as int));
            }
            let rest_str = chars_to_string(&rest);
            return match Duration::parse(rest_str.as_str()) {
                Some(d) => Some(DateTime::PostedPlus(d)),
                None => None,
            };
        }
        if let Some(t) = parse_datetime_seconds(s) {
            return Some(DateTime::DateTime(t));
        }
        if let Some(t) = parse_date_seconds(s) {
            return Some(DateTime::DateTime(t));
        }
        None
    }

    /// Resolves the expression against the posting instant and a given
    /// current instant.
    pub fn datetime_at(&self, posted: i64, now: i64) -> (r: i64)
        requires
            resolve_fits(self@, posted as int),
        ensures
            resolves_to(self@, posted as int, r as int),
            self@ is Latest ==> r == now,
            !(self@ is Latest) ==> resolves_to(self@, posted as int, r as int) && (forall|x: int|
                resolves_to(self@, posted as int, x) ==> x == r as int),
    {
        match self {
            DateTime::Posted => posted,
            DateTime::PostedPlus(d) => posted + d.seconds,
            DateTime::Latest => now,
            DateTime::DateTime(t) => *t,
        }
    }

    /// Resolves the expression against the posting instant; `latest`
    /// resolves to the clock's current instant.
    pub fn datetime(&self, posted: i64) -> (r: i64)
        requires
            resolve_fits(self@, posted as int),
        ensures
            resolves_to(self@, posted as int, r as int),
    {
        let now = now_seconds();
        self.datetime_at(posted, now)
    }
}

} // verus!
