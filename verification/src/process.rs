//! What one invocation asks for: the output format and the time window,
//! and how the window resolves to a concrete snapshot specification.

use vstd::prelude::*;

use crate::datetime::{resolve_fits, resolves_to, DateTime, Duration};
use crate::text::{eq_chars, str_to_chars};
use crate::wayback::Wayback;

verus! {

/// The output format of the assembled comment set.
#[derive(Clone, Copy, Debug, PartialEq, Eq, Structural)]
pub enum Format {
    XML,
    JSON,
}

impl Format {
    /// Reads a format name. `Err` exactly when the text is neither `xml`
    /// nor `json`.
    pub fn parse(s: &str) -> (r: Result<Format, &'static str>)
        ensures
            (match r {
                Ok(f) => (f == Format::XML && s@ == "xml"@) || (f == Format::JSON && s@
                    == "json"@),
                Err(_) => s@ != "xml"@ && s@ != "json"@,
            }),
            s@ == "xml"@ ==> r == Ok::<Format, &'static str>(Format::XML),
            s@ == "json"@ ==> r == Ok::<Format, &'static str>(Format::JSON),
    {
        proof {
            reveal_strlit("xml");
            reveal_strlit("json");
            assert("xml"@.len() == 3);
            assert("json"@.len() == 4);
            assert("xml"@ != "json"@);
        }
        let cs = str_to_chars(s);
        let xml = str_to_chars("xml");
        let json = str_to_chars("json");
        if eq_chars(&cs, &xml) {
            Ok(Format::XML)
        } else if eq_chars(&cs, &json) {
            Ok(Format::JSON)
        } else {
            Err("invalid format")
        }
    }

    /// The file extension of the format.
    pub fn ext(&self) -> (r: &'static str)
        ensures
            (match *self {
                Format::XML => r@ == "xml"@,
                Format::JSON => r@ == "json"@,
            }),
    {
        match self {
            Format::XML => "xml",
            Format::JSON => "json",
        }
    }
}

/// The user's time window: one instant, a stepped period, or only the
/// live comments.
#[derive(Debug)]
pub enum Timespan {
    DateTime(DateTime),
    Period { start: DateTime, end: DateTime, interval: Duration, include_latest: bool },
    Latest,
}

/// Every instant expression of the window resolves without leaving the
/// timestamp range.
pub open spec fn timespan_fits(t: &Timespan, posted: int) -> bool {
    match *t {
        Timespan::DateTime(ref d) => resolve_fits(d@, posted),
        Timespan::Period { ref start, ref end, .. } => resolve_fits(start@, posted)
            && resolve_fits(end@, posted),
        Timespan::Latest => true,
    }
}

impl Timespan {
    /// Resolves the window against the video's posting instant into the
    /// snapshot specification: each instant expression resolves relative
    /// to the posting instant (`latest` to the clock), and the period
    /// carries its step's seconds and the include-latest flag over.
    pub fn wayback(&self, posted: i64) -> (r: Wayback)
        requires
            timespan_fits(self, posted as int),
        ensures
            (match (self, r) {
                (Timespan::Latest, Wayback::Latest) => true,
                (Timespan::DateTime(d), Wayback::DateTime(t)) => resolves_to(
                    d@,
                    posted as int,
                    t as int,
                ),
                (
                    Timespan::Period { start, end, interval, include_latest },
                    Wayback::Period { start: s2, end: e2, interval: iv2, include_latest: il2 },
                ) => resolves_to(start@, posted as int, s2 as int) && resolves_to(
                    end@,
                    posted as int,
                    e2 as int,
                ) && iv2 == interval.seconds && il2 == include_latest,
                _ => false,
            }),
    {
        match self {
            Timespan::DateTime(d) => Wayback::DateTime(d.datetime(posted)),
            Timespan::Period { start, end, interval, include_latest } => Wayback::Period {
                start: start.datetime(posted),
                end: end.datetime(posted),
                interval: interval.duration(),
                include_latest: *include_latest,
            },
            Timespan::Latest => Wayback::Latest,
        }
    }

    /// The period's step, where the window is a period.
    pub fn interval(&self) -> (r: Option<&Duration>)
        ensures
            (match (self, r) {
                (Timespan::Period { interval, .. }, Some(d)) => d == interval,
                (Timespan::Period { .. }, None) => false,
                (_, None) => true,
                _ => false,
            }),
    {
        if let Timespan::Period { interval, .. } = self {
            Some(interval)
        } else {
            None
        }
    }
}

} // verus!
