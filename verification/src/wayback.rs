//! The timeline generator: turns a time-window specification into the
//! ordered, finite sequence of snapshot instants to fetch.
//!
//! An instant is `Option<i64>`: `None` means "current/live", `Some(t)` means
//! "as of epoch second t". The sequence is non-decreasing, holds at most one
//! `None`, and that `None` is always last.

use vstd::prelude::*;

verus! {

/// Which snapshots of the comment stream to fetch.
#[derive(Clone, Copy, Debug, PartialEq, Eq, Structural)]
pub enum Wayback {
    /// One live snapshot, no time travel.
    Latest,
    /// One historical snapshot, at the given epoch second.
    DateTime(i64),
    /// Historical snapshots every `interval` seconds from `start` while the
    /// instant stays at or before `end`; if the progression misses `end` and
    /// `include_latest` is set, one trailing live snapshot.
    Period { start: i64, end: i64, interval: i64, include_latest: bool },
}

/// A period produces snapshots only when its window is non-empty and its
/// step positive.
pub open spec fn period_valid(start: int, end: int, interval: int) -> bool {
    start < end && interval > 0
}

/// How many timed instants a valid period produces.
pub open spec fn timed_count(start: int, end: int, interval: int) -> nat
    recommends
        period_valid(start, end, interval),
{
    ((end - start) / interval + 1) as nat
}

/// A valid period misses its end exactly when the step does not divide the
/// window; only then does `include_latest` append a trailing live snapshot.
pub open spec fn period_misses_end(start: int, end: int, interval: int) -> bool {
    (end - start) % interval != 0
}

impl Wayback {
    /// The exact sequence of snapshot instants this specification produces.
    pub open spec fn timeline(&self) -> Seq<Option<i64>> {
        match *self {
            Wayback::Latest => seq![None],
            Wayback::DateTime(t) => seq![Some(t)],
            Wayback::Period { start, end, interval, include_latest } => {
                if !period_valid(start as int, end as int, interval as int) {
                    Seq::empty()
                } else {
                    let n = timed_count(start as int, end as int, interval as int);
                    let timed = Seq::new(n, |k: int| Some((start + k * interval) as i64));
                    if include_latest && period_misses_end(
                        start as int,
                        end as int,
                        interval as int,
                    ) {
                        timed.push(None)
                    } else {
                        timed
                    }
                }
            },
        }
    }

    /// At least one snapshot is historical, so authorization keys are needed.
    pub open spec fn spec_has_historical(&self) -> bool {
        exists|i: int| 0 <= i < self.timeline().len() && self.timeline()[i] is Some
    }

    /// Whether this run needs wayback authorization keys: true exactly when
    /// the timeline holds a historical instant. A `Latest`-only run never
    /// does, and neither does a period with an empty window or a
    /// non-positive step, whose timeline is empty.
    pub fn is_wayback(&self) -> (r: bool)
        ensures
            r == self.spec_has_historical(),
    {
        match self {
            Wayback::Latest => {
                assert(forall|i: int|
                    0 <= i < self.timeline().len() ==> !(self.timeline()[i] is Some));
                false
            },
            Wayback::DateTime(_) => {
                assert(self.timeline()[0] is Some);
                true
            },
            Wayback::Period { start, end, interval, include_latest: _ } => {
                if *start < *end && *interval > 0 {
                    assert(self.timeline()[0] is Some);
                    true
                } else {
                    assert(self.timeline().len() == 0);
                    false
                }
            },
        }
    }

    /// The number of snapshots, computed without materializing the
    /// timeline. `None` only when the count does not fit in a `u64`.
    pub fn len(&self) -> (r: Option<u64>)
        ensures
            match r {
                Some(n) => n as int == self.timeline().len(),
                None => self.timeline().len() > u64::MAX,
            },
    {
        match self {
            Wayback::Latest => Some(1),
            Wayback::DateTime(_) => Some(1),
            Wayback::Period { start, end, interval, include_latest } => {
                if !(*start < *end && *interval > 0) {
                    assert(self.timeline().len() == 0);
                    Some(0)
                } else {
                    let span: u128 = ((*end as i128) - (*start as i128)) as u128;
                    let iv: u128 = *interval as u128;
                    assert(span == *end as int - *start as int);
                    assert(iv == *interval as int);
                    let q: u128 = span / iv;
                    let rem: u128 = span % iv;
                    proof {
                        assert(q == span as int / iv as int && rem == span as int % iv as int);
                        assert(q <= span) by (nonlinear_arith)
                            requires
                                iv >= 1,
                                q == span as int / iv as int,
                                span >= 0,
                        ;
                    }
                    let trail: bool = *include_latest && rem != 0;
                    let total: u128 = q + 1 + (if trail { 1u128 } else { 0u128 });
                    assert(total == self.timeline().len());
                    if total <= u64::MAX as u128 {
                        Some(total as u64)
                    } else {
                        None
                    }
                }
            },
        }
    }

    /// A fresh, restartable iterator over the timeline.
    pub fn iter(&self) -> (it: WaybackIter)
        ensures
            it.wf(),
            it.spec_emitted() == 0,
            it.spec_wayback() == *self,
    {
        let cur: Option<i64> = match self {
            Wayback::Period { start, .. } => Some(*start),
            _ => None,
        };
        let it = WaybackIter { wayback: *self, cur, done: false, emitted: Ghost(0) };
        proof {
            if let Wayback::Period { start, end, interval, .. } = *self {
                if period_valid(start as int, end as int, interval as int) {
                    assert(timed_count(start as int, end as int, interval as int) >= 1);
                }
            }
        }
        it
    }
}

/// Every timed instant of a valid period stays at or before the end.
pub proof fn lemma_timed_le_end(start: int, end: int, interval: int, k: int)
    requires
        period_valid(start, end, interval),
        0 <= k < timed_count(start, end, interval),
    ensures
        start + k * interval <= end,
{
    let span = end - start;
    let q = span / interval;
    vstd::arithmetic::div_mod::lemma_fundamental_div_mod(span, interval);
    assert(span == interval * q + span % interval);
    vstd::arithmetic::div_mod::lemma_mod_bound(span, interval);
    assert(k <= q);
    vstd::arithmetic::mul::lemma_mul_inequality(k, q, interval);
    assert(k * interval <= q * interval);
    assert(q * interval <= span) by (nonlinear_arith)
        requires
            span == interval * q + span % interval,
            span % interval >= 0,
    ;
}

/// The first instant past the count of a valid period lies beyond the end.
pub proof fn lemma_timed_past_end(start: int, end: int, interval: int)
    requires
        period_valid(start, end, interval),
    ensures
        start + timed_count(start, end, interval) * interval > end,
{
    let span = end - start;
    let q = span / interval;
    let n = timed_count(start, end, interval) as int;
    vstd::arithmetic::div_mod::lemma_fundamental_div_mod(span, interval);
    vstd::arithmetic::div_mod::lemma_mod_bound(span, interval);
    assert(n == q + 1);
    assert(n * interval == q * interval + interval) by (nonlinear_arith)
        requires
            n == q + 1,
    ;
    assert(q * interval + interval > span) by (nonlinear_arith)
        requires
            span == interval * q + span % interval,
            span % interval < interval,
    ;
}

/// For every valid period whose `include_latest` is off, the timeline is
/// exactly the arithmetic progression from `start` stepped by `interval`,
/// truncated at the last value at or before `end`: every element is a timed
/// instant at or before `end`, the values are strictly increasing, no live
/// marker appears, and the instant one step past the last would overshoot.
pub proof fn lemma_period_timeline(start: i64, end: i64, interval: i64)
    requires
        start < end,
        interval > 0,
    ensures
        ({
            let tl = (Wayback::Period { start, end, interval, include_latest: false }).timeline();
            let s = start as int;
            let e = end as int;
            let iv = interval as int;
            &&& tl.len() == timed_count(s, e, iv)
            &&& forall|k: int|
                0 <= k < tl.len() ==> tl[k] == Some((s + k * iv) as i64)
            &&& forall|k: int|
                0 <= k < tl.len() ==> tl[k] is Some && tl[k]->Some_0 == s + k * iv && tl[k]->Some_0
                    <= e
            &&& forall|i: int, j: int|
                0 <= i < j < tl.len() ==> tl[i]->Some_0 < tl[j]->Some_0
            &&& s + timed_count(s, e, iv) * iv > e
        }),
{
    let tl = (Wayback::Period { start, end, interval, include_latest: false }).timeline();
    let s = start as int;
    let e = end as int;
    let iv = interval as int;
    assert forall|k: int| 0 <= k < tl.len() implies tl[k] is Some && tl[k]->Some_0 == s + k * iv
        && tl[k]->Some_0 <= e by {
        lemma_timed_le_end(s, e, iv, k);
        assert(s <= s + k * iv) by (nonlinear_arith)
            requires
                k >= 0,
                iv > 0,
        ;
    }
    assert forall|i: int, j: int| 0 <= i < j < tl.len() implies tl[i]->Some_0 < tl[j]->Some_0 by {
        lemma_timed_le_end(s, e, iv, i);
        lemma_timed_le_end(s, e, iv, j);
        vstd::arithmetic::mul::lemma_mul_strict_inequality(i, j, iv);
    }
    lemma_timed_past_end(s, e, iv);
}

/// When the step divides the window exactly, the progression lands on the
/// end: the last element of the timeline is that exact instant, every
/// element is timed, and no trailing live snapshot is appended even when
/// `include_latest` is set.
pub proof fn lemma_exact_landing_suppresses_latest(
    start: i64,
    end: i64,
    interval: i64,
    include_latest: bool,
)
    requires
        start < end,
        interval > 0,
        !period_misses_end(start as int, end as int, interval as int),
    ensures
        ({
            let tl = (Wayback::Period { start, end, interval, include_latest }).timeline();
            &&& tl.len() == timed_count(start as int, end as int, interval as int)
            &&& forall|k: int| 0 <= k < tl.len() ==> tl[k] is Some
            &&& tl.last() == Some(end)
        }),
{
    let s = start as int;
    let e = end as int;
    let iv = interval as int;
    let span = e - s;
    let q = span / iv;
    let n = timed_count(s, e, iv) as int;
    vstd::arithmetic::div_mod::lemma_fundamental_div_mod(span, iv);
    assert(span == iv * q);
    assert(q * iv == span) by (nonlinear_arith)
        requires
            span == iv * q,
    ;
    assert(s + (n - 1) * iv == e);
}

/// A timeline holds at most one live marker, and when one is present it is
/// the last element: every earlier element is a timed instant.
pub proof fn lemma_live_marker_last(w: Wayback)
    ensures
        forall|i: int|
            0 <= i < w.timeline().len() && w.timeline()[i] is None ==> i == w.timeline().len() - 1,
{
}

/// The state of one pass over a timeline: the next timed instant if one may
/// remain, and whether the trailing live snapshot (or, for the single-element
/// specifications, the single element) was already emitted.
pub struct WaybackIter {
    wayback: Wayback,
    cur: Option<i64>,
    done: bool,
    emitted: Ghost<int>,
}

impl WaybackIter {
    /// The specification this iterator walks.
    pub closed spec fn spec_wayback(&self) -> Wayback {
        self.wayback
    }

    /// How many elements were emitted so far.
    pub closed spec fn spec_emitted(&self) -> int {
        self.emitted@
    }

    /// The iterator state matches its position in the timeline.
    pub closed spec fn wf(&self) -> bool {
        let tl = self.wayback.timeline();
        &&& 0 <= self.emitted@ <= tl.len()
        &&& match self.wayback {
            Wayback::Latest => self.done == (self.emitted@ == 1),
            Wayback::DateTime(_) => self.done == (self.emitted@ == 1),
            Wayback::Period { start, end, interval, include_latest } => {
                let s = start as int;
                let e = end as int;
                let iv = interval as int;
                if !period_valid(s, e, iv) {
                    true
                } else {
                    let n = timed_count(s, e, iv) as int;
                    &&& (self.emitted@ < n ==> self.cur == Some(
                        (s + self.emitted@ * iv) as i64,
                    ))
                    &&& (self.emitted@ >= n ==> match self.cur {
                        Some(v) => v > end,
                        None => true,
                    })
                    &&& self.done == (self.emitted@ == n + 1)
                }
            },
        }
    }

    /// Emits the next snapshot instant, or `None` when the timeline is
    /// exhausted. Each element of the timeline is emitted exactly once, in
    /// order; further calls after exhaustion keep returning `None`.
    pub fn next(&mut self) -> (r: Option<Option<i64>>)
        requires
            old(self).wf(),
        ensures
            final(self).wf(),
            final(self).spec_wayback() == old(self).spec_wayback(),
            (if old(self).spec_emitted() < old(self).spec_wayback().timeline().len() {
                r == Some(old(self).spec_wayback().timeline()[old(self).spec_emitted()])
                    && final(self).spec_emitted() == old(self).spec_emitted() + 1
            } else {
                r is None && final(self).spec_emitted() == old(self).spec_emitted()
            }),
    {
        match self.wayback {
            Wayback::Latest => {
                if self.done {
                    None
                } else {
                    self.done = true;
                    proof {
                        self.emitted@ = 1;
                    }
                    Some(None)
                }
            },
            Wayback::DateTime(t) => {
                if self.done {
                    None
                } else {
                    self.done = true;
                    proof {
                        self.emitted@ = 1;
                    }
                    Some(Some(t))
                }
            },
            Wayback::Period { start, end, interval, include_latest } => {
                if !(start < end && interval > 0) {
                    return None;
                }
                let ghost s = start as int;
                let ghost e = end as int;
                let ghost iv = interval as int;
                let ghost n = timed_count(s, e, iv) as int;
                let timed: Option<i64> = match self.cur {
                    Some(d) => if d <= end {
                        Some(d)
                    } else {
                        None
                    },
                    None => None,
                };
                if let Some(d) = timed {
                    proof {
                        if self.emitted@ >= n {
                            assert(false);
                        }
                        lemma_timed_le_end(s, e, iv, self.emitted@);
                        if self.emitted@ + 1 < n {
                            lemma_timed_le_end(s, e, iv, self.emitted@ + 1);
                        } else {
                            lemma_timed_past_end(s, e, iv);
                            assert((self.emitted@ + 1) * iv >= n * iv) by (nonlinear_arith)
                                requires
                                    self.emitted@ + 1 >= n,
                                    iv > 0,
                            ;
                        }
                        assert((self.emitted@ + 1) * iv == self.emitted@ * iv + iv)
                            by (nonlinear_arith);
                    }
                    self.cur = d.checked_add(interval);
                    proof {
                        self.emitted@ = self.emitted@ + 1;
                    }
                    Some(Some(d))
                } else {
                    proof {
                        if self.emitted@ < n {
                            lemma_timed_le_end(s, e, iv, self.emitted@);
                            assert(false);
                        }
                    }
                    if self.done {
                        return None;
                    }
                    if !include_latest {
                        assert(self.emitted@ == self.wayback.timeline().len());
                        return None;
                    }
                    let span: u128 = ((end as i128) - (start as i128)) as u128;
                    let rem: u128 = span % (interval as u128);
                    if rem != 0 {
                        assert(period_misses_end(s, e, iv));
                        self.done = true;
                        proof {
                            self.emitted@ = self.emitted@ + 1;
                        }
                        Some(None)
                    } else {
                        assert(!period_misses_end(s, e, iv));
                        assert(self.emitted@ == self.wayback.timeline().len());
                        None
                    }
                }
            },
        }
    }
}

} // verus!
