//! The per-minute rate gate behind tier selection.
//!
//! Calls to the pro tier are counted in one-minute windows. The counter
//! itself lives in an external shared store reached over the network; this
//! module holds everything that can be computed from plain values: the
//! window key a timestamp falls into, the expiry the window's counter must
//! carry, the allow/deny decision for an observed count, and a verified
//! in-process model of the counter protocol with the rate-gate law proved of
//! it.

use vstd::prelude::*;

verus! {

/// Length of one rate window in seconds.
pub const WINDOW_SECONDS: i64 = 60;

/// Last second of year 9999: timestamps beyond this have no stable label.
pub const MAX_LABEL_TS: i64 = 253_402_300_799;

/// The minute label the calendar gives a timestamp, as text of the form
/// `1970-01-01T00:00`. Its argument is the timestamp floored to its minute,
/// so two timestamps of one window are labelled alike by construction.
pub uninterp spec fn minute_label(minute_start: int) -> Seq<char>;

/// Relies on `chrono::DateTime::<Utc>::from_timestamp` and `format` with
/// `%Y-%m-%dT%H:%M`: the formatted minute depends only on the timestamp's
/// minute, and `from_timestamp` returns `Some` for every second up to the
/// end of year 9999.
#[verifier::external_body]
fn minute_label_of(ts: i64) -> (r: String)
    requires
        0 <= ts <= MAX_LABEL_TS,
    ensures
        r@ == minute_label(60 * (ts as int / 60)),
{
    let dt = chrono::DateTime::<chrono::Utc>::from_timestamp(ts, 0).unwrap();
    dt.format("%Y-%m-%dT%H:%M").to_string()
}

/// Relies on `std::time::SystemTime::now`: the current time as whole
/// seconds since the Unix epoch, or -1 for a host clock that reads before
/// it. Nothing more is promised of the value; a reading outside the
/// labelled range (the -1 included) has no rate plan and so denies the
/// check instead of failing the request.
#[verifier::external_body]
fn now_timestamp() -> i64 {
    match std::time::SystemTime::now().duration_since(std::time::UNIX_EPOCH) {
        Ok(elapsed) => elapsed.as_secs() as i64,
        Err(_) => -1,
    }
}

/// The counter key of the window a timestamp falls into.
pub open spec fn spec_rate_key(ts: int) -> Seq<char> {
    "rate_limit_"@ + minute_label(60 * (ts / 60))
}

/// Builds the counter key for the window of `ts`.
pub fn rate_key(ts: i64) -> (r: String)
    requires
        0 <= ts <= MAX_LABEL_TS,
    ensures
        r@ == spec_rate_key(ts as int),
{
    let label = minute_label_of(ts);
    String::from_str("rate_limit_").concat(label.as_str())
}

/// The expiry a window's counter is given: one minute past `ts`, which never
/// precedes the end of the window `ts` lies in.
pub fn expire_at(ts: i64) -> (r: i64)
    requires
        0 <= ts <= MAX_LABEL_TS,
    ensures
        r == ts + 60,
        r >= 60 * (ts as int / 60 + 1),
{
    proof {
        assert(60 * (ts as int / 60) <= ts) by (nonlinear_arith)
            requires 0 <= ts;
    }
    ts + WINDOW_SECONDS
}

/// The rate gate's decision for a freshly incremented count: the call is within
/// budget exactly when the count, which includes the call itself, does not
/// exceed the budget.
pub fn rate_decision(count: i64, budget: u16) -> (r: bool)
    ensures
        r == (count <= budget as i64),
{
    count <= budget as i64
}

/// Whether this increment is the one that must set the window's expiry: the
/// transition of the window's count from zero to one.
pub fn should_set_expiry(count: i64) -> (r: bool)
    ensures
        r == (count == 1),
{
    count == 1
}

/// Everything the caller of the counter store needs for one rate check at
/// time `ts`: the timestamp echoed back, the window key to increment, and
/// the expiry to set if the increment is the window's first. The plan
/// exists exactly when `ts` lies in the range the label is defined on; a
/// clock reading outside it has no window key, and the caller treats that
/// as a denied check.
pub fn rate_plan(ts: i64) -> (r: Option<(i64, String, i64)>)
    ensures
        (r is Some) == (0 <= ts <= MAX_LABEL_TS),
        match r {
            Some((t, key, exp)) => {
                &&& t == ts
                &&& key@ == spec_rate_key(ts as int)
                &&& exp == ts + 60
                &&& exp >= 60 * (ts as int / 60 + 1)
            },
            None => true,
        },
{
    if 0 <= ts && ts <= MAX_LABEL_TS {
        let key = rate_key(ts);
        let exp = expire_at(ts);
        Some((ts, key, exp))
    } else {
        None
    }
}

/// The rate plan for the current time: `rate_plan` applied to the clock.
/// The clock decides which timestamp arrives, so only what holds of every
/// outcome can be promised here; `rate_plan` fixes the plan per timestamp.
pub fn rate_plan_now() -> (r: Option<(i64, String, i64)>)
    ensures
        match r {
            Some((ts, key, exp)) => {
                &&& 0 <= ts <= MAX_LABEL_TS
                &&& key@ == spec_rate_key(ts as int)
                &&& exp == ts + 60
                &&& exp >= 60 * (ts as int / 60 + 1)
            },
            None => true,
        },
{
    rate_plan(now_timestamp())
}

/// The verdict of one rate check from what the counter store answered: a
/// count within budget allows the call, and a missing reply — the store
/// unreachable or its answer malformed — denies it, so tier selection
/// degrades to the standard endpoint rather than failing the request.
pub fn gate_verdict(reply: Option<i64>, budget: u16) -> (r: bool)
    ensures
        r == match reply {
            Some(count) => count <= budget as i64,
            None => false,
        },
{
    match reply {
        Some(count) => rate_decision(count, budget),
        None => false,
    }
}

/// One step of the counter protocol: an increment observed in window `w` by
/// a counter last touched in window `w0` with count `c0`.
pub open spec fn gate_next(w0: int, c0: int, w: int) -> (int, int) {
    if w == w0 {
        (w0, c0 + 1)
    } else {
        (w, 1)
    }
}

/// The counter state after `k` increments, all observed in window `w`.
pub open spec fn gate_iter(w0: int, c0: int, w: int, k: nat) -> (int, int)
    decreases k,
{
    if k == 0 {
        (w0, c0)
    } else {
        gate_next(gate_iter(w0, c0, w, (k - 1) as nat).0, gate_iter(w0, c0, w, (k - 1) as nat).1, w)
    }
}

/// An in-process model of the shared counter with expiry: at most one window
/// is live at a time, and a call in a later window finds the old one
/// expired. The external store behaves this way because each window's key is
/// distinct and carries an expiry past the window's end.
pub struct RateCounter {
    pub window: i64,
    pub count: i64,
}

impl RateCounter {
    /// A counter no window has touched.
    pub fn new() -> (r: RateCounter)
        ensures
            r.window == -1,
            r.count == 0,
    {
        RateCounter { window: -1, count: 0 }
    }

    /// Counts the present call against the window of `now_ts` and answers
    /// whether it is within budget: the count is carried on within the same
    /// window and restarts at one in a new window, and the call passes
    /// exactly when the count after it does not exceed the budget.
    pub fn allow(&mut self, now_ts: i64, budget: u16) -> (r: bool)
        requires
            0 <= now_ts,
            old(self).count < i64::MAX,
        ensures
            (final(self).window as int, final(self).count as int) == gate_next(
                old(self).window as int,
                old(self).count as int,
                now_ts as int / 60,
            ),
            r == (final(self).count <= budget as i64),
    {
        let w = now_ts / WINDOW_SECONDS;
        if w == self.window {
            self.count = self.count + 1;
        } else {
            self.window = w;
            self.count = 1;
        }
        self.count <= budget as i64
    }
}

/// The rate-gate law: starting from a counter last touched in another
/// window, the count after `k` calls in window `w` is exactly `k`, so the
/// first `budget` calls of a window pass, every later call of that window is
/// denied, and the first call of a different following window passes again
/// with a count of one.
pub proof fn lemma_rate_gate(w0: int, c0: int, w: int, k: nat, budget: int)
    requires
        w != w0,
        k >= 1,
    ensures
        gate_iter(w0, c0, w, k) == (w, k as int),
        (gate_iter(w0, c0, w, k).1 <= budget) == (k as int <= budget),
        forall|w2: int| w2 != w ==> gate_next(gate_iter(w0, c0, w, k).0, gate_iter(w0, c0, w, k).1, w2) == (w2, 1int),
    decreases k,
{
    if k == 1 {
        assert(gate_iter(w0, c0, w, 0) == (w0, c0));
        assert(gate_iter(w0, c0, w, 1) == gate_next(w0, c0, w));
    } else {
        lemma_rate_gate(w0, c0, w, (k - 1) as nat, budget);
        assert(gate_iter(w0, c0, w, k) == gate_next(w, (k - 1) as int, w));
    }
}

} // verus!
