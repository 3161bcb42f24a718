//! Millisecond spans, tick discretisation and offsets.

use vstd::prelude::*;

verus! {

/// A time span in milliseconds (or, after discretisation, in ticks).
/// `start <= end` holds for every span built through [`TimeSpan::new`].
#[derive(Clone, Copy, Debug, PartialEq, Eq, Structural)]
pub struct TimeSpan {
    pub start: i64,
    pub end: i64,
}

impl TimeSpan {
    /// The span's endpoints are in order.
    pub open spec fn wf(self) -> bool {
        self.start <= self.end
    }

    /// Builds the span between two time points, swapping them if they are out of order.
    pub fn new(a: i64, b: i64) -> (r: TimeSpan)
        ensures
            r.wf(),
            a <= b ==> r.start == a && r.end == b,
            b < a ==> r.start == b && r.end == a,
    {
        if b < a {
            TimeSpan { start: b, end: a }
        } else {
            TimeSpan { start: a, end: b }
        }
    }

    /// Length of a well-formed span.
    pub fn len(&self) -> (r: i64)
        requires
            self.wf(),
            self.end - self.start <= i64::MAX,
        ensures
            r == self.end - self.start,
    {
        self.end - self.start
    }
}

/// Integer division truncated toward zero, as Rust's `/` on `i64`.
pub open spec fn div_trunc(a: int, d: int) -> int
    recommends
        d > 0,
{
    if a >= 0 {
        a / d
    } else {
        -((-a) / d)
    }
}

/// The tick in which millisecond time `t` falls, for ticks of `interval` milliseconds.
pub open spec fn to_tick(t: int, interval: int) -> int {
    div_trunc(t, interval)
}

/// A millisecond span discretised into ticks.
pub open spec fn span_to_ticks(s: TimeSpan, interval: int) -> TimeSpan {
    TimeSpan {
        start: to_tick(s.start as int, interval) as i64,
        end: to_tick(s.end as int, interval) as i64,
    }
}

/// Converts a time point in milliseconds to the tick it falls in.
pub fn timing_to_alg_timepoint(t: i64, interval: i64) -> (r: i64)
    requires
        interval > 0,
    ensures
        r == to_tick(t as int, interval as int),
{
    t / interval
}

/// Converts an offset in ticks back to milliseconds.
pub fn alg_delta_to_delta(t: i64, interval: i64) -> (r: i64)
    requires
        interval > 0,
        i64::MIN <= t * interval <= i64::MAX,
    ensures
        r == t * interval,
{
    t * interval
}

/// The tick discretisation of every span of a timeline.
pub open spec fn spans_to_ticks(v: Seq<TimeSpan>, interval: int) -> Seq<TimeSpan> {
    v.map_values(|s: TimeSpan| span_to_ticks(s, interval))
}

/// Discretises a millisecond timeline into ticks of `interval` milliseconds.
pub fn timings_to_alg_timespans(v: &Vec<TimeSpan>, interval: i64) -> (r: Vec<TimeSpan>)
    requires
        interval > 0,
        forall|i: int| 0 <= i < v@.len() ==> (#[trigger] v@[i]).wf(),
    ensures
        r@ == spans_to_ticks(v@, interval as int),
        forall|i: int| 0 <= i < r@.len() ==> (#[trigger] r@[i]).wf(),
{
    let mut r: Vec<TimeSpan> = Vec::new();
    let mut k: usize = 0;
    while k < v.len()
        invariant
            interval > 0,
            k <= v@.len(),
            forall|i: int| 0 <= i < v@.len() ==> (#[trigger] v@[i]).wf(),
            r@ == spans_to_ticks(v@.take(k as int), interval as int),
            forall|i: int| 0 <= i < r@.len() ==> (#[trigger] r@[i]).wf(),
        decreases v@.len() - k,
    {
        let s = v[k];
        let a = timing_to_alg_timepoint(s.start, interval);
        let b = timing_to_alg_timepoint(s.end, interval);
        proof {
            lemma_to_tick_monotone(s.start as int, s.end as int, interval as int);
        }
        r.push(TimeSpan { start: a, end: b });
        proof {
            assert(v@.take(k as int + 1) == v@.take(k as int).push(s));
        }
        k = k + 1;
    }
    proof {
        assert(v@.take(v@.len() as int) == v@);
    }
    r
}

/// Truncating division keeps the order of its dividends.
pub proof fn lemma_to_tick_monotone(a: int, b: int, d: int)
    requires
        d > 0,
        a <= b,
    ensures
        to_tick(a, d) <= to_tick(b, d),
{
    if a >= 0 {
        vstd::arithmetic::div_mod::lemma_div_is_ordered(a, b, d);
    } else if b >= 0 {
        vstd::arithmetic::div_mod::lemma_div_pos_is_pos(-a, d);
        vstd::arithmetic::div_mod::lemma_div_pos_is_pos(b, d);
    } else {
        vstd::arithmetic::div_mod::lemma_div_is_ordered(-b, -a, d);
    }
}

/// Converts offsets in ticks back to milliseconds.
pub fn alg_deltas_to_timing_deltas(v: &Vec<i64>, interval: i64) -> (r: Vec<i64>)
    requires
        interval > 0,
        forall|i: int| 0 <= i < v@.len() ==> i64::MIN <= #[trigger] v@[i] * interval <= i64::MAX,
    ensures
        r@.len() == v@.len(),
        forall|i: int| 0 <= i < v@.len() ==> #[trigger] r@[i] == v@[i] * interval,
{
    let mut r: Vec<i64> = Vec::new();
    let mut k: usize = 0;
    while k < v.len()
        invariant
            interval > 0,
            k <= v@.len(),
            forall|i: int| 0 <= i < v@.len() ==> i64::MIN <= #[trigger] v@[i] * interval <= i64::MAX,
            r@.len() == k,
            forall|i: int| 0 <= i < k ==> #[trigger] r@[i] == v@[i] * interval,
        decreases v@.len() - k,
    {
        r.push(alg_delta_to_delta(v[k], interval));
        k = k + 1;
    }
    r
}

/// The product of two `i64` values fits in an `i128`.
pub proof fn lemma_i64_product_fits(a: int, b: int)
    requires
        i64::MIN <= a <= i64::MAX,
        i64::MIN <= b <= i64::MAX,
    ensures
        i128::MIN <= a * b <= i128::MAX,
{
    assert(-0x8000_0000_0000_0000 * 0x7fff_ffff_ffff_ffff <= a * b <= 0x8000_0000_0000_0000 * 0x8000_0000_0000_0000)
        by (nonlinear_arith)
        requires -0x8000_0000_0000_0000 <= a <= 0x7fff_ffff_ffff_ffff, -0x8000_0000_0000_0000 <= b <= 0x7fff_ffff_ffff_ffff;
}

} // verus!
