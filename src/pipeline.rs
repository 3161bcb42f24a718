//! Alignment offsets, their application to a timeline, and progress pacing.

use vstd::prelude::*;
use crate::timing::TimeSpan;
use crate::framerate::{Ratio, scale_time, scale_timepoint};
use crate::sanitize::{sanitize_timestamps, sanitize_offset, shift_spans, shift_fits};

verus! {

/// The offset, in ticks, that the no-split alignment engine finds for `list`
/// against `reference` under its standard scoring.
pub uninterp spec fn nosplit_offset(reference: Seq<TimeSpan>, list: Seq<TimeSpan>) -> int;

/// Every span of `v` has its endpoints in order.
pub open spec fn all_wf(v: Seq<TimeSpan>) -> bool {
    forall|i: int| 0 <= i < v.len() ==> (#[trigger] v[i]).wf()
}

/// Largest magnitude of a tick value handed to the alignment engine; its offset
/// search adds and subtracts up to three time points in `i64`.
pub const TICK_LIMIT: i64 = 0x1000_0000_0000_0000;

/// Every timestamp of `v` lies strictly within [`TICK_LIMIT`] of zero.
pub open spec fn ticks_bounded(v: Seq<TimeSpan>) -> bool {
    forall|i: int| 0 <= i < v.len() ==>
        -TICK_LIMIT < (#[trigger] v[i]).start < TICK_LIMIT && -TICK_LIMIT < v[i].end < TICK_LIMIT
}

/// Relies on `ilass::align_nosplit` with `ilass::standard_scoring`: the one offset
/// that best aligns `list` to `reference`, zero when either timeline is empty.
/// The engine panics on spans whose end precedes their start, and its offset
/// arithmetic overflows on time points near the ends of `i64`.
#[verifier::external_body]
fn align_nosplit_offset(reference: &Vec<TimeSpan>, list: &Vec<TimeSpan>) -> (r: i64)
    requires
        all_wf(reference@),
        all_wf(list@),
        ticks_bounded(reference@),
        ticks_bounded(list@),
    ensures
        r == nosplit_offset(reference@, list@),
        reference@.len() == 0 || list@.len() == 0 ==> r == 0,
{
    let to_alg = |s: &TimeSpan| ilass::TimeSpan::new(ilass::TimePoint::from(s.start), ilass::TimePoint::from(s.end));
    let r: Vec<ilass::TimeSpan> = reference.iter().map(to_alg).collect();
    let l: Vec<ilass::TimeSpan> = list.iter().map(to_alg).collect();
    ilass::align_nosplit(&r, &l, ilass::standard_scoring, ilass::NoProgressHandler).0.as_i64()
}

/// `n` copies of the offset `offset_ticks` converted to milliseconds, or none if
/// that conversion leaves `i64`.
pub fn broadcast_delta(offset_ticks: i64, n: usize, interval: i64) -> (r: Option<Vec<i64>>)
    requires
        interval > 0,
    ensures
        r.is_none() <==> !(i64::MIN <= offset_ticks * interval <= i64::MAX),
        r.is_some() ==> r.unwrap()@ == Seq::new(n as nat, |i: int| (offset_ticks * interval) as i64),
{
    proof {
        crate::timing::lemma_i64_product_fits(offset_ticks as int, interval as int);
    }
    let p: i128 = (offset_ticks as i128) * (interval as i128);
    if p < i64::MIN as i128 || p > i64::MAX as i128 {
        return None;
    }
    let d = p as i64;
    let mut v: Vec<i64> = Vec::new();
    let mut k: usize = 0;
    while k < n
        invariant
            k <= n,
            d == offset_ticks * interval,
            v@ == Seq::new(k as nat, |i: int| d),
        decreases n - k,
    {
        v.push(d);
        proof {
            assert(v@ =~= Seq::new(k as nat + 1, |i: int| d));
        }
        k = k + 1;
    }
    Some(v)
}

/// No-split alignment of tick timelines: the engine's one offset, converted to
/// milliseconds and given to every line of `inc_ticks`; none if the conversion
/// leaves `i64`.
pub fn nosplit_deltas(ref_ticks: &Vec<TimeSpan>, inc_ticks: &Vec<TimeSpan>, interval: i64) -> (r: Option<Vec<i64>>)
    requires
        interval > 0,
        all_wf(ref_ticks@),
        all_wf(inc_ticks@),
        ticks_bounded(ref_ticks@),
        ticks_bounded(inc_ticks@),
    ensures
        r.is_none() <==> !(i64::MIN <= nosplit_offset(ref_ticks@, inc_ticks@) * interval <= i64::MAX),
        r.is_some() ==> r.unwrap()@ == Seq::new(
            inc_ticks@.len(),
            |i: int| (nosplit_offset(ref_ticks@, inc_ticks@) * interval) as i64,
        ),
{
    let offset = align_nosplit_offset(ref_ticks, inc_ticks);
    broadcast_delta(offset, inc_ticks.len(), interval)
}

/// A line's span rescaled by `ratio` and moved by `d` milliseconds.
pub open spec fn corrected_span(s: TimeSpan, d: i64, ratio: Ratio) -> TimeSpan {
    TimeSpan { start: (scale_time(s.start as int, ratio) + d) as i64, end: (scale_time(s.end as int, ratio) + d) as i64 }
}

/// The corrected timeline: each line rescaled and moved by its own offset.
pub open spec fn corrected_spans(inc: Seq<TimeSpan>, deltas: Seq<i64>, ratio: Ratio) -> Seq<TimeSpan> {
    Seq::new(inc.len(), |i: int| corrected_span(inc[i], deltas[i], ratio))
}

/// Rescaling and moving every line keeps its timestamps within `i64`.
pub open spec fn correction_fits(inc: Seq<TimeSpan>, deltas: Seq<i64>, ratio: Ratio) -> bool {
    forall|i: int| 0 <= i < inc.len() ==> {
        &&& i64::MIN <= scale_time((#[trigger] inc[i]).start as int, ratio) <= i64::MAX
        &&& i64::MIN <= scale_time(inc[i].end as int, ratio) <= i64::MAX
        &&& i64::MIN <= scale_time(inc[i].start as int, ratio) + deltas[i] <= i64::MAX
        &&& i64::MIN <= scale_time(inc[i].end as int, ratio) + deltas[i] <= i64::MAX
    }
}

/// Rescales each line of `inc` by `ratio` and moves it by its offset in `deltas_ms`.
pub fn apply_deltas(inc: &Vec<TimeSpan>, deltas_ms: &Vec<i64>, ratio: Ratio) -> (r: Vec<TimeSpan>)
    requires
        ratio.wf(),
        deltas_ms@.len() == inc@.len(),
        correction_fits(inc@, deltas_ms@, ratio),
    ensures
        r@ == corrected_spans(inc@, deltas_ms@, ratio),
{
    let mut r: Vec<TimeSpan> = Vec::new();
    let mut k: usize = 0;
    while k < inc.len()
        invariant
            ratio.wf(),
            deltas_ms@.len() == inc@.len(),
            correction_fits(inc@, deltas_ms@, ratio),
            k <= inc@.len(),
            r@ == corrected_spans(inc@.take(k as int), deltas_ms@.take(k as int), ratio),
        decreases inc@.len() - k,
    {
        let s = inc[k];
        let d = deltas_ms[k];
        let a = scale_timepoint(s.start, ratio);
        let b = scale_timepoint(s.end, ratio);
        r.push(TimeSpan { start: a + d, end: b + d });
        proof {
            assert(r@ =~= corrected_spans(inc@.take(k as int + 1), deltas_ms@.take(k as int + 1), ratio));
        }
        k = k + 1;
    }
    proof {
        assert(inc@.take(inc@.len() as int) == inc@);
        assert(deltas_ms@.take(deltas_ms@.len() as int) == deltas_ms@);
    }
    r
}

/// The final timeline: every line corrected, then the whole timeline shifted so that
/// no line starts before zero unless `allow_negative` is set.
pub fn correct_timeline(inc: &Vec<TimeSpan>, deltas_ms: &Vec<i64>, ratio: Ratio, allow_negative: bool) -> (r: Vec<TimeSpan>)
    requires
        ratio.wf(),
        deltas_ms@.len() == inc@.len(),
        correction_fits(inc@, deltas_ms@, ratio),
        shift_fits(
            corrected_spans(inc@, deltas_ms@, ratio),
            sanitize_offset(corrected_spans(inc@, deltas_ms@, ratio), allow_negative),
        ),
    ensures
        r@ == shift_spans(
            corrected_spans(inc@, deltas_ms@, ratio),
            sanitize_offset(corrected_spans(inc@, deltas_ms@, ratio), allow_negative),
        ),
{
    let mut r = apply_deltas(inc, deltas_ms, ratio);
    sanitize_timestamps(&mut r, allow_negative);
    r
}

/// Paces progress reports: one report for every `prescaler` steps.
pub struct ProgressTicker {
    prescaler: i64,
    counter: i64,
}

impl ProgressTicker {
    /// Steps per report.
    pub closed spec fn prescaler(&self) -> int {
        self.prescaler as int
    }

    /// Steps counted since the last report.
    pub closed spec fn counter(&self) -> int {
        self.counter as int
    }

    /// The counter stays below the prescaler.
    pub closed spec fn wf(&self) -> bool {
        0 <= self.counter < self.prescaler
    }

    /// A ticker that reports once every `prescaler` steps.
    pub fn new(prescaler: i64) -> (r: ProgressTicker)
        requires
            prescaler > 0,
        ensures
            r.wf(),
            r.prescaler() == prescaler,
            r.counter() == 0,
    {
        ProgressTicker { prescaler, counter: 0 }
    }

    /// The number of reports that `steps` steps give.
    pub fn reports_for(&self, steps: i64) -> (r: i64)
        requires
            self.wf(),
        ensures
            r as int == crate::timing::div_trunc(steps as int, self.prescaler()),
    {
        steps / self.prescaler
    }

    /// Counts one step; true when it completes a report, which restarts the count.
    pub fn advance(&mut self) -> (report: bool)
        requires
            old(self).wf(),
        ensures
            final(self).wf(),
            final(self).prescaler() == old(self).prescaler(),
            report == (old(self).counter() + 1 == old(self).prescaler()),
            final(self).counter() == if report { 0 } else { old(self).counter() + 1 },
    {
        self.counter = self.counter + 1;
        if self.counter == self.prescaler {
            self.counter = 0;
            true
        } else {
            false
        }
    }
}

} // verus!
