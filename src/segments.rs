//! Speech segments from a stream of per-chunk voice activity flags.

use vstd::prelude::*;
use crate::timing::TimeSpan;

verus! {

/// State of the scan over voice flags.
#[derive(Clone, Copy, Debug, PartialEq, Eq, Structural)]
pub enum SegmentState {
    /// No segment is open.
    Outside,
    /// A segment opened at chunk `start`; `last` is its latest speech chunk.
    Inside { start: usize, last: usize },
}

/// One step of the scan: chunk `i` carries flag `f`.
/// A silent chunk closes the open segment once it lies at least `gap` chunks
/// after the segment's latest speech chunk.
pub open spec fn scan_step(
    st: SegmentState,
    segs: Seq<(usize, usize)>,
    i: usize,
    f: bool,
    gap: usize,
) -> (SegmentState, Seq<(usize, usize)>) {
    if f {
        match st {
            SegmentState::Outside => (SegmentState::Inside { start: i, last: i }, segs),
            SegmentState::Inside { start, last } => (SegmentState::Inside { start, last: i }, segs),
        }
    } else {
        match st {
            SegmentState::Outside => (SegmentState::Outside, segs),
            SegmentState::Inside { start, last } => if i - last >= gap {
                (SegmentState::Outside, segs.push((start, last)))
            } else {
                (st, segs)
            },
        }
    }
}

/// The scan's state and closed segments after all of `flags`.
pub open spec fn scan(flags: Seq<bool>, gap: usize) -> (SegmentState, Seq<(usize, usize)>)
    decreases flags.len(),
{
    if flags.len() == 0 {
        (SegmentState::Outside, Seq::empty())
    } else {
        let prev = scan(flags.drop_last(), gap);
        scan_step(prev.0, prev.1, (flags.len() - 1) as usize, flags.last(), gap)
    }
}

/// The speech segments of `flags`, as pairs of first and last speech chunk index;
/// a segment still open at the end of the stream is closed there.
pub open spec fn voice_segments(flags: Seq<bool>, gap: usize) -> Seq<(usize, usize)> {
    let fin = scan(flags, gap);
    match fin.0 {
        SegmentState::Outside => fin.1,
        SegmentState::Inside { start, last } => fin.1.push((start, last)),
    }
}

/// Each segment lies within `n` chunks, first index before last, and the
/// segments are sorted and pairwise disjoint.
pub open spec fn segments_ordered(segs: Seq<(usize, usize)>, n: int) -> bool {
    &&& forall|i: int| 0 <= i < segs.len() ==> (#[trigger] segs[i]).0 <= segs[i].1 && segs[i].1 < n
    &&& forall|i: int, j: int| 0 <= i < j < segs.len() ==> (#[trigger] segs[i]).1 < (#[trigger] segs[j]).0
}

/// Turns voice flags into speech segments (first and last chunk index of each).
/// A run of silent chunks closes a segment once it is `gap` chunks long, measured
/// from the segment's last speech chunk; shorter silences are bridged.
pub fn extract_voice_segments(flags: &Vec<bool>, gap: usize) -> (r: Vec<(usize, usize)>)
    ensures
        r@ == voice_segments(flags@, gap),
        segments_ordered(r@, flags@.len() as int),
{
    let mut st = SegmentState::Outside;
    let mut segs: Vec<(usize, usize)> = Vec::new();
    let mut k: usize = 0;
    while k < flags.len()
        invariant
            k <= flags@.len(),
            (st, segs@) == scan(flags@.take(k as int), gap),
            match st {
                SegmentState::Outside => true,
                SegmentState::Inside { start, last } => start <= last < k,
            },
        decreases flags@.len() - k,
    {
        proof {
            assert(flags@.take(k as int + 1).drop_last() == flags@.take(k as int));
        }
        if flags[k] {
            st = match st {
                SegmentState::Outside => SegmentState::Inside { start: k, last: k },
                SegmentState::Inside { start, last: _ } => SegmentState::Inside { start, last: k },
            };
        } else {
            match st {
                SegmentState::Outside => {},
                SegmentState::Inside { start, last } => {
                    if k - last >= gap {
                        segs.push((start, last));
                        st = SegmentState::Outside;
                    }
                },
            }
        }
        k = k + 1;
    }
    proof {
        assert(flags@.take(flags@.len() as int) == flags@);
        lemma_segments_within(flags@, gap);
    }
    match st {
        SegmentState::Outside => {},
        SegmentState::Inside { start, last } => {
            segs.push((start, last));
        },
    }
    segs
}

/// Duration of one voice activity chunk in milliseconds (512 samples at 16 kHz).
pub const CHUNK_MS: i64 = 32;

/// The millisecond span of a segment: from the start of its first chunk to the
/// start of its last chunk.
pub open spec fn segment_to_span(seg: (usize, usize), chunk_ms: int) -> TimeSpan {
    TimeSpan { start: (seg.0 * chunk_ms) as i64, end: (seg.1 * chunk_ms) as i64 }
}

/// Converts chunk-index segments to millisecond spans, `chunk_ms` per chunk.
pub fn segments_to_timespans(segs: &Vec<(usize, usize)>, chunk_ms: i64) -> (r: Vec<TimeSpan>)
    requires
        chunk_ms > 0,
        forall|i: int| 0 <= i < segs@.len() ==> (#[trigger] segs@[i]).0 <= segs@[i].1 && segs@[i].1 * chunk_ms <= i64::MAX,
    ensures
        r@ == segs@.map_values(|g: (usize, usize)| segment_to_span(g, chunk_ms as int)),
        forall|i: int| 0 <= i < r@.len() ==> (#[trigger] r@[i]).wf(),
{
    let mut r: Vec<TimeSpan> = Vec::new();
    let mut k: usize = 0;
    while k < segs.len()
        invariant
            chunk_ms > 0,
            k <= segs@.len(),
            forall|i: int| 0 <= i < segs@.len() ==> (#[trigger] segs@[i]).0 <= segs@[i].1 && segs@[i].1 * chunk_ms <= i64::MAX,
            r@ == segs@.take(k as int).map_values(|g: (usize, usize)| segment_to_span(g, chunk_ms as int)),
            forall|i: int| 0 <= i < r@.len() ==> (#[trigger] r@[i]).wf(),
        decreases segs@.len() - k,
    {
        let (a, b) = segs[k];
        proof {
            assert(segs@[k as int].1 * chunk_ms <= i64::MAX);
            assert(a * chunk_ms <= b * chunk_ms) by (nonlinear_arith)
                requires a <= b, chunk_ms > 0;
            assert(a * chunk_ms >= 0 && a <= a * chunk_ms && b <= b * chunk_ms) by (nonlinear_arith)
                requires chunk_ms > 0;
        }
        let start = (a as i64) * chunk_ms;
        let end = (b as i64) * chunk_ms;
        r.push(TimeSpan { start, end });
        proof {
            assert(segs@.take(k as int + 1) == segs@.take(k as int).push((a, b)));
        }
        k = k + 1;
    }
    proof {
        assert(segs@.take(segs@.len() as int) == segs@);
    }
    r
}

/// Whether a span lasts at least `min_ms` milliseconds.
pub open spec fn long_enough(s: TimeSpan, min_ms: int) -> bool {
    s.end - s.start >= min_ms
}

/// The spans of `v` that last at least `min_ms` milliseconds, in order.
pub fn filter_min_length(v: &Vec<TimeSpan>, min_ms: i64) -> (r: Vec<TimeSpan>)
    ensures
        r@ == v@.filter(|s: TimeSpan| long_enough(s, min_ms as int)),
{
    let mut r: Vec<TimeSpan> = Vec::new();
    let mut k: usize = 0;
    while k < v.len()
        invariant
            k <= v@.len(),
            r@ == v@.take(k as int).filter(|s: TimeSpan| long_enough(s, min_ms as int)),
        decreases v@.len() - k,
    {
        let s = v[k];
        proof {
            assert(v@.take(k as int + 1).drop_last() == v@.take(k as int));
        }
        if (s.end as i128) - (s.start as i128) >= min_ms as i128 {
            r.push(s);
        }
        proof {
            let p = |t: TimeSpan| long_enough(t, min_ms as int);
            reveal(Seq::filter);
            assert(v@.take(k as int + 1).last() == s);
            assert(v@.take(k as int + 1).filter(p) == (if p(s) {
                v@.take(k as int).filter(p).push(s)
            } else {
                v@.take(k as int).filter(p)
            }));
        }
        k = k + 1;
    }
    proof {
        assert(v@.take(v@.len() as int) == v@);
    }
    r
}

/// Speech spans found in the audio track of a media file.
pub struct VideoFileHandler {
    subparse_timespans: Vec<TimeSpan>,
}

impl View for VideoFileHandler {
    type V = Seq<TimeSpan>;

    closed spec fn view(&self) -> Seq<TimeSpan> {
        self.subparse_timespans@
    }
}

/// The speech spans that voice flags give, one flag per chunk of [`CHUNK_MS`].
pub open spec fn flags_to_spans(flags: Seq<bool>, gap: usize) -> Seq<TimeSpan> {
    voice_segments(flags, gap).map_values(|g: (usize, usize)| segment_to_span(g, CHUNK_MS as int))
}

impl VideoFileHandler {
    /// A handler over spans that were computed before.
    pub fn from_cache(timespans: Vec<TimeSpan>) -> (r: VideoFileHandler)
        ensures
            r@ == timespans@,
    {
        VideoFileHandler { subparse_timespans: timespans }
    }

    /// A handler over the speech spans of voice flags, one flag per chunk of
    /// [`CHUNK_MS`] milliseconds; silences of `gap` chunks or more separate segments.
    pub fn from_voice_flags(flags: &Vec<bool>, gap: usize) -> (r: VideoFileHandler)
        requires
            flags@.len() * CHUNK_MS <= i64::MAX,
        ensures
            r@ == flags_to_spans(flags@, gap),
    {
        let segs = extract_voice_segments(flags, gap);
        let n = flags.len();
        proof {
            assert(flags@.len() == n);
            lemma_segments_within(flags@, gap);
        }
        let spans = segments_to_timespans(&segs, CHUNK_MS);
        VideoFileHandler { subparse_timespans: spans }
    }

    /// Drops the spans shorter than `min_vad_span_length_ms`.
    pub fn filter_with_min_span_length_ms(&mut self, min_vad_span_length_ms: i64)
        ensures
            final(self)@ == old(self)@.filter(|s: TimeSpan| long_enough(s, min_vad_span_length_ms as int)),
    {
        self.subparse_timespans = filter_min_length(&self.subparse_timespans, min_vad_span_length_ms);
    }

    /// The spans, in chronological order.
    pub fn timespans(&self) -> (r: &[TimeSpan])
        ensures
            r@ == self@,
    {
        self.subparse_timespans.as_slice()
    }
}

/// The segments are in range, sorted and disjoint.
proof fn lemma_segments_within(flags: Seq<bool>, gap: usize)
    requires
        flags.len() <= usize::MAX,
    ensures
        segments_ordered(voice_segments(flags, gap), flags.len() as int),
{
    lemma_scan_within(flags, gap);
    let fin = scan(flags, gap);
    match fin.0 {
        SegmentState::Outside => {},
        SegmentState::Inside { start, last } => {
            let segs = fin.1.push((start, last));
            assert forall|i: int, j: int| 0 <= i < j < segs.len() implies (#[trigger] segs[i]).1 < (#[trigger] segs[j]).0 by {
                assert(segs[i] == fin.1[i]);
            }
        },
    }
}

proof fn lemma_scan_within(flags: Seq<bool>, gap: usize)
    requires
        flags.len() <= usize::MAX,
    ensures
        segments_ordered(scan(flags, gap).1, flags.len() as int),
        match scan(flags, gap).0 {
            SegmentState::Outside => true,
            SegmentState::Inside { start, last } => start <= last < flags.len() && forall|i: int|
                0 <= i < scan(flags, gap).1.len() ==> (#[trigger] scan(flags, gap).1[i]).1 < start,
        },
    decreases flags.len(),
{
    if flags.len() > 0 {
        let prev = scan(flags.drop_last(), gap);
        lemma_scan_within(flags.drop_last(), gap);
        let cur = scan(flags, gap);
        match prev.0 {
            SegmentState::Outside => {},
            SegmentState::Inside { start, last } => {
                if cur.1.len() > prev.1.len() {
                    assert(cur.1 == prev.1.push((start, last)));
                    assert forall|i: int, j: int| 0 <= i < j < cur.1.len() implies (#[trigger] cur.1[i]).1 < (#[trigger] cur.1[j]).0 by {
                        assert(cur.1[i] == prev.1[i]);
                    }
                }
            },
        }
    }
}

/// Silence alone never yields a segment.
pub proof fn lemma_all_silent_no_segments(flags: Seq<bool>, gap: usize)
    requires
        forall|i: int| 0 <= i < flags.len() ==> !(#[trigger] flags[i]),
    ensures
        voice_segments(flags, gap) == Seq::<(usize, usize)>::empty(),
{
    lemma_all_silent_scan(flags, gap);
}

proof fn lemma_all_silent_scan(flags: Seq<bool>, gap: usize)
    requires
        forall|i: int| 0 <= i < flags.len() ==> !(#[trigger] flags[i]),
    ensures
        scan(flags, gap) == (SegmentState::Outside, Seq::<(usize, usize)>::empty()),
    decreases flags.len(),
{
    if flags.len() > 0 {
        lemma_all_silent_scan(flags.drop_last(), gap);
        assert(!flags[flags.len() - 1]);
    }
}

/// Uninterrupted speech over `n > 0` chunks is one segment from chunk 0 to chunk `n - 1`.
pub proof fn lemma_all_speech_one_segment(flags: Seq<bool>, gap: usize)
    requires
        flags.len() > 0,
        flags.len() <= usize::MAX,
        forall|i: int| 0 <= i < flags.len() ==> #[trigger] flags[i],
    ensures
        voice_segments(flags, gap) == seq![(0usize, (flags.len() - 1) as usize)],
{
    lemma_all_speech_scan(flags, gap);
}

proof fn lemma_all_speech_scan(flags: Seq<bool>, gap: usize)
    requires
        flags.len() > 0,
        flags.len() <= usize::MAX,
        forall|i: int| 0 <= i < flags.len() ==> #[trigger] flags[i],
    ensures
        scan(flags, gap) == (
            SegmentState::Inside { start: 0, last: (flags.len() - 1) as usize },
            Seq::<(usize, usize)>::empty(),
        ),
    decreases flags.len(),
{
    assert(flags[flags.len() - 1]);
    if flags.len() > 1 {
        lemma_all_speech_scan(flags.drop_last(), gap);
    } else {
        assert(flags.drop_last().len() == 0);
        assert(scan(flags.drop_last(), gap).0 == SegmentState::Outside);
    }
}

} // verus!
