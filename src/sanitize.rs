//! Removal of negative timestamps by one uniform forward shift of a timeline.

use vstd::prelude::*;
use crate::timing::TimeSpan;

verus! {

/// The smaller of zero and every span start in `v`.
pub open spec fn lowest_start(v: Seq<TimeSpan>) -> int
    decreases v.len(),
{
    if v.len() == 0 {
        0
    } else {
        let m = lowest_start(v.drop_last());
        if (v.last().start as int) < m {
            v.last().start as int
        } else {
            m
        }
    }
}

/// The forward shift that the sanitizer applies: none where negative timestamps
/// are allowed, else just enough to bring the earliest negative start to zero.
pub open spec fn sanitize_offset(v: Seq<TimeSpan>, allow_negative: bool) -> int {
    if allow_negative {
        0
    } else {
        -lowest_start(v)
    }
}

/// Every span of `v` moved by `c`.
pub open spec fn shift_spans(v: Seq<TimeSpan>, c: int) -> Seq<TimeSpan> {
    v.map_values(|s: TimeSpan| TimeSpan { start: (s.start + c) as i64, end: (s.end + c) as i64 })
}

/// Shifting `v` by `c` keeps every timestamp within `i64`.
pub open spec fn shift_fits(v: Seq<TimeSpan>, c: int) -> bool {
    &&& i64::MIN <= c <= i64::MAX
    &&& forall|i: int| 0 <= i < v.len() ==>
        i64::MIN <= (#[trigger] v[i]).start + c <= i64::MAX && i64::MIN <= v[i].end + c <= i64::MAX
}

/// No span of `v` starts before zero.
pub open spec fn no_negative_start(v: Seq<TimeSpan>) -> bool {
    forall|i: int| 0 <= i < v.len() ==> (#[trigger] v[i]).start >= 0
}

/// Shifts the whole timeline forward so that no span starts before zero, unless
/// `allow_negative` is set. Returns the shift that was applied, in milliseconds.
pub fn sanitize_timestamps(spans: &mut Vec<TimeSpan>, allow_negative: bool) -> (shift: i64)
    requires
        shift_fits(old(spans)@, sanitize_offset(old(spans)@, allow_negative)),
    ensures
        shift == sanitize_offset(old(spans)@, allow_negative),
        final(spans)@ == shift_spans(old(spans)@, shift as int),
        !allow_negative ==> no_negative_start(final(spans)@),
{
    proof {
        lemma_lowest_start_bound(old(spans)@);
    }
    let mut lo: i64 = 0;
    let mut k: usize = 0;
    while k < spans.len()
        invariant
            k <= spans@.len(),
            lo == lowest_start(spans@.take(k as int)),
        decreases spans@.len() - k,
    {
        proof {
            assert(spans@.take(k as int + 1).drop_last() == spans@.take(k as int));
        }
        if spans[k].start < lo {
            lo = spans[k].start;
        }
        k = k + 1;
    }
    proof {
        assert(spans@.take(spans@.len() as int) == spans@);
    }
    let shift: i64 = if allow_negative { 0 } else { -lo };
    let mut k: usize = 0;
    while k < spans.len()
        invariant
            k <= spans@.len(),
            spans@.len() == old(spans)@.len(),
            shift == sanitize_offset(old(spans)@, allow_negative),
            shift_fits(old(spans)@, shift as int),
            forall|i: int| 0 <= i < k ==> #[trigger] spans@[i] == (TimeSpan {
                start: (old(spans)@[i].start + shift) as i64,
                end: (old(spans)@[i].end + shift) as i64,
            }),
            forall|i: int| k <= i < spans@.len() ==> #[trigger] spans@[i] == old(spans)@[i],
        decreases spans@.len() - k,
    {
        let s = spans[k];
        assert(s == old(spans)@[k as int]);
        spans.set(k, TimeSpan { start: s.start + shift, end: s.end + shift });
        k = k + 1;
    }
    proof {
        assert(spans@ =~= shift_spans(old(spans)@, shift as int));
        if !allow_negative {
            assert forall|i: int| 0 <= i < spans@.len() implies (#[trigger] spans@[i]).start >= 0 by {
                assert(lowest_start(old(spans)@) <= old(spans)@[i].start);
            }
        }
    }
    shift
}

/// No start lies below the lowest start, which is at most zero; a negative lowest
/// start is the start of some span.
pub proof fn lemma_lowest_start_bound(v: Seq<TimeSpan>)
    ensures
        lowest_start(v) <= 0,
        lowest_start(v) < 0 ==> exists|i: int| 0 <= i < v.len() && (#[trigger] v[i]).start == lowest_start(v),
        forall|i: int| 0 <= i < v.len() ==> lowest_start(v) <= (#[trigger] v[i]).start,
        i64::MIN <= lowest_start(v),
    decreases v.len(),
{
    if v.len() > 0 {
        lemma_lowest_start_bound(v.drop_last());
        assert forall|i: int| 0 <= i < v.len() implies lowest_start(v) <= (#[trigger] v[i]).start by {
            if i < v.len() - 1 {
                assert(v[i] == v.drop_last()[i]);
            }
        }
        if lowest_start(v) < 0 && lowest_start(v) != v.last().start {
            let i = choose|i: int| 0 <= i < v.drop_last().len() && (#[trigger] v.drop_last()[i]).start == lowest_start(v.drop_last());
            assert(v[i] == v.drop_last()[i]);
        }
    }
}

/// A timeline with no negative start has lowest start zero.
proof fn lemma_lowest_start_zero(v: Seq<TimeSpan>)
    requires
        no_negative_start(v),
    ensures
        lowest_start(v) == 0,
    decreases v.len(),
{
    if v.len() > 0 {
        assert(no_negative_start(v.drop_last()) ) by {
            assert forall|i: int| 0 <= i < v.drop_last().len() implies (#[trigger] v.drop_last()[i]).start >= 0 by {
                assert(v.drop_last()[i] == v[i]);
            }
        }
        lemma_lowest_start_zero(v.drop_last());
        assert(v.last().start >= 0);
    }
}

/// Sanitizing moves every timestamp forward by the same amount (with negatives
/// disallowed, minus the lowest negative start), so each span's length and the gap
/// between any two timestamps stay as they were, and after it (with negatives
/// disallowed) no span starts before zero.
pub proof fn lemma_sanitize_uniform(v: Seq<TimeSpan>, allow_negative: bool)
    requires
        shift_fits(v, sanitize_offset(v, allow_negative)),
    ensures
        !allow_negative && lowest_start(v) < 0 ==> {
            &&& exists|i: int| 0 <= i < v.len() && (#[trigger] v[i]).start == lowest_start(v)
            &&& forall|i: int| 0 <= i < v.len() ==> lowest_start(v) <= (#[trigger] v[i]).start
            &&& sanitize_offset(v, allow_negative) == -lowest_start(v)
        },
        forall|i: int| #![trigger v[i]] 0 <= i < v.len() ==> {
            &&& shift_spans(v, sanitize_offset(v, allow_negative))[i].start
                == v[i].start + sanitize_offset(v, allow_negative)
            &&& shift_spans(v, sanitize_offset(v, allow_negative))[i].end
                == v[i].end + sanitize_offset(v, allow_negative)
        },
        forall|i: int, j: int| #![trigger v[i], v[j]] 0 <= i < v.len() && 0 <= j < v.len() ==> {
            &&& shift_spans(v, sanitize_offset(v, allow_negative))[i].end
                - shift_spans(v, sanitize_offset(v, allow_negative))[i].start == v[i].end - v[i].start
            &&& shift_spans(v, sanitize_offset(v, allow_negative))[j].start
                - shift_spans(v, sanitize_offset(v, allow_negative))[i].start == v[j].start - v[i].start
            &&& shift_spans(v, sanitize_offset(v, allow_negative))[j].start
                - shift_spans(v, sanitize_offset(v, allow_negative))[i].end == v[j].start - v[i].end
        },
        !allow_negative ==> no_negative_start(shift_spans(v, sanitize_offset(v, allow_negative))),
{
    lemma_lowest_start_bound(v);
}

/// A second sanitizing, negatives disallowed, shifts nothing and leaves the timeline as it is.
pub proof fn lemma_sanitize_idempotent(v: Seq<TimeSpan>)
    requires
        shift_fits(v, sanitize_offset(v, false)),
    ensures
        sanitize_offset(shift_spans(v, sanitize_offset(v, false)), false) == 0,
        shift_spans(shift_spans(v, sanitize_offset(v, false)), 0) == shift_spans(v, sanitize_offset(v, false)),
{
    lemma_sanitize_uniform(v, false);
    let w = shift_spans(v, sanitize_offset(v, false));
    lemma_lowest_start_zero(w);
    assert(shift_spans(w, 0) =~= w);
}

} // verus!
