//! Framerate ratio candidates, rescaling of timelines, and the choice of ratio.

use vstd::prelude::*;
use crate::timing::{TimeSpan, div_trunc};

verus! {

/// A positive framerate ratio `num / den`.
#[derive(Clone, Copy, Debug, PartialEq, Eq, Structural)]
pub struct Ratio {
    pub num: i64,
    pub den: i64,
}

impl Ratio {
    /// Both terms are positive.
    pub open spec fn wf(self) -> bool {
        self.num > 0 && self.den > 0
    }
}

/// Time point `t` rescaled by `r`, truncated toward zero.
pub open spec fn scale_time(t: int, r: Ratio) -> int {
    div_trunc(t * r.num, r.den as int)
}

/// A span rescaled by `r`.
pub open spec fn scale_span(s: TimeSpan, r: Ratio) -> TimeSpan {
    TimeSpan { start: scale_time(s.start as int, r) as i64, end: scale_time(s.end as int, r) as i64 }
}

/// The ratio catalog: the conversions between 25, 24 and 23.976 frames per second,
/// in the order 25/24, 25/23.976, 24/25, 24/23.976, 23.976/25, 23.976/24.
pub fn fps_ratio_catalog() -> (r: Vec<Ratio>)
    ensures
        r@ == seq![
            Ratio { num: 25, den: 24 },
            Ratio { num: 25000, den: 23976 },
            Ratio { num: 24, den: 25 },
            Ratio { num: 24000, den: 23976 },
            Ratio { num: 23976, den: 25000 },
            Ratio { num: 23976, den: 24000 },
        ],
        forall|i: int| 0 <= i < r@.len() ==> (#[trigger] r@[i]).wf(),
{
    let r = vec![
        Ratio { num: 25, den: 24 },
        Ratio { num: 25000, den: 23976 },
        Ratio { num: 24, den: 25 },
        Ratio { num: 24000, den: 23976 },
        Ratio { num: 23976, den: 25000 },
        Ratio { num: 23976, den: 24000 },
    ];
    r
}

/// Rescales a time point by `r`, truncating toward zero.
pub fn scale_timepoint(t: i64, r: Ratio) -> (res: i64)
    requires
        r.wf(),
        i64::MIN <= scale_time(t as int, r) <= i64::MAX,
    ensures
        res == scale_time(t as int, r),
{
    proof {
        crate::timing::lemma_i64_product_fits(t as int, r.num as int);
    }
    let p: i128 = (t as i128) * (r.num as i128);
    let q: i128 = p / (r.den as i128);
    q as i64
}

/// Rescaling by `r` keeps every timestamp of `v` within `i64`.
pub open spec fn scale_fits(v: Seq<TimeSpan>, r: Ratio) -> bool {
    forall|i: int| 0 <= i < v.len() ==>
        i64::MIN <= scale_time((#[trigger] v[i]).start as int, r) <= i64::MAX
        && i64::MIN <= scale_time(v[i].end as int, r) <= i64::MAX
}

/// Rescales every span of a timeline by `r`.
pub fn scale_timespans(v: &Vec<TimeSpan>, r: Ratio) -> (res: Vec<TimeSpan>)
    requires
        r.wf(),
        scale_fits(v@, r),
    ensures
        res@ == v@.map_values(|s: TimeSpan| scale_span(s, r)),
{
    let mut res: Vec<TimeSpan> = Vec::new();
    let mut k: usize = 0;
    while k < v.len()
        invariant
            r.wf(),
            scale_fits(v@, r),
            k <= v@.len(),
            res@ == v@.take(k as int).map_values(|s: TimeSpan| scale_span(s, r)),
        decreases v@.len() - k,
    {
        let s = v[k];
        let a = scale_timepoint(s.start, r);
        let b = scale_timepoint(s.end, r);
        res.push(TimeSpan { start: a, end: b });
        proof {
            assert(v@.take(k as int + 1) == v@.take(k as int).push(s));
        }
        k = k + 1;
    }
    proof {
        assert(v@.take(v@.len() as int) == v@);
    }
    res
}

/// `choice` is the ratio pick for candidate scores `scores` against the identity's
/// `baseline`: none if no candidate scores strictly higher than the baseline, else
/// the first candidate with the highest score.
pub open spec fn is_ratio_choice(baseline: i64, scores: Seq<i64>, choice: Option<usize>) -> bool {
    match choice {
        None => forall|j: int| 0 <= j < scores.len() ==> #[trigger] scores[j] <= baseline,
        Some(i) => {
            &&& i < scores.len()
            &&& scores[i as int] > baseline
            &&& forall|j: int| 0 <= j < scores.len() ==> #[trigger] scores[j] <= scores[i as int]
            &&& forall|j: int| 0 <= j < i ==> #[trigger] scores[j] < scores[i as int]
        },
    }
}

/// Picks the framerate ratio from the alignment scores of the identity (`baseline`)
/// and of each catalog candidate, given as integers ordered as the scores are: a candidate replaces the best so far only when it
/// scores strictly higher, so ties keep the earlier pick and the identity.
pub fn choose_fps_ratio(baseline: i64, scores: &Vec<i64>) -> (r: Option<usize>)
    ensures
        is_ratio_choice(baseline, scores@, r),
{
    let mut best: Option<usize> = None;
    let mut best_score: i64 = baseline;
    let mut k: usize = 0;
    while k < scores.len()
        invariant
            k <= scores@.len(),
            is_ratio_choice(baseline, scores@.take(k as int), best),
            best_score == match best {
                None => baseline,
                Some(i) => scores@[i as int],
            },
        decreases scores@.len() - k,
    {
        let ghost prev = scores@.take(k as int);
        let ghost next = scores@.take(k as int + 1);
        assert(forall|j: int| 0 <= j < k ==> next[j] == #[trigger] prev[j]);
        if scores[k] > best_score {
            best = Some(k);
            best_score = scores[k];
        }
        proof {
            assert(next[k as int] == scores@[k as int]);
            match best {
                None => {},
                Some(i) => {
                    assert(prev.len() == k);
                },
            }
        }
        k = k + 1;
    }
    proof {
        assert(scores@.take(scores@.len() as int) == scores@);
    }
    best
}

/// The offset that goes with a ratio pick: the identity's for none, else the
/// chosen candidate's.
pub open spec fn chosen_offset(baseline_offset: i64, offsets: Seq<i64>, choice: Option<usize>) -> i64 {
    match choice {
        None => baseline_offset,
        Some(i) => offsets[i as int],
    }
}

/// Picks the framerate ratio as [`choose_fps_ratio`] does, together with the
/// alignment offset that was found under it.
pub fn resolve_fps_ratio(
    baseline: i64,
    baseline_offset: i64,
    scores: &Vec<i64>,
    offsets: &Vec<i64>,
) -> (r: (Option<usize>, i64))
    requires
        offsets@.len() == scores@.len(),
    ensures
        is_ratio_choice(baseline, scores@, r.0),
        r.1 == chosen_offset(baseline_offset, offsets@, r.0),
{
    let choice = choose_fps_ratio(baseline, scores);
    let offset = match choice {
        None => baseline_offset,
        Some(i) => offsets[i],
    };
    (choice, offset)
}

/// When one candidate scores strictly higher than the identity and than every other
/// candidate, that candidate is the ratio chosen.
pub proof fn lemma_strict_best_ratio_chosen(baseline: i64, scores: Seq<i64>, k: int, choice: Option<usize>)
    requires
        0 <= k < scores.len(),
        scores[k] > baseline,
        forall|j: int| 0 <= j < scores.len() && j != k ==> #[trigger] scores[j] < scores[k],
        is_ratio_choice(baseline, scores, choice),
    ensures
        choice == Some(k as usize),
{
    match choice {
        None => {
            assert(scores[k] <= baseline);
        },
        Some(i) => {
            assert(scores[k] <= scores[i as int]);
        },
    }
}

} // verus!
