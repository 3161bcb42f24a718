//! Grouping of per-line offsets into contiguous blocks that share one offset.

use vstd::prelude::*;
use crate::timing::TimeSpan;

verus! {

/// The lines of `v` whose span starts at `t`, in their order in `v`.
pub open spec fn starting_at(v: Seq<(i64, TimeSpan)>, t: i64) -> Seq<(i64, TimeSpan)> {
    v.filter(|x: (i64, TimeSpan)| x.1.start == t)
}

/// `r` is `v` sorted by span start, lines with equal starts kept in their order.
pub open spec fn is_stable_sort_by_start(r: Seq<(i64, TimeSpan)>, v: Seq<(i64, TimeSpan)>) -> bool {
    &&& r.len() == v.len()
    &&& forall|i: int, j: int| 0 <= i < j < r.len() ==> r[i].1.start <= r[j].1.start
    &&& forall|t: i64| #[trigger] starting_at(r, t) == starting_at(v, t)
}

/// Relies on `slice::sort_by_key`, a stable sort: equal keys keep their order.
#[verifier::external_body]
fn sort_by_start(v: Vec<(i64, TimeSpan)>) -> (r: Vec<(i64, TimeSpan)>)
    ensures
        is_stable_sort_by_start(r@, v@),
{
    let mut v = v;
    v.sort_by_key(|t| t.1.start);
    v
}

/// The members of a group, each paired with the group's offset.
pub open spec fn tag_members(d: i64, m: Seq<TimeSpan>) -> Seq<(i64, TimeSpan)> {
    m.map_values(|s: TimeSpan| (d, s))
}

/// All groups' members in group order then member order, each with its group's offset.
pub open spec fn flatten_groups(g: Seq<(i64, Vec<TimeSpan>)>) -> Seq<(i64, TimeSpan)>
    decreases g.len(),
{
    if g.len() == 0 {
        Seq::empty()
    } else {
        flatten_groups(g.drop_last()) + tag_members(g.last().0, g.last().1@)
    }
}

/// Every group has a member, and no two neighbouring groups share an offset.
pub open spec fn groups_maximal(g: Seq<(i64, Vec<TimeSpan>)>) -> bool {
    &&& forall|i: int| 0 <= i < g.len() ==> (#[trigger] g[i]).1@.len() > 0
    &&& forall|i: int| 0 < i < g.len() ==> (#[trigger] g[i]).0 != g[i - 1].0
}

/// Groups lines (offset and span) that are neighbours in chronological order and
/// share an offset. The lines are first sorted stably by their earlier endpoint,
/// the span start.
pub fn get_subtitle_delta_groups(v: Vec<(i64, TimeSpan)>) -> (r: Vec<(i64, Vec<TimeSpan>)>)
    requires
        forall|i: int| 0 <= i < v@.len() ==> (#[trigger] v@[i]).1.wf(),
    ensures
        is_stable_sort_by_start(flatten_groups(r@), v@),
        groups_maximal(r@),
{
    let ghost v0 = v@;
    let sorted = sort_by_start(v);
    let mut result: Vec<(i64, Vec<TimeSpan>)> = Vec::new();
    if sorted.len() == 0 {
        proof {
            assert(flatten_groups(result@) =~= sorted@);
        }
        return result;
    }
    let mut cur_delta: i64 = sorted[0].0;
    let mut cur: Vec<TimeSpan> = Vec::new();
    cur.push(sorted[0].1);
    let mut k: usize = 1;
    proof {
        assert(flatten_groups(result@) + tag_members(cur_delta, cur@) =~= sorted@.take(1));
    }
    while k < sorted.len()
        invariant
            1 <= k <= sorted@.len(),
            cur@.len() > 0,
            flatten_groups(result@) + tag_members(cur_delta, cur@) == sorted@.take(k as int),
            groups_maximal(result@),
            result@.len() > 0 ==> result@.last().0 != cur_delta,
        decreases sorted@.len() - k,
    {
        let (d, s) = sorted[k];
        if d == cur_delta {
            cur.push(s);
            proof {
                assert(tag_members(cur_delta, cur@) =~= tag_members(cur_delta, cur@.drop_last()).push((d, s)));
                assert(sorted@.take(k as int + 1) =~= sorted@.take(k as int).push((d, s)));
            }
        } else {
            let ghost old_result = result@;
            let ghost old_cur = cur@;
            let mut fresh: Vec<TimeSpan> = Vec::new();
            fresh.push(s);
            let done = cur;
            cur = fresh;
            result.push((cur_delta, done));
            proof {
                assert(result@.drop_last() =~= old_result);
                assert(flatten_groups(result@) == flatten_groups(old_result) + tag_members(cur_delta, old_cur));
                assert(tag_members(d, cur@) =~= seq![(d, s)]);
                assert(sorted@.take(k as int + 1) =~= sorted@.take(k as int).push((d, s)));
                assert(flatten_groups(result@) + tag_members(d, cur@) =~= sorted@.take(k as int + 1));
                assert forall|i: int| 0 < i < result@.len() implies (#[trigger] result@[i]).0 != result@[i - 1].0 by {
                    if i < result@.len() - 1 {
                        assert(result@[i] == old_result[i]);
                    }
                }
            }
            cur_delta = d;
        }
        k = k + 1;
    }
    let ghost old_result = result@;
    result.push((cur_delta, cur));
    proof {
        assert(result@.drop_last() =~= old_result);
        assert(sorted@.take(sorted@.len() as int) =~= sorted@);
        assert forall|i: int| 0 < i < result@.len() implies (#[trigger] result@[i]).0 != result@[i - 1].0 by {
            if i < result@.len() - 1 {
                assert(result@[i] == old_result[i]);
            }
        }
    }
    result
}

/// The earliest and the latest start among a group's members.
pub fn group_start_range(members: &Vec<TimeSpan>) -> (r: (i64, i64))
    requires
        members@.len() > 0,
    ensures
        exists|i: int| 0 <= i < members@.len() && (#[trigger] members@[i]).start == r.0,
        exists|i: int| 0 <= i < members@.len() && (#[trigger] members@[i]).start == r.1,
        forall|i: int| 0 <= i < members@.len() ==> r.0 <= (#[trigger] members@[i]).start <= r.1,
{
    let mut lo: i64 = members[0].start;
    let mut hi: i64 = members[0].start;
    let mut k: usize = 1;
    while k < members.len()
        invariant
            1 <= k <= members@.len(),
            exists|i: int| 0 <= i < k && (#[trigger] members@[i]).start == lo,
            exists|i: int| 0 <= i < k && (#[trigger] members@[i]).start == hi,
            forall|i: int| 0 <= i < k ==> lo <= (#[trigger] members@[i]).start <= hi,
        decreases members@.len() - k,
    {
        let t = members[k].start;
        if t < lo {
            lo = t;
        }
        if t > hi {
            hi = t;
        }
        k = k + 1;
    }
    (lo, hi)
}

} // verus!
