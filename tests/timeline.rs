use ilass_cli::framerate::{choose_fps_ratio, fps_ratio_catalog, resolve_fps_ratio, scale_timepoint, scale_timespans, Ratio};
use ilass_cli::groups::{get_subtitle_delta_groups, group_start_range};
use ilass_cli::pipeline::{apply_deltas, broadcast_delta, correct_timeline, nosplit_deltas, ProgressTicker};
use ilass_cli::sanitize::sanitize_timestamps;
use ilass_cli::timing::{alg_delta_to_delta, alg_deltas_to_timing_deltas, timing_to_alg_timepoint, timings_to_alg_timespans, TimeSpan};

fn ts(a: i64, b: i64) -> TimeSpan {
    TimeSpan::new(a, b)
}

#[test]
fn span_constructor_orders_endpoints() {
    assert_eq!(ts(5, 3), TimeSpan { start: 3, end: 5 });
    assert_eq!(ts(3, 5), TimeSpan { start: 3, end: 5 });
    assert_eq!(ts(3, 5).len(), 2);
}

#[test]
fn ticks_truncate_toward_zero() {
    assert_eq!(timing_to_alg_timepoint(1999, 1000), 1);
    assert_eq!(timing_to_alg_timepoint(-1999, 1000), -1);
    assert_eq!(timing_to_alg_timepoint(i64::MIN, 1), i64::MIN);
    assert_eq!(alg_delta_to_delta(-3, 40), -120);
    assert_eq!(alg_deltas_to_timing_deltas(&vec![1, -2], 10), vec![10, -20]);
    assert_eq!(timings_to_alg_timespans(&vec![ts(95, 205)], 10), vec![ts(9, 20)]);
}

#[test]
fn groups_partition_sorted_lines() {
    let lines = vec![
        (5, ts(3000, 3500)),
        (0, ts(0, 100)),
        (0, ts(1000, 1100)),
        (5, ts(2000, 2100)),
        (0, ts(4000, 4100)),
    ];
    let g = get_subtitle_delta_groups(lines);
    assert_eq!(
        g,
        vec![
            (0, vec![ts(0, 100), ts(1000, 1100)]),
            (5, vec![ts(2000, 2100), ts(3000, 3500)]),
            (0, vec![ts(4000, 4100)]),
        ]
    );
    let flat: Vec<TimeSpan> = g.iter().flat_map(|(_, m)| m.iter().cloned()).collect();
    assert_eq!(flat, vec![ts(0, 100), ts(1000, 1100), ts(2000, 2100), ts(3000, 3500), ts(4000, 4100)]);
    for w in g.windows(2) {
        assert_ne!(w[0].0, w[1].0);
    }
}

#[test]
fn groups_keep_order_of_equal_starts() {
    let g = get_subtitle_delta_groups(vec![(1, ts(10, 30)), (2, ts(10, 20)), (1, ts(10, 40))]);
    assert_eq!(g, vec![(1, vec![ts(10, 30)]), (2, vec![ts(10, 20)]), (1, vec![ts(10, 40)])]);
    assert_eq!(get_subtitle_delta_groups(vec![]), vec![]);
}

#[test]
fn group_range_gives_earliest_and_latest_start() {
    assert_eq!(group_start_range(&vec![ts(50, 60), ts(10, 90), ts(70, 71)]), (10, 70));
}

#[test]
fn sanitizer_shifts_whole_timeline() {
    let mut v = vec![ts(-500, 100), ts(-200, -100), ts(1000, 2000)];
    let shift = sanitize_timestamps(&mut v, false);
    assert_eq!(shift, 500);
    assert_eq!(v, vec![ts(0, 600), ts(300, 400), ts(1500, 2500)]);
    let again = v.clone();
    assert_eq!(sanitize_timestamps(&mut v, false), 0);
    assert_eq!(v, again);
}

#[test]
fn sanitizer_respects_policy_and_clean_input() {
    let mut v = vec![ts(-500, 100)];
    assert_eq!(sanitize_timestamps(&mut v, true), 0);
    assert_eq!(v, vec![ts(-500, 100)]);
    let mut w = vec![ts(0, 100), ts(5, 6)];
    assert_eq!(sanitize_timestamps(&mut w, false), 0);
    assert_eq!(w, vec![ts(0, 100), ts(5, 6)]);
    let mut e: Vec<TimeSpan> = vec![];
    assert_eq!(sanitize_timestamps(&mut e, false), 0);
}

#[test]
fn catalog_and_scaling() {
    let c = fps_ratio_catalog();
    assert_eq!(c.len(), 6);
    assert_eq!(c[0], Ratio { num: 25, den: 24 });
    assert_eq!(scale_timepoint(1000, c[0]), 1041);
    assert_eq!(scale_timepoint(-1000, c[0]), -1041);
    assert_eq!(scale_timepoint(1000, c[2]), 960);
    assert_eq!(scale_timespans(&vec![ts(24, 48)], c[0]), vec![ts(25, 50)]);
}

#[test]
fn ratio_choice_prefers_strict_improvement() {
    assert_eq!(choose_fps_ratio(10, &vec![1, 2, 3, 10, 4, 5]), None);
    assert_eq!(choose_fps_ratio(10, &vec![1, 20, 3, 11, 4, 5]), Some(1));
    assert_eq!(choose_fps_ratio(10, &vec![12, 20, 3, 20, 4, 5]), Some(1));
    assert_eq!(choose_fps_ratio(10, &vec![]), None);
}

#[test]
fn nosplit_pipeline_recovers_constant_shift() {
    let reference = vec![ts(0, 1000), ts(5000, 6000)];
    let incorrect = vec![ts(200, 1200), ts(5200, 6200)];
    let interval = 1;
    let rt = timings_to_alg_timespans(&reference, interval);
    let it = timings_to_alg_timespans(&incorrect, interval);
    let deltas = nosplit_deltas(&rt, &it, interval).unwrap();
    assert_eq!(deltas.len(), 2);
    let out = correct_timeline(&incorrect, &deltas, Ratio { num: 1, den: 1 }, false);
    for (o, r) in out.iter().zip(reference.iter()) {
        assert!((o.start - r.start).abs() <= 1 && (o.end - r.end).abs() <= 1);
    }
}

#[test]
fn nosplit_with_empty_timeline_is_zero() {
    let deltas = nosplit_deltas(&vec![], &vec![ts(1, 2), ts(3, 4)], 10).unwrap();
    assert_eq!(deltas, vec![0, 0]);
}

#[test]
fn negative_line_moves_to_zero() {
    let out = correct_timeline(&vec![ts(0, 150)], &vec![-50], Ratio { num: 1, den: 1 }, false);
    assert_eq!(out, vec![ts(0, 150)]);
    let kept = correct_timeline(&vec![ts(0, 150)], &vec![-50], Ratio { num: 1, den: 1 }, true);
    assert_eq!(kept, vec![ts(-50, 100)]);
}

#[test]
fn deltas_and_ratio_apply_per_line() {
    let out = apply_deltas(&vec![ts(24, 48), ts(240, 480)], &vec![1, -1], Ratio { num: 25, den: 24 });
    assert_eq!(out, vec![ts(26, 51), ts(249, 499)]);
}

#[test]
fn broadcast_delta_overflow_is_none() {
    assert_eq!(broadcast_delta(3, 2, 1000), Some(vec![3000, 3000]));
    assert_eq!(broadcast_delta(i64::MAX, 2, 2), None);
}

#[test]
fn ticker_reports_every_prescaler_steps() {
    let mut t = ProgressTicker::new(3);
    assert_eq!(t.reports_for(10), 3);
    let got: Vec<bool> = (0..7).map(|_| t.advance()).collect();
    assert_eq!(got, vec![false, false, true, false, false, true, false]);
}

#[test]
fn resolved_ratio_carries_its_offset() {
    assert_eq!(resolve_fps_ratio(10, -7, &vec![1, 20, 3], &vec![100, 200, 300]), (Some(1), 200));
    assert_eq!(resolve_fps_ratio(10, -7, &vec![1, 10, 3], &vec![100, 200, 300]), (None, -7));
}

#[test]
fn sanitizer_keeps_lengths_and_gaps() {
    let before = vec![ts(-500, -400), ts(-100, 250), ts(700, 900)];
    let mut after = before.clone();
    assert_eq!(sanitize_timestamps(&mut after, false), 500);
    for (a, b) in after.iter().zip(before.iter()) {
        assert_eq!((a.start, a.end), (b.start + 500, b.end + 500));
    }
    for j in 0..3 {
        for k in 0..3 {
            assert_eq!(after[j].start - after[k].end, before[j].start - before[k].end);
        }
    }
}
