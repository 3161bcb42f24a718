use ilass_cli::chunker::{SampleChunker, CHUNK_SAMPLES};
use ilass_cli::segments::{extract_voice_segments, filter_min_length, segments_to_timespans, VideoFileHandler};
use ilass_cli::timing::TimeSpan;

#[test]
fn all_silent_flags_give_no_segments() {
    assert_eq!(extract_voice_segments(&vec![], 0), vec![]);
    assert_eq!(extract_voice_segments(&vec![false; 7], 0), vec![]);
    assert_eq!(extract_voice_segments(&vec![false; 7], 3), vec![]);
}

#[test]
fn all_speech_flags_give_one_segment() {
    assert_eq!(extract_voice_segments(&vec![true; 4], 0), vec![(0, 3)]);
    assert_eq!(extract_voice_segments(&vec![true; 4], 10), vec![(0, 3)]);
    assert_eq!(extract_voice_segments(&vec![true], 0), vec![(0, 0)]);
}

#[test]
fn two_runs_without_merging() {
    let flags = vec![true, true, false, false, true, true, false];
    assert_eq!(extract_voice_segments(&flags, 0), vec![(0, 1), (4, 5)]);
    assert_eq!(extract_voice_segments(&flags, 1), vec![(0, 1), (4, 5)]);
}

#[test]
fn two_runs_merge_across_short_silence() {
    let flags = vec![true, true, false, false, true, true, false];
    // A silence of two chunks closes a segment at a threshold of two.
    assert_eq!(extract_voice_segments(&flags, 2), vec![(0, 1), (4, 5)]);
    assert_eq!(extract_voice_segments(&flags, 3), vec![(0, 5)]);
    assert_eq!(extract_voice_segments(&flags, 100), vec![(0, 5)]);
}

#[test]
fn open_segment_closed_at_end_of_stream() {
    assert_eq!(extract_voice_segments(&vec![false, true], 5), vec![(1, 1)]);
    assert_eq!(extract_voice_segments(&vec![true, false, true], 5), vec![(0, 2)]);
}

#[test]
fn segments_become_millisecond_spans() {
    let spans = segments_to_timespans(&vec![(0, 1), (4, 5)], 32);
    assert_eq!(spans, vec![TimeSpan { start: 0, end: 32 }, TimeSpan { start: 128, end: 160 }]);
}

#[test]
fn short_spans_are_filtered_out() {
    let v = vec![
        TimeSpan { start: 0, end: 499 },
        TimeSpan { start: 1000, end: 1500 },
        TimeSpan { start: 2000, end: 4000 },
    ];
    assert_eq!(
        filter_min_length(&v, 500),
        vec![TimeSpan { start: 1000, end: 1500 }, TimeSpan { start: 2000, end: 4000 }]
    );
    assert_eq!(filter_min_length(&vec![], 500), vec![]);
}

#[test]
fn video_handler_from_flags_and_filter() {
    let mut flags = vec![false; 3];
    flags.extend(vec![true; 20]);
    flags.extend(vec![false; 2]);
    flags.push(true);
    let mut h = VideoFileHandler::from_voice_flags(&flags, 0);
    assert_eq!(
        h.timespans(),
        &[TimeSpan { start: 96, end: 22 * 32 }, TimeSpan { start: 25 * 32, end: 25 * 32 }][..]
    );
    h.filter_with_min_span_length_ms(500);
    assert_eq!(h.timespans(), &[TimeSpan { start: 96, end: 704 }][..]);
    let c = VideoFileHandler::from_cache(vec![TimeSpan { start: 1, end: 2 }]);
    assert_eq!(c.timespans(), &[TimeSpan { start: 1, end: 2 }][..]);
}

#[test]
fn chunker_hands_out_full_chunks() {
    let mut c = SampleChunker::new();
    let samples: Vec<i16> = (0..600).map(|i| i as i16).collect();
    let chunks = c.push_samples(&samples);
    assert_eq!(chunks.len(), 1);
    assert_eq!(chunks[0], samples[..CHUNK_SAMPLES].to_vec());
    let more = c.push_samples(&samples[..500]);
    assert_eq!(more.len(), 1);
    let mut expected: Vec<i16> = samples[512..600].to_vec();
    expected.extend_from_slice(&samples[..424]);
    assert_eq!(more[0], expected);
    let last = c.finish().unwrap();
    assert_eq!(last.len(), CHUNK_SAMPLES);
    assert_eq!(last[..76].to_vec(), samples[424..500].to_vec());
    assert!(last[76..].iter().all(|&x| x == 0));
}

#[test]
fn chunker_with_nothing_pending_finishes_empty() {
    let mut c = SampleChunker::new();
    assert_eq!(c.finish(), None);
    let mut c = SampleChunker::new();
    let chunks = c.push_samples(&vec![7; 1024]);
    assert_eq!(chunks.len(), 2);
    assert_eq!(c.finish(), None);
}
