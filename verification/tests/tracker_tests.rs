use fish_net_radio::bins::{expected_bin_distance, map_bin_to_symbol, symbol_to_bin, valid_bins_for};
use fish_net_radio::config::{PreambleConfig, RxBinBlock};
use fish_net_radio::debug::DebugRecord;
use fish_net_radio::tracker::{Tracker, TrackerEvent};

fn preamble(items: &[&str]) -> PreambleConfig {
    PreambleConfig { bytes: items.iter().map(|s| s.to_string()).collect(), length_bytes: items.len() }
}

fn small_tracker() -> Tracker {
    Tracker::new(
        RxBinBlock { start: 0, end: 3, step: 1 },
        RxBinBlock { start: 4, end: 7, step: 1 },
        4,
        &preamble(&["F", "i"]),
        1,
    )
}

fn wide_tracker() -> Tracker {
    Tracker::new(
        RxBinBlock { start: 0, end: 127, step: 1 },
        RxBinBlock { start: 128, end: 255, step: 1 },
        1,
        &preamble(&["A", "B"]),
        1,
    )
}

#[test]
fn tracker_maps_peak_bins_to_symbols() {
    let mut tracker = small_tracker();
    let outputs = tracker.process(&[Some(5)]).unwrap();
    assert_eq!(outputs, vec![129u8]);

    let mut saw_message = false;
    for record in tracker.process_records(&[Some(5)]) {
        if let DebugRecord::Message { summary, .. } = record {
            if summary.contains("tracked_symbols=1") {
                saw_message = true;
            }
        }
    }
    assert!(saw_message);
    assert!(tracker.process(&[]).is_none());
}

#[test]
fn tracker_emits_frame_candidate_after_quiet_gap() {
    let mut tracker = wide_tracker();
    let a = Some(b'A' as usize);
    let b = Some(b'B' as usize);
    let c = Some(b'C' as usize);
    let d = Some(b'D' as usize);

    match tracker.process_window(&[a, b, c], true, false) {
        TrackerEvent::TrackingStarted { candidate, symbol_rows, next_symbol_row } => {
            assert_eq!(candidate.start_row, 0);
            assert_eq!(candidate.matches, 2);
            assert_eq!(symbol_rows, vec![0, 1, 2]);
            assert_eq!(next_symbol_row, 2);
        }
        _ => panic!("tracking should start"),
    }
    match tracker.process_window(&[b, c, d], true, false) {
        TrackerEvent::Tracking { drop_rows, sampled_rows } => {
            assert_eq!(drop_rows, 0);
            assert_eq!(sampled_rows, vec![2]);
        }
        _ => panic!("tracking should go on"),
    }
    match tracker.process_window(&[c, d, Some(0)], false, true) {
        TrackerEvent::Complete { bytes } => assert_eq!(bytes, vec![b'A', b'B', b'C', b'D']),
        _ => panic!("frame should be complete"),
    }
    assert!(!tracker.is_tracking());
}

#[test]
fn tracker_rejects_partial_preamble_and_short_windows() {
    let mut tracker = wide_tracker();
    assert!(matches!(tracker.process_window(&[Some(65)], true, false), TrackerEvent::NoPreambleWindow));
    match tracker.process_window(&[Some(90), Some(66), Some(70)], true, false) {
        TrackerEvent::PreambleRejected { candidate } => {
            assert_eq!(candidate.matches, 1);
            assert_eq!(candidate.start_row, 0);
            assert_eq!(candidate.bin_distance, 25);
            assert_eq!(candidate.preview, vec![90, 66]);
        }
        _ => panic!("partial preamble should be rejected"),
    }
    assert!(matches!(tracker.process_window(&[Some(65), Some(66)], false, false), TrackerEvent::Idle));
    assert_eq!(tracker.tracked_len(), 0);
}

#[test]
fn tracker_prefers_more_matches_then_closer_bins() {
    let mut tracker = wide_tracker();
    // start 0: A,C (1 match, distance 1); start 1: C,B (1 match, distance 2); start 2: B? no.
    let rows = [Some(65), Some(67), Some(66), Some(65), Some(66)];
    match tracker.process_window(&rows, true, false) {
        TrackerEvent::TrackingStarted { candidate, symbol_rows, .. } => {
            assert_eq!(candidate.start_row, 3);
            assert_eq!(symbol_rows, vec![3, 4]);
        }
        _ => panic!("the full preamble at row 3 should be found"),
    }
}

#[test]
fn bins_and_symbols() {
    let low = RxBinBlock { start: 8, end: 135, step: 1 };
    let high = RxBinBlock { start: 376, end: 503, step: 1 };
    for symbol in 0..=255u8 {
        let bin = symbol_to_bin(symbol, 8, 376);
        assert_eq!(map_bin_to_symbol(bin, &low, &high), symbol);
        assert_eq!(expected_bin_distance(symbol, bin, &low, &high), 0);
    }
    assert_eq!(map_bin_to_symbol(200, &low, &high), 0);
    let stepped = RxBinBlock { start: 0, end: 20, step: 4 };
    assert_eq!(map_bin_to_symbol(5, &stepped, &high), 1);
    assert_eq!(map_bin_to_symbol(6, &stepped, &high), 2);
    assert_eq!(valid_bins_for(&stepped, &RxBinBlock { start: 30, end: 31, step: 0 }), vec![0, 4, 8, 12, 16, 20, 30, 31]);
    assert_eq!(valid_bins_for(&RxBinBlock { start: 5, end: 4, step: 1 }, &RxBinBlock { start: usize::MAX - 1, end: usize::MAX, step: 1 }), vec![usize::MAX - 1]);
}

#[test]
fn tracker_valid_bins_follow_blocks() {
    let tracker = small_tracker();
    assert_eq!(tracker.valid_bins(), &vec![0, 1, 2, 3, 4, 5, 6, 7]);
    assert_eq!(tracker.map_row_to_symbol(None), (0, 0));
}

#[test]
fn clean_preamble_window_is_perfect() {
    let mut tracker = Tracker::new(
        RxBinBlock { start: 10, end: 137, step: 1 },
        RxBinBlock { start: 200, end: 327, step: 1 },
        2,
        &preamble(&["A", "\u{00C8}", "z"]),
        3,
    );
    // "È" is sent as its first UTF-8 byte, 0xC3, on bin 200 + 0x43.
    let rows = [Some(75), None, Some(267), None, Some(132), None];
    match tracker.process_window(&rows, true, false) {
        TrackerEvent::TrackingStarted { candidate, symbol_rows, next_symbol_row } => {
            assert_eq!(candidate.start_row, 0);
            assert_eq!(candidate.matches, 3);
            assert_eq!(candidate.bin_distance, 0);
            assert_eq!(candidate.preview, vec![b'A', 0xC3, b'z']);
            assert_eq!(symbol_rows, vec![0, 2, 4]);
            assert_eq!(next_symbol_row, 2);
        }
        other => panic!("unexpected {:?}", other),
    }
}

#[test]
fn blocks_near_the_top_of_the_bin_range_are_accepted() {
    let low = RxBinBlock { start: usize::MAX - 10, end: usize::MAX, step: 1 };
    let high = RxBinBlock { start: usize::MAX - 5, end: usize::MAX, step: 1 };
    // Symbol 127's bin lies 117 bins above usize::MAX.
    assert_eq!(expected_bin_distance(127, usize::MAX, &low, &high), 117);
    assert_eq!(expected_bin_distance(0, 0, &low, &high), (usize::MAX - 10) as u128);
    let mut tracker = Tracker::new(low, high, 1, &preamble(&["A"]), 1);
    match tracker.process_window(&[Some(usize::MAX)], true, false) {
        TrackerEvent::PreambleRejected { candidate } => {
            assert_eq!(candidate.matches, 0);
            assert_eq!(candidate.bin_distance, 55);
        }
        _ => panic!("a distant preamble byte should be rejected"),
    }
}

fn texts(records: &[DebugRecord]) -> Vec<String> {
    records
        .iter()
        .map(|r| match r {
            DebugRecord::Metric { seq, name, value, .. } => format!("{} {}={}", seq, name, value),
            DebugRecord::Snapshot { seq, label, rows, cols, .. } => format!("{} {} {}x{}", seq, label, rows, cols),
            DebugRecord::Message { seq, summary, .. } => format!("{} {}", seq, summary),
            DebugRecord::Warning { seq, detail, .. } => format!("{} warning {}", seq, detail),
            DebugRecord::Error { seq, detail, .. } => format!("{} error {}", seq, detail),
        })
        .collect()
}

#[test]
fn tracker_debug_records_follow_each_event() {
    let mut tracker = wide_tracker();
    let a = Some(b'A' as usize);
    let b = Some(b'B' as usize);
    let c = Some(b'C' as usize);

    let event = tracker.process_window(&[Some(65)], true, false);
    assert_eq!(
        texts(&tracker.event_records(&event)),
        vec!["1 warning detection did not contain enough rows for preamble search".to_string()]
    );

    let event = tracker.process_window(&[Some(90), Some(66), Some(70)], true, false);
    assert_eq!(
        texts(&tracker.event_records(&event)),
        vec![
            "2 preamble_matches=1".to_string(),
            "2 preamble_start_row=0".to_string(),
            "2 preamble_bin_distance=25".to_string(),
            "2 preamble_candidate start_row=0 matches=1/2 hex=[5A 42] ascii=\"ZB\"".to_string(),
        ]
    );

    let event = tracker.process_window(&[a, b, c], true, false);
    let records = texts(&tracker.event_records(&event));
    assert_eq!(records.len(), 5);
    assert_eq!(records[3], "3 preamble_candidate start_row=0 matches=2/2 hex=[41 42] ascii=\"AB\"");
    assert_eq!(records[4], "3 tracking_started buffered_symbols=3 next_symbol_row=4 hex=[41 42 43] ascii=\"ABC\"");

    let event = tracker.process_window(&[b, c, c], true, false);
    assert_eq!(texts(&tracker.event_records(&event)), vec!["4 drop_rows=0".to_string(), "4 tracking_symbols=4".to_string()]);

    let event = tracker.process_window(&[c, c, None], false, true);
    assert_eq!(
        texts(&tracker.event_records(&event)),
        vec![
            "5 drop_rows=1".to_string(),
            "5 tracking_complete symbols=4 hex=[41 42 43 43] ascii=\"ABCC\"".to_string(),
            "5 tracked_symbol_stream 1x4".to_string(),
        ]
    );

    let event = tracker.process_window(&[a], false, false);
    assert!(tracker.event_records(&event).is_empty());
}

#[test]
fn tracker_process_debug_records_are_exact() {
    let mut tracker = small_tracker();
    tracker.process(&[Some(2), None, Some(6)]);
    assert_eq!(
        texts(&tracker.process_records(&[Some(2), None, Some(6)])),
        vec!["1 valid_bin_count=8".to_string(), "1 peak_bin=6".to_string(), "1 tracked_symbols=3".to_string()]
    );
    tracker.process(&[]);
    assert_eq!(
        texts(&tracker.process_records(&[])),
        vec!["2 valid_bin_count=8".to_string(), "2 peak_bin=0".to_string(), "2 tracked_symbols=0".to_string()]
    );
}

#[test]
fn frame_completes_only_after_required_consecutive_drops() {
    let mut tracker = Tracker::new(
        RxBinBlock { start: 0, end: 127, step: 1 },
        RxBinBlock { start: 128, end: 255, step: 1 },
        1,
        &preamble(&["A", "B"]),
        2,
    );
    let a = Some(b'A' as usize);
    let b = Some(b'B' as usize);
    assert!(matches!(tracker.process_window(&[a, b], true, false), TrackerEvent::TrackingStarted { .. }));
    // One dropped row, then a good one: the count starts again.
    assert!(matches!(tracker.process_window(&[b, a], false, true), TrackerEvent::Tracking { drop_rows: 1, .. }));
    assert!(matches!(tracker.process_window(&[a, b], false, false), TrackerEvent::Tracking { drop_rows: 0, .. }));
    assert!(matches!(tracker.process_window(&[b, a], false, true), TrackerEvent::Tracking { drop_rows: 1, .. }));
    match tracker.process_window(&[a, b], false, true) {
        TrackerEvent::Complete { bytes } => assert!(bytes.starts_with(b"AB")),
        _ => panic!("the second dropped row in a row completes the frame"),
    }
    assert!(!tracker.is_tracking());
}
