use fish_net_radio::config::DebugLoggingLevel;
use fish_net_radio::debug::{should_print_debug_event, stage_name, DebugRecord, RxDebugKind, RxStageId};
use fish_net_radio::demod::Demodulator;
use fish_net_radio::prng::XorShift64;
use fish_net_radio::samples::{decode_sample_words, encode_sample_words};
use fish_net_radio::text::{
    default_config_path, format_byte_preview, format_system_time, format_unix_time, next_line, push_signed_decimal, take_lines,
};

#[test]
fn demodulator_emits_frame_bytes_debug() {
    let mut demod = Demodulator::new(4);
    let symbols = vec![1u8, 2, 3, 4];
    let outputs = demod.process(&[symbols.clone()]).unwrap();
    assert_eq!(outputs, symbols);

    let mut saw_input = false;
    let mut saw_snapshot = false;
    for record in demod.event_records(symbols.len()) {
        match record {
            DebugRecord::Metric { name, .. } if name == "input_bytes" => saw_input = true,
            DebugRecord::Snapshot { label, .. } if label == "frame_bytes" => saw_snapshot = true,
            _ => {}
        }
    }
    assert!(saw_input);
    assert!(saw_snapshot);
    assert_eq!(demod.expected_rows(), 4);
    assert!(demod.process(&[Vec::new()]).is_none());
    assert!(demod.process(&[]).is_none());
    assert_eq!(Demodulator::new(0).expected_rows(), 1);
}

#[test]
fn decode_complex_frame_unpacks_little_endian_samples() {
    let bytes = [0.0f32.to_le_bytes(), 1.5f32.to_le_bytes(), (-2.0f32).to_le_bytes(), 3.25f32.to_le_bytes()].concat();
    let words = decode_sample_words(&bytes).unwrap();
    assert_eq!(words.len(), 2);
    assert_eq!((f32::from_bits(words[0].0), f32::from_bits(words[0].1)), (0.0, 1.5));
    assert_eq!((f32::from_bits(words[1].0), f32::from_bits(words[1].1)), (-2.0, 3.25));
    assert_eq!(encode_sample_words(&words), bytes);
    assert_eq!(
        decode_sample_words(&[0u8; 12]).err(),
        Some("packed complex buffer length 12 is not a multiple of 8".to_string())
    );
}

#[test]
fn packing_unpacked_sample_words_gives_the_bytes_back() {
    let bytes: Vec<u8> = (0u8..24).map(|b| b.wrapping_mul(37).wrapping_add(200)).collect();
    let words = decode_sample_words(&bytes).unwrap();
    assert_eq!(words[0].0, u32::from_le_bytes([bytes[0], bytes[1], bytes[2], bytes[3]]));
    assert_eq!(encode_sample_words(&words), bytes);
    assert_eq!(encode_sample_words(&decode_sample_words(&[]).unwrap()), Vec::<u8>::new());
}

#[test]
fn xorshift_sequence() {
    let mut g = XorShift64::new(1);
    assert_eq!(g.next_u64(), 1082269761);
    let mut z = XorShift64::new(0);
    assert_eq!(z.state, 0xDEAD_BEEF_CAFE_BABE);
    for _ in 0..1000 {
        assert_ne!(z.next_u64(), 0);
    }
}

#[test]
fn next_line_takes_complete_lines() {
    let mut pending = "hello\r\nworld\npart".to_string();
    assert_eq!(next_line(&mut pending), Some("hello".to_string()));
    assert_eq!(pending, "world\npart");
    assert_eq!(next_line(&mut pending), Some("world".to_string()));
    assert_eq!(next_line(&mut pending), None);
    assert_eq!(pending, "part");
    let mut crs = "a\r\r\n\n".to_string();
    assert_eq!(next_line(&mut crs), Some("a".to_string()));
    assert_eq!(next_line(&mut crs), Some(String::new()));
    assert_eq!(crs, "");
}

#[test]
fn config_path_joins_like_pathbuf() {
    assert_eq!(default_config_path("/opt/fish"), "/opt/fish/src/default_config.yaml");
    assert_eq!(default_config_path("/opt/fish/"), "/opt/fish/src/default_config.yaml");
    assert_eq!(default_config_path(""), "src/default_config.yaml");
    let mut p = std::path::PathBuf::from("/a/b");
    p.push("src/default_config.yaml");
    assert_eq!(default_config_path("/a/b"), p.to_string_lossy());
}

#[test]
fn time_formatting() {
    assert_eq!(format_unix_time(Some((1700000000, 5))), "1700000000.5");
    assert_eq!(format_unix_time(Some((0, 999))), "0.999");
    assert_eq!(format_unix_time(None), "invalid-time");
    let t = std::time::UNIX_EPOCH + std::time::Duration::from_millis(12_034);
    assert_eq!(format_system_time(t), "12.34");
    let before = std::time::UNIX_EPOCH - std::time::Duration::from_secs(1);
    assert_eq!(format_system_time(before), "invalid-time");
}

#[test]
fn byte_preview_shows_hex_and_text() {
    assert_eq!(format_byte_preview(b"Hi \x01"), "hex=[48 69 20 01] ascii=\"Hi .\"");
    assert_eq!(format_byte_preview(b""), "hex=[] ascii=\"\"");
    let long: Vec<u8> = (0u8..20).map(|i| b'a' + i).collect();
    assert_eq!(
        format_byte_preview(&long),
        "hex=[61 62 63 64 65 66 67 68 69 6A 6B 6C 6D 6E 6F 70] ascii=\"abcdefghijklmnop\""
    );
}

#[test]
fn debug_levels_and_stage_names() {
    assert!(!should_print_debug_event(DebugLoggingLevel::Off, RxDebugKind::Error));
    assert!(should_print_debug_event(DebugLoggingLevel::Basic, RxDebugKind::Warning));
    assert!(!should_print_debug_event(DebugLoggingLevel::Basic, RxDebugKind::Metric));
    assert!(!should_print_debug_event(DebugLoggingLevel::Basic, RxDebugKind::Snapshot));
    assert!(should_print_debug_event(DebugLoggingLevel::Verbose, RxDebugKind::Snapshot));
    assert_eq!(stage_name(RxStageId::FrontEnd), "fft");
    assert_eq!(stage_name(RxStageId::Demodulator), "demod");
    assert_eq!(stage_name(RxStageId::Parser), "parser");
}

#[test]
fn take_lines_drops_empty_lines_and_keeps_the_rest() {
    let mut pending = "one\r\n\ntwo\nthr".to_string();
    assert_eq!(take_lines(&mut pending), vec!["one".to_string(), "two".to_string()]);
    assert_eq!(pending, "thr");
    let mut none = "no newline".to_string();
    assert!(take_lines(&mut none).is_empty());
    assert_eq!(none, "no newline");
    let mut ends = "a\n".to_string();
    assert_eq!(take_lines(&mut ends), vec!["a".to_string()]);
    assert_eq!(ends, "");
}

#[test]
fn signed_decimals() {
    let mut s = String::from("row=");
    push_signed_decimal(&mut s, -42);
    assert_eq!(s, "row=-42");
    let mut t = String::new();
    push_signed_decimal(&mut t, 0);
    push_signed_decimal(&mut t, i128::MIN);
    assert_eq!(t, format!("0{}", i128::MIN));
}

#[test]
fn demodulator_debug_records_are_exact() {
    let mut demod = Demodulator::new(3);
    demod.process(&[vec![7u8, 8]]);
    let records = demod.event_records(2);
    assert_eq!(records.len(), 3);
    assert!(matches!(records[0], DebugRecord::Metric { stage: RxStageId::Demodulator, seq: 1, name: "input_bytes", value: 2 }));
    assert!(matches!(records[1], DebugRecord::Metric { seq: 1, name: "expected_rows", value: 3, .. }));
    assert!(matches!(records[2], DebugRecord::Snapshot { seq: 1, label: "frame_bytes", rows: 1, cols: 2, .. }));
    demod.process(&[]);
    let records = demod.event_records(0);
    match &records[2] {
        DebugRecord::Warning { seq, detail, .. } => {
            assert_eq!(*seq, 2);
            assert_eq!(detail, "empty symbol stream");
        }
        _ => panic!("an empty stream is warned about"),
    }
}
