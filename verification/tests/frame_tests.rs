use fish_net_radio::config::{CrcConfig, FramingConfig, MacConfig, OutputConfig, PayloadConfig, PreambleConfig};
use fish_net_radio::frame::{FrameBuilder, CRC_BYTES, REPEATED_LENGTH_HEADER_BYTES};
use fish_net_radio::mac::MacAddress;
use fish_net_radio::debug::{DebugRecord, RxStageId};
use fish_net_radio::parser::{decode_repeated_length, FrameError, FrameParser};

fn default_crc_config() -> CrcConfig {
    CrcConfig {
        crc_type: "CRC-32".to_string(),
        polynomial: "0x04C11DB7".to_string(),
        init: "0xFFFFFFFF".to_string(),
        xor_out: "0xFFFFFFFF".to_string(),
        reflect_in: true,
        reflect_out: true,
        covers: vec![
            "destination_mac".to_string(),
            "source_mac".to_string(),
            "payload".to_string(),
        ],
    }
}

fn default_preamble() -> PreambleConfig {
    PreambleConfig {
        bytes: vec![
            "F".to_string(),
            "i".to_string(),
            "S".to_string(),
            "h".to_string(),
            "N".to_string(),
            "e".to_string(),
            "T".to_string(),
            ":".to_string(),
        ],
        length_bytes: 8,
    }
}

fn framing() -> FramingConfig {
    FramingConfig {
        mac: MacConfig {
            destination_length_bytes: 6,
            source_length_bytes: 6,
            allow_broadcast: true,
            destination_mac: "FF:FF:FF:FF:FF:FF".to_string(),
            source_mac: "00:11:22:33:44:55".to_string(),
        },
        crc: default_crc_config(),
    }
}

fn payload_config() -> PayloadConfig {
    PayloadConfig { encoding: "utf-8".to_string(), interpret_as: "string".to_string() }
}

fn output_config() -> OutputConfig {
    OutputConfig {
        deliver_payload: true,
        include_source_mac: true,
        validate_destination_mac: true,
        allow_broadcast: true,
    }
}

fn builder() -> FrameBuilder {
    FrameBuilder::new(
        "FF:FF:FF:FF:FF:FF".parse().unwrap(),
        "00:11:22:33:44:55".parse().unwrap(),
        default_crc_config(),
        default_preamble(),
    )
}

fn parser() -> FrameParser {
    FrameParser::new(framing(), payload_config(), output_config(), default_preamble())
}

#[test]
fn frame_builder_generates_frame() {
    let builder = builder();
    let payload = b"Hello";
    let frame = builder.build_frame(payload);
    let preamble_len = 8;
    let body_len = 6 + 6 + payload.len() + CRC_BYTES;

    assert!(frame.starts_with(b"FiShNeT:"));
    assert_eq!(frame[preamble_len..preamble_len + 2], (body_len as u16).to_le_bytes());
    assert_eq!(frame[preamble_len + 2..preamble_len + 4], (body_len as u16).to_le_bytes());
    assert_eq!(frame[preamble_len + 4..preamble_len + 6], (body_len as u16).to_le_bytes());

    let body_start = preamble_len + REPEATED_LENGTH_HEADER_BYTES;
    assert_eq!(frame[body_start..body_start + 6], [0xFF; 6]);
    assert_eq!(frame[body_start + 6..body_start + 12], [0x00, 0x11, 0x22, 0x33, 0x44, 0x55]);
    assert_eq!(frame.len(), preamble_len + REPEATED_LENGTH_HEADER_BYTES + body_len);
}

#[test]
fn frame_crc_trailer_is_crc32_of_addresses_and_payload() {
    let builder = builder();
    let frame = builder.build_frame(b"123456789");
    let body_start = 8 + REPEATED_LENGTH_HEADER_BYTES;
    let crc_start = frame.len() - 4;
    let expected = builder.compute_crc(&frame[body_start..crc_start]);
    assert_eq!(frame[crc_start..], expected.to_le_bytes());
    assert_eq!(builder.compute_crc(b"123456789"), 0xCBF4_3926);
}

#[test]
fn parser_validates_frame_and_emits_message() {
    let frame = builder().build_frame(b"Hello");
    let mut parser = parser();

    let step = parser.process(&[frame]);
    let outputs = step.messages.as_ref().unwrap();
    assert_eq!(outputs.len(), 1);
    assert_eq!(outputs[0].payload, "Hello");
    assert_eq!(outputs[0].source_mac, "00:11:22:33:44:55");

    let mut saw_message = false;
    for record in step.debug_records() {
        if let DebugRecord::Message { summary, .. } = record {
            if summary.contains("payload_len=5") {
                saw_message = true;
            }
        }
    }
    assert!(saw_message);

    let parsed = step.parsed.unwrap();
    assert_eq!(parsed.payload.len(), 5);
    assert_eq!(step.seq, 1);
}

#[test]
fn parser_repairs_single_bad_length_copy() {
    let mut frame = builder().build_frame(b"Hello");
    let first_length_byte = default_preamble().bytes.len();
    frame[first_length_byte] ^= 0x01;
    let mut parser = parser();

    let step = parser.process(&[frame]);
    let outputs = step.messages.as_ref().unwrap();
    assert_eq!(outputs.len(), 1);
    assert_eq!(outputs[0].payload, "Hello");

    let mut saw_repair = false;
    for record in step.debug_records() {
        if let DebugRecord::Metric { name, value, .. } = record {
            if name == "length_header_repaired" && value == 1 {
                saw_repair = true;
            }
        }
    }
    assert!(saw_repair);
    assert!(step.parsed.unwrap().length_repaired);
}

#[test]
fn parser_trims_trailing_demod_bytes_using_length_header() {
    let mut frame = builder().build_frame(b"Hello");
    frame.push(*frame.last().unwrap());
    let mut parser = parser();

    let step = parser.process(&[frame]);
    let outputs = step.messages.as_ref().unwrap();
    assert_eq!(outputs.len(), 1);
    assert_eq!(outputs[0].payload, "Hello");
    let mut saw_trim_warning = false;
    for record in step.debug_records() {
        if let DebugRecord::Warning { detail, .. } = record {
            if detail.contains("trimmed trailing demod bytes: 1") {
                saw_trim_warning = true;
            }
        }
    }
    assert!(saw_trim_warning);
    let parsed = step.parsed.unwrap();
    assert_eq!(step.input_len - parsed.consumed_bytes, 1);
}

#[test]
fn parser_round_trips_payload_and_addresses() {
    let frame = builder().build_frame(b"FishNet \xE2\x9C\x93");
    let parser = parser();
    let parsed = parser.parse_frame(&frame).unwrap();
    assert_eq!(parsed.destination_mac, MacAddress([0xFF; 6]));
    assert_eq!(parsed.source_mac, MacAddress([0x00, 0x11, 0x22, 0x33, 0x44, 0x55]));
    assert_eq!(parsed.payload, b"FishNet \xE2\x9C\x93".to_vec());
    assert_eq!(parsed.body_len, 16 + 11);
    assert_eq!(parsed.consumed_bytes, frame.len());
    assert!(!parsed.length_repaired);
    assert_eq!(parser.decode_payload(&parsed.payload), "FishNet \u{2713}");
}

#[test]
fn parser_reports_each_error() {
    let parser = parser();
    let good = builder().build_frame(b"Hi");

    assert_eq!(parser.parse_frame(&good[..10]).err(), Some(FrameError::TooShort { len: 10 }));

    let mut bad_preamble = good.clone();
    bad_preamble[0] = b'f';
    assert_eq!(parser.parse_frame(&bad_preamble).err(), Some(FrameError::PreambleMismatch));

    let mut disagree = good.clone();
    disagree[8] = 1;
    disagree[10] = 2;
    disagree[12] = 3;
    assert_eq!(
        parser.parse_frame(&disagree).err(),
        Some(FrameError::LengthDisagreement { first: 1, second: 2, third: 3 })
    );

    let mut short_body = good.clone();
    for i in [8, 10, 12] {
        short_body[i] = 15;
        short_body[i + 1] = 0;
    }
    assert_eq!(parser.parse_frame(&short_body).err(), Some(FrameError::BodyTooShort { body_len: 15 }));

    let cut = &good[..good.len() - 1];
    assert_eq!(
        parser.parse_frame(cut).err(),
        Some(FrameError::IncompleteBody { expected: 18, available: 17 })
    );

    let mut bad_crc = good.clone();
    let last = bad_crc.len() - 1;
    bad_crc[last] ^= 0xFF;
    match parser.parse_frame(&bad_crc).err() {
        Some(FrameError::CrcMismatch { received, computed }) => assert_ne!(received, computed),
        other => panic!("unexpected {:?}", other),
    }

    assert_eq!(decode_repeated_length(&[1, 0, 1, 0]), Err(FrameError::InvalidLengthHeader { len: 4 }));
}

#[test]
fn repeated_length_majority_vote() {
    assert_eq!(decode_repeated_length(&[20, 0, 20, 0, 20, 0]), Ok((20, false)));
    assert_eq!(decode_repeated_length(&[21, 0, 20, 0, 20, 0]), Ok((20, true)));
    assert_eq!(decode_repeated_length(&[20, 0, 21, 0, 20, 0]), Ok((20, true)));
    assert_eq!(decode_repeated_length(&[20, 0, 20, 0, 0, 1]), Ok((20, true)));
    assert_eq!(decode_repeated_length(&[0x34, 0x12, 0x34, 0x12, 0x34, 0x12]), Ok((0x1234, false)));
}

#[test]
fn parser_rejects_foreign_destination_and_respects_output_switches() {
    let other = FrameBuilder::new(
        "02:00:00:00:00:01".parse().unwrap(),
        "00:11:22:33:44:55".parse().unwrap(),
        default_crc_config(),
        default_preamble(),
    );
    let mut fr = framing();
    fr.mac.destination_mac = "02:00:00:00:00:02".to_string();
    let mut strict = FrameParser::new(fr, payload_config(), output_config(), default_preamble());
    let step = strict.process(&[other.build_frame(b"x")]);
    assert!(step.parsed.is_ok());
    assert!(!step.destination_accepted);
    assert!(step.messages.is_none());

    let mut out = output_config();
    out.deliver_payload = false;
    out.include_source_mac = false;
    out.validate_destination_mac = false;
    let mut quiet = FrameParser::new(framing(), payload_config(), out, default_preamble());
    let step = quiet.process(&[other.build_frame(b"x")]);
    let msgs = step.messages.unwrap();
    assert_eq!(msgs[0].payload, "");
    assert_eq!(msgs[0].source_mac, "");

    let mut p = parser();
    let step = p.process(&[]);
    assert_eq!(step.input_len, 0);
    assert!(step.messages.is_none());
    assert_eq!(step.parsed.err(), Some(FrameError::TooShort { len: 0 }));
}

#[test]
fn destination_validation_rules() {
    let p = parser();
    assert!(p.destination_is_valid(&MacAddress([0xFF; 6])));
    assert!(!p.destination_is_valid(&MacAddress([1, 2, 3, 4, 5, 6])));

    let mut fr = framing();
    fr.mac.destination_mac = "01:02:03:04:05:06".to_string();
    fr.mac.allow_broadcast = false;
    let mut out = output_config();
    out.allow_broadcast = false;
    let strict = FrameParser::new(fr, payload_config(), out, default_preamble());
    assert!(strict.destination_is_valid(&MacAddress([1, 2, 3, 4, 5, 6])));
    assert!(!strict.destination_is_valid(&MacAddress([0xFF; 6])));
}

#[test]
fn tx_framing_from_config_reports_bad_addresses() {
    let mut mac = framing().mac;
    assert!(FrameBuilder::from_mac_config(&mac, default_crc_config(), default_preamble()).is_ok());
    mac.destination_mac = "zz".to_string();
    assert_eq!(
        FrameBuilder::from_mac_config(&mac, default_crc_config(), default_preamble()).err(),
        Some("Invalid destination MAC: MAC address must contain 6 octets separated by ':'".to_string())
    );
    mac.destination_mac = "FF:FF:FF:FF:FF:FF".to_string();
    mac.source_mac = "00:11:22:33:44:G5".to_string();
    assert_eq!(
        FrameBuilder::from_mac_config(&mac, default_crc_config(), default_preamble()).err(),
        Some("Invalid source MAC: Invalid MAC octet: G5".to_string())
    );
}

#[test]
fn frame_errors_are_described() {
    assert_eq!(FrameError::TooShort { len: 3 }.describe(), "frame too short: 3");
    assert_eq!(FrameError::PreambleMismatch.describe(), "preamble mismatch");
    assert_eq!(FrameError::InvalidLengthHeader { len: 4 }.describe(), "invalid repeated length header: 4");
    assert_eq!(
        FrameError::LengthDisagreement { first: 1, second: 20, third: 300 }.describe(),
        "length header disagreement: 1, 20, 300"
    );
    assert_eq!(FrameError::BodyTooShort { body_len: 15 }.describe(), "frame body too short: 15");
    assert_eq!(
        FrameError::IncompleteBody { expected: 18, available: 17 }.describe(),
        "incomplete frame body: expected=18 available=17"
    );
    let e = FrameError::CrcMismatch { received: 0xCBF4_3926, computed: 0x0000_00AB };
    assert_eq!(e.describe(), format!("crc mismatch: received={:#010X} computed={:#010X}", 0xCBF4_3926u32, 0xABu32));
    assert_eq!(e.describe(), "crc mismatch: received=0xCBF43926 computed=0x000000AB");
}

#[test]
fn payload_text_replaces_invalid_utf8() {
    let p = parser();
    assert_eq!(p.decode_payload(&[0x48, 0xFF, 0x69]), "H\u{FFFD}i");
    assert_eq!(p.decode_payload(b""), "");
}

#[test]
fn parser_sequence_counts_calls() {
    let mut p = parser();
    let frame = builder().build_frame(b"abc");
    assert_eq!(p.process(&[frame.clone()]).seq, 1);
    assert_eq!(p.process(&[frame]).seq, 2);
    assert_eq!(p.seq(), 2);
    p.reset();
    assert_eq!(p.seq(), 0);
    assert_eq!(p.preamble_bytes(), b"FiShNeT:".to_vec());
}

fn record_texts(records: &[DebugRecord]) -> Vec<String> {
    records
        .iter()
        .map(|r| match r {
            DebugRecord::Metric { stage, seq, name, value } => format!("{:?} {} metric {}={}", stage, seq, name, value),
            DebugRecord::Snapshot { stage, seq, label, rows, cols } => format!("{:?} {} snapshot {} {}x{}", stage, seq, label, rows, cols),
            DebugRecord::Message { stage, seq, summary } => format!("{:?} {} message {}", stage, seq, summary),
            DebugRecord::Warning { stage, seq, detail } => format!("{:?} {} warning {}", stage, seq, detail),
            DebugRecord::Error { stage, seq, detail } => format!("{:?} {} error {}", stage, seq, detail),
        })
        .collect()
}

#[test]
fn parser_debug_records_name_each_step() {
    let mut parser = parser();
    let step = parser.process(&[builder().build_frame(b"Hello")]);
    assert_eq!(
        record_texts(&step.debug_records()),
        vec![
            "Parser 1 metric input_bytes=35".to_string(),
            "Parser 1 metric body_len=21".to_string(),
            "Parser 1 metric length_header_repaired=0".to_string(),
            "Parser 1 message destination=FF:FF:FF:FF:FF:FF source=00:11:22:33:44:55 payload_len=5 crc=0x46D5A0E0 consumed_bytes=35".to_string(),
        ]
    );

    let step = parser.process(&[vec![1, 2, 3]]);
    assert_eq!(
        record_texts(&step.debug_records()),
        vec!["Parser 2 metric input_bytes=3".to_string(), "Parser 2 error frame too short: 3".to_string()]
    );
    assert!(matches!(step.debug_records()[1], DebugRecord::Error { stage: RxStageId::Parser, seq: 2, .. }));

    let other = FrameBuilder::new(
        "02:00:00:00:00:01".parse().unwrap(),
        "00:11:22:33:44:55".parse().unwrap(),
        default_crc_config(),
        default_preamble(),
    );
    let mut fr = framing();
    fr.mac.destination_mac = "02:00:00:00:00:02".to_string();
    let mut strict = FrameParser::new(fr, payload_config(), output_config(), default_preamble());
    let mut frame = other.build_frame(b"x");
    frame.push(0);
    frame.push(0);
    let step = strict.process(&[frame]);
    let texts = record_texts(&step.debug_records());
    assert_eq!(texts.len(), 5);
    assert_eq!(texts[3], "Parser 1 warning trimmed trailing demod bytes: 2");
    assert_eq!(texts[4], "Parser 1 warning destination 02:00:00:00:00:01 rejected");
}
