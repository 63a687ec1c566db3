use vstd::prelude::*;
use vstd::slice::{slice_subrange, slice_to_vec};
use vstd::utf8::{decode_utf8, valid_utf8};
use crate::config::{FramingConfig, OutputConfig, PayloadConfig, PreambleConfig};
use crate::frame::{
    crc32_checksum, crc32_iso_hdlc, le32_value, le16_value, BODY_MIN_BYTES, CRC_BYTES,
    REPEATED_LENGTH_HEADER_BYTES,
};
use crate::mac::{mac_parse, mac_text, MacAddress, MAC_ADDRESS_BYTES};
use crate::types::{system_time_now, RxMessage};
use crate::text::{decimal, push_char, push_decimal};
use crate::frame::{le32, le32_bytes};
use crate::mac::{hex2, hex_digit_char};
use crate::debug::{record_views, DebugRecord, DebugRecordView, RxStageId};

verus! {

/// Why a received byte stream is not a frame.
#[derive(Debug, Clone, Copy, PartialEq, Eq, Structural)]
pub enum FrameError {
    /// Fewer bytes than the smallest frame.
    TooShort { len: usize },
    /// The stream does not start with the preamble.
    PreambleMismatch,
    /// A length header that is not three 16-bit copies.
    InvalidLengthHeader { len: usize },
    /// All three copies of the length differ.
    LengthDisagreement { first: u16, second: u16, third: u16 },
    /// The length header announces a body smaller than two addresses and a CRC.
    BodyTooShort { body_len: usize },
    /// The stream ends before the announced body does.
    IncompleteBody { expected: usize, available: usize },
    /// The CRC trailer does not match the body.
    CrcMismatch { received: u32, computed: u32 },
}

/// A 32-bit value as `0x` and eight upper-case hexadecimal digits.
pub open spec fn hex32_text(v: u32) -> Seq<char> {
    let b = le32(v);
    "0x"@ + hex2(b[3]) + hex2(b[2]) + hex2(b[1]) + hex2(b[0])
}

/// The text that explains a frame error.
pub open spec fn frame_error_text(e: FrameError) -> Seq<char> {
    match e {
        FrameError::TooShort { len } => "frame too short: "@ + decimal(len as nat),
        FrameError::PreambleMismatch => "preamble mismatch"@,
        FrameError::InvalidLengthHeader { len } => "invalid repeated length header: "@ + decimal(
            len as nat,
        ),
        FrameError::LengthDisagreement { first, second, third } => "length header disagreement: "@
            + decimal(first as nat) + ", "@ + decimal(second as nat) + ", "@ + decimal(third as nat),
        FrameError::BodyTooShort { body_len } => "frame body too short: "@ + decimal(body_len as nat),
        FrameError::IncompleteBody { expected, available } => "incomplete frame body: expected="@
            + decimal(expected as nat) + " available="@ + decimal(available as nat),
        FrameError::CrcMismatch { received, computed } => "crc mismatch: received="@ + hex32_text(
            received,
        ) + " computed="@ + hex32_text(computed),
    }
}

/// Appends a 32-bit value as `0x` and eight upper-case hexadecimal digits.
fn push_hex32(out: &mut String, v: u32)
    ensures
        final(out)@ == old(out)@ + hex32_text(v),
{
    let b = le32_bytes(v);
    out.append("0x");
    let mut i: usize = 4;
    while i > 0
        invariant
            i <= 4,
            b@ == le32(v),
            out@ == old(out)@ + "0x"@ + hex_bytes_desc(b@, i as int),
        decreases i,
    {
        i = i - 1;
        push_char(out, hex_digit_char(b[i] / 16));
        push_char(out, hex_digit_char(b[i] % 16));
        assert(out@ =~= old(out)@ + "0x"@ + hex_bytes_desc(b@, i as int));
    }
    proof {
        reveal_with_fuel(hex_bytes_desc, 5);
        assert(hex_bytes_desc(b@, 4) =~= Seq::<char>::empty());
        assert(hex_bytes_desc(b@, 0) =~= hex2(b@[3]) + hex2(b@[2]) + hex2(b@[1]) + hex2(b@[0]));
    }
}

/// The hexadecimal of bytes `3` down to `from`, most significant first.
pub open spec fn hex_bytes_desc(b: Seq<u8>, from: int) -> Seq<char>
    decreases 4 - from,
{
    if from >= 4 {
        Seq::empty()
    } else {
        hex_bytes_desc(b, from + 1) + hex2(b[from])
    }
}

impl FrameError {
    /// Explains the error in words, with its numbers.
    pub fn describe(&self) -> (r: String)
        ensures
            r@ == frame_error_text(*self),
    {
        let mut out: String;
        match *self {
            FrameError::TooShort { len } => {
                out = "frame too short: ".to_owned();
                push_decimal(&mut out, len as u128);
            },
            FrameError::PreambleMismatch => {
                out = "preamble mismatch".to_owned();
            },
            FrameError::InvalidLengthHeader { len } => {
                out = "invalid repeated length header: ".to_owned();
                push_decimal(&mut out, len as u128);
            },
            FrameError::LengthDisagreement { first, second, third } => {
                out = "length header disagreement: ".to_owned();
                push_decimal(&mut out, first as u128);
                out.append(", ");
                push_decimal(&mut out, second as u128);
                out.append(", ");
                push_decimal(&mut out, third as u128);
            },
            FrameError::BodyTooShort { body_len } => {
                out = "frame body too short: ".to_owned();
                push_decimal(&mut out, body_len as u128);
            },
            FrameError::IncompleteBody { expected, available } => {
                out = "incomplete frame body: expected=".to_owned();
                push_decimal(&mut out, expected as u128);
                out.append(" available=");
                push_decimal(&mut out, available as u128);
            },
            FrameError::CrcMismatch { received, computed } => {
                out = "crc mismatch: received=".to_owned();
                push_hex32(&mut out, received);
                out.append(" computed=");
                push_hex32(&mut out, computed);
            },
        }
        out
    }
}

/// Decoding the repeated length header: the value at least two copies agree
/// on (the first copy wins when it agrees with either other), and whether the
/// copies were not all equal.
pub open spec fn repeated_length(b: Seq<u8>) -> Result<(usize, bool), FrameError> {
    if b.len() != 6 {
        Err(FrameError::InvalidLengthHeader { len: b.len() as usize })
    } else {
        let first = le16_value(b.subrange(0, 2));
        let second = le16_value(b.subrange(2, 4));
        let third = le16_value(b.subrange(4, 6));
        let repaired = first != second || first != third;
        if first == second || first == third {
            Ok((first as usize, repaired))
        } else if second == third {
            Ok((second as usize, repaired))
        } else {
            Err(
                FrameError::LengthDisagreement {
                    first: first as u16,
                    second: second as u16,
                    third: third as u16,
                },
            )
        }
    }
}

/// Reads two little-endian bytes at `at`.
fn read_le16(bytes: &[u8], at: usize) -> (r: u16)
    requires
        at + 2 <= bytes@.len(),
    ensures
        r as nat == le16_value(bytes@.subrange(at as int, at + 2)),
{
    bytes[at] as u16 + 256 * (bytes[at + 1] as u16)
}

/// Decodes the repeated length header by majority vote.
pub fn decode_repeated_length(bytes: &[u8]) -> (r: Result<(usize, bool), FrameError>)
    ensures
        r == repeated_length(bytes@),
{
    if bytes.len() != REPEATED_LENGTH_HEADER_BYTES {
        return Err(FrameError::InvalidLengthHeader { len: bytes.len() });
    }
    let first = read_le16(bytes, 0);
    let second = read_le16(bytes, 2);
    let third = read_le16(bytes, 4);
    let repaired = first != second || first != third;
    if first == second || first == third {
        Ok((first as usize, repaired))
    } else if second == third {
        Ok((second as usize, repaired))
    } else {
        Err(FrameError::LengthDisagreement { first, second, third })
    }
}

/// The contents of a parsed frame.
pub struct FrameView {
    pub destination: Seq<u8>,
    pub source: Seq<u8>,
    pub payload: Seq<u8>,
    pub received_crc: u32,
    pub body_len: usize,
    pub consumed_bytes: usize,
    pub length_repaired: bool,
}

/// Parsing a received byte stream as a frame that starts with `preamble`.
/// Bytes after the announced body are ignored.
pub open spec fn parse_frame_bytes(preamble: Seq<u8>, b: Seq<u8>) -> Result<FrameView, FrameError> {
    let header_start = preamble.len();
    let body_start = header_start + 6;
    if b.len() < body_start + 16 {
        Err(FrameError::TooShort { len: b.len() as usize })
    } else if b.take(header_start as int) != preamble {
        Err(FrameError::PreambleMismatch)
    } else {
        match repeated_length(b.subrange(header_start as int, body_start as int)) {
            Err(e) => Err(e),
            Ok((body_len, repaired)) => {
                if body_len < 16 {
                    Err(FrameError::BodyTooShort { body_len })
                } else if b.len() < body_start + body_len {
                    Err(
                        FrameError::IncompleteBody {
                            expected: body_len,
                            available: (b.len() - body_start) as usize,
                        },
                    )
                } else {
                    let body = b.subrange(body_start as int, body_start + body_len);
                    let crc_start = body.len() - 4;
                    let received = le32_value(body.subrange(crc_start, body.len() as int));
                    let computed = crc32_iso_hdlc(body.take(crc_start));
                    if received != computed {
                        Err(FrameError::CrcMismatch { received, computed })
                    } else {
                        Ok(
                            FrameView {
                                destination: body.take(6),
                                source: body.subrange(6, 12),
                                payload: body.subrange(12, crc_start),
                                received_crc: received,
                                body_len,
                                consumed_bytes: (body_start + body_len) as usize,
                                length_repaired: repaired,
                            },
                        )
                    }
                }
            },
        }
    }
}

/// A frame taken apart.
#[derive(Debug)]
pub struct ParsedFrame {
    pub destination_mac: MacAddress,
    pub source_mac: MacAddress,
    pub payload: Vec<u8>,
    pub received_crc: u32,
    pub body_len: usize,
    pub consumed_bytes: usize,
    pub length_repaired: bool,
}

impl View for ParsedFrame {
    type V = FrameView;

    open spec fn view(&self) -> FrameView {
        FrameView {
            destination: self.destination_mac.octets(),
            source: self.source_mac.octets(),
            payload: self.payload@,
            received_crc: self.received_crc,
            body_len: self.body_len,
            consumed_bytes: self.consumed_bytes,
            length_repaired: self.length_repaired,
        }
    }
}

/// The result of a parse, compared with its specification.
pub open spec fn parse_matches(r: Result<ParsedFrame, FrameError>, s: Result<FrameView, FrameError>) -> bool {
    match (r, s) {
        (Ok(f), Ok(v)) => f@ == v,
        (Err(e), Err(se)) => e == se,
        _ => false,
    }
}

/// All ones: the broadcast address.
pub open spec fn broadcast_octets() -> Seq<u8> {
    Seq::new(6, |i: int| 0xFFu8)
}

/// Whether a destination address is accepted: anything when validation is
/// off; otherwise the configured address, and broadcast where allowed.
pub open spec fn destination_accepted(
    validate: bool,
    allow_broadcast: bool,
    configured: Seq<char>,
    destination: Seq<u8>,
) -> bool {
    if validate {
        if mac_parse(configured) == Ok::<Seq<u8>, Seq<char>>(destination) {
            true
        } else {
            allow_broadcast && destination == broadcast_octets()
        }
    } else {
        true
    }
}

/// Text decoded from bytes as `String::from_utf8_lossy` does it.
pub uninterp spec fn utf8_lossy_text(bytes: Seq<u8>) -> Seq<char>;

/// Decodes bytes as UTF-8, replacing invalid sequences (`String::from_utf8_lossy`).
/// The result is named; for valid UTF-8 it is the decoded text, as std documents.
#[verifier::external_body]
fn utf8_lossy(bytes: &[u8]) -> (r: String)
    ensures
        r@ == utf8_lossy_text(bytes@),
        valid_utf8(bytes@) ==> r@ == decode_utf8(bytes@),
{
    String::from_utf8_lossy(bytes).to_string()
}

/// What one call of [`FrameParser::process`] did.
#[derive(Debug)]
pub struct ParserStep {
    /// The sequence number of this call.
    pub seq: u64,
    /// Bytes handed in.
    pub input_len: usize,
    /// The frame found, or why there is none.
    pub parsed: Result<ParsedFrame, FrameError>,
    /// Whether the frame's destination was accepted (false when there is no frame).
    pub destination_accepted: bool,
    /// The delivered message, if any.
    pub messages: Option<Vec<RxMessage>>,
}

/// A parse result with its frame as a [`FrameView`].
pub open spec fn parsed_view(r: Result<ParsedFrame, FrameError>) -> Result<FrameView, FrameError> {
    match r {
        Ok(f) => Ok(f@),
        Err(e) => Err(e),
    }
}

/// The one-line summary of a delivered frame.
pub open spec fn frame_summary_text(f: FrameView) -> Seq<char> {
    "destination="@ + mac_text(f.destination) + " source="@ + mac_text(f.source) + " payload_len="@
        + decimal(f.payload.len()) + " crc="@ + hex32_text(f.received_crc) + " consumed_bytes="@
        + decimal(f.consumed_bytes as nat)
}

/// The debug events of one parser call: the input size; then either the
/// error, or the frame's body length and whether its length header was
/// repaired, a warning for bytes left after the frame, and the rejection of
/// its destination or the summary of the delivered frame.
pub open spec fn parser_records(
    seq: u64,
    input_len: nat,
    parsed: Result<FrameView, FrameError>,
    accepted: bool,
) -> Seq<DebugRecordView> {
    let first = seq![
        DebugRecordView::Metric { stage: RxStageId::Parser, seq, name: "input_bytes"@, value: input_len },
    ];
    match parsed {
        Err(e) => first.push(DebugRecordView::Error { stage: RxStageId::Parser, seq, detail: frame_error_text(e) }),
        Ok(f) => {
            let numbers = first.push(
                DebugRecordView::Metric { stage: RxStageId::Parser, seq, name: "body_len"@, value: f.body_len as nat },
            ).push(
                DebugRecordView::Metric {
                    stage: RxStageId::Parser,
                    seq,
                    name: "length_header_repaired"@,
                    value: if f.length_repaired { 1 } else { 0 },
                },
            );
            let trimmed = if f.consumed_bytes < input_len {
                numbers.push(
                    DebugRecordView::Warning {
                        stage: RxStageId::Parser,
                        seq,
                        detail: "trimmed trailing demod bytes: "@ + decimal((input_len - f.consumed_bytes) as nat),
                    },
                )
            } else {
                numbers
            };
            if accepted {
                trimmed.push(
                    DebugRecordView::Message { stage: RxStageId::Parser, seq, summary: frame_summary_text(f) },
                )
            } else {
                trimmed.push(
                    DebugRecordView::Warning {
                        stage: RxStageId::Parser,
                        seq,
                        detail: "destination "@ + mac_text(f.destination) + " rejected"@,
                    },
                )
            }
        },
    }
}

fn frame_summary(f: &ParsedFrame) -> (r: String)
    ensures
        r@ == frame_summary_text(f@),
{
    let mut out = "destination=".to_owned();
    let dest = f.destination_mac.to_text();
    out.append(dest.as_str());
    out.append(" source=");
    let src = f.source_mac.to_text();
    out.append(src.as_str());
    out.append(" payload_len=");
    push_decimal(&mut out, f.payload.len() as u128);
    out.append(" crc=");
    push_hex32(&mut out, f.received_crc);
    out.append(" consumed_bytes=");
    push_decimal(&mut out, f.consumed_bytes as u128);
    out
}

impl ParserStep {
    /// The debug events of this call, in the order the receiver emits them.
    pub fn debug_records(&self) -> (r: Vec<DebugRecord>)
        ensures
            record_views(r@) == parser_records(
                self.seq,
                self.input_len as nat,
                parsed_view(self.parsed),
                self.destination_accepted,
            ),
    {
        let seq = self.seq;
        let mut out: Vec<DebugRecord> = Vec::new();
        out.push(DebugRecord::Metric { stage: RxStageId::Parser, seq, name: "input_bytes", value: self.input_len as u128 });
        match &self.parsed {
            Err(e) => {
                out.push(DebugRecord::Error { stage: RxStageId::Parser, seq, detail: e.describe() });
            },
            Ok(f) => {
                out.push(DebugRecord::Metric { stage: RxStageId::Parser, seq, name: "body_len", value: f.body_len as u128 });
                out.push(
                    DebugRecord::Metric {
                        stage: RxStageId::Parser,
                        seq,
                        name: "length_header_repaired",
                        value: if f.length_repaired { 1 } else { 0 },
                    },
                );
                if f.consumed_bytes < self.input_len {
                    let mut detail = "trimmed trailing demod bytes: ".to_owned();
                    push_decimal(&mut detail, (self.input_len - f.consumed_bytes) as u128);
                    out.push(DebugRecord::Warning { stage: RxStageId::Parser, seq, detail });
                }
                if self.destination_accepted {
                    out.push(DebugRecord::Message { stage: RxStageId::Parser, seq, summary: frame_summary(f) });
                } else {
                    let mut detail = "destination ".to_owned();
                    let dest = f.destination_mac.to_text();
                    detail.append(dest.as_str());
                    detail.append(" rejected");
                    out.push(DebugRecord::Warning { stage: RxStageId::Parser, seq, detail });
                }
            },
        }
        assert(record_views(out@) =~= parser_records(
            self.seq,
            self.input_len as nat,
            parsed_view(self.parsed),
            self.destination_accepted,
        ));
        out
    }
}

/// The last stage of the receiver: checks frames and turns them into messages.
pub struct FrameParser {
    framing: FramingConfig,
    payload: PayloadConfig,
    output: OutputConfig,
    preamble: PreambleConfig,
    seq: u64,
}

/// The bytes of the first input, or none.
pub open spec fn first_input(data_in: Seq<Vec<u8>>) -> Seq<u8> {
    if data_in.len() > 0 {
        data_in[0]@
    } else {
        Seq::<u8>::empty()
    }
}

impl FrameParser {
    #[verifier::type_invariant]
    spec fn inv(&self) -> bool {
        self.preamble.wf()
    }

    /// The preamble expected at the start of every frame.
    pub closed spec fn preamble_seq(&self) -> Seq<u8> {
        self.preamble.byte_seq()
    }

    /// Whether a destination address is accepted.
    pub closed spec fn accepts(&self, destination: Seq<u8>) -> bool {
        destination_accepted(
            self.output.validate_destination_mac,
            self.output.allow_broadcast || self.framing.mac.allow_broadcast,
            self.framing.mac.destination_mac@,
            destination,
        )
    }

    /// Whether messages carry the payload text.
    pub closed spec fn delivers_payload(&self) -> bool {
        self.output.deliver_payload
    }

    /// Whether messages carry the source address text.
    pub closed spec fn includes_source_mac(&self) -> bool {
        self.output.include_source_mac
    }

    /// The number of calls of `process` since creation or reset.
    pub closed spec fn seq_count(&self) -> u64 {
        self.seq
    }

    pub fn new(
        framing: FramingConfig,
        payload: PayloadConfig,
        output: OutputConfig,
        preamble: PreambleConfig,
    ) -> (r: FrameParser)
        requires
            preamble.wf(),
        ensures
            r.preamble_seq() == preamble.byte_seq(),
            forall|d: Seq<u8>|
                r.accepts(d) == destination_accepted(
                    output.validate_destination_mac,
                    output.allow_broadcast || framing.mac.allow_broadcast,
                    framing.mac.destination_mac@,
                    d,
                ),
            output.allow_broadcast || framing.mac.allow_broadcast ==> r.accepts(
                seq![0xFFu8, 0xFF, 0xFF, 0xFF, 0xFF, 0xFF],
            ),
            r.delivers_payload() == output.deliver_payload,
            r.includes_source_mac() == output.include_source_mac,
            r.seq_count() == 0,
    {
        proof {
            crate::laws::lemma_destination_filter(
                output.validate_destination_mac,
                output.allow_broadcast || framing.mac.allow_broadcast,
                framing.mac.destination_mac@,
                seq![0xFFu8, 0xFF, 0xFF, 0xFF, 0xFF, 0xFF],
            );
        }
        FrameParser { framing, payload, output, preamble, seq: 0 }
    }

    /// Calls of `process` since creation or reset.
    pub fn seq(&self) -> (r: u64)
        ensures
            r == self.seq_count(),
    {
        self.seq
    }

    /// The preamble as bytes.
    pub fn preamble_bytes(&self) -> (r: Vec<u8>)
        ensures
            r@ == self.preamble_seq(),
    {
        proof {
            use_type_invariant(self);
        }
        self.preamble.to_bytes()
    }

    /// Takes a received byte stream apart as a frame and checks its CRC.
    pub fn parse_frame(&self, bytes: &[u8]) -> (r: Result<ParsedFrame, FrameError>)
        ensures
            parse_matches(r, parse_frame_bytes(self.preamble_seq(), bytes@)),
    {
        let preamble = self.preamble_bytes();
        let header_start = preamble.len();
        let n = bytes.len();
        let frame_min = match header_start.checked_add(REPEATED_LENGTH_HEADER_BYTES + BODY_MIN_BYTES) {
            Some(m) => m,
            None => {
                return Err(FrameError::TooShort { len: n });
            },
        };
        if n < frame_min {
            return Err(FrameError::TooShort { len: n });
        }
        let mut i: usize = 0;
        while i < header_start
            invariant
                header_start == preamble@.len(),
                preamble@ == self.preamble_seq(),
                header_start + 22 <= n,
                n == bytes@.len(),
                i <= header_start,
                bytes@.take(i as int) == preamble@.take(i as int),
            decreases header_start - i,
        {
            if bytes[i] != preamble[i] {
                assert(bytes@.take(header_start as int)[i as int] == bytes@[i as int]);
                assert(bytes@.take(header_start as int) != preamble@);
                return Err(FrameError::PreambleMismatch);
            }
            assert(bytes@.take(i + 1) =~= bytes@.take(i as int).push(bytes@[i as int]));
            assert(preamble@.take(i + 1) =~= preamble@.take(i as int).push(preamble@[i as int]));
            i = i + 1;
        }
        assert(preamble@.take(header_start as int) =~= preamble@);
        let body_start = header_start + REPEATED_LENGTH_HEADER_BYTES;
        let header = slice_subrange(bytes, header_start, body_start);
        let (body_len, length_repaired) = match decode_repeated_length(header) {
            Ok(v) => v,
            Err(e) => {
                return Err(e);
            },
        };
        if body_len < BODY_MIN_BYTES {
            return Err(FrameError::BodyTooShort { body_len });
        }
        let available = n - body_start;
        if available < body_len {
            return Err(FrameError::IncompleteBody { expected: body_len, available });
        }
        let consumed_bytes = body_start + body_len;
        let body = slice_subrange(bytes, body_start, consumed_bytes);
        let crc_start = body_len - CRC_BYTES;
        let destination_mac = MacAddress([body[0], body[1], body[2], body[3], body[4], body[5]]);
        let source_mac = MacAddress([body[6], body[7], body[8], body[9], body[10], body[11]]);
        let payload = slice_to_vec(slice_subrange(body, 2 * MAC_ADDRESS_BYTES, crc_start));
        let received_crc = body[crc_start] as u32 + 256 * (body[crc_start + 1] as u32) + 65536 * (
        body[crc_start + 2] as u32) + 16777216 * (body[crc_start + 3] as u32);
        let computed_crc = crc32_checksum(slice_subrange(body, 0, crc_start));
        proof {
            assert(body@.take(crc_start as int) =~= body@.subrange(0, crc_start as int));
            assert(destination_mac.octets() =~= body@.take(6));
            assert(source_mac.octets() =~= body@.subrange(6, 12));
        }
        if received_crc != computed_crc {
            return Err(FrameError::CrcMismatch { received: received_crc, computed: computed_crc });
        }
        Ok(
            ParsedFrame {
                destination_mac,
                source_mac,
                payload,
                received_crc,
                body_len,
                consumed_bytes,
                length_repaired,
            },
        )
    }

    /// Whether a destination address is accepted by this receiver.
    pub fn destination_is_valid(&self, destination: &MacAddress) -> (r: bool)
        ensures
            r == self.accepts(destination.octets()),
    {
        if self.output.validate_destination_mac {
            let configured = MacAddress::parse(self.framing.mac.destination_mac.as_str());
            if let Ok(c) = configured {
                if c == *destination {
                    return true;
                }
            }
            if self.output.allow_broadcast || self.framing.mac.allow_broadcast {
                let broadcast = MacAddress::broadcast();
                return *destination == broadcast;
            }
            return false;
        }
        true
    }

    /// The payload as text: UTF-8, with invalid sequences replaced.
    pub fn decode_payload(&self, payload: &[u8]) -> (r: String)
        ensures
            r@ == utf8_lossy_text(payload@),
            valid_utf8(payload@) ==> r@ == decode_utf8(payload@),
    {
        utf8_lossy(payload)
    }

    /// Starts the sequence count again.
    pub fn reset(&mut self)
        ensures
            final(self).seq_count() == 0,
            final(self).preamble_seq() == old(self).preamble_seq(),
            forall|d: Seq<u8>| final(self).accepts(d) == old(self).accepts(d),
            final(self).delivers_payload() == old(self).delivers_payload(),
            final(self).includes_source_mac() == old(self).includes_source_mac(),
    {
        proof {
            use_type_invariant(&*self);
        }
        self.seq = 0;
    }

    /// Checks the first received byte stream (none: an empty one) and
    /// delivers its message when it is a frame for this receiver.
    pub fn process(&mut self, data_in: &[Vec<u8>]) -> (r: ParserStep)
        requires
            old(self).seq_count() < u64::MAX,
        ensures
            final(self).seq_count() == old(self).seq_count() + 1,
            final(self).preamble_seq() == old(self).preamble_seq(),
            forall|d: Seq<u8>| final(self).accepts(d) == old(self).accepts(d),
            final(self).delivers_payload() == old(self).delivers_payload(),
            final(self).includes_source_mac() == old(self).includes_source_mac(),
            r.seq == final(self).seq_count(),
            r.input_len == first_input(data_in@).len(),
            parse_matches(r.parsed, parse_frame_bytes(old(self).preamble_seq(), first_input(data_in@))),
            r.destination_accepted == (r.parsed matches Ok(f) && old(self).accepts(f@.destination)),
            r.messages is Some == r.destination_accepted,
            r.messages matches Some(ms) ==> {
                &&& ms@.len() == 1
                &&& ms@[0].source_mac@ == (if old(self).includes_source_mac() {
                    mac_text(r.parsed->Ok_0@.source)
                } else {
                    Seq::<char>::empty()
                })
                &&& ms@[0].payload@ == (if old(self).delivers_payload() {
                    utf8_lossy_text(r.parsed->Ok_0@.payload)
                } else {
                    Seq::<char>::empty()
                })
                &&& old(self).delivers_payload() && valid_utf8(r.parsed->Ok_0@.payload)
                    ==> ms@[0].payload@ == decode_utf8(r.parsed->Ok_0@.payload)
            },
    {
        let empty: Vec<u8> = Vec::new();
        let bytes: &[u8] = if data_in.len() > 0 { data_in[0].as_slice() } else { empty.as_slice() };
        proof {
            use_type_invariant(&*self);
        }
        self.seq = self.seq + 1;
        let seq = self.seq;
        let parsed = self.parse_frame(bytes);
        match parsed {
            Err(e) => ParserStep {
                seq,
                input_len: bytes.len(),
                parsed: Err(e),
                destination_accepted: false,
                messages: None,
            },
            Ok(frame) => {
                if !self.destination_is_valid(&frame.destination_mac) {
                    return ParserStep {
                        seq,
                        input_len: bytes.len(),
                        parsed: Ok(frame),
                        destination_accepted: false,
                        messages: None,
                    };
                }
                let payload_text = self.decode_payload(frame.payload.as_slice());
                let source_mac_text = if self.output.include_source_mac {
                    frame.source_mac.to_text()
                } else {
                    String::new()
                };
                let message = RxMessage {
                    source_mac: source_mac_text,
                    payload: if self.output.deliver_payload {
                        payload_text
                    } else {
                        String::new()
                    },
                    received_at: system_time_now(),
                };
                let mut messages: Vec<RxMessage> = Vec::new();
                messages.push(message);
                ParserStep {
                    seq,
                    input_len: bytes.len(),
                    parsed: Ok(frame),
                    destination_accepted: true,
                    messages: Some(messages),
                }
            },
        }
    }
}

} // verus!
