use vstd::prelude::*;
use crate::config::{CrcConfig, MacConfig, PreambleConfig};
use crate::mac::{mac_parse, MacAddress};
use crc::{Crc, CRC_32_ISO_HDLC};

verus! {

/// Bytes of one copy of the length field.
pub const LENGTH_FIELD_BYTES: usize = 2;
/// The length field is sent this many times.
pub const LENGTH_REPETITIONS: usize = 3;
/// Bytes of the repeated length header.
pub const REPEATED_LENGTH_HEADER_BYTES: usize = LENGTH_FIELD_BYTES * LENGTH_REPETITIONS;
/// Bytes of the CRC trailer.
pub const CRC_BYTES: usize = 4;
/// The smallest body: two addresses and the CRC.
pub const BODY_MIN_BYTES: usize = 16;
/// The largest body the 16-bit length field can describe.
pub const BODY_MAX_BYTES: usize = 65535;

/// The CRC-32/ISO-HDLC checksum of some bytes, as the `crc` crate computes it.
pub uninterp spec fn crc32_iso_hdlc(data: Seq<u8>) -> u32;

/// The bytes of the text "123456789", on which CRC catalogues give each
/// algorithm's check value.
pub open spec fn crc_check_input() -> Seq<u8> {
    seq![49u8, 50, 51, 52, 53, 54, 55, 56, 57]
}

/// Computes CRC-32/ISO-HDLC (`crc::Crc::<u32>::new(&CRC_32_ISO_HDLC)`, digest,
/// update, finalize). The contract names the result as a function of the bytes
/// and states the algorithm's catalogued check value (`check: 0xcbf43926` in
/// `crc-catalog`); the bitwise algorithm itself is not restated.
#[verifier::external_body]
pub(crate) fn crc32_checksum(data: &[u8]) -> (r: u32)
    ensures
        r == crc32_iso_hdlc(data@),
        data@ == crc_check_input() ==> r == 0xCBF4_3926,
{
    let alg = Crc::<u32>::new(&CRC_32_ISO_HDLC);
    let mut digest = alg.digest();
    digest.update(data);
    digest.finalize()
}

/// A 16-bit value as two little-endian bytes.
pub open spec fn le16(v: nat) -> Seq<u8> {
    seq![(v % 256) as u8, ((v / 256) % 256) as u8]
}

/// A 32-bit value as four little-endian bytes.
pub open spec fn le32(v: u32) -> Seq<u8> {
    seq![
        (v % 256) as u8,
        ((v / 256) % 256) as u8,
        ((v / 65536) % 256) as u8,
        ((v / 16777216) % 256) as u8,
    ]
}

/// The value of two little-endian bytes.
pub open spec fn le16_value(b: Seq<u8>) -> nat {
    (b[0] + 256 * b[1]) as nat
}

/// The value of four little-endian bytes.
pub open spec fn le32_value(b: Seq<u8>) -> u32 {
    (b[0] + 256 * b[1] + 65536 * b[2] + 16777216 * b[3]) as u32
}

/// The length header: the body length, little-endian, three times.
pub open spec fn length_header(body_len: nat) -> Seq<u8> {
    le16(body_len) + le16(body_len) + le16(body_len)
}

/// A whole frame: preamble, length header, destination, source, payload,
/// and the CRC of destination, source and payload, little-endian.
pub open spec fn encode_frame(
    preamble: Seq<u8>,
    destination: Seq<u8>,
    source: Seq<u8>,
    payload: Seq<u8>,
) -> Seq<u8> {
    let covered = destination + source + payload;
    preamble + length_header(covered.len() + 4) + covered + le32(crc32_iso_hdlc(covered))
}

/// Builds frames from a payload: addressing, preamble and CRC settings.
#[derive(Debug)]
pub struct FrameBuilder {
    pub destination_mac: MacAddress,
    pub source_mac: MacAddress,
    pub crc_config: CrcConfig,
    pub preamble: PreambleConfig,
}

/// Appends bytes to a byte vector.
pub(crate) fn append_bytes(out: &mut Vec<u8>, bytes: &[u8])
    ensures
        final(out)@ == old(out)@ + bytes@,
{
    let n = bytes.len();
    for i in 0..n
        invariant
            n == bytes@.len(),
            out@ == old(out)@ + bytes@.take(i as int),
    {
        out.push(bytes[i]);
        assert(bytes@.take(i + 1) =~= bytes@.take(i as int).push(bytes@[i as int]));
    }
    assert(bytes@.take(n as int) =~= bytes@);
}

/// Two little-endian bytes of a value below 65536.
pub(crate) fn le16_bytes(v: usize) -> (r: [u8; 2])
    requires
        v <= 65535,
    ensures
        r@ == le16(v as nat),
{
    let r = [(v % 256) as u8, ((v / 256) % 256) as u8];
    assert(r@ =~= le16(v as nat));
    r
}

/// Four little-endian bytes of a 32-bit value.
pub(crate) fn le32_bytes(v: u32) -> (r: [u8; 4])
    ensures
        r@ == le32(v),
{
    let r = [
        (v % 256) as u8,
        ((v / 256) % 256) as u8,
        ((v / 65536) % 256) as u8,
        ((v / 16777216) % 256) as u8,
    ];
    assert(r@ =~= le32(v));
    r
}

impl FrameBuilder {
    pub fn new(
        destination_mac: MacAddress,
        source_mac: MacAddress,
        crc_config: CrcConfig,
        preamble: PreambleConfig,
    ) -> (r: FrameBuilder)
        ensures
            r.destination_mac == destination_mac,
            r.source_mac == source_mac,
            r.crc_config == crc_config,
            r.preamble == preamble,
    {
        FrameBuilder { destination_mac, source_mac, crc_config, preamble }
    }

    /// The frame for a payload; the body (addresses, payload, CRC) must fit the
    /// 16-bit length field and each preamble entry must be non-empty.
    pub fn build_frame(&self, payload: &[u8]) -> (r: Vec<u8>)
        requires
            payload@.len() + BODY_MIN_BYTES <= BODY_MAX_BYTES,
            self.preamble.wf(),
        ensures
            r@ == encode_frame(
                self.preamble.byte_seq(),
                self.destination_mac.octets(),
                self.source_mac.octets(),
                payload@,
            ),
    {
        let body_len = 6 + 6 + payload.len() + CRC_BYTES;
        let mut frame = self.preamble.to_bytes();
        let length_bytes = le16_bytes(body_len);
        append_bytes(&mut frame, &length_bytes);
        append_bytes(&mut frame, &length_bytes);
        append_bytes(&mut frame, &length_bytes);
        let mut covered: Vec<u8> = Vec::new();
        append_bytes(&mut covered, &self.destination_mac.0);
        append_bytes(&mut covered, &self.source_mac.0);
        append_bytes(&mut covered, payload);
        let crc = crc32_checksum(covered.as_slice());
        append_bytes(&mut frame, covered.as_slice());
        let crc_bytes = le32_bytes(crc);
        append_bytes(&mut frame, &crc_bytes);
        proof {
            let covered_spec = self.destination_mac.octets() + self.source_mac.octets() + payload@;
            assert(covered@ =~= covered_spec);
            assert(frame@ =~= encode_frame(
                self.preamble.byte_seq(),
                self.destination_mac.octets(),
                self.source_mac.octets(),
                payload@,
            ));
        }
        frame
    }

    /// A frame builder for the configured addresses; an address that does not
    /// parse is reported with the side it is on.
    pub fn from_mac_config(mac: &MacConfig, crc_config: CrcConfig, preamble: PreambleConfig) -> (r:
        Result<FrameBuilder, String>)
        ensures
            match (mac_parse(mac.destination_mac@), mac_parse(mac.source_mac@)) {
                (Err(e), _) => r matches Err(msg) && msg@ == "Invalid destination MAC: "@ + e,
                (Ok(_), Err(e)) => r matches Err(msg) && msg@ == "Invalid source MAC: "@ + e,
                (Ok(d), Ok(src)) => r matches Ok(b) && b.destination_mac.octets() == d
                    && b.source_mac.octets() == src && b.crc_config == crc_config && b.preamble
                    == preamble,
            },
    {
        let destination_mac = match MacAddress::parse(mac.destination_mac.as_str()) {
            Ok(m) => m,
            Err(e) => {
                let mut msg = "Invalid destination MAC: ".to_owned();
                msg.append(e.as_str());
                return Err(msg);
            },
        };
        let source_mac = match MacAddress::parse(mac.source_mac.as_str()) {
            Ok(m) => m,
            Err(e) => {
                let mut msg = "Invalid source MAC: ".to_owned();
                msg.append(e.as_str());
                return Err(msg);
            },
        };
        Ok(FrameBuilder::new(destination_mac, source_mac, crc_config, preamble))
    }

    /// The CRC-32/ISO-HDLC of some bytes.
    pub fn compute_crc(&self, data: &[u8]) -> (r: u32)
        ensures
            r == crc32_iso_hdlc(data@),
    {
        crc32_checksum(data)
    }
}

} // verus!
