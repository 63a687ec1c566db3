use vstd::prelude::*;
use vstd::utf8::encode_utf8;

verus! {

/// The CRC settings carried with the framing configuration.
/// Frames are always protected by CRC-32/ISO-HDLC; these fields document it.
#[derive(Debug, Clone)]
pub struct CrcConfig {
    pub crc_type: String,
    pub polynomial: String,
    pub init: String,
    pub xor_out: String,
    pub reflect_in: bool,
    pub reflect_out: bool,
    pub covers: Vec<String>,
}

/// The preamble that starts every frame: one string per preamble byte,
/// of which the first UTF-8 byte is sent.
#[derive(Debug, Clone)]
pub struct PreambleConfig {
    pub bytes: Vec<String>,
    pub length_bytes: usize,
}

/// Addressing of the link layer.
#[derive(Debug, Clone)]
pub struct MacConfig {
    pub destination_length_bytes: usize,
    pub source_length_bytes: usize,
    pub allow_broadcast: bool,
    pub destination_mac: String,
    pub source_mac: String,
}

/// Framing: addressing and CRC.
#[derive(Debug, Clone)]
pub struct FramingConfig {
    pub mac: MacConfig,
    pub crc: CrcConfig,
}

/// How received payloads are to be interpreted.
#[derive(Debug, Clone)]
pub struct PayloadConfig {
    pub encoding: String,
    pub interpret_as: String,
}

/// What the receiver delivers, and which destinations it accepts.
#[derive(Debug, Clone)]
pub struct OutputConfig {
    pub deliver_payload: bool,
    pub include_source_mac: bool,
    pub validate_destination_mac: bool,
    pub allow_broadcast: bool,
}

/// A block of FFT bins: `start`, `start + step`, ... up to `end` inclusive.
/// A step of zero is treated as one.
#[derive(Clone, Copy, Debug, PartialEq, Eq, Structural)]
pub struct RxBinBlock {
    pub start: usize,
    pub end: usize,
    pub step: usize,
}

/// How much of the receiver's debug stream is printed.
#[derive(Clone, Copy, Debug, PartialEq, Eq, Structural)]
pub enum DebugLoggingLevel {
    Off,
    Basic,
    Verbose,
}

/// The first byte of the UTF-8 encoding of a text.
pub open spec fn first_utf8_byte(text: Seq<char>) -> u8 {
    encode_utf8(text)[0]
}

impl PreambleConfig {
    /// Every preamble entry holds at least one character.
    pub open spec fn wf(&self) -> bool {
        forall|i: int| 0 <= i < self.bytes@.len() ==> (#[trigger] self.bytes@[i])@.len() > 0
    }

    /// The preamble as bytes on the air: the first UTF-8 byte of each entry.
    pub open spec fn byte_seq(&self) -> Seq<u8> {
        Seq::new(self.bytes@.len(), |i: int| first_utf8_byte(self.bytes@[i]@))
    }

    /// The first UTF-8 byte of each non-empty entry, empty entries skipped.
    pub open spec fn nonempty_byte_seq(&self) -> Seq<u8> {
        first_bytes_of_nonempty(self.bytes@)
    }

    /// The preamble as bytes; each entry must be non-empty.
    pub fn to_bytes(&self) -> (r: Vec<u8>)
        requires
            self.wf(),
        ensures
            r@ == self.byte_seq(),
    {
        let mut out: Vec<u8> = Vec::with_capacity(self.bytes.len());
        let n = self.bytes.len();
        for i in 0..n
            invariant
                n == self.bytes@.len(),
                self.wf(),
                out@ == self.byte_seq().take(i as int),
        {
            let b = first_byte_of(&self.bytes[i]);
            out.push(b.unwrap());
            assert(out@ =~= self.byte_seq().take(i + 1));
        }
        assert(out@ =~= self.byte_seq());
        out
    }

    /// The preamble as bytes, skipping entries that are empty.
    pub fn to_nonempty_bytes(&self) -> (r: Vec<u8>)
        ensures
            r@ == self.nonempty_byte_seq(),
    {
        let mut out: Vec<u8> = Vec::new();
        let n = self.bytes.len();
        for i in 0..n
            invariant
                n == self.bytes@.len(),
                out@ == first_bytes_of_nonempty(self.bytes@.take(i as int)),
        {
            proof {
                lemma_first_bytes_push(self.bytes@.take(i as int), self.bytes@[i as int]);
                assert(self.bytes@.take(i + 1) =~= self.bytes@.take(i as int).push(
                    self.bytes@[i as int],
                ));
            }
            match first_byte_of(&self.bytes[i]) {
                Some(b) => out.push(b),
                None => {},
            }
        }
        assert(self.bytes@.take(n as int) =~= self.bytes@);
        out
    }
}

/// The first UTF-8 byte of each non-empty text, in order.
pub open spec fn first_bytes_of_nonempty(texts: Seq<String>) -> Seq<u8>
    decreases texts.len(),
{
    if texts.len() == 0 {
        Seq::empty()
    } else {
        let rest = first_bytes_of_nonempty(texts.drop_last());
        if texts.last()@.len() > 0 {
            rest.push(first_utf8_byte(texts.last()@))
        } else {
            rest
        }
    }
}

proof fn lemma_first_bytes_push(texts: Seq<String>, t: String)
    ensures
        first_bytes_of_nonempty(texts.push(t)) == if t@.len() > 0 {
            first_bytes_of_nonempty(texts).push(first_utf8_byte(t@))
        } else {
            first_bytes_of_nonempty(texts)
        },
{
    assert(texts.push(t).drop_last() =~= texts);
}

/// The first byte of a text's UTF-8 encoding, or `None` for the empty text.
fn first_byte_of(text: &String) -> (r: Option<u8>)
    ensures
        text@.len() > 0 ==> r == Some(first_utf8_byte(text@)),
        text@.len() == 0 ==> r is None,
{
    let bytes = text.as_str().as_bytes();
    proof {
        if text@.len() > 0 {
            assert(encode_utf8(text@).len() > 0);
        } else {
            assert(encode_utf8(text@) =~= Seq::<u8>::empty());
        }
    }
    if bytes.len() == 0 {
        None
    } else {
        Some(bytes[0])
    }
}

} // verus!
