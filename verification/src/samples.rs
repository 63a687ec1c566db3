use vstd::prelude::*;
use crate::frame::{append_bytes, le32, le32_bytes, le32_value};
use crate::text::{decimal, push_decimal};

verus! {

/// Bytes of one packed complex sample: two little-endian 32-bit words.
pub const SAMPLE_BYTES: usize = 8;

/// The two words of each eight-byte sample in a packed buffer.
pub open spec fn sample_words(b: Seq<u8>) -> Seq<(u32, u32)> {
    Seq::new(
        b.len() / 8,
        |k: int| (le32_value(b.subrange(8 * k, 8 * k + 4)), le32_value(b.subrange(8 * k + 4, 8 * k + 8))),
    )
}

/// Words packed as samples: each pair as two little-endian 32-bit words.
pub open spec fn packed_words(w: Seq<(u32, u32)>) -> Seq<u8>
    decreases w.len(),
{
    if w.len() == 0 {
        Seq::empty()
    } else {
        packed_words(w.drop_last()) + le32(w.last().0) + le32(w.last().1)
    }
}

/// The message for a buffer that is not a whole number of samples.
pub open spec fn sample_length_message(len: nat) -> Seq<char> {
    "packed complex buffer length "@ + decimal(len) + " is not a multiple of 8"@
}

/// Unpacks a buffer of samples into the bit patterns of their two parts.
pub fn decode_sample_words(bytes: &[u8]) -> (r: Result<Vec<(u32, u32)>, String>)
    ensures
        bytes@.len() % 8 == 0 ==> (r matches Ok(w) && w@ == sample_words(bytes@)),
        bytes@.len() % 8 != 0 ==> (r matches Err(e) && e@ == sample_length_message(
            bytes@.len(),
        )),
{
    let n = bytes.len();
    if n % SAMPLE_BYTES != 0 {
        let mut msg = "packed complex buffer length ".to_owned();
        push_decimal(&mut msg, n as u128);
        msg.append(" is not a multiple of 8");
        return Err(msg);
    }
    let count = n / SAMPLE_BYTES;
    let mut out: Vec<(u32, u32)> = Vec::with_capacity(count);
    for k in 0..count
        invariant
            n == bytes@.len(),
            count == n / 8,
            n % 8 == 0,
            out@ == sample_words(bytes@).take(k as int),
    {
        let at = 8 * k;
        let re = bytes[at] as u32 + 256 * (bytes[at + 1] as u32) + 65536 * (bytes[at + 2] as u32)
            + 16777216 * (bytes[at + 3] as u32);
        let im = bytes[at + 4] as u32 + 256 * (bytes[at + 5] as u32) + 65536 * (bytes[at + 6] as u32)
            + 16777216 * (bytes[at + 7] as u32);
        out.push((re, im));
        assert(out@ =~= sample_words(bytes@).take(k + 1));
    }
    assert(out@ =~= sample_words(bytes@));
    Ok(out)
}

/// Packs the bit patterns of samples' parts into a buffer.
pub fn encode_sample_words(words: &[(u32, u32)]) -> (r: Vec<u8>)
    ensures
        r@ == packed_words(words@),
{
    let mut out: Vec<u8> = Vec::new();
    let n = words.len();
    for k in 0..n
        invariant
            n == words@.len(),
            out@ == packed_words(words@.take(k as int)),
    {
        let (re, im) = words[k];
        append_bytes(&mut out, &le32_bytes(re));
        append_bytes(&mut out, &le32_bytes(im));
        assert(words@.take(k + 1).drop_last() =~= words@.take(k as int));
    }
    assert(words@.take(n as int) =~= words@);
    out
}

} // verus!
