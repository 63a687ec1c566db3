use vstd::prelude::*;
use crate::frame::{crc32_iso_hdlc, encode_frame, le16, le16_value, le32, le32_value, length_header};
use crate::parser::{destination_accepted, parse_frame_bytes, repeated_length, FrameView};
use crate::prng::xorshift_step;
use crate::text::trim_trailing_cr;
use crate::debug::{prints_event, RxDebugKind};
use crate::config::DebugLoggingLevel;
use crate::bins::{bin_symbol, expected_bin, step_of, tx_bin};
use crate::config::RxBinBlock;
use crate::tracker::{
    distance_upto, has_preamble_window, matches_at, matches_upto, max_start, row_symbol,
    due_rows, symbol_rows_from, symbols_of_rows, window_drop_step, TrackerMode, TrackerParams,
};
use crate::bins::lemma_div_bound;
use crate::samples::{packed_words, sample_words};
use crate::mac::{all_hex, hex2, hex_digit_value, hex_octet, hex_upper, hex_value, mac_parse, mac_text, octets_of, split_on, lemma_split_plain, lemma_split_then_piece};

verus! {

/// Two little-endian bytes give back the 16-bit value they were made from.
pub proof fn lemma_le16_roundtrip(v: nat)
    requires
        v < 65536,
    ensures
        le16_value(le16(v)) == v,
{
    let lo = v % 256;
    let hi = (v / 256) % 256;
    assert(v / 256 < 256) by (nonlinear_arith)
        requires
            v < 65536,
    ;
    assert(lo + 256 * hi == v) by (nonlinear_arith)
        requires
            lo == v % 256,
            hi == v / 256,
    ;
}

/// Four little-endian bytes give back the 32-bit value they were made from.
pub proof fn lemma_le32_roundtrip(v: u32)
    ensures
        le32_value(le32(v)) == v,
{
    let b = le32(v);
    assert(b[0] == v % 256);
    assert(b[1] == (v / 256) % 256);
    assert(b[2] == (v / 65536) % 256);
    assert(b[3] == (v / 16777216) % 256);
    assert((v % 256) + 256 * ((v / 256) % 256) + 65536 * ((v / 65536) % 256) + 16777216 * (
    (v / 16777216) % 256) == v) by (bit_vector);
}

/// A length header whose three copies agree decodes to that length, unrepaired.
pub proof fn lemma_header_of_length(n: nat)
    requires
        n < 65536,
    ensures
        repeated_length(length_header(n)) == Ok::<(usize, bool), crate::parser::FrameError>(
            (n as usize, false),
        ),
{
    let h = length_header(n);
    lemma_le16_roundtrip(n);
    assert(h.subrange(0, 2) =~= le16(n));
    assert(h.subrange(2, 4) =~= le16(n));
    assert(h.subrange(4, 6) =~= le16(n));
}

/// Frame round trip: a frame built from a payload parses back to the same
/// addresses and payload, its CRC, the body length and the whole frame as
/// consumed; bytes that follow the frame are ignored.
pub proof fn lemma_parse_built_frame(
    preamble: Seq<u8>,
    destination: Seq<u8>,
    source: Seq<u8>,
    payload: Seq<u8>,
    trailing: Seq<u8>,
)
    requires
        destination.len() == 6,
        source.len() == 6,
        payload.len() + 16 <= 65535,
        preamble.len() + 22 + payload.len() <= usize::MAX,
    ensures
        parse_frame_bytes(preamble, encode_frame(preamble, destination, source, payload) + trailing)
            == Ok::<FrameView, crate::parser::FrameError>(
            FrameView {
                destination,
                source,
                payload,
                received_crc: crc32_iso_hdlc(destination + source + payload),
                body_len: (payload.len() + 16) as usize,
                consumed_bytes: encode_frame(preamble, destination, source, payload).len() as usize,
                length_repaired: false,
            },
        ),
{
    let covered = destination + source + payload;
    let n: int = covered.len() as int + 4;
    let crc = crc32_iso_hdlc(covered);
    let frame = encode_frame(preamble, destination, source, payload);
    let b = frame + trailing;
    let p: int = preamble.len() as int;
    assert(frame.len() == p + 6 + n);
    assert(b.take(p) =~= preamble);
    assert(b.subrange(p, p + 6) =~= length_header(n as nat));
    lemma_header_of_length(n as nat);
    let body = b.subrange(p + 6, p + 6 + n);
    assert(body =~= covered + le32(crc));
    assert(body.subrange(n - 4, n) =~= le32(crc));
    lemma_le32_roundtrip(crc);
    assert(body.take(n - 4) =~= covered);
    assert(body.take(6) =~= destination);
    assert(body.subrange(6, 12) =~= source);
    assert(body.subrange(12, n - 4) =~= payload);
}

/// The length header with copy `k` (0, 1 or 2) replaced by `x`.
pub open spec fn header_with_copy(n: nat, x: nat, k: int) -> Seq<u8> {
    if k == 0 {
        le16(x) + le16(n) + le16(n)
    } else if k == 1 {
        le16(n) + le16(x) + le16(n)
    } else {
        le16(n) + le16(n) + le16(x)
    }
}

/// Majority vote: when any single copy of the length is damaged, the header
/// still decodes to the sent length, and reports the repair.
pub proof fn lemma_single_bad_copy_repaired(n: nat, x: nat, k: int)
    requires
        n < 65536,
        x < 65536,
        0 <= k < 3,
    ensures
        repeated_length(header_with_copy(n, x, k)) == Ok::<(usize, bool), crate::parser::FrameError>(
            (n as usize, x != n),
        ),
{
    let h = header_with_copy(n, x, k);
    lemma_le16_roundtrip(n);
    lemma_le16_roundtrip(x);
    if k == 0 {
        assert(h.subrange(0, 2) =~= le16(x));
        assert(h.subrange(2, 4) =~= le16(n));
        assert(h.subrange(4, 6) =~= le16(n));
    } else if k == 1 {
        assert(h.subrange(0, 2) =~= le16(n));
        assert(h.subrange(2, 4) =~= le16(x));
        assert(h.subrange(4, 6) =~= le16(n));
    } else {
        assert(h.subrange(0, 2) =~= le16(n));
        assert(h.subrange(2, 4) =~= le16(n));
        assert(h.subrange(4, 6) =~= le16(x));
    }
}

/// The receiver reads a symbol back from the bin it is expected on, as long
/// as that bin lies in the symbol's block (and, for the high block, outside
/// the low block, which is looked at first).
pub proof fn lemma_expected_bin_maps_back(symbol: u8, low: RxBinBlock, high: RxBinBlock)
    requires
        symbol <= 127 ==> expected_bin(symbol, low, high) <= low.end,
        symbol >= 128 ==> expected_bin(symbol, low, high) <= high.end,
        symbol >= 128 ==> !(low.start <= expected_bin(symbol, low, high) <= low.end),
    ensures
        bin_symbol(expected_bin(symbol, low, high), low, high) == symbol,
{
    if symbol <= 127 {
        let s = step_of(low) as int;
        let k = symbol as int;
        assert((k * s + s / 2) / s == k) by (nonlinear_arith)
            requires
                s > 0,
                k >= 0,
        ;
    } else {
        let s = step_of(high) as int;
        let k = symbol - 128;
        assert((k * s + s / 2) / s == k) by (nonlinear_arith)
            requires
                s > 0,
                k >= 0,
        ;
    }
}

/// Transmitter and receiver agree on symbols: with one-bin steps on the
/// receiver and the same first bins, the bin a symbol is sent on is read back
/// as that symbol (when it lies in its block, and a high bin lies outside the low block).
pub proof fn lemma_tx_bin_received_as_symbol(symbol: u8, low: RxBinBlock, high: RxBinBlock)
    requires
        step_of(low) == 1,
        step_of(high) == 1,
        symbol <= 127 ==> tx_bin(symbol, low.start as nat, high.start as nat) <= low.end,
        symbol >= 128 ==> tx_bin(symbol, low.start as nat, high.start as nat) <= high.end,
        symbol >= 128 ==> !(low.start <= tx_bin(symbol, low.start as nat, high.start as nat)
            <= low.end),
    ensures
        bin_symbol(tx_bin(symbol, low.start as nat, high.start as nat), low, high) == symbol,
{
    assert(tx_bin(symbol, low.start as nat, high.start as nat) == expected_bin(symbol, low, high));
    lemma_expected_bin_maps_back(symbol, low, high);
}

proof fn lemma_packed_words_at(w: Seq<(u32, u32)>, k: int)
    requires
        0 <= k < w.len(),
    ensures
        packed_words(w).len() == 8 * w.len(),
        packed_words(w).subrange(8 * k, 8 * k + 4) == le32(w[k].0),
        packed_words(w).subrange(8 * k + 4, 8 * k + 8) == le32(w[k].1),
    decreases w.len(),
{
    let rest = w.drop_last();
    lemma_packed_words_len(rest);
    let pw = packed_words(w);
    assert(pw == packed_words(rest) + le32(w.last().0) + le32(w.last().1));
    if k < w.len() - 1 {
        lemma_packed_words_at(rest, k);
        assert(pw.subrange(8 * k, 8 * k + 4) =~= packed_words(rest).subrange(8 * k, 8 * k + 4));
        assert(pw.subrange(8 * k + 4, 8 * k + 8) =~= packed_words(rest).subrange(8 * k + 4, 8 * k + 8));
    } else {
        assert(pw.subrange(8 * k, 8 * k + 4) =~= le32(w.last().0));
        assert(pw.subrange(8 * k + 4, 8 * k + 8) =~= le32(w.last().1));
    }
}

proof fn lemma_packed_words_len(w: Seq<(u32, u32)>)
    ensures
        packed_words(w).len() == 8 * w.len(),
    decreases w.len(),
{
    if w.len() > 0 {
        lemma_packed_words_len(w.drop_last());
    }
}

/// Sample packing round trip: unpacking packed sample words gives them back.
pub proof fn lemma_sample_words_roundtrip(w: Seq<(u32, u32)>)
    ensures
        packed_words(w).len() % 8 == 0,
        sample_words(packed_words(w)) == w,
{
    lemma_packed_words_len(w);
    let b = packed_words(w);
    assert(b.len() / 8 == w.len());
    assert forall|k: int| 0 <= k < w.len() implies #[trigger] sample_words(b)[k] == w[k] by {
        lemma_packed_words_at(w, k);
        lemma_le32_roundtrip(w[k].0);
        lemma_le32_roundtrip(w[k].1);
    }
    assert(sample_words(b) =~= w);
}

proof fn lemma_le32_bytes_roundtrip(b: Seq<u8>)
    requires
        b.len() == 4,
    ensures
        le32(le32_value(b)) == b,
{
    let (b0, b1, b2, b3) = (b[0] as int, b[1] as int, b[2] as int, b[3] as int);
    let v: int = b0 + 256 * b1 + 65536 * b2 + 16777216 * b3;
    assert(0 <= v < 0x1_0000_0000 && v % 256 == b0 && (v / 256) % 256 == b1 && (v / 65536) % 256 == b2
        && (v / 16777216) % 256 == b3) by (nonlinear_arith)
        requires
            0 <= b0 < 256,
            0 <= b1 < 256,
            0 <= b2 < 256,
            0 <= b3 < 256,
            v == b0 + 256 * b1 + 65536 * b2 + 16777216 * b3,
    ;
    assert(le32_value(b) == v);
    assert(le32(le32_value(b)) =~= b);
}

/// Sample packing round trip the other way: packing the words unpacked from
/// a buffer of whole samples gives the buffer back.
pub proof fn lemma_packed_words_roundtrip(b: Seq<u8>)
    requires
        b.len() % 8 == 0,
    ensures
        packed_words(sample_words(b)) == b,
    decreases b.len(),
{
    let n = b.len() as int;
    if n > 0 {
        let front = b.subrange(0, n - 8);
        assert(n >= 8 && (n - 8) % 8 == 0 && (n - 8) / 8 == n / 8 - 1) by (nonlinear_arith)
            requires
                n > 0,
                n % 8 == 0,
        ;
        lemma_packed_words_roundtrip(front);
        let w = sample_words(b);
        assert forall|k: int| 0 <= k < (n - 8) / 8 implies #[trigger] w.drop_last()[k] == sample_words(front)[k] by {
            assert(8 * k + 8 <= n - 8) by (nonlinear_arith)
                requires
                    0 <= k < (n - 8) / 8,
                    (n - 8) % 8 == 0,
                    n >= 8,
            ;
            assert(front.subrange(8 * k, 8 * k + 4) =~= b.subrange(8 * k, 8 * k + 4));
            assert(front.subrange(8 * k + 4, 8 * k + 8) =~= b.subrange(8 * k + 4, 8 * k + 8));
        }
        assert(w.drop_last() =~= sample_words(front));
        lemma_le32_bytes_roundtrip(b.subrange(n - 8, n - 4));
        lemma_le32_bytes_roundtrip(b.subrange(n - 4, n));
        assert(8 * (n / 8 - 1) == n - 8);
        assert(b =~= front + b.subrange(n - 8, n - 4) + b.subrange(n - 4, n));
    }
}

proof fn lemma_hex_upper_value(d: nat)
    requires
        d < 16,
    ensures
        hex_digit_value(hex_upper(d)) == Some(d),
        hex_upper(d) != '+',
        hex_upper(d) != ':',
{
    if d < 10 {
        assert(((d + 48) as char) as u32 == d + 48);
    } else {
        assert(((d + 55) as char) as u32 == d + 55);
    }
}

/// Two upper-case hexadecimal digits read back as the byte they were written from.
pub proof fn lemma_hex2_roundtrip(x: u8)
    ensures
        hex_octet(hex2(x)) == Some(x),
        !hex2(x).contains(':'),
{
    let h = hex2(x);
    let hi = (x / 16) as nat;
    let lo = (x % 16) as nat;
    lemma_hex_upper_value(hi);
    lemma_hex_upper_value(lo);
    assert(all_hex(h));
    assert(h.drop_last() =~= seq![hex_upper(hi)]);
    assert(seq![hex_upper(hi)].drop_last() =~= Seq::<char>::empty());
    assert(hex_value(Seq::<char>::empty()) == 0);
    assert(seq![hex_upper(hi)].last() == hex_upper(hi));
    assert(hex_value(seq![hex_upper(hi)]) == hex_value(Seq::<char>::empty()) * 16 + hi);
    assert(h.last() == hex_upper(lo));
    assert(hex_value(h) == hi * 16 + lo);
    assert(!h.contains(':')) by {
        if h.contains(':') {
            let j = choose|j: int| 0 <= j < h.len() && h[j] == ':';
            assert(j == 0 || j == 1);
        }
    }
}

/// Pieces that are all octets give those octets.
proof fn lemma_octets_all_valid(parts: Seq<Seq<char>>, bytes: Seq<u8>)
    requires
        parts.len() == bytes.len(),
        forall|i: int| 0 <= i < parts.len() ==> hex_octet(#[trigger] parts[i]) == Some(bytes[i]),
    ensures
        octets_of(parts) == Ok::<Seq<u8>, Seq<char>>(bytes),
    decreases parts.len(),
{
    if parts.len() > 0 {
        let p0 = parts.drop_last();
        let b0 = bytes.drop_last();
        assert forall|i: int| 0 <= i < p0.len() implies hex_octet(#[trigger] p0[i]) == Some(b0[i]) by {
            assert(p0[i] == parts[i]);
        }
        lemma_octets_all_valid(p0, b0);
        assert(hex_octet(parts[parts.len() - 1]) == Some(bytes[bytes.len() - 1]));
        assert(b0.push(bytes.last()) =~= bytes);
    } else {
        assert(bytes =~= Seq::<u8>::empty());
    }
}

/// MAC text round trip: the usual text of an address parses back to it.
pub proof fn lemma_mac_text_roundtrip(b: Seq<u8>)
    requires
        b.len() == 6,
    ensures
        mac_parse(mac_text(b)) == Ok::<Seq<u8>, Seq<char>>(b),
{
    let h = Seq::new(6, |i: int| hex2(b[i]));
    assert forall|i: int| 0 <= i < 6 implies hex_octet(#[trigger] h[i]) == Some(b[i]) && !h[i].contains(':') by {
        lemma_hex2_roundtrip(b[i]);
    }
    let t1 = hex2(b[0]);
    let t2 = t1 + seq![':'] + hex2(b[1]);
    let t3 = t2 + seq![':'] + hex2(b[2]);
    let t4 = t3 + seq![':'] + hex2(b[3]);
    let t5 = t4 + seq![':'] + hex2(b[4]);
    let t6 = t5 + seq![':'] + hex2(b[5]);
    assert(h[0] == hex2(b[0]));
    lemma_split_plain(t1, ':');
    lemma_split_then_piece(t1, hex2(b[1]), ':');
    lemma_split_then_piece(t2, hex2(b[2]), ':');
    lemma_split_then_piece(t3, hex2(b[3]), ':');
    lemma_split_then_piece(t4, hex2(b[4]), ':');
    lemma_split_then_piece(t5, hex2(b[5]), ':');
    assert(t6 == mac_text(b));
    assert(split_on(t6, ':') =~= h);
    lemma_octets_all_valid(h, b);
}

/// A symbol's expected bin lies in its block (for the high block, outside the low block).
pub open spec fn expected_bin_in_block(symbol: u8, low: RxBinBlock, high: RxBinBlock) -> bool {
    &&& symbol <= 127 ==> expected_bin(symbol, low, high) <= low.end
    &&& symbol >= 128 ==> expected_bin(symbol, low, high) <= high.end
    &&& symbol >= 128 ==> !(low.start <= expected_bin(symbol, low, high) <= low.end)
}

/// A clean preamble is a perfect candidate: when each symbol row of a window
/// peaks exactly on the bin its preamble byte is expected on, every byte
/// matches and the summed bin distance is zero.
pub proof fn lemma_clean_preamble_window(
    p: TrackerParams,
    peaks: Seq<Option<usize>>,
    start: int,
    n: int,
)
    requires
        0 <= n <= p.preamble.len(),
        forall|i: int|
            0 <= i < n ==> expected_bin_in_block(#[trigger] p.preamble[i], p.low, p.high),
        forall|i: int|
            0 <= i < n ==> peaks[start + i * p.symbol_rows] == Some(
                expected_bin(#[trigger] p.preamble[i], p.low, p.high) as usize,
            ),
    ensures
        matches_upto(p, peaks, start, n) == n,
        distance_upto(p, peaks, start, n) == 0,
    decreases n,
{
    if n > 0 {
        lemma_clean_preamble_window(p, peaks, start, n - 1);
        let b = p.preamble[n - 1];
        assert(expected_bin_in_block(b, p.low, p.high));
        assert(peaks[start + (n - 1) * p.symbol_rows] == Some(expected_bin(b, p.low, p.high) as usize));
        assert(expected_bin(b, p.low, p.high) <= usize::MAX) by {
            if b <= 127 {
                assert(expected_bin(b, p.low, p.high) <= p.low.end);
            } else {
                assert(expected_bin(b, p.low, p.high) <= p.high.end);
            }
        }
        lemma_expected_bin_maps_back(b, p.low, p.high);
        assert(row_symbol(p, peaks[start + (n - 1) * p.symbol_rows]) == b);
    }
}

proof fn lemma_matches_upto_bound(p: TrackerParams, peaks: Seq<Option<usize>>, start: int, n: int)
    ensures
        matches_upto(p, peaks, start, n) <= if n > 0 { n } else { 0 },
    decreases n,
{
    if n > 0 {
        lemma_matches_upto_bound(p, peaks, start, n - 1);
    }
}

proof fn lemma_matches_upto_all(p: TrackerParams, peaks: Seq<Option<usize>>, start: int, n: int)
    requires
        0 <= n,
        matches_upto(p, peaks, start, n) == n,
    ensures
        forall|i: int|
            0 <= i < n ==> #[trigger] row_symbol(p, peaks[start + i * p.symbol_rows]) == p.preamble[i],
    decreases n,
{
    if n > 0 {
        lemma_matches_upto_bound(p, peaks, start, n - 1);
        lemma_matches_upto_all(p, peaks, start, n - 1);
    }
}

/// A window that matches every preamble byte reads the preamble: the
/// symbols read from its first row on, one symbol apart up to the end of the
/// image, begin with the preamble bytes.
pub proof fn lemma_full_match_reads_preamble(p: TrackerParams, peaks: Seq<Option<usize>>, start: int)
    requires
        p.symbol_rows >= 1,
        peaks.len() <= usize::MAX,
        has_preamble_window(p, peaks.len()),
        0 <= start <= max_start(p, peaks.len()),
        matches_at(p, peaks, start) == p.preamble.len(),
    ensures
        p.preamble.is_prefix_of(
            symbols_of_rows(p, peaks, symbol_rows_from(start as nat, p.symbol_rows, peaks.len())),
        ),
{
    let sr = p.symbol_rows as int;
    let len = peaks.len() as int;
    let n = p.preamble.len() as int;
    lemma_matches_upto_all(p, peaks, start, n);
    assert(n * sr == (n - 1) * sr + sr) by (nonlinear_arith);
    lemma_div_bound(len - 1 - start, sr, n - 1);
    let rows = symbol_rows_from(start as nat, p.symbol_rows, peaks.len());
    let syms = symbols_of_rows(p, peaks, rows);
    assert(rows.len() >= n);
    assert forall|i: int| 0 <= i < n implies syms[i] == p.preamble[i] by {
        assert(i * sr <= (n - 1) * sr) by (nonlinear_arith)
            requires
                0 <= i <= n - 1,
                sr >= 1,
        ;
        assert(rows[i] == start + i * sr);
        assert(row_symbol(p, peaks[start + i * p.symbol_rows]) == p.preamble[i]);
    }
    assert(p.preamble =~= syms.subrange(0, n));
}

/// A frame whose length copy `k` was damaged to `x` on the way.
pub open spec fn frame_with_bad_copy(
    preamble: Seq<u8>,
    destination: Seq<u8>,
    source: Seq<u8>,
    payload: Seq<u8>,
    x: nat,
    k: int,
) -> Seq<u8> {
    let covered = destination + source + payload;
    preamble + header_with_copy(covered.len() + 4, x, k) + covered + le32(crc32_iso_hdlc(covered))
}

/// A frame with one damaged length copy still parses to what was sent, and
/// the repair is reported when the copy really differs.
pub proof fn lemma_parse_frame_with_bad_copy(
    preamble: Seq<u8>,
    destination: Seq<u8>,
    source: Seq<u8>,
    payload: Seq<u8>,
    x: nat,
    k: int,
)
    requires
        destination.len() == 6,
        source.len() == 6,
        payload.len() + 16 <= 65535,
        preamble.len() + 22 + payload.len() <= usize::MAX,
        x < 65536,
        0 <= k < 3,
    ensures
        parse_frame_bytes(preamble, frame_with_bad_copy(preamble, destination, source, payload, x, k))
            == Ok::<FrameView, crate::parser::FrameError>(
            FrameView {
                destination,
                source,
                payload,
                received_crc: crc32_iso_hdlc(destination + source + payload),
                body_len: (payload.len() + 16) as usize,
                consumed_bytes: (preamble.len() + 22 + payload.len()) as usize,
                length_repaired: x != payload.len() + 16,
            },
        ),
{
    let covered = destination + source + payload;
    let n: int = covered.len() as int + 4;
    let crc = crc32_iso_hdlc(covered);
    let b = frame_with_bad_copy(preamble, destination, source, payload, x, k);
    let p: int = preamble.len() as int;
    assert(header_with_copy(n as nat, x, k).len() == 6);
    assert(b.len() == p + 6 + n);
    assert(b.take(p) =~= preamble);
    assert(b.subrange(p, p + 6) =~= header_with_copy(n as nat, x, k));
    lemma_single_bad_copy_repaired(n as nat, x, k);
    let body = b.subrange(p + 6, p + 6 + n);
    assert(body =~= covered + le32(crc));
    assert(body.subrange(n - 4, n) =~= le32(crc));
    lemma_le32_roundtrip(crc);
    assert(body.take(n - 4) =~= covered);
    assert(body.take(6) =~= destination);
    assert(body.subrange(6, 12) =~= source);
    assert(body.subrange(12, n - 4) =~= payload);
}

/// The parser reads no further than the announced body: bytes appended after
/// a stream that parses do not change what it parses to.
pub proof fn lemma_parse_ignores_trailing(preamble: Seq<u8>, b: Seq<u8>, extra: Seq<u8>)
    requires
        parse_frame_bytes(preamble, b) is Ok,
    ensures
        parse_frame_bytes(preamble, b + extra) == parse_frame_bytes(preamble, b),
{
    let c = b + extra;
    let hs = preamble.len() as int;
    let bs = hs + 6;
    assert(c.take(hs) =~= b.take(hs));
    assert(c.subrange(hs, bs) =~= b.subrange(hs, bs));
    let (body_len, _) = repeated_length(b.subrange(hs, bs))->Ok_0;
    assert(c.subrange(bs, bs + body_len) =~= b.subrange(bs, bs + body_len));
}

/// A run of window calls on one tracker: `modes[i]` and `modes[i + 1]` are
/// its modes before and after call `i`, which was told `dropped[i]` of the
/// newest row and handed back a frame when `completed[i]`.
pub open spec fn drop_trace(
    p: TrackerParams,
    modes: Seq<TrackerMode>,
    dropped: Seq<bool>,
    completed: Seq<bool>,
) -> bool {
    &&& modes.len() == dropped.len() + 1
    &&& completed.len() == dropped.len()
    &&& forall|i: int|
        #![trigger dropped[i]]
        0 <= i < dropped.len() ==> window_drop_step(p, modes[i], dropped[i], completed[i], modes[i + 1])
}

/// Call `k` of a run was a tracking call, told that the newest row dropped,
/// that handed back no frame.
spec fn dropped_tracking_call(modes: Seq<TrackerMode>, dropped: Seq<bool>, completed: Seq<bool>, k: int) -> bool {
    modes[k] is Tracking && dropped[k] && !completed[k]
}

/// Before call `j` of a run that started searching, a tracking mode's drop
/// count is below the required number and counts exactly the calls just
/// before, all tracking and told that the newest row dropped.
spec fn drop_run_counted(
    p: TrackerParams,
    modes: Seq<TrackerMode>,
    dropped: Seq<bool>,
    completed: Seq<bool>,
    j: int,
) -> bool {
    modes[j] is Tracking ==> {
        let d = modes[j]->drop_rows;
        &&& d < p.drop_rows_required
        &&& j >= d + 1
        &&& forall|k: int|
            j - d <= k < j ==> #[trigger] dropped_tracking_call(modes, dropped, completed, k)
        &&& modes[j - d - 1] is Searching || !dropped[j - d - 1]
    }
}

proof fn lemma_drop_run_counted(
    p: TrackerParams,
    modes: Seq<TrackerMode>,
    dropped: Seq<bool>,
    completed: Seq<bool>,
    j: int,
)
    requires
        p.drop_rows_required >= 1,
        drop_trace(p, modes, dropped, completed),
        modes[0] is Searching,
        0 <= j < modes.len(),
    ensures
        drop_run_counted(p, modes, dropped, completed, j),
    decreases j,
{
    if j > 0 {
        let i = j - 1;
        lemma_drop_run_counted(p, modes, dropped, completed, i);
        assert(window_drop_step(p, modes[i], dropped[i], completed[i], modes[i + 1]));
        if modes[j] is Tracking && modes[i] is Tracking && dropped[i] {
            let d = modes[j]->drop_rows;
            let di = modes[i]->drop_rows;
            assert(d == di + 1);
            assert(!completed[i]);
            assert(drop_run_counted(p, modes, dropped, completed, i));
            assert(di < p.drop_rows_required);
            assert(i >= di + 1);
            assert forall|k: int| j - d <= k < j implies #[trigger] dropped_tracking_call(
                modes,
                dropped,
                completed,
                k,
            ) by {
                if k < i {
                    assert(i - di <= k < i);
                }
            }
            assert(j - d - 1 == i - di - 1);
        }
    }
}

/// A frame is handed back only after the required number of dropped rows in
/// a row: in a run of window calls that starts with the tracker searching (as
/// `Tracker::new` and `reset` leave it) and whose last call hands back a
/// frame, the last `drop_rows_required` calls were all tracking calls told
/// that the newest row dropped, none of them before the last handed back a
/// frame, the call just before them was a search or a tracking call whose row
/// did not drop, and the tracker is searching afterwards.
#[verifier::rlimit(40)]
pub proof fn lemma_frame_completes_after_required_drops(
    p: TrackerParams,
    modes: Seq<TrackerMode>,
    dropped: Seq<bool>,
    completed: Seq<bool>,
)
    requires
        p.drop_rows_required >= 1,
        drop_trace(p, modes, dropped, completed),
        modes[0] is Searching,
        dropped.len() >= 1,
        completed.last(),
    ensures
        ({
            let n = dropped.len() as int;
            let s = n - p.drop_rows_required;
            &&& s >= 1
            &&& forall|k: int|
                #![trigger modes[k]]
                s <= k < n ==> modes[k] is Tracking && dropped[k] && (k < n - 1 ==> !completed[k])
            &&& modes[s - 1] is Searching || !dropped[s - 1]
            &&& modes[n] is Searching
        }),
{
    let n = dropped.len() as int;
    let j = n - 1;
    lemma_drop_run_counted(p, modes, dropped, completed, j);
    assert(window_drop_step(p, modes[j], dropped[j], completed[j], modes[j + 1]));
    assert(modes[j] is Tracking);
    assert(dropped[j]);
    let d = modes[j]->drop_rows;
    assert(d == p.drop_rows_required - 1);
    let s = n - p.drop_rows_required;
    assert forall|k: int| #![trigger modes[k]] s <= k < n implies modes[k] is Tracking && dropped[k] && (k < n
        - 1 ==> !completed[k]) by {
        if k < j {
            assert(dropped_tracking_call(modes, dropped, completed, k));
        }
    }
}

/// Undoes `x ^= x << k` (for a shift `k` of at least 13): xor in the shifts
/// by every multiple of `k`.
pub open spec fn unshear_left_13(y: u64) -> u64 {
    y ^ (y << 13u64) ^ (y << 26u64) ^ (y << 39u64) ^ (y << 52u64)
}

/// Undoes `x ^= x >> 7`.
pub open spec fn unshear_right_7(y: u64) -> u64 {
    y ^ (y >> 7u64) ^ (y >> 14u64) ^ (y >> 21u64) ^ (y >> 28u64) ^ (y >> 35u64) ^ (y >> 42u64) ^ (y
        >> 49u64) ^ (y >> 56u64) ^ (y >> 63u64)
}

/// Undoes `x ^= x << 17`.
pub open spec fn unshear_left_17(y: u64) -> u64 {
    y ^ (y << 17u64) ^ (y << 34u64) ^ (y << 51u64)
}

/// The noise generator's step is the xorshift64 step with shifts 13, 7 and
/// 17: for every state `x`, with `a = x ^ (x << 13)`, the next value is
/// `(a ^ (a >> 7)) ^ ((a ^ (a >> 7)) << 17)` (shifts dropping the bits that
/// leave the word); and undoing the three shears, last first, gives the
/// state back.
pub proof fn lemma_xorshift_13_7_17(x: u64)
    ensures
        ({
            let a = x ^ (x << 13u64);
            xorshift_step(x) == (a ^ (a >> 7u64)) ^ ((a ^ (a >> 7u64)) << 17u64)
        }),
        unshear_left_13(unshear_right_7(unshear_left_17(xorshift_step(x)))) == x,
{
    let a = x ^ (x << 13u64);
    let b = a ^ (a >> 7u64);
    let c = b ^ (b << 17u64);
    assert(unshear_left_17(c) == b) by (bit_vector)
        requires
            c == b ^ (b << 17u64),
    ;
    assert(unshear_right_7(b) == a) by (bit_vector)
        requires
            b == a ^ (a >> 7u64),
    ;
    assert(unshear_left_13(a) == x) by (bit_vector)
        requires
            a == x ^ (x << 13u64),
    ;
}

/// What each logging level prints: nothing when off; at the basic level
/// every kind of event but metrics and snapshots (so stage starts and stops,
/// messages, warnings and errors); everything when verbose.
pub proof fn lemma_logging_levels(kind: RxDebugKind)
    ensures
        !prints_event(DebugLoggingLevel::Off, kind),
        prints_event(DebugLoggingLevel::Basic, kind) <==> (kind != RxDebugKind::Metric && kind
            != RxDebugKind::Snapshot),
        prints_event(DebugLoggingLevel::Verbose, kind),
        prints_event(DebugLoggingLevel::Basic, RxDebugKind::Error),
        prints_event(DebugLoggingLevel::Basic, RxDebugKind::Warning),
{
}

/// The destination filter: with validation off every address is accepted;
/// with it on, the configured address is accepted, and the broadcast address
/// FF:FF:FF:FF:FF:FF is accepted whenever broadcast is allowed, whatever
/// unicast address is configured; any other address is refused.
pub proof fn lemma_destination_filter(
    validate: bool,
    allow_broadcast: bool,
    configured: Seq<char>,
    destination: Seq<u8>,
)
    ensures
        !validate ==> destination_accepted(validate, allow_broadcast, configured, destination),
        validate && mac_parse(configured) == Ok::<Seq<u8>, Seq<char>>(destination) ==> destination_accepted(
            validate,
            allow_broadcast,
            configured,
            destination,
        ),
        allow_broadcast ==> destination_accepted(
            validate,
            allow_broadcast,
            configured,
            seq![0xFFu8, 0xFF, 0xFF, 0xFF, 0xFF, 0xFF],
        ),
        validate && mac_parse(configured) != Ok::<Seq<u8>, Seq<char>>(destination) && !(allow_broadcast
            && destination == seq![0xFFu8, 0xFF, 0xFF, 0xFF, 0xFF, 0xFF]) ==> !destination_accepted(
            validate,
            allow_broadcast,
            configured,
            destination,
        ),
{
    assert(crate::parser::broadcast_octets() =~= seq![0xFFu8, 0xFF, 0xFF, 0xFF, 0xFF, 0xFF]);
}

/// Only carriage returns are cut from the end of a line: the line is a
/// prefix of the text, everything cut from it is a carriage return, and the
/// line does not itself end in one, so a trailing space or tab is kept.
pub proof fn lemma_trim_cuts_only_carriage_returns(s: Seq<char>)
    ensures
        trim_trailing_cr(s).len() <= s.len(),
        trim_trailing_cr(s) == s.take(trim_trailing_cr(s).len() as int),
        forall|i: int| trim_trailing_cr(s).len() <= i < s.len() ==> s[i] == '\r',
        trim_trailing_cr(s).len() == 0 || trim_trailing_cr(s).last() != '\r',
    decreases s.len(),
{
    if s.len() > 0 && s.last() == '\r' {
        let t = trim_trailing_cr(s.drop_last());
        lemma_trim_cuts_only_carriage_returns(s.drop_last());
        assert(s.drop_last().take(t.len() as int) =~= s.take(t.len() as int));
        assert forall|i: int| t.len() <= i < s.len() implies s[i] == '\r' by {
            if i < s.len() - 1 {
                assert(s.drop_last()[i] == s[i]);
            }
        }
    } else {
        assert(s.take(s.len() as int) =~= s);
    }
}

/// The image index of due symbol `m`, counted from the symbol due at stream
/// row `next`, one every `step` rows, in an image whose first row is stream
/// row `ws`.
pub open spec fn due_index(ws: int, next: int, step: nat, m: int) -> int {
    next + m * step - ws
}

/// While tracking, every symbol row that has come due and lies inside the
/// image is read: of the first `k` due symbols, each one whose image index
/// falls in `0..len` is among the rows read, and every row read is such an
/// index.
pub proof fn lemma_due_rows_read_every_row_in_image(ws: int, next: int, step: nat, len: nat, k: nat)
    requires
        len <= usize::MAX,
    ensures
        forall|m: int|
            0 <= m < k && 0 <= #[trigger] due_index(ws, next, step, m) < len ==> due_rows(ws, next, step, len, k).contains(
                due_index(ws, next, step, m) as usize,
            ),
        forall|i: int|
            0 <= i < due_rows(ws, next, step, len, k).len() ==> #[trigger] due_rows(ws, next, step, len, k)[i] < len
                && exists|m: int| 0 <= m < k && due_index(ws, next, step, m) == due_rows(ws, next, step, len, k)[i],
    decreases k,
{
    if k > 0 {
        let rest = due_rows(ws, next, step, len, (k - 1) as nat);
        let all = due_rows(ws, next, step, len, k);
        lemma_due_rows_read_every_row_in_image(ws, next, step, len, (k - 1) as nat);
        let idx = due_index(ws, next, step, k - 1);
        assert(idx == next + (k - 1) * step - ws);
        assert forall|m: int|
            0 <= m < k && 0 <= #[trigger] due_index(ws, next, step, m) < len implies all.contains(
                due_index(ws, next, step, m) as usize,
            ) by {
            if m < k - 1 {
                let j = choose|j: int| 0 <= j < rest.len() && rest[j] == due_index(ws, next, step, m) as usize;
                if 0 <= idx < len {
                    assert(all[j] == rest[j]);
                }
            } else {
                assert(all[all.len() - 1] == idx as usize);
            }
        }
        assert forall|i: int| 0 <= i < all.len() implies #[trigger] all[i] < len && exists|m: int|
            0 <= m < k && due_index(ws, next, step, m) == all[i] by {
            if i < rest.len() {
                assert(all[i] == rest[i]);
                let m = choose|m: int| 0 <= m < k - 1 && due_index(ws, next, step, m) == rest[i];
                assert(0 <= m < k && due_index(ws, next, step, m) == all[i]);
            } else {
                assert(all[i] == idx as usize);
                assert(due_index(ws, next, step, k - 1) == all[i]);
            }
        }
    }
}

} // verus!
