use vstd::prelude::*;
use crate::bins::{
    bin_distance, bin_symbol, block_bins, expected_bin, expected_bin_distance,
    lemma_div_bound, map_bin_to_symbol, valid_bins_for,
};
use crate::config::{PreambleConfig, RxBinBlock};
use crate::laws::{due_index, lemma_due_rows_read_every_row_in_image, lemma_full_match_reads_preamble};
use crate::debug::{record_views, DebugRecord, DebugRecordView, RxStageId};
use crate::text::{byte_preview, decimal, format_byte_preview, push_decimal, push_signed_decimal, signed_decimal};

verus! {

/// The fixed settings of a tracker.
pub struct TrackerParams {
    pub low: RxBinBlock,
    pub high: RxBinBlock,
    /// Spectrum rows per symbol (at least one).
    pub symbol_rows: nat,
    /// The preamble bytes looked for.
    pub preamble: Seq<u8>,
    /// Quiet rows that end a frame (at least one).
    pub drop_rows_required: nat,
}

/// What a tracker is doing.
pub enum TrackerMode {
    Searching,
    Tracking { bytes: Seq<u8>, next_symbol_row: int, drop_rows: nat },
}

/// The bin a row's peak is on (no peak: bin 0).
pub open spec fn row_bin(peak: Option<usize>) -> nat {
    match peak {
        Some(b) => b as nat,
        None => 0,
    }
}

/// The symbol a row carries.
pub open spec fn row_symbol(p: TrackerParams, peak: Option<usize>) -> u8 {
    bin_symbol(row_bin(peak), p.low, p.high)
}

/// Preamble bytes matched by the first `n` symbols of a window starting at `start`.
pub open spec fn matches_upto(p: TrackerParams, peaks: Seq<Option<usize>>, start: int, n: int) -> nat
    decreases n,
{
    if n <= 0 {
        0
    } else {
        matches_upto(p, peaks, start, n - 1) + if row_symbol(
            p,
            peaks[start + (n - 1) * p.symbol_rows],
        ) == p.preamble[n - 1] {
            1nat
        } else {
            0nat
        }
    }
}

/// Summed distance of the first `n` symbols' peaks from the preamble's bins.
pub open spec fn distance_upto(p: TrackerParams, peaks: Seq<Option<usize>>, start: int, n: int) -> nat
    decreases n,
{
    if n <= 0 {
        0
    } else {
        distance_upto(p, peaks, start, n - 1) + bin_distance(
            row_bin(peaks[start + (n - 1) * p.symbol_rows]),
            expected_bin(p.preamble[n - 1], p.low, p.high),
        )
    }
}

/// Preamble bytes matched by the window starting at `start`.
pub open spec fn matches_at(p: TrackerParams, peaks: Seq<Option<usize>>, start: int) -> nat {
    matches_upto(p, peaks, start, p.preamble.len() as int)
}

/// A distance held at `u128::MAX` should it exceed that.
pub open spec fn capped(d: nat) -> nat {
    if d > u128::MAX { u128::MAX as nat } else { d }
}

/// Summed bin distance of the window starting at `start` (capped).
pub open spec fn distance_at(p: TrackerParams, peaks: Seq<Option<usize>>, start: int) -> nat {
    capped(distance_upto(p, peaks, start, p.preamble.len() as int))
}

/// The symbols read in the window starting at `start`.
pub open spec fn preview_at(p: TrackerParams, peaks: Seq<Option<usize>>, start: int) -> Seq<u8> {
    Seq::new(p.preamble.len(), |i: int| row_symbol(p, peaks[start + i * p.symbol_rows]))
}

/// One window is better than another: more matches, or as many and closer bins.
pub open spec fn better(m1: nat, d1: nat, m2: nat, d2: nat) -> bool {
    m1 > m2 || (m1 == m2 && d1 < d2)
}

/// Whether the image has rows enough for a whole preamble.
pub open spec fn has_preamble_window(p: TrackerParams, len: nat) -> bool {
    p.preamble.len() > 0 && len >= p.preamble.len() * p.symbol_rows
}

/// The last window start that fits a whole preamble.
pub open spec fn max_start(p: TrackerParams, len: nat) -> int {
    len - p.preamble.len() * p.symbol_rows
}

/// `s` is the best window: no window is better, and every earlier one is worse.
pub open spec fn is_best_start(p: TrackerParams, peaks: Seq<Option<usize>>, s: int) -> bool {
    &&& 0 <= s <= max_start(p, peaks.len())
    &&& forall|t: int|
        #![trigger matches_at(p, peaks, t)]
        0 <= t <= max_start(p, peaks.len()) ==> !better(
            matches_at(p, peaks, t),
            distance_at(p, peaks, t),
            matches_at(p, peaks, s),
            distance_at(p, peaks, s),
        )
    &&& forall|t: int|
        #![trigger matches_at(p, peaks, t)]
        0 <= t < s ==> better(
            matches_at(p, peaks, s),
            distance_at(p, peaks, s),
            matches_at(p, peaks, t),
            distance_at(p, peaks, t),
        )
}

/// A window where the preamble may start.
#[derive(Debug)]
pub struct PreambleCandidate {
    pub start_row: usize,
    pub matches: usize,
    pub bin_distance: u128,
    pub preview: Vec<u8>,
}

/// The candidate describes the window starting at its row.
pub open spec fn candidate_of(p: TrackerParams, peaks: Seq<Option<usize>>, c: PreambleCandidate) -> bool {
    &&& c.matches == matches_at(p, peaks, c.start_row as int)
    &&& c.bin_distance == distance_at(p, peaks, c.start_row as int)
    &&& c.preview@ == preview_at(p, peaks, c.start_row as int)
}

/// Rows from `start` on, one symbol apart, up to the end of an image of `len` rows.
pub open spec fn symbol_rows_from(start: nat, step: nat, len: nat) -> Seq<usize> {
    let count: nat = if start < len { ((len - 1 - start) / (step as int) + 1) as nat } else { 0 };
    Seq::new(count, |k: int| (start + k * step) as usize)
}

/// The symbols of the given rows.
pub open spec fn symbols_of_rows(p: TrackerParams, peaks: Seq<Option<usize>>, rows: Seq<usize>) -> Seq<u8> {
    rows.map_values(|r: usize| row_symbol(p, peaks[r as int]))
}

/// How many symbol rows from `next` on are due by row `latest`.
pub open spec fn due_count(next: int, latest: int, step: nat) -> nat {
    if next > latest {
        0
    } else {
        ((latest - next) / (step as int) + 1) as nat
    }
}

/// The image rows of the first `k` due symbols that fall inside the image
/// (which holds rows `window_start`.. of the stream, `len` of them).
pub open spec fn due_rows(window_start: int, next: int, step: nat, len: nat, k: nat) -> Seq<usize>
    decreases k,
{
    if k == 0 {
        Seq::empty()
    } else {
        let rest = due_rows(window_start, next, step, len, (k - 1) as nat);
        let idx = next + (k - 1) * step - window_start;
        if 0 <= idx < len {
            rest.push(idx as usize)
        } else {
            rest
        }
    }
}

/// What one window did to a tracker.
#[derive(Debug)]
pub enum TrackerEvent {
    /// Searching, nothing detected.
    Idle,
    /// Detection, but the image is too short for the preamble (or there is none).
    NoPreambleWindow,
    /// Detection, but the best window does not hold the whole preamble.
    PreambleRejected { candidate: PreambleCandidate },
    /// The preamble was found; the given image rows were read as symbols.
    TrackingStarted { candidate: PreambleCandidate, symbol_rows: Vec<usize>, next_symbol_row: i128 },
    /// Still tracking; the given image rows were read as symbols.
    Tracking { drop_rows: usize, sampled_rows: Vec<usize> },
    /// The signal dropped for long enough: the symbols of the frame.
    Complete { bytes: Vec<u8> },
}

/// What one window call does to the mode as far as the drop rule goes, with
/// `dropped` the call's word on the newest row's energy and `completed`
/// whether it handed back a frame: a search never completes and starts
/// tracking with no drops counted; a tracking call counts a dropped row on top
/// of those before it (any other row clears the count) and completes, back to
/// searching, once the count reaches the required number.
pub open spec fn window_drop_step(
    p: TrackerParams,
    before: TrackerMode,
    dropped: bool,
    completed: bool,
    after: TrackerMode,
) -> bool {
    match before {
        TrackerMode::Searching => !completed && (after is Searching || (after is Tracking
            && after->drop_rows == 0)),
        TrackerMode::Tracking { drop_rows, .. } => {
            let drops: nat = if dropped { drop_rows + 1 } else { 0 };
            if drops >= p.drop_rows_required {
                completed && after is Searching
            } else {
                !completed && after is Tracking && after->drop_rows == drops
            }
        },
    }
}

/// The symbols of a frame being tracked (none when searching).
pub open spec fn mode_bytes(m: TrackerMode) -> Seq<u8> {
    match m {
        TrackerMode::Searching => Seq::empty(),
        TrackerMode::Tracking { bytes, .. } => bytes,
    }
}

/// The debug events that describe a preamble candidate: its matches, first
/// row and bin distance, and a line with those and a preview of its symbols.
pub open spec fn candidate_records(seq: u64, c: PreambleCandidate, preamble_len: nat) -> Seq<DebugRecordView> {
    seq![
        DebugRecordView::Metric { stage: RxStageId::Tracker, seq, name: "preamble_matches"@, value: c.matches as nat },
        DebugRecordView::Metric { stage: RxStageId::Tracker, seq, name: "preamble_start_row"@, value: c.start_row as nat },
        DebugRecordView::Metric {
            stage: RxStageId::Tracker,
            seq,
            name: "preamble_bin_distance"@,
            value: c.bin_distance as nat,
        },
        DebugRecordView::Message {
            stage: RxStageId::Tracker,
            seq,
            summary: "preamble_candidate start_row="@ + decimal(c.start_row as nat) + " matches="@
                + decimal(c.matches as nat) + "/"@ + decimal(preamble_len) + " "@ + byte_preview(c.preview@),
        },
    ]
}

/// The debug events of a tracker call that gave `e`, for a tracker whose
/// call count and mode are, after the call, `seq` and `m` (the signal
/// energies, which the tracker does not see, are not among them).
pub open spec fn tracker_records(p: TrackerParams, seq: u64, e: TrackerEvent, m: TrackerMode) -> Seq<DebugRecordView> {
    match e {
        TrackerEvent::Idle => Seq::empty(),
        TrackerEvent::NoPreambleWindow => seq![
            DebugRecordView::Warning {
                stage: RxStageId::Tracker,
                seq,
                detail: "detection did not contain enough rows for preamble search"@,
            },
        ],
        TrackerEvent::PreambleRejected { candidate } => candidate_records(seq, candidate, p.preamble.len()),
        TrackerEvent::TrackingStarted { candidate, symbol_rows, next_symbol_row } => candidate_records(
            seq,
            candidate,
            p.preamble.len(),
        ).push(
            DebugRecordView::Message {
                stage: RxStageId::Tracker,
                seq,
                summary: "tracking_started buffered_symbols="@ + decimal(symbol_rows@.len()) + " next_symbol_row="@
                    + signed_decimal(next_symbol_row as int) + " "@ + byte_preview(mode_bytes(m)),
            },
        ),
        TrackerEvent::Tracking { drop_rows, .. } => seq![
            DebugRecordView::Metric { stage: RxStageId::Tracker, seq, name: "drop_rows"@, value: drop_rows as nat },
            DebugRecordView::Message {
                stage: RxStageId::Tracker,
                seq,
                summary: "tracking_symbols="@ + decimal(mode_bytes(m).len()),
            },
        ],
        TrackerEvent::Complete { bytes } => seq![
            DebugRecordView::Metric {
                stage: RxStageId::Tracker,
                seq,
                name: "drop_rows"@,
                value: p.drop_rows_required,
            },
            DebugRecordView::Message {
                stage: RxStageId::Tracker,
                seq,
                summary: "tracking_complete symbols="@ + decimal(bytes@.len()) + " "@ + byte_preview(bytes@),
            },
            DebugRecordView::Snapshot {
                stage: RxStageId::Tracker,
                seq,
                label: "tracked_symbol_stream"@,
                rows: 1,
                cols: bytes@.len(),
            },
        ],
    }
}

/// The debug events of a `process` call on an image whose rows peak at
/// `peaks`: how many bins are looked in, the last row's peak bin (0 for an
/// empty image), and how many symbols were read (the peak energy, which the
/// tracker does not see, is not among them).
pub open spec fn process_records(seq: u64, valid_bin_count: nat, peaks: Seq<Option<usize>>) -> Seq<DebugRecordView> {
    seq![
        DebugRecordView::Metric { stage: RxStageId::Tracker, seq, name: "valid_bin_count"@, value: valid_bin_count },
        DebugRecordView::Metric {
            stage: RxStageId::Tracker,
            seq,
            name: "peak_bin"@,
            value: if peaks.len() == 0 { 0 } else { row_bin(peaks.last()) },
        },
        DebugRecordView::Message {
            stage: RxStageId::Tracker,
            seq,
            summary: "tracked_symbols="@ + decimal(peaks.len()),
        },
    ]
}

fn push_candidate_records(out: &mut Vec<DebugRecord>, seq: u64, c: &PreambleCandidate, preamble_len: usize)
    ensures
        record_views(final(out)@) == record_views(old(out)@) + candidate_records(seq, *c, preamble_len as nat),
{
    let ghost before = out@;
    out.push(DebugRecord::Metric { stage: RxStageId::Tracker, seq, name: "preamble_matches", value: c.matches as u128 });
    out.push(DebugRecord::Metric { stage: RxStageId::Tracker, seq, name: "preamble_start_row", value: c.start_row as u128 });
    out.push(DebugRecord::Metric { stage: RxStageId::Tracker, seq, name: "preamble_bin_distance", value: c.bin_distance });
    let mut summary = "preamble_candidate start_row=".to_owned();
    push_decimal(&mut summary, c.start_row as u128);
    summary.append(" matches=");
    push_decimal(&mut summary, c.matches as u128);
    summary.append("/");
    push_decimal(&mut summary, preamble_len as u128);
    summary.append(" ");
    let preview = format_byte_preview(c.preview.as_slice());
    summary.append(preview.as_str());
    out.push(DebugRecord::Message { stage: RxStageId::Tracker, seq, summary });
    assert(record_views(out@) =~= record_views(before) + candidate_records(seq, *c, preamble_len as nat));
}

struct TrackingState {
    bytes: Vec<u8>,
    next_symbol_row: i128,
    drop_rows: usize,
}

enum TrackerState {
    Searching,
    Tracking(TrackingState),
}

/// Finds the preamble in windows of spectrum peaks, then reads one symbol
/// every `symbol_rows` rows until the signal drops.
pub struct Tracker {
    low_block: RxBinBlock,
    high_block: RxBinBlock,
    valid_bins: Vec<usize>,
    symbol_rows: usize,
    preamble_bytes: Vec<u8>,
    drop_rows_required: usize,
    seq: u64,
    row_seq: i64,
    state: TrackerState,
}

impl Tracker {
    #[verifier::type_invariant]
    spec fn inv(&self) -> bool {
        &&& self.symbol_rows >= 1
        &&& self.drop_rows_required >= 1
        &&& self.row_seq >= 0
        &&& self.state matches TrackerState::Tracking(t) ==> {
            &&& t.drop_rows < self.drop_rows_required
            &&& self.preamble_bytes@.is_prefix_of(t.bytes@)
            &&& -0x1_0000_0000_0000_0000_0000 <= t.next_symbol_row <= 0x1_0000_0000_0000_0000_0000
        }
    }

    /// The tracker's settings.
    pub closed spec fn params(&self) -> TrackerParams {
        TrackerParams {
            low: self.low_block,
            high: self.high_block,
            symbol_rows: self.symbol_rows as nat,
            preamble: self.preamble_bytes@,
            drop_rows_required: self.drop_rows_required as nat,
        }
    }

    /// What the tracker is doing.
    pub closed spec fn mode(&self) -> TrackerMode {
        match self.state {
            TrackerState::Searching => TrackerMode::Searching,
            TrackerState::Tracking(t) => TrackerMode::Tracking {
                bytes: t.bytes@,
                next_symbol_row: t.next_symbol_row as int,
                drop_rows: t.drop_rows as nat,
            },
        }
    }

    /// Calls of `process_window` or `process` since creation or reset.
    pub closed spec fn seq_count(&self) -> u64 {
        self.seq
    }

    /// Spectrum rows seen since creation or reset (one per window).
    pub closed spec fn row_count(&self) -> i64 {
        self.row_seq
    }

    /// The bins a row's peak is looked for in.
    pub closed spec fn valid_bin_seq(&self) -> Seq<usize> {
        self.valid_bins@
    }

    pub fn new(
        low_block: RxBinBlock,
        high_block: RxBinBlock,
        symbol_rows: usize,
        preamble: &PreambleConfig,
        drop_rows_required: usize,
    ) -> (r: Tracker)
        ensures
            r.params() == (TrackerParams {
                low: low_block,
                high: high_block,
                symbol_rows: if symbol_rows == 0 { 1 } else { symbol_rows as nat },
                preamble: preamble.nonempty_byte_seq(),
                drop_rows_required: if drop_rows_required == 0 { 1 } else { drop_rows_required as nat },
            }),
            r.valid_bin_seq() == block_bins(low_block) + block_bins(high_block),
            r.mode() == TrackerMode::Searching,
            r.seq_count() == 0,
            r.row_count() == 0,
    {
        let valid_bins = valid_bins_for(&low_block, &high_block);
        let preamble_bytes = preamble.to_nonempty_bytes();
        Tracker {
            low_block,
            high_block,
            valid_bins,
            symbol_rows: if symbol_rows == 0 { 1 } else { symbol_rows },
            preamble_bytes,
            drop_rows_required: if drop_rows_required == 0 { 1 } else { drop_rows_required },
            seq: 0,
            row_seq: 0,
            state: TrackerState::Searching,
        }
    }

    /// Calls of `process_window` or `process` since creation or reset.
    pub fn seq(&self) -> (r: u64)
        ensures
            r == self.seq_count(),
    {
        self.seq
    }

    /// Spectrum rows seen since creation or reset.
    pub fn row_seq(&self) -> (r: i64)
        ensures
            r == self.row_count(),
    {
        self.row_seq
    }

    /// The bins a row's peak is looked for in: the low block's, then the high block's.
    pub fn valid_bins(&self) -> (r: &Vec<usize>)
        ensures
            r@ == self.valid_bin_seq(),
    {
        &self.valid_bins
    }

    /// Whether a frame is being tracked.
    pub fn is_tracking(&self) -> (r: bool)
        ensures
            r == (self.mode() is Tracking),
    {
        match self.state {
            TrackerState::Searching => false,
            TrackerState::Tracking(_) => true,
        }
    }

    /// Symbols read so far in the frame being tracked (0 when searching).
    pub fn tracked_len(&self) -> (r: usize)
        ensures
            r == match self.mode() {
                TrackerMode::Searching => 0,
                TrackerMode::Tracking { bytes, .. } => bytes.len(),
            },
    {
        match &self.state {
            TrackerState::Searching => 0,
            TrackerState::Tracking(t) => t.bytes.len(),
        }
    }

    /// The symbol a row carries, and the bin its peak is on.
    pub fn map_row_to_symbol(&self, peak: Option<usize>) -> (r: (u8, usize))
        ensures
            r.0 == row_symbol(self.params(), peak),
            r.1 == row_bin(peak),
    {
        let bin = match peak {
            Some(b) => b,
            None => 0,
        };
        (map_bin_to_symbol(bin, &self.low_block, &self.high_block), bin)
    }

    /// Scores the window that starts at `start`.
    fn candidate_at(&self, peaks: &[Option<usize>], start: usize) -> (r: PreambleCandidate)
        requires
            has_preamble_window(self.params(), peaks@.len()),
            start <= max_start(self.params(), peaks@.len()),
        ensures
            r.start_row == start,
            r.matches <= self.params().preamble.len(),
            candidate_of(self.params(), peaks@, r),
    {
        proof {
            use_type_invariant(self);
        }
        let ghost p = self.params();
        let n = self.preamble_bytes.len();
        let sr = self.symbol_rows;
        let mut matches: usize = 0;
        let mut distance: u128 = 0;
        let mut preview: Vec<u8> = Vec::with_capacity(n);
        let len = peaks.len();
        for idx in 0..n
            invariant
                len == peaks@.len(),
                p == self.params(),
                n == p.preamble.len(),
                sr == p.symbol_rows,
                sr >= 1,
                has_preamble_window(p, peaks@.len()),
                start <= max_start(p, peaks@.len()),
                matches == matches_upto(p, peaks@, start as int, idx as int),
                matches <= idx,
                distance == capped(distance_upto(p, peaks@, start as int, idx as int)),
                preview@ == preview_at(p, peaks@, start as int).take(idx as int),
        {
            proof {
                assert(idx * sr <= (n - 1) * sr) by (nonlinear_arith)
                    requires
                        idx <= n - 1,
                ;
                assert((n - 1) * sr + sr == n * sr) by (nonlinear_arith);
                assert(n * sr == p.preamble.len() * p.symbol_rows);
                assert(start + idx * sr < peaks@.len());
            }
            let row = start + idx * sr;
            let (byte, peak_bin) = self.map_row_to_symbol(peaks[row]);
            preview.push(byte);
            if byte == self.preamble_bytes[idx] {
                matches = matches + 1;
            }
            let d = expected_bin_distance(
                self.preamble_bytes[idx],
                peak_bin,
                &self.low_block,
                &self.high_block,
            );
            distance = distance.saturating_add(d);
            assert(preview@ =~= preview_at(p, peaks@, start as int).take(idx + 1));
        }
        assert(preview@ =~= preview_at(p, peaks@, start as int));
        PreambleCandidate { start_row: start, matches, bin_distance: distance, preview }
    }

    /// The best window for the preamble, if the image is long enough.
    pub fn best_preamble_candidate(&self, peaks: &[Option<usize>]) -> (r: Option<PreambleCandidate>)
        ensures
            r is Some == has_preamble_window(self.params(), peaks@.len()),
            r matches Some(c) ==> is_best_start(self.params(), peaks@, c.start_row as int)
                && candidate_of(self.params(), peaks@, c) && c.matches <= self.params().preamble.len(),
    {
        proof {
            use_type_invariant(self);
        }
        let ghost p = self.params();
        let n = self.preamble_bytes.len();
        if n == 0 {
            return None;
        }
        proof {
            let sr = self.symbol_rows;
            assert(n * sr <= u128::MAX) by (nonlinear_arith)
                requires
                    n <= usize::MAX,
                    sr <= usize::MAX,
            ;
            assert(n * sr >= 1) by (nonlinear_arith)
                requires
                    n >= 1,
                    sr >= 1,
            ;
        }
        let span: u128 = (n as u128) * (self.symbol_rows as u128);
        if (peaks.len() as u128) < span {
            return None;
        }
        let last_start: usize = peaks.len() - (span as usize);
        assert(last_start < usize::MAX);
        let mut best: Option<PreambleCandidate> = None;
        let mut start: usize = 0;
        while start <= last_start
            invariant
                p == self.params(),
                has_preamble_window(p, peaks@.len()),
                last_start == max_start(p, peaks@.len()),
                start <= last_start + 1,
                last_start < usize::MAX,
                best is Some <==> start > 0,
                best matches Some(b) ==> {
                    &&& b.start_row < start
                    &&& b.matches <= p.preamble.len()
                    &&& candidate_of(p, peaks@, b)
                    &&& forall|t: int|
                        #![trigger matches_at(p, peaks@, t)]
                        0 <= t < start ==> !better(
                            matches_at(p, peaks@, t),
                            distance_at(p, peaks@, t),
                            matches_at(p, peaks@, b.start_row as int),
                            distance_at(p, peaks@, b.start_row as int),
                        )
                    &&& forall|t: int|
                        #![trigger matches_at(p, peaks@, t)]
                        0 <= t < b.start_row ==> better(
                            matches_at(p, peaks@, b.start_row as int),
                            distance_at(p, peaks@, b.start_row as int),
                            matches_at(p, peaks@, t),
                            distance_at(p, peaks@, t),
                        )
                },
            decreases last_start + 1 - start,
        {
            let candidate = self.candidate_at(peaks, start);
            let replace = match &best {
                None => true,
                Some(current) => candidate.matches > current.matches || (candidate.matches
                    == current.matches && candidate.bin_distance < current.bin_distance),
            };
            if replace {
                best = Some(candidate);
            }
            start = start + 1;
        }
        best
    }

    /// Reads one symbol every `symbol_rows` rows from `start` to the end of the image.
    fn read_symbols_from(&self, peaks: &[Option<usize>], start: usize) -> (r: (Vec<u8>, Vec<usize>))
        requires
            start < peaks@.len(),
        ensures
            r.1@ == symbol_rows_from(start as nat, self.params().symbol_rows, peaks@.len()),
            r.0@ == symbols_of_rows(self.params(), peaks@, r.1@),
    {
        proof {
            use_type_invariant(self);
        }
        let ghost p = self.params();
        let len = peaks.len();
        let sr = self.symbol_rows;
        let ghost target = symbol_rows_from(start as nat, sr as nat, len as nat);
        let ghost count = target.len();
        let mut rows: Vec<usize> = Vec::new();
        let mut bytes: Vec<u8> = Vec::new();
        let mut row = start;
        let mut k: usize = 0;
        proof {
            lemma_div_bound(len - 1 - start, sr as int, 0);
        }
        loop
            invariant_except_break
                row == start + k * sr,
                k < count,
                rows@ == target.take(k as int),
                bytes@ == symbols_of_rows(p, peaks@, rows@),
            invariant
                p == self.params(),
                sr == p.symbol_rows,
                sr >= 1,
                len == peaks@.len(),
                start < len,
                target == symbol_rows_from(start as nat, sr as nat, len as nat),
                count == target.len(),
                count == (len - 1 - start) / (sr as int) + 1,
            ensures
                rows@ == target,
                bytes@ == symbols_of_rows(p, peaks@, rows@),
            decreases count - k,
        {
            proof {
                lemma_div_bound(len - 1 - start, sr as int, k as int);
            }
            let (byte, _) = self.map_row_to_symbol(peaks[row]);
            let ghost before = rows@;
            rows.push(row);
            bytes.push(byte);
            assert(rows@ =~= target.take(k + 1));
            assert(symbols_of_rows(p, peaks@, rows@) =~= symbols_of_rows(p, peaks@, before).push(byte));
            proof {
                lemma_div_bound(len - 1 - start, sr as int, k + 1);
                assert((k + 1) * sr == k * sr + sr) by (nonlinear_arith);
            }
            match row.checked_add(sr) {
                None => {
                    assert(rows@ =~= target);
                    break;
                },
                Some(next) => {
                    if next >= len {
                        assert(rows@ =~= target);
                        break;
                    }
                    row = next;
                    k = k + 1;
                },
            }
        }
        (bytes, rows)
    }

    /// Reads the symbols whose rows have come due, where they fall in the image.
    fn sample_due_symbols(&self, peaks: &[Option<usize>], tracking: &mut TrackingState) -> (sampled: Vec<usize>)
        requires
            -0x1_0000_0000_0000_0000_0000 <= old(tracking).next_symbol_row <= 0x1_0000_0000_0000_0000_0000,
        ensures
            ({
                let latest = self.row_count() as int;
                let ws = latest - peaks@.len() + 1;
                let n0 = old(tracking).next_symbol_row as int;
                let sr = self.params().symbol_rows;
                let count = due_count(n0, latest, sr);
                &&& sampled@ == due_rows(ws, n0, sr, peaks@.len(), count)
                &&& final(tracking).bytes@ == old(tracking).bytes@ + symbols_of_rows(
                    self.params(),
                    peaks@,
                    sampled@,
                )
                &&& final(tracking).next_symbol_row == n0 + count * sr
                &&& final(tracking).drop_rows == old(tracking).drop_rows
                &&& -0x1_0000_0000_0000_0000_0000 <= final(tracking).next_symbol_row
                    <= 0x1_0000_0000_0000_0000_0000
            }),
    {
        proof {
            use_type_invariant(self);
        }
        let ghost p = self.params();
        let len = peaks.len();
        let sr = self.symbol_rows as i128;
        let latest = self.row_seq as i128;
        let window_start = latest - (len as i128) + 1;
        let ghost n0 = tracking.next_symbol_row as int;
        let ghost count = due_count(n0, latest as int, sr as nat);
        let ghost old_bytes = tracking.bytes@;
        let mut sampled: Vec<usize> = Vec::new();
        let ghost mut k: int = 0;
        proof {
            if n0 <= latest {
                lemma_div_bound(latest - n0, sr as int, 0);
            }
        }
        while tracking.next_symbol_row <= latest
            invariant
                p == self.params(),
                sr == p.symbol_rows,
                sr >= 1,
                len == peaks@.len(),
                latest == self.row_count(),
                0 <= latest <= i64::MAX,
                window_start == latest - len + 1,
                -0x1_0000_0000_0000_0000_0000 <= n0 <= 0x1_0000_0000_0000_0000_0000,
                count == due_count(n0, latest as int, sr as nat),
                0 <= k <= count,
                tracking.next_symbol_row == n0 + k * sr,
                tracking.next_symbol_row <= latest <==> k < count,
                sampled@ == due_rows(window_start as int, n0, sr as nat, len as nat, k as nat),
                tracking.bytes@ == old_bytes + symbols_of_rows(p, peaks@, sampled@),
                tracking.drop_rows == old(tracking).drop_rows,
            decreases count - k,
        {
            let idx = tracking.next_symbol_row - window_start;
            let ghost before = sampled@;
            if idx >= 0 && idx < len as i128 {
                let (byte, _) = self.map_row_to_symbol(peaks[idx as usize]);
                tracking.bytes.push(byte);
                sampled.push(idx as usize);
                assert(symbols_of_rows(p, peaks@, sampled@) =~= symbols_of_rows(p, peaks@, before).push(byte));
            }
            assert(sampled@ =~= due_rows(window_start as int, n0, sr as nat, len as nat, (k + 1) as nat));
            proof {
                assert((k + 1) * sr == k * sr + sr) by (nonlinear_arith);
                lemma_div_bound(latest - n0, sr as int, k + 1);
            }
            tracking.next_symbol_row = tracking.next_symbol_row + sr;
            proof {
                k = k + 1;
            }
        }
        proof {
            assert(k == count);
            if n0 <= latest {
                assert(count * sr <= latest - n0 + sr) by (nonlinear_arith)
                    requires
                        count == (latest - n0) / (sr as int) + 1,
                        latest - n0 >= 0,
                        sr >= 1,
                ;
            }
        }
        sampled
    }

    /// Handles one window of spectrum rows, given the peak of each row, whether
    /// the detector fired, and whether the newest row's energy dropped.
    pub fn process_window(
        &mut self,
        peaks: &[Option<usize>],
        detected: bool,
        latest_dropped: bool,
    ) -> (r: TrackerEvent)
        requires
            old(self).seq_count() < u64::MAX,
            old(self).row_count() < i64::MAX,
        ensures
            final(self).seq_count() == old(self).seq_count() + 1,
            final(self).row_count() == old(self).row_count() + 1,
            final(self).params() == old(self).params(),
            final(self).valid_bin_seq() == old(self).valid_bin_seq(),
            r matches TrackerEvent::Complete { bytes } ==> old(self).params().preamble.is_prefix_of(bytes@),
            window_drop_step(old(self).params(), old(self).mode(), latest_dropped, r is Complete, final(self).mode()),
            ({
                let sr = old(self).params().symbol_rows;
                let latest = final(self).row_count() as int;
                let ws = latest - peaks@.len() + 1;
                old(self).mode() is Tracking && r is Tracking ==> {
                    let n0 = old(self).mode()->next_symbol_row;
                    forall|m: int|
                        0 <= m < due_count(n0, latest, sr) && 0 <= #[trigger] due_index(ws, n0, sr, m) < peaks@.len()
                            ==> r->sampled_rows@.contains(due_index(ws, n0, sr, m) as usize)
                }
            }),
            final(self).mode() matches TrackerMode::Tracking { bytes, .. }
                ==> final(self).params().preamble.is_prefix_of(bytes),
            ({
                let p = old(self).params();
                let len = peaks@.len();
                let latest = final(self).row_count() as int;
                let ws = latest - len + 1;
                match old(self).mode() {
                    TrackerMode::Searching => {
                        &&& !detected ==> r is Idle && final(self).mode() is Searching
                        &&& detected && !has_preamble_window(p, len) ==> r is NoPreambleWindow
                            && final(self).mode() is Searching
                        &&& detected && has_preamble_window(p, len) ==> match r {
                            TrackerEvent::PreambleRejected { candidate } => {
                                &&& candidate.matches < p.preamble.len()
                                &&& is_best_start(p, peaks@, candidate.start_row as int)
                                &&& candidate_of(p, peaks@, candidate)
                                &&& final(self).mode() is Searching
                            },
                            TrackerEvent::TrackingStarted { candidate, symbol_rows, next_symbol_row } => {
                                &&& candidate.matches == p.preamble.len()
                                &&& is_best_start(p, peaks@, candidate.start_row as int)
                                &&& candidate_of(p, peaks@, candidate)
                                &&& symbol_rows@ == symbol_rows_from(
                                    candidate.start_row as nat,
                                    p.symbol_rows,
                                    len,
                                )
                                &&& next_symbol_row == ws + symbol_rows@.last() + p.symbol_rows
                                &&& final(self).mode() == TrackerMode::Tracking {
                                    bytes: symbols_of_rows(p, peaks@, symbol_rows@),
                                    next_symbol_row: next_symbol_row as int,
                                    drop_rows: 0,
                                }
                            },
                            _ => false,
                        }
                    },
                    TrackerMode::Tracking { bytes, next_symbol_row, drop_rows } => {
                        let drops: nat = if latest_dropped { drop_rows + 1 } else { 0 };
                        if drops >= p.drop_rows_required {
                            &&& r matches TrackerEvent::Complete { bytes: out } && out@ == bytes
                            &&& final(self).mode() is Searching
                        } else {
                            let count = due_count(next_symbol_row, latest, p.symbol_rows);
                            &&& r matches TrackerEvent::Tracking { drop_rows: d, sampled_rows }
                                && d == drops && sampled_rows@ == due_rows(
                                ws,
                                next_symbol_row,
                                p.symbol_rows,
                                len,
                                count,
                            ) && final(self).mode() == TrackerMode::Tracking {
                                bytes: bytes + symbols_of_rows(p, peaks@, sampled_rows@),
                                next_symbol_row: next_symbol_row + count * p.symbol_rows,
                                drop_rows: drops,
                            }
                        }
                    },
                }
            }),
    {
        proof {
            use_type_invariant(&*self);
        }
        self.seq = self.seq + 1;
        self.row_seq = self.row_seq + 1;
        let mut state = TrackerState::Searching;
        std::mem::swap(&mut state, &mut self.state);
        match state {
            TrackerState::Searching => {
                if !detected {
                    return TrackerEvent::Idle;
                }
                match self.best_preamble_candidate(peaks) {
                    None => TrackerEvent::NoPreambleWindow,
                    Some(candidate) => {
                        if candidate.matches != self.preamble_bytes.len() {
                            return TrackerEvent::PreambleRejected { candidate };
                        }
                        proof {
                            let p = self.params();
                            let n = p.preamble.len() as int;
                            let sr = p.symbol_rows as int;
                            assert(n * sr >= sr) by (nonlinear_arith)
                                requires
                                    n >= 1,
                                    sr >= 1,
                            ;
                        }
                        let (bytes, rows) = self.read_symbols_from(peaks, candidate.start_row);
                        let peak_count = peaks.len();
                        proof {
                            assert(peaks@.len() == peak_count);
                            lemma_full_match_reads_preamble(self.params(), peaks@, candidate.start_row as int);
                        }
                        let last_row = rows[rows.len() - 1];
                        let window_start = (self.row_seq as i128) - (peaks.len() as i128) + 1;
                        let next_symbol_row = window_start + (last_row as i128) + (self.symbol_rows as i128);
                        self.state = TrackerState::Tracking(
                            TrackingState { bytes, next_symbol_row, drop_rows: 0 },
                        );
                        TrackerEvent::TrackingStarted { candidate, symbol_rows: rows, next_symbol_row }
                    },
                }
            },
            TrackerState::Tracking(mut tracking) => {
                if latest_dropped {
                    tracking.drop_rows = tracking.drop_rows + 1;
                } else {
                    tracking.drop_rows = 0;
                }
                if tracking.drop_rows >= self.drop_rows_required {
                    return TrackerEvent::Complete { bytes: tracking.bytes };
                }
                let ghost before = tracking.bytes@;
                let ghost before_next = tracking.next_symbol_row;
                let sampled = self.sample_due_symbols(peaks, &mut tracking);
                let peak_count = peaks.len();
                proof {
                    assert(peaks@.len() == peak_count);
                    let latest = self.row_seq as int;
                    lemma_due_rows_read_every_row_in_image(
                        latest - peaks@.len() + 1,
                        before_next as int,
                        self.params().symbol_rows,
                        peaks@.len(),
                        due_count(before_next as int, latest, self.params().symbol_rows),
                    );
                }
                assert(tracking.bytes@.subrange(0, self.preamble_bytes@.len() as int)
                    =~= before.subrange(0, self.preamble_bytes@.len() as int));
                let drop_rows = tracking.drop_rows;
                self.state = TrackerState::Tracking(tracking);
                TrackerEvent::Tracking { drop_rows, sampled_rows: sampled }
            },
        }
    }

    /// The debug events of the call that gave `event`, asked of the tracker
    /// right after that call.
    pub fn event_records(&self, event: &TrackerEvent) -> (r: Vec<DebugRecord>)
        ensures
            record_views(r@) == tracker_records(self.params(), self.seq_count(), *event, self.mode()),
    {
        let seq = self.seq;
        let mut out: Vec<DebugRecord> = Vec::new();
        let ghost empty = out@;
        let tracked_len = self.tracked_len();
        match event {
            TrackerEvent::Idle => {},
            TrackerEvent::NoPreambleWindow => {
                out.push(
                    DebugRecord::Warning {
                        stage: RxStageId::Tracker,
                        seq,
                        detail: "detection did not contain enough rows for preamble search".to_owned(),
                    },
                );
            },
            TrackerEvent::PreambleRejected { candidate } => {
                push_candidate_records(&mut out, seq, candidate, self.preamble_bytes.len());
            },
            TrackerEvent::TrackingStarted { candidate, symbol_rows, next_symbol_row } => {
                push_candidate_records(&mut out, seq, candidate, self.preamble_bytes.len());
                let mut summary = "tracking_started buffered_symbols=".to_owned();
                push_decimal(&mut summary, symbol_rows.len() as u128);
                summary.append(" next_symbol_row=");
                push_signed_decimal(&mut summary, *next_symbol_row);
                summary.append(" ");
                let preview = match &self.state {
                    TrackerState::Searching => format_byte_preview(&[]),
                    TrackerState::Tracking(t) => format_byte_preview(t.bytes.as_slice()),
                };
                summary.append(preview.as_str());
                out.push(DebugRecord::Message { stage: RxStageId::Tracker, seq, summary });
            },
            TrackerEvent::Tracking { drop_rows, .. } => {
                out.push(DebugRecord::Metric { stage: RxStageId::Tracker, seq, name: "drop_rows", value: *drop_rows as u128 });
                let mut summary = "tracking_symbols=".to_owned();
                push_decimal(&mut summary, tracked_len as u128);
                out.push(DebugRecord::Message { stage: RxStageId::Tracker, seq, summary });
            },
            TrackerEvent::Complete { bytes } => {
                out.push(
                    DebugRecord::Metric {
                        stage: RxStageId::Tracker,
                        seq,
                        name: "drop_rows",
                        value: self.drop_rows_required as u128,
                    },
                );
                let mut summary = "tracking_complete symbols=".to_owned();
                push_decimal(&mut summary, bytes.len() as u128);
                summary.append(" ");
                let preview = format_byte_preview(bytes.as_slice());
                summary.append(preview.as_str());
                out.push(DebugRecord::Message { stage: RxStageId::Tracker, seq, summary });
                out.push(
                    DebugRecord::Snapshot {
                        stage: RxStageId::Tracker,
                        seq,
                        label: "tracked_symbol_stream",
                        rows: 1,
                        cols: bytes.len(),
                    },
                );
            },
        }
        assert(record_views(out@) =~= tracker_records(self.params(), self.seq_count(), *event, self.mode()));
        out
    }

    /// The debug events of the `process` call on `peaks`, asked of the
    /// tracker right after that call.
    pub fn process_records(&self, peaks: &[Option<usize>]) -> (r: Vec<DebugRecord>)
        ensures
            record_views(r@) == process_records(self.seq_count(), self.valid_bin_seq().len(), peaks@),
    {
        let seq = self.seq;
        let mut out: Vec<DebugRecord> = Vec::new();
        out.push(
            DebugRecord::Metric {
                stage: RxStageId::Tracker,
                seq,
                name: "valid_bin_count",
                value: self.valid_bins.len() as u128,
            },
        );
        let peak_bin: usize = if peaks.len() == 0 {
            0
        } else {
            match peaks[peaks.len() - 1] {
                Some(b) => b,
                None => 0,
            }
        };
        out.push(DebugRecord::Metric { stage: RxStageId::Tracker, seq, name: "peak_bin", value: peak_bin as u128 });
        let mut summary = "tracked_symbols=".to_owned();
        push_decimal(&mut summary, peaks.len() as u128);
        out.push(DebugRecord::Message { stage: RxStageId::Tracker, seq, summary });
        assert(record_views(out@) =~= process_records(self.seq_count(), self.valid_bin_seq().len(), peaks@));
        out
    }

    /// Reads every row of an image as a symbol; an empty image gives nothing.
    pub fn process(&mut self, peaks: &[Option<usize>]) -> (r: Option<Vec<u8>>)
        requires
            old(self).seq_count() < u64::MAX,
        ensures
            final(self).seq_count() == old(self).seq_count() + 1,
            final(self).row_count() == old(self).row_count(),
            final(self).params() == old(self).params(),
            final(self).valid_bin_seq() == old(self).valid_bin_seq(),
            final(self).mode() == old(self).mode(),
            peaks@.len() == 0 ==> r is None,
            peaks@.len() > 0 ==> (r matches Some(symbols) && symbols@ == Seq::new(
                peaks@.len(),
                |i: int| row_symbol(old(self).params(), peaks@[i]),
            )),
    {
        proof {
            use_type_invariant(&*self);
        }
        self.seq = self.seq + 1;
        let ghost p = self.params();
        let mut symbols: Vec<u8> = Vec::new();
        let n = peaks.len();
        for i in 0..n
            invariant
                n == peaks@.len(),
                p == self.params(),
                symbols@ == Seq::new(i as nat, |j: int| row_symbol(p, peaks@[j])),
        {
            let (symbol, _) = self.map_row_to_symbol(peaks[i]);
            symbols.push(symbol);
            assert(symbols@ =~= Seq::new((i + 1) as nat, |j: int| row_symbol(p, peaks@[j])));
        }
        if symbols.len() == 0 {
            None
        } else {
            Some(symbols)
        }
    }

    /// Returns to searching and starts the counts again.
    pub fn reset(&mut self)
        ensures
            final(self).seq_count() == 0,
            final(self).row_count() == 0,
            final(self).mode() is Searching,
            final(self).params() == old(self).params(),
            final(self).valid_bin_seq() == old(self).valid_bin_seq(),
    {
        proof {
            use_type_invariant(&*self);
        }
        self.seq = 0;
        self.row_seq = 0;
        self.state = TrackerState::Searching;
    }
}

} // verus!
