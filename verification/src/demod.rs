use vstd::prelude::*;
use vstd::slice::slice_to_vec;
use crate::debug::{record_views, DebugRecord, DebugRecordView, RxStageId};

verus! {

/// The debug events of a demodulator call on a stream of `input_len`
/// symbols: its size and the rows per symbol, then a warning for an empty
/// stream or a snapshot of the frame's bytes.
pub open spec fn demod_records(seq: u64, expected_rows: usize, input_len: nat) -> Seq<DebugRecordView> {
    let sizes = seq![
        DebugRecordView::Metric { stage: RxStageId::Demodulator, seq, name: "input_bytes"@, value: input_len },
        DebugRecordView::Metric {
            stage: RxStageId::Demodulator,
            seq,
            name: "expected_rows"@,
            value: expected_rows as nat,
        },
    ];
    if input_len == 0 {
        sizes.push(DebugRecordView::Warning { stage: RxStageId::Demodulator, seq, detail: "empty symbol stream"@ })
    } else {
        sizes.push(
            DebugRecordView::Snapshot {
                stage: RxStageId::Demodulator,
                seq,
                label: "frame_bytes"@,
                rows: 1,
                cols: input_len,
            },
        )
    }
}

/// Turns a tracked symbol stream into frame bytes: each symbol carries one byte.
pub struct Demodulator {
    expected_rows: usize,
    seq: u64,
}

impl Demodulator {
    /// Rows per symbol expected from the tracker (at least one).
    pub closed spec fn expected_row_count(&self) -> usize {
        self.expected_rows
    }

    /// Calls of `process` since creation or reset.
    pub closed spec fn seq_count(&self) -> u64 {
        self.seq
    }

    pub fn new(symbol_rows: usize) -> (r: Demodulator)
        ensures
            r.expected_row_count() == if symbol_rows == 0 { 1 } else { symbol_rows },
            r.seq_count() == 0,
    {
        Demodulator { expected_rows: if symbol_rows == 0 { 1 } else { symbol_rows }, seq: 0 }
    }

    /// Calls of `process` since creation or reset.
    pub fn seq(&self) -> (r: u64)
        ensures
            r == self.seq_count(),
    {
        self.seq
    }

    /// Rows per symbol expected from the tracker.
    pub fn expected_rows(&self) -> (r: usize)
        ensures
            r == self.expected_row_count(),
    {
        self.expected_rows
    }

    /// Starts the sequence count again.
    pub fn reset(&mut self)
        ensures
            final(self).seq_count() == 0,
            final(self).expected_row_count() == old(self).expected_row_count(),
    {
        self.seq = 0;
    }

    /// The debug events of a call whose first stream held `input_len`
    /// symbols, asked right after that call.
    pub fn event_records(&self, input_len: usize) -> (r: Vec<DebugRecord>)
        ensures
            record_views(r@) == demod_records(self.seq_count(), self.expected_row_count(), input_len as nat),
    {
        let seq = self.seq;
        let mut out: Vec<DebugRecord> = Vec::new();
        out.push(DebugRecord::Metric { stage: RxStageId::Demodulator, seq, name: "input_bytes", value: input_len as u128 });
        out.push(
            DebugRecord::Metric {
                stage: RxStageId::Demodulator,
                seq,
                name: "expected_rows",
                value: self.expected_rows as u128,
            },
        );
        if input_len == 0 {
            out.push(DebugRecord::Warning { stage: RxStageId::Demodulator, seq, detail: "empty symbol stream".to_owned() });
        } else {
            out.push(
                DebugRecord::Snapshot { stage: RxStageId::Demodulator, seq, label: "frame_bytes", rows: 1, cols: input_len },
            );
        }
        assert(record_views(out@) =~= demod_records(self.seq_count(), self.expected_row_count(), input_len as nat));
        out
    }

    /// The bytes of the first symbol stream (none: an empty one); an empty
    /// stream gives nothing.
    pub fn process(&mut self, data_in: &[Vec<u8>]) -> (r: Option<Vec<u8>>)
        requires
            old(self).seq_count() < u64::MAX,
        ensures
            final(self).seq_count() == old(self).seq_count() + 1,
            final(self).expected_row_count() == old(self).expected_row_count(),
            (data_in@.len() == 0 || data_in@[0]@.len() == 0) ==> r is None,
            (data_in@.len() > 0 && data_in@[0]@.len() > 0) ==> (r matches Some(bytes) && bytes@
                == data_in@[0]@),
    {
        self.seq = self.seq + 1;
        if data_in.len() == 0 || data_in[0].len() == 0 {
            return None;
        }
        Some(slice_to_vec(data_in[0].as_slice()))
    }
}

} // verus!
