use vstd::prelude::*;
use crate::config::DebugLoggingLevel;

verus! {

/// The stages of the receiver, as named in its debug stream.
#[derive(Debug, Clone, Copy, PartialEq, Eq, Structural)]
pub enum RxStageId {
    Source,
    FrontEnd,
    Search,
    Acquisition,
    Cfar,
    Tracker,
    Demodulator,
    Parser,
}

/// The kinds of debug event a receiver stage emits.
#[derive(Debug, Clone, Copy, PartialEq, Eq, Structural)]
pub enum RxDebugKind {
    StageStart,
    StageStop,
    Metric,
    Snapshot,
    Message,
    Warning,
    Error,
}

/// One debug event of a stage, metric values counted in whole numbers.
#[derive(Debug)]
pub enum DebugRecord {
    Metric { stage: RxStageId, seq: u64, name: &'static str, value: u128 },
    Snapshot { stage: RxStageId, seq: u64, label: &'static str, rows: usize, cols: usize },
    Message { stage: RxStageId, seq: u64, summary: String },
    Warning { stage: RxStageId, seq: u64, detail: String },
    Error { stage: RxStageId, seq: u64, detail: String },
}

/// A debug event with its texts as character sequences.
pub enum DebugRecordView {
    Metric { stage: RxStageId, seq: u64, name: Seq<char>, value: nat },
    Snapshot { stage: RxStageId, seq: u64, label: Seq<char>, rows: nat, cols: nat },
    Message { stage: RxStageId, seq: u64, summary: Seq<char> },
    Warning { stage: RxStageId, seq: u64, detail: Seq<char> },
    Error { stage: RxStageId, seq: u64, detail: Seq<char> },
}

impl View for DebugRecord {
    type V = DebugRecordView;

    open spec fn view(&self) -> DebugRecordView {
        match self {
            DebugRecord::Metric { stage, seq, name, value } => DebugRecordView::Metric {
                stage: *stage,
                seq: *seq,
                name: name@,
                value: *value as nat,
            },
            DebugRecord::Snapshot { stage, seq, label, rows, cols } => DebugRecordView::Snapshot {
                stage: *stage,
                seq: *seq,
                label: label@,
                rows: *rows as nat,
                cols: *cols as nat,
            },
            DebugRecord::Message { stage, seq, summary } => DebugRecordView::Message {
                stage: *stage,
                seq: *seq,
                summary: summary@,
            },
            DebugRecord::Warning { stage, seq, detail } => DebugRecordView::Warning {
                stage: *stage,
                seq: *seq,
                detail: detail@,
            },
            DebugRecord::Error { stage, seq, detail } => DebugRecordView::Error {
                stage: *stage,
                seq: *seq,
                detail: detail@,
            },
        }
    }
}

/// The views of a list of debug records.
pub open spec fn record_views(records: Seq<DebugRecord>) -> Seq<DebugRecordView> {
    records.map_values(|d: DebugRecord| d@)
}

/// The short name of a stage.
pub open spec fn stage_label(stage: RxStageId) -> Seq<char> {
    match stage {
        RxStageId::Source => "source"@,
        RxStageId::FrontEnd => "fft"@,
        RxStageId::Search => "search"@,
        RxStageId::Acquisition => "acquisition"@,
        RxStageId::Cfar => "cfar"@,
        RxStageId::Tracker => "tracker"@,
        RxStageId::Demodulator => "demod"@,
        RxStageId::Parser => "parser"@,
    }
}

/// The short name of a stage, as printed in debug lines.
pub fn stage_name(stage: RxStageId) -> (r: &'static str)
    ensures
        r@ == stage_label(stage),
{
    match stage {
        RxStageId::Source => "source",
        RxStageId::FrontEnd => "fft",
        RxStageId::Search => "search",
        RxStageId::Acquisition => "acquisition",
        RxStageId::Cfar => "cfar",
        RxStageId::Tracker => "tracker",
        RxStageId::Demodulator => "demod",
        RxStageId::Parser => "parser",
    }
}

/// Which events a logging level prints: none when off; everything but
/// metrics and snapshots at the basic level; everything when verbose.
pub open spec fn prints_event(level: DebugLoggingLevel, kind: RxDebugKind) -> bool {
    match level {
        DebugLoggingLevel::Off => false,
        DebugLoggingLevel::Basic => !(kind is Metric || kind is Snapshot),
        DebugLoggingLevel::Verbose => true,
    }
}

/// Whether an event of the given kind is printed at the given level.
pub fn should_print_debug_event(level: DebugLoggingLevel, kind: RxDebugKind) -> (r: bool)
    ensures
        r == prints_event(level, kind),
        level is Off ==> !r,
        level is Basic ==> (r <==> kind != RxDebugKind::Metric && kind != RxDebugKind::Snapshot),
        level is Verbose ==> r,
{
    match level {
        DebugLoggingLevel::Off => false,
        DebugLoggingLevel::Basic => match kind {
            RxDebugKind::StageStart | RxDebugKind::StageStop | RxDebugKind::Message
            | RxDebugKind::Warning | RxDebugKind::Error => true,
            RxDebugKind::Metric | RxDebugKind::Snapshot => false,
        },
        DebugLoggingLevel::Verbose => true,
    }
}

/// Raising the logging level never hides an event: whatever is printed when
/// off is printed at the basic level, and whatever is printed at the basic
/// level is printed when verbose.
pub proof fn lemma_levels_nested(kind: RxDebugKind)
    ensures
        prints_event(DebugLoggingLevel::Off, kind) ==> prints_event(DebugLoggingLevel::Basic, kind),
        prints_event(DebugLoggingLevel::Basic, kind) ==> prints_event(DebugLoggingLevel::Verbose, kind),
{
}

} // verus!
