//! The signal contract: what producers emit and what the pipeline decides.
use vstd::prelude::*;

use crate::keyed::KeyedMap;
use crate::text::chars_of;

verus! {

/// String attributes of a signal, keyed by name.
pub type AttributeMap = KeyedMap<String>;

#[derive(Debug, Clone, Copy, PartialEq, Eq, Structural)]
pub enum SignalKind {
    Trace,
    Metric,
    Log,
    Event,
}

#[derive(Debug, Clone, Copy, PartialEq, Eq, Structural)]
pub enum SignalPipelineMode {
    Off,
    Shadow,
    Enforce,
}

/// Pipeline settings: mode, batching and sink retries.
#[derive(Debug, Clone, Copy)]
pub struct SignalPipelineConfig {
    pub mode: SignalPipelineMode,
    pub batch_size: usize,
    pub max_retries: u8,
    pub retry_backoff_ms: u64,
}

impl SignalPipelineConfig {
    /// Shadow mode, batches of 32, three retries starting at 25 ms.
    pub fn default_config() -> (r: Self)
        ensures
            r.mode == SignalPipelineMode::Shadow,
            r.batch_size == 32,
            r.max_retries == 3,
            r.retry_backoff_ms == 25,
    {
        SignalPipelineConfig {
            mode: SignalPipelineMode::Shadow,
            batch_size: 32,
            max_retries: 3,
            retry_backoff_ms: 25,
        }
    }
}

impl Default for SignalPipelineConfig {
    fn default() -> (r: Self)
        ensures
            r.mode == SignalPipelineMode::Shadow,
            r.batch_size == 32,
            r.max_retries == 3,
            r.retry_backoff_ms == 25,
    {
        Self::default_config()
    }
}

/// The lower-case name of a mode, as `format!("{:?}", mode).to_ascii_lowercase()`.
pub open spec fn mode_label(mode: SignalPipelineMode) -> Seq<char> {
    match mode {
        SignalPipelineMode::Off => "off"@,
        SignalPipelineMode::Shadow => "shadow"@,
        SignalPipelineMode::Enforce => "enforce"@,
    }
}

pub fn mode_label_text(mode: SignalPipelineMode) -> (r: Vec<char>)
    ensures
        r@ == mode_label(mode),
{
    match mode {
        SignalPipelineMode::Off => chars_of("off"),
        SignalPipelineMode::Shadow => chars_of("shadow"),
        SignalPipelineMode::Enforce => chars_of("enforce"),
    }
}

#[derive(Debug)]
pub struct SignalContext {
    pub session_id: String,
    pub trace_id: String,
    pub span_id: Option<String>,
    pub task_id: Option<String>,
    pub capability_id: Option<String>,
    pub tenant_id: Option<String>,
    pub principal_id: Option<String>,
}

/// Why a signal was rejected, and by which processor.
#[derive(Debug)]
pub struct SignalReason {
    pub code: String,
    pub message: String,
    pub processor: Option<String>,
}

/// A reason as text.
pub struct ReasonView {
    pub code: Seq<char>,
    pub message: Seq<char>,
    pub processor: Option<Seq<char>>,
}

pub open spec fn opt_view(o: Option<String>) -> Option<Seq<char>> {
    match o {
        Some(s) => Some(s@),
        None => None,
    }
}

impl View for SignalReason {
    type V = ReasonView;

    open spec fn view(&self) -> ReasonView {
        ReasonView { code: self.code@, message: self.message@, processor: opt_view(self.processor) }
    }
}

pub open spec fn opt_reason_view(o: Option<SignalReason>) -> Option<ReasonView> {
    match o {
        Some(r) => Some(r@),
        None => None,
    }
}

#[derive(Debug)]
pub struct SignalDecision {
    pub accepted: bool,
    pub reason: Option<SignalReason>,
    pub evidence_ref: Option<String>,
}

/// One signal as a producer emits it. `numeric_value` carries the decimal text
/// of the measured number, when there is one.
#[derive(Debug)]
pub struct SignalEvent {
    pub signal_id: String,
    pub kind: SignalKind,
    pub name: String,
    pub context: SignalContext,
    pub attributes: AttributeMap,
    pub numeric_value: Option<String>,
    pub body: Option<String>,
    pub decision: SignalDecision,
    pub emitted_at_ms: u64,
}

} // verus!
