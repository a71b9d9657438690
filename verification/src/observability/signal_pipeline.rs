//! The signal pipeline: ingest (sequence numbers and ids), process (redact,
//! filter, sample, rate limit), and the decisions around sinking batches.
use vstd::prelude::*;

use crate::clock::current_time_ms;
use crate::digest::{stable_hash, str_default_hash};
use crate::keyed::KeyedMap;
use crate::observability::processors::{
    filter_event, filter_spec, rate_bucket_key, rate_limit_event, rate_limit_of, rate_limit_spec,
    redact_attributes_spec, redact_body_spec, redact_event, redaction_changed, reason_view,
    sample_decision, sample_spec, validate_context, validate_context_spec,
};
use crate::observability::signal::{
    mode_label, mode_label_text, opt_reason_view, opt_view, ReasonView, SignalEvent,
    SignalPipelineConfig, SignalPipelineMode, SignalReason,
};
use crate::text::{chars_of, decimal, is_blank, push_decimal, push_str, starts_with, string_of, trim};

verus! {

/// Version of the signal contract written on every processed signal.
pub open spec fn signal_contract_version() -> Seq<char> {
    "signal.v1"@
}

pub struct IngestOutput {
    pub event: SignalEvent,
    pub ingested_at_ms: u64,
}

pub struct ProcessOutput {
    pub event: SignalEvent,
    pub ingested_at_ms: u64,
    pub processed_at_ms: u64,
}

/// What the sink stores for one processed signal.
pub struct SignalPipelineRecord {
    pub event: SignalEvent,
    pub mode: SignalPipelineMode,
    pub ingested_at_ms: u64,
    pub processed_at_ms: u64,
    pub persisted_at_ms: u64,
}

pub struct SinkOutput {
    pub sequence_no: u64,
    pub storage_key: String,
    pub latest_key: String,
    pub evidence_ref: String,
    pub query_explain_ref: Option<String>,
    pub accepted: bool,
    pub mode: SignalPipelineMode,
    pub attempts: u8,
}

pub struct BatchFlushOutput {
    pub requested: usize,
    pub flushed: usize,
    pub outputs: Vec<SinkOutput>,
}

/// A pipeline: its settings and the signals queued for the next batch.
/// Sequence numbers and the per-minute rate counters are shared by every
/// pipeline of a process, so the caller keeps them and hands them in.
pub struct SignalPipeline {
    cfg: SignalPipelineConfig,
    pending: Vec<SignalEvent>,
}

/// The per-minute rate counters that every pipeline of a process charges.
pub struct RateBuckets {
    counts: KeyedMap<u32>,
}

impl RateBuckets {
    /// The counters, by bucket key.
    pub closed spec fn counts(&self) -> Map<Seq<char>, u32> {
        self.counts@
    }

    /// Counters with nothing charged yet.
    pub fn new() -> (r: Self)
        ensures
            r.counts() == Map::<Seq<char>, u32>::empty(),
    {
        RateBuckets { counts: KeyedMap::new() }
    }

    /// The counter of one bucket, if it was charged.
    pub fn count(&self, key: &str) -> (r: Option<u32>)
        ensures
            r == (if self.counts().contains_key(key@) {
                Some(self.counts()[key@])
            } else {
                None
            }),
    {
        match self.counts.get(key) {
            Some(c) => Some(*c),
            None => None,
        }
    }
}

/// The sequence numbers that every pipeline of a process hands out, from 1
/// up, each one more than the last (wrapping after `u64::MAX`, as an atomic
/// `fetch_add` does).
pub struct SignalSequence {
    next: u64,
}

impl SignalSequence {
    /// The number the next signal gets.
    pub closed spec fn next_number(&self) -> u64 {
        self.next
    }

    /// Numbering from 1.
    pub fn new() -> (r: Self)
        ensures
            r.next_number() == 1,
    {
        SignalSequence { next: 1 }
    }

    /// Takes the next number.
    pub fn take(&mut self) -> (r: u64)
        ensures
            r == old(self).next_number(),
            final(self).next_number() == old(self).next_number().wrapping_add(1),
    {
        let r = self.next;
        self.next = self.next.wrapping_add(1);
        r
    }
}

/// Numbers taken one after another from one sequence grow by one each time,
/// until the counter wraps.
pub proof fn law_sequence_numbers_grow(first: u64)
    requires
        first < u64::MAX,
    ensures
        first.wrapping_add(1) == first + 1,
        first.wrapping_add(1) > first,
{
}

pub open spec fn bool_text(b: bool) -> Seq<char> {
    if b {
        "true"@
    } else {
        "false"@
    }
}

/// The state of a signal's decision: accepted, and the reason when it is not.
pub struct DecisionState {
    pub accepted: bool,
    pub reason: Option<ReasonView>,
}

/// What processing makes of a signal and of the rate counters.
pub struct ProcessedModel {
    pub attributes: Map<Seq<char>, Seq<char>>,
    pub body: Option<Seq<char>>,
    pub decision: DecisionState,
    pub counts: Map<Seq<char>, u32>,
}

pub open spec fn reject_with(d: DecisionState, r: Option<ReasonView>) -> DecisionState {
    match r {
        Some(reason) => DecisionState { accepted: false, reason: Some(reason) },
        None => d,
    }
}

pub open spec fn reason_code_starts_with(d: DecisionState, prefix: Seq<char>) -> bool {
    match d.reason {
        Some(r) => starts_with(r.code, prefix),
        None => false,
    }
}

/// The text that sampling hashes: session, trace and signal id joined by `:`.
pub open spec fn sample_key(event: SignalEvent) -> Seq<char> {
    event.context.session_id@ + ":"@ + event.context.trace_id@ + ":"@ + event.signal_id@
}

/// The sampling decision for one signal: its `sample_ratio` attribute applied
/// to the stable hash of `session:trace:signal_id` (see `sample_spec`).
pub fn sample_event(event: &SignalEvent) -> (r: Option<SignalReason>)
    ensures
        opt_reason_view(r) == sample_spec(
            if event.attributes@.contains_key("sample_ratio"@) {
                Some(event.attributes@["sample_ratio"@])
            } else {
                None
            },
            str_default_hash(sample_key(*event)),
        ),
{
    let mut key = chars_of(event.context.session_id.as_str());
    push_str(&mut key, ":");
    push_str(&mut key, event.context.trace_id.as_str());
    push_str(&mut key, ":");
    push_str(&mut key, event.signal_id.as_str());
    let key_text = string_of(&key);
    let hash = stable_hash(key_text.as_str());
    sample_decision(event.attributes.get("sample_ratio"), hash)
}

/// Processing, step by step: tag the pipeline mode, contract version and
/// processor order; reject on a missing context or when the mode is off;
/// redact; then filter, sample and rate-limit in that order, each only while
/// the signal is still accepted, recording after each step whether it applied
/// and whether it rejected.
pub open spec fn process_spec(
    mode: SignalPipelineMode,
    event: SignalEvent,
    counts: Map<Seq<char>, u32>,
) -> ProcessedModel {
    let st = staged_spec(mode, event);
    let attrs5 = st.attributes;
    let d4 = st.decision;
    let limited = rate_limit_spec(
        rate_limit_of(attrs5),
        rate_bucket_key(event.context.session_id@, event.name@, event.emitted_at_ms),
        counts,
    );
    let d5 = if d4.accepted {
        reject_with(d4, limited.0)
    } else {
        d4
    };
    let counts5 = if d4.accepted {
        limited.1
    } else {
        counts
    };
    let attrs6 = attrs5.insert("signal_rate_limit_applied"@, "true"@).insert(
        "signal_rate_limit_rejected"@,
        bool_text(reason_code_starts_with(d5, "signal.rate_limited"@)),
    );
    ProcessedModel { attributes: attrs6, body: st.body, decision: d5, counts: counts5 }
}

/// The attributes once the pipeline has stamped its mode, contract version
/// and processor order.
pub open spec fn stamped_attrs(mode: SignalPipelineMode, event: SignalEvent) -> Map<Seq<char>, Seq<char>> {
    event.attributes@.insert("signal_pipeline_mode"@, mode_label(mode)).insert(
        "signal_contract_version"@,
        signal_contract_version(),
    ).insert("signal_processor_order"@, "redact>filter>sample>rate_limit"@)
}

/// The decision after the context check and the mode check.
pub open spec fn checked_decision(mode: SignalPipelineMode, event: SignalEvent) -> DecisionState {
    let d0 = DecisionState {
        accepted: event.decision.accepted,
        reason: opt_reason_view(event.decision.reason),
    };
    let d1 = reject_with(d0, validate_context_spec(event));
    if mode == SignalPipelineMode::Off {
        reject_with(d1, Some(pipeline_off_reason()))
    } else {
        d1
    }
}

pub open spec fn pipeline_off_reason() -> ReasonView {
    reason_view("signal.pipeline_off"@, "signal pipeline mode is off"@, "process"@)
}

/// The attributes after redaction, with `signal_redact_applied` recorded.
pub open spec fn redacted_attrs(mode: SignalPipelineMode, event: SignalEvent) -> Map<Seq<char>, Seq<char>> {
    let attrs1 = stamped_attrs(mode, event);
    let changed = redaction_changed(attrs1, opt_view(event.body));
    redact_attributes_spec(attrs1).insert("signal_redact_applied"@, bool_text(changed))
}

/// What a signal is before the rate limit: attributes, redacted body and
/// the decision after the checks, the filter and the sampler.
pub struct StagedModel {
    pub attributes: Map<Seq<char>, Seq<char>>,
    pub body: Option<Seq<char>>,
    pub decision: DecisionState,
}

pub open spec fn staged_spec(mode: SignalPipelineMode, event: SignalEvent) -> StagedModel {
    let d2 = checked_decision(mode, event);
    let body = redact_body_spec(opt_view(event.body));
    let attrs3 = redacted_attrs(mode, event);
    let d3 = if d2.accepted {
        reject_with(d2, filter_spec(event.name@, body, attrs3))
    } else {
        d2
    };
    let attrs4 = attrs3.insert("signal_filter_applied"@, "true"@).insert(
        "signal_filter_rejected"@,
        bool_text(!d3.accepted),
    );
    let ratio = if attrs4.contains_key("sample_ratio"@) {
        Some(attrs4["sample_ratio"@])
    } else {
        None
    };
    let d4 = if d3.accepted {
        reject_with(d3, sample_spec(ratio, str_default_hash(sample_key(event))))
    } else {
        d3
    };
    let attrs5 = attrs4.insert("signal_sample_applied"@, "true"@).insert(
        "signal_sample_rejected"@,
        bool_text(reason_code_starts_with(d4, "signal.sampled_out"@)),
    );
    StagedModel { attributes: attrs5, body, decision: d4 }
}

/// The id given to a signal that arrives without one.
pub open spec fn generated_signal_id(event: SignalEvent, ingested_at_ms: u64) -> Seq<char> {
    "signal:"@ + event.context.session_id@ + ":"@ + event.context.trace_id@ + ":"@ + decimal(
        ingested_at_ms as nat,
    )
}

/// Everything but the id, attributes, body and decision is carried over.
pub open spec fn same_envelope(a: SignalEvent, b: SignalEvent) -> bool {
    &&& a.kind == b.kind
    &&& a.name == b.name
    &&& a.context == b.context
    &&& a.numeric_value == b.numeric_value
    &&& a.emitted_at_ms == b.emitted_at_ms
}

/// `after` is `before` ingested at `at` with sequence number `seq`: a blank id
/// is replaced by a generated one, `signal_sequence_no` is set unless present,
/// and nothing else changes.
pub open spec fn ingest_rel(before: SignalEvent, after: SignalEvent, at: u64, seq: u64) -> bool {
    &&& after.signal_id@ == if trim(before.signal_id@).len() == 0 {
        generated_signal_id(before, at)
    } else {
        before.signal_id@
    }
    &&& after.attributes@ == if before.attributes@.contains_key("signal_sequence_no"@) {
        before.attributes@
    } else {
        before.attributes@.insert("signal_sequence_no"@, decimal(seq as nat))
    }
    &&& same_envelope(after, before)
    &&& after.body == before.body
    &&& after.decision == before.decision
}

pub(crate) fn bool_text_exec(b: bool) -> (r: String)
    ensures
        r@ == bool_text(b),
{
    if b {
        let c = chars_of("true");
        string_of(&c)
    } else {
        let c = chars_of("false");
        string_of(&c)
    }
}

fn text(s: &str) -> (r: String)
    ensures
        r@ == s@,
{
    let c = chars_of(s);
    string_of(&c)
}

fn reason_code_starts(reason: &Option<SignalReason>, prefix: &str) -> (r: bool)
    ensures
        r == match opt_reason_view(*reason) {
            Some(x) => starts_with(x.code, prefix@),
            None => false,
        },
{
    match reason {
        Some(x) => {
            let c = chars_of(x.code.as_str());
            crate::text::starts_with_str(&c, prefix)
        },
        None => false,
    }
}

impl SignalPipeline {
    pub closed spec fn config(&self) -> SignalPipelineConfig {
        self.cfg
    }

    pub closed spec fn pending_events(&self) -> Seq<SignalEvent> {
        self.pending@
    }

    /// A pipeline with nothing queued.
    pub fn from_config(cfg: &SignalPipelineConfig) -> (r: Self)
        ensures
            r.config() == *cfg,
            r.pending_events().len() == 0,
    {
        SignalPipeline { cfg: *cfg, pending: Vec::new() }
    }

    pub fn mode(&self) -> (r: SignalPipelineMode)
        ensures
            r == self.config().mode,
    {
        self.cfg.mode
    }

    pub fn pending_len(&self) -> (r: usize)
        ensures
            r == self.pending_events().len(),
    {
        self.pending.len()
    }

    /// Ingests `event` at time `ingested_at_ms` with the process-wide
    /// sequence number `sequence_no`: it gets a generated id when its id is
    /// blank, and records `sequence_no` in `signal_sequence_no` unless that
    /// attribute is set.
    pub fn ingest_at(&self, event: SignalEvent, ingested_at_ms: u64, sequence_no: u64) -> (r: IngestOutput)
        ensures
            r.ingested_at_ms == ingested_at_ms,
            ingest_rel(event, r.event, ingested_at_ms, sequence_no),
    {
        let mut event = event;
        let id = chars_of(event.signal_id.as_str());
        if is_blank(&id) {
            let mut generated = chars_of("signal:");
            push_str(&mut generated, event.context.session_id.as_str());
            push_str(&mut generated, ":");
            push_str(&mut generated, event.context.trace_id.as_str());
            push_str(&mut generated, ":");
            push_decimal(&mut generated, ingested_at_ms);
            event.signal_id = string_of(&generated);
        }
        let seq_text = crate::text::decimal_chars(sequence_no);
        event.attributes.insert_if_absent(text("signal_sequence_no"), string_of(&seq_text));
        IngestOutput { event, ingested_at_ms }
    }

    /// Ingests `event` now with the next number of the process's `sequence`
    /// (see `ingest_at`).
    pub fn ingest_numbered(&self, event: SignalEvent, sequence: &mut SignalSequence) -> (r: IngestOutput)
        ensures
            ingest_rel(event, r.event, r.ingested_at_ms, old(sequence).next_number()),
            final(sequence).next_number() == old(sequence).next_number().wrapping_add(1),
    {
        let n = sequence.take();
        self.ingest(event, n)
    }

    /// Ingests `event` now with sequence number `sequence_no` (see `ingest_at`).
    pub fn ingest(&self, event: SignalEvent, sequence_no: u64) -> (r: IngestOutput)
        ensures
            ingest_rel(event, r.event, r.ingested_at_ms, sequence_no),
    {
        let now = current_time_ms();
        self.ingest_at(event, now, sequence_no)
    }

    /// Processes an ingested signal at time `processed_at_ms`, charging the
    /// process-wide counters `buckets` (see `process_spec`).
    pub fn process_at(&self, ingested: IngestOutput, processed_at_ms: u64, buckets: &mut RateBuckets) -> (r: ProcessOutput)
        ensures
            ({
                let m = process_spec(self.config().mode, ingested.event, old(buckets).counts());
                &&& r.event.attributes@ == m.attributes
                &&& opt_view(r.event.body) == m.body
                &&& r.event.decision.accepted == m.decision.accepted
                &&& opt_reason_view(r.event.decision.reason) == m.decision.reason
                &&& final(buckets).counts() == m.counts
            }),
            r.event.decision.evidence_ref == ingested.event.decision.evidence_ref,
            r.event.signal_id == ingested.event.signal_id,
            same_envelope(r.event, ingested.event),
            r.ingested_at_ms == ingested.ingested_at_ms,
            r.processed_at_ms == processed_at_ms,
    {
        let mut event = ingested.event;
        let ghost original = event;
        let mode_text = mode_label_text(self.cfg.mode);
        event.attributes.insert(text("signal_pipeline_mode"), string_of(&mode_text));
        event.attributes.insert(text("signal_contract_version"), text("signal.v1"));
        event.attributes.insert(
            text("signal_processor_order"),
            text("redact>filter>sample>rate_limit"),
        );

        let mut accepted = event.decision.accepted;
        let mut reason: Option<SignalReason> = None;
        std::mem::swap(&mut reason, &mut event.decision.reason);
        assert(opt_reason_view(reason) == opt_reason_view(original.decision.reason));
        match validate_context(&event) {
            Some(r) => {
                accepted = false;
                reason = Some(r);
            },
            None => {},
        }
        if matches!(self.cfg.mode, SignalPipelineMode::Off) {
            accepted = false;
            reason = Some(
                crate::observability::processors::make_reason(
                    "signal.pipeline_off",
                    "signal pipeline mode is off",
                    "process",
                ),
            );
        }

        let ghost attrs1 = event.attributes@;
        let redacted = redact_event(&mut event);
        event.attributes.insert(text("signal_redact_applied"), bool_text_exec(redacted));

        if accepted {
            match filter_event(&event) {
                Some(r) => {
                    accepted = false;
                    reason = Some(r);
                },
                None => {},
            }
        }
        event.attributes.insert(text("signal_filter_applied"), text("true"));
        event.attributes.insert(text("signal_filter_rejected"), bool_text_exec(!accepted));

        if accepted {
            match sample_event(&event) {
                Some(r) => {
                    accepted = false;
                    reason = Some(r);
                },
                None => {},
            }
        }
        event.attributes.insert(text("signal_sample_applied"), text("true"));
        let sampled_out = reason_code_starts(&reason, "signal.sampled_out");
        event.attributes.insert(text("signal_sample_rejected"), bool_text_exec(sampled_out));

        if accepted {
            match rate_limit_event(&mut buckets.counts, &event) {
                Some(r) => {
                    accepted = false;
                    reason = Some(r);
                },
                None => {},
            }
        }
        event.attributes.insert(text("signal_rate_limit_applied"), text("true"));
        let limited = reason_code_starts(&reason, "signal.rate_limited");
        event.attributes.insert(text("signal_rate_limit_rejected"), bool_text_exec(limited));

        event.decision.accepted = accepted;
        event.decision.reason = reason;
        ProcessOutput { event, ingested_at_ms: ingested.ingested_at_ms, processed_at_ms }
    }

    /// Processes an ingested signal now (see `process_at`).
    pub fn process(&self, ingested: IngestOutput, buckets: &mut RateBuckets) -> (r: ProcessOutput)
        ensures
            ({
                let m = process_spec(self.config().mode, ingested.event, old(buckets).counts());
                &&& r.event.attributes@ == m.attributes
                &&& opt_view(r.event.body) == m.body
                &&& r.event.decision.accepted == m.decision.accepted
                &&& opt_reason_view(r.event.decision.reason) == m.decision.reason
                &&& final(buckets).counts() == m.counts
            }),
            r.event.decision.evidence_ref == ingested.event.decision.evidence_ref,
            r.event.signal_id == ingested.event.signal_id,
            same_envelope(r.event, ingested.event),
            r.ingested_at_ms == ingested.ingested_at_ms,
    {
        let now = current_time_ms();
        self.process_at(ingested, now, buckets)
    }

    /// Ingests `event` now with sequence number `sequence_no` and queues it
    /// for the next batch; returns the queue length.
    pub fn enqueue(&mut self, event: SignalEvent, sequence_no: u64) -> (r: usize)
        requires
            old(self).pending_events().len() < usize::MAX,
        ensures
            final(self).pending_events().len() == old(self).pending_events().len() + 1,
            final(self).pending_events().drop_last() == old(self).pending_events(),
            exists|at: u64| ingest_rel(event, final(self).pending_events().last(), at, sequence_no),
            r == final(self).pending_events().len(),
            final(self).config() == old(self).config(),
    {
        let ingested = self.ingest(event, sequence_no);
        let ghost at = ingested.ingested_at_ms;
        self.pending.push(ingested.event);
        assert(ingest_rel(event, self.pending@.last(), at, sequence_no));
        assert(self.pending@.drop_last() =~= old(self).pending@);
        self.pending.len()
    }

    /// The size of a batch: the configured size, at least one.
    pub open spec fn batch_size_of(&self) -> nat {
        if self.config().batch_size == 0 {
            1
        } else {
            self.config().batch_size as nat
        }
    }

    /// Takes the first batch off the queue when a full batch is waiting.
    pub fn take_batch(&mut self) -> (r: Option<Vec<SignalEvent>>)
        ensures
            old(self).pending_events().len() < old(self).batch_size_of() ==> r is None
                && final(self).pending_events() == old(self).pending_events(),
            old(self).pending_events().len() >= old(self).batch_size_of() ==> (r matches Some(batch)
                && batch@ == old(self).pending_events().subrange(0, old(self).batch_size_of() as int)
                && final(self).pending_events() == old(self).pending_events().subrange(
                old(self).batch_size_of() as int,
                old(self).pending_events().len() as int,
            )),
            final(self).config() == old(self).config(),
    {
        let batch_size = if self.cfg.batch_size == 0 { 1 } else { self.cfg.batch_size };
        if self.pending.len() < batch_size {
            return None;
        }
        let rest = self.pending.split_off(batch_size);
        let mut batch = rest;
        std::mem::swap(&mut batch, &mut self.pending);
        Some(batch)
    }

    /// Takes every queued signal, leaving the queue empty.
    pub fn take_all(&mut self) -> (r: Vec<SignalEvent>)
        ensures
            r@ == old(self).pending_events(),
            final(self).pending_events().len() == 0,
            final(self).config() == old(self).config(),
    {
        let mut all: Vec<SignalEvent> = Vec::new();
        std::mem::swap(&mut all, &mut self.pending);
        all
    }

    /// Puts signals whose flush failed back at the front of the queue, in order.
    pub fn restore_front(&mut self, events: Vec<SignalEvent>)
        ensures
            final(self).pending_events() == events@ + old(self).pending_events(),
            final(self).config() == old(self).config(),
    {
        let mut front = events;
        let mut back: Vec<SignalEvent> = Vec::new();
        std::mem::swap(&mut back, &mut self.pending);
        front.append(&mut back);
        self.pending = front;
    }
}

/// The keys under which the sink stores one signal.
pub struct SinkKeys {
    pub storage_key: String,
    pub latest_key: String,
    pub query_explain_ref: String,
    pub latest_explain_ref: String,
}

pub open spec fn storage_key_spec(session_id: Seq<char>, persisted_at_ms: u64, signal_id: Seq<char>) -> Seq<char> {
    "signal:events:"@ + session_id + ":"@ + decimal(persisted_at_ms as nat) + ":"@ + signal_id
}

pub open spec fn latest_key_spec(session_id: Seq<char>) -> Seq<char> {
    "signal:events:"@ + session_id + ":latest"@
}

pub open spec fn explain_ref_spec(session_id: Seq<char>, persisted_at_ms: u64, sequence_no: u64) -> Seq<char> {
    "observability:signal-explain:"@ + session_id + ":"@ + decimal(persisted_at_ms as nat) + ":"@
        + decimal(sequence_no as nat)
}

pub open spec fn latest_explain_ref_spec(session_id: Seq<char>) -> Seq<char> {
    "observability:signal-explain:"@ + session_id + ":latest"@
}

/// The keys for a signal of `session_id` stored at `persisted_at_ms`.
pub fn sink_keys(session_id: &str, signal_id: &str, persisted_at_ms: u64, sequence_no: u64) -> (r: SinkKeys)
    ensures
        r.storage_key@ == storage_key_spec(session_id@, persisted_at_ms, signal_id@),
        r.latest_key@ == latest_key_spec(session_id@),
        r.query_explain_ref@ == explain_ref_spec(session_id@, persisted_at_ms, sequence_no),
        r.latest_explain_ref@ == latest_explain_ref_spec(session_id@),
{
    let mut storage = chars_of("signal:events:");
    push_str(&mut storage, session_id);
    push_str(&mut storage, ":");
    push_decimal(&mut storage, persisted_at_ms);
    push_str(&mut storage, ":");
    push_str(&mut storage, signal_id);
    let mut latest = chars_of("signal:events:");
    push_str(&mut latest, session_id);
    push_str(&mut latest, ":latest");
    let mut explain = chars_of("observability:signal-explain:");
    push_str(&mut explain, session_id);
    push_str(&mut explain, ":");
    push_decimal(&mut explain, persisted_at_ms);
    push_str(&mut explain, ":");
    push_decimal(&mut explain, sequence_no);
    let mut latest_explain = chars_of("observability:signal-explain:");
    push_str(&mut latest_explain, session_id);
    push_str(&mut latest_explain, ":latest");
    SinkKeys {
        storage_key: string_of(&storage),
        latest_key: string_of(&latest),
        query_explain_ref: string_of(&explain),
        latest_explain_ref: string_of(&latest_explain),
    }
}

/// What the sink does after a failed write.
pub enum SinkRetryAction {
    /// Wait `backoff_ms`, then make attempt `attempt + 1`.
    Retry { backoff_ms: u64 },
    /// Report the failure after `attempts` attempts.
    GiveUp { attempts: u8 },
}

/// After attempt `attempt` (counted from 1) failed: give up once more than
/// `max_retries` attempts were made, else back off (see `retry_backoff_spec`).
pub fn after_sink_failure(attempt: u8, max_retries: u8, base_backoff_ms: u64) -> (r: SinkRetryAction)
    ensures
        attempt > max_retries ==> r == (SinkRetryAction::GiveUp { attempts: attempt }),
        attempt <= max_retries ==> r == (SinkRetryAction::Retry {
            backoff_ms: crate::observability::processors::retry_backoff_spec(base_backoff_ms, attempt),
        }),
{
    if attempt > max_retries {
        SinkRetryAction::GiveUp { attempts: attempt }
    } else {
        SinkRetryAction::Retry {
            backoff_ms: crate::observability::processors::retry_backoff_ms(base_backoff_ms, attempt),
        }
    }
}

} // verus!
