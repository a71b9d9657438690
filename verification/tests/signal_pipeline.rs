use autoloop_core::clock::current_time_ms;
use autoloop_core::observability::processors::retry_backoff_ms;
use autoloop_core::observability::signal::{
    AttributeMap, SignalContext, SignalDecision, SignalEvent, SignalKind, SignalPipelineConfig,
    SignalPipelineMode,
};
use autoloop_core::observability::signal_pipeline::{RateBuckets, SignalPipeline, SignalSequence};

fn test_event() -> SignalEvent {
    SignalEvent {
        signal_id: String::new(),
        kind: SignalKind::Trace,
        name: "runtime.execute.start".into(),
        context: SignalContext {
            session_id: "session-signal-1".into(),
            trace_id: "trace:signal:1".into(),
            span_id: Some("span:signal:1".into()),
            task_id: Some("task:signal:1".into()),
            capability_id: Some("tool:write_file".into()),
            tenant_id: Some("tenant:test".into()),
            principal_id: Some("operator:test".into()),
        },
        attributes: AttributeMap::new(),
        numeric_value: None,
        body: Some("start".into()),
        decision: SignalDecision {
            accepted: true,
            reason: None,
            evidence_ref: Some("evidence:signal:1".into()),
        },
        emitted_at_ms: current_time_ms(),
    }
}

#[test]
fn signal_pipeline_defaults_to_shadow_mode() {
    let cfg = SignalPipelineConfig::default();
    let pipeline = SignalPipeline::from_config(&cfg);
    assert!(matches!(pipeline.mode(), SignalPipelineMode::Shadow));
}

#[test]
fn process_runs_redact_before_filter() {
    let pipeline = SignalPipeline::from_config(&SignalPipelineConfig::default());
    let mut buckets = RateBuckets::new();
    let mut event = test_event();
    event.body = Some("secret_block=raw-secret".into());
    let ingested = pipeline.ingest(event, 1);
    let processed = pipeline.process(ingested, &mut buckets);

    assert!(!processed.event.decision.accepted);
    assert_eq!(
        processed
            .event
            .decision
            .reason
            .as_ref()
            .map(|item| item.code.as_str()),
        Some("signal.filtered.redacted_block_marker")
    );
    assert_eq!(
        processed.event.body.as_deref(),
        Some("secret_block=[REDACTED:BLOCK]")
    );
    assert_eq!(
        processed
            .event
            .attributes
            .get("signal_processor_order")
            .map(String::as_str),
        Some("redact>filter>sample>rate_limit")
    );
}

#[test]
fn process_redacts_sensitive_content_without_filter_reject() {
    let pipeline = SignalPipeline::from_config(&SignalPipelineConfig::default());
    let mut buckets = RateBuckets::new();
    let mut event = test_event();
    event.body = Some("token=abc123".into());
    let ingested = pipeline.ingest(event, 1);
    let processed = pipeline.process(ingested, &mut buckets);

    assert!(processed.event.decision.accepted);
    assert_eq!(processed.event.body.as_deref(), Some("token=[REDACTED]"));
    assert_eq!(
        processed
            .event
            .attributes
            .get("signal_redact_applied")
            .map(String::as_str),
        Some("true")
    );
    assert_eq!(
        processed
            .event
            .attributes
            .get("signal_filter_rejected")
            .map(String::as_str),
        Some("false")
    );
}

#[test]
fn process_rejects_when_sample_ratio_is_zero() {
    let pipeline = SignalPipeline::from_config(&SignalPipelineConfig::default());
    let mut buckets = RateBuckets::new();
    let mut event = test_event();
    event.attributes.insert("sample_ratio".into(), "0.0".into());

    let ingested = pipeline.ingest(event, 1);
    let processed = pipeline.process(ingested, &mut buckets);
    assert!(!processed.event.decision.accepted);
    assert_eq!(
        processed
            .event
            .decision
            .reason
            .as_ref()
            .map(|item| item.code.as_str()),
        Some("signal.sampled_out.zero_ratio")
    );
}

#[test]
fn process_rejects_when_rate_limit_exceeded() {
    let pipeline = SignalPipeline::from_config(&SignalPipelineConfig::default());
    let mut buckets = RateBuckets::new();
    let base_ms = current_time_ms();

    let mut event_a = test_event();
    event_a.signal_id = format!("signal-rate-limit-a-{base_ms}");
    event_a.name = format!("runtime.execute.rate-limit-{base_ms}");
    event_a.emitted_at_ms = base_ms;
    event_a
        .attributes
        .insert("rate_limit_per_minute".into(), "1".into());
    let ingested_a = pipeline.ingest(event_a, 1);
    let first = pipeline.process(ingested_a, &mut buckets);
    assert!(first.event.decision.accepted);

    let mut event_b = test_event();
    event_b.signal_id = format!("signal-rate-limit-b-{base_ms}");
    event_b.name = format!("runtime.execute.rate-limit-{base_ms}");
    event_b.emitted_at_ms = base_ms + 1;
    event_b
        .attributes
        .insert("rate_limit_per_minute".into(), "1".into());
    let ingested_b = pipeline.ingest(event_b, 2);
    let second = pipeline.process(ingested_b, &mut buckets);
    assert!(!second.event.decision.accepted);
    assert_eq!(
        second
            .event
            .decision
            .reason
            .as_ref()
            .map(|item| item.code.as_str()),
        Some("signal.rate_limited.per_minute")
    );
}

#[test]
fn retry_backoff_is_exponential() {
    assert_eq!(retry_backoff_ms(25, 1), 25);
    assert_eq!(retry_backoff_ms(25, 2), 50);
    assert_eq!(retry_backoff_ms(25, 3), 100);
}

#[test]
fn ingest_records_the_sequence_number_it_is_given() {
    let first = SignalPipeline::from_config(&SignalPipelineConfig::default());
    let second = SignalPipeline::from_config(&SignalPipelineConfig::default());
    let a = first.ingest(test_event(), 41);
    let b = second.ingest(test_event(), 42);
    assert_eq!(a.event.attributes.get("signal_sequence_no").map(String::as_str), Some("41"));
    assert_eq!(b.event.attributes.get("signal_sequence_no").map(String::as_str), Some("42"));
    assert!(a.event.signal_id.starts_with("signal:session-signal-1:trace:signal:1:"));

    let mut preset = test_event();
    preset.attributes.insert("signal_sequence_no".into(), "7".into());
    let kept = first.ingest(preset, 43);
    assert_eq!(kept.event.attributes.get("signal_sequence_no").map(String::as_str), Some("7"));
}

#[test]
fn rate_limit_counters_are_shared_between_pipelines() {
    let first = SignalPipeline::from_config(&SignalPipelineConfig::default());
    let second = SignalPipeline::from_config(&SignalPipelineConfig::default());
    let mut buckets = RateBuckets::new();
    let base_ms = 1_200_000u64;
    let mut event_a = test_event();
    event_a.name = "runtime.execute.shared".into();
    event_a.emitted_at_ms = base_ms;
    event_a.attributes.insert("rate_limit_per_minute".into(), "1".into());
    let mut event_b = test_event();
    event_b.name = "runtime.execute.shared".into();
    event_b.emitted_at_ms = base_ms + 1;
    event_b.attributes.insert("rate_limit_per_minute".into(), "1".into());
    let a = first.process(first.ingest(event_a, 1), &mut buckets);
    let b = second.process(second.ingest(event_b, 2), &mut buckets);
    assert!(a.event.decision.accepted);
    assert!(!b.event.decision.accepted);
    assert_eq!(
        b.event.attributes.get("signal_rate_limit_rejected").map(String::as_str),
        Some("true")
    );
    assert_eq!(buckets.count("session-signal-1:runtime.execute.shared:20"), Some(2));
}

#[test]
fn pipeline_off_rejects_without_charging() {
    let mut cfg = SignalPipelineConfig::default();
    cfg.mode = SignalPipelineMode::Off;
    let pipeline = SignalPipeline::from_config(&cfg);
    let mut buckets = RateBuckets::new();
    let out = pipeline.process(pipeline.ingest(test_event(), 1), &mut buckets);
    assert!(!out.event.decision.accepted);
    assert_eq!(
        out.event.decision.reason.as_ref().map(|r| r.code.as_str()),
        Some("signal.pipeline_off")
    );
    assert_eq!(out.event.attributes.get("signal_pipeline_mode").map(String::as_str), Some("off"));
    assert_eq!(buckets.count("session-signal-1:runtime.execute.start:0"), None);
}

#[test]
fn enqueue_queues_the_ingested_signal() {
    let mut pipeline = SignalPipeline::from_config(&SignalPipelineConfig::default());
    assert_eq!(pipeline.enqueue(test_event(), 5), 1);
    assert_eq!(pipeline.enqueue(test_event(), 6), 2);
    let all = pipeline.take_all();
    assert_eq!(all.len(), 2);
    assert_eq!(all[1].attributes.get("signal_sequence_no").map(String::as_str), Some("6"));
    assert_eq!(pipeline.pending_len(), 0);
}

#[test]
fn sensitive_attributes_come_out_masked() {
    let pipeline = SignalPipeline::from_config(&SignalPipelineConfig::default());
    let mut buckets = RateBuckets::new();
    let mut event = test_event();
    event.attributes.insert("Api_Token".into(), "abc".into());
    event.attributes.insert("region".into(), "eu".into());
    let out = pipeline.process(pipeline.ingest(event, 9), &mut buckets);
    assert_eq!(out.event.attributes.get("Api_Token").map(String::as_str), Some("[REDACTED]"));
    assert_eq!(out.event.attributes.get("region").map(String::as_str), Some("eu"));
    assert_eq!(out.event.attributes.get("signal_redact_applied").map(String::as_str), Some("true"));
}

#[test]
fn sequence_numbers_grow_across_pipelines() {
    let mut sequence = SignalSequence::new();
    let first = SignalPipeline::from_config(&SignalPipelineConfig::default());
    let second = SignalPipeline::from_config(&SignalPipelineConfig::default());
    let a = first.ingest_numbered(test_event(), &mut sequence);
    let b = second.ingest_numbered(test_event(), &mut sequence);
    assert_eq!(a.event.attributes.get("signal_sequence_no").map(String::as_str), Some("1"));
    assert_eq!(b.event.attributes.get("signal_sequence_no").map(String::as_str), Some("2"));
    assert_eq!(sequence.take(), 3);
}
