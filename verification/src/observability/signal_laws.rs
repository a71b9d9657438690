//! What holds of the signal pipeline across calls: retries back off
//! exponentially, a minute's bucket admits exactly its limit, a batch handed
//! back after a failed flush leaves the queue as it was, and what processing
//! decides of every signal.
use vstd::prelude::*;

use crate::observability::processors::{
    attribute_redacted, block_marker, filter_spec, pow2, reason_view, rate_bucket_key, rate_limit_of, rate_limit_spec, rate_limited_reason,
    redact_attributes_spec, redact_body_spec, redacted_attribute, redaction_changed, retry_backoff_spec, validate_context_spec,
};
use crate::observability::signal::{mode_label, opt_reason_view, opt_view, SignalEvent, SignalPipelineMode};
use crate::observability::signal_pipeline::{
    bool_text, pipeline_off_reason, process_spec, redacted_attrs, stamped_attrs, staged_spec,
};
use crate::observability::redact::{bearer_pattern, is_sensitive_key_spec, redact_text_spec};
use crate::text::{contains, find, lemma_find_from_props, lower, lower_char, starts_with, trim};

verus! {

/// Each retry after the first waits twice as long as the one before, up to
/// the tenth doubling, as long as the delay fits in a `u64`.
pub proof fn law_retry_backoff_doubles(base_ms: u64, attempt: u8)
    requires
        1 <= attempt <= 10,
        base_ms * pow2(attempt as nat) <= u64::MAX,
    ensures
        retry_backoff_spec(base_ms, (attempt + 1) as u8) == 2 * retry_backoff_spec(base_ms, attempt),
{
    let k = (attempt - 1) as nat;
    assert(pow2(k + 1) == 2 * pow2(k));
    assert(base_ms * pow2(k + 1) == 2 * (base_ms * pow2(k))) by (nonlinear_arith)
        requires
            pow2(k + 1) == 2 * pow2(k),
    ;
    assert(((attempt + 1) as u8 - 1) as nat == k + 1);
}

/// The first two attempts wait the base delay; from the eleventh on the delay
/// stops growing.
pub proof fn law_retry_backoff_bounds(base_ms: u64, attempt: u8)
    ensures
        retry_backoff_spec(base_ms, 0) == base_ms,
        retry_backoff_spec(base_ms, 1) == base_ms,
        attempt >= 11 ==> retry_backoff_spec(base_ms, attempt) == retry_backoff_spec(base_ms, 11),
{
    assert(pow2(0) == 1);
}

/// The decisions for `n` signals charged one after another to one bucket:
/// `true` where the signal passes.
pub open spec fn rate_limit_run(limit: nat, key: Seq<char>, counts: Map<Seq<char>, u32>, n: nat) -> (Seq<bool>, Map<Seq<char>, u32>)
    decreases n,
{
    if n == 0 {
        (Seq::empty(), counts)
    } else {
        let (passed, after) = rate_limit_run(limit, key, counts, (n - 1) as nat);
        let (reason, next) = rate_limit_spec(limit, key, after);
        (passed.push(reason is None), next)
    }
}

proof fn lemma_rate_limit_run(limit: nat, key: Seq<char>, n: nat)
    requires
        0 < limit,
        n <= u32::MAX,
    ensures
        rate_limit_run(limit, key, Map::empty(), n).0.len() == n,
        rate_limit_run(limit, key, Map::empty(), n).1.contains_key(key) <==> n > 0,
        n > 0 ==> rate_limit_run(limit, key, Map::empty(), n).1[key] == n,
        forall|i: int| 0 <= i < n ==> (#[trigger] rate_limit_run(limit, key, Map::empty(), n).0[i] <==> i < limit),
    decreases n,
{
    if n > 0 {
        lemma_rate_limit_run(limit, key, (n - 1) as nat);
        let (passed, after) = rate_limit_run(limit, key, Map::empty(), (n - 1) as nat);
        let (reason, next) = rate_limit_spec(limit, key, after);
        assert forall|i: int| 0 <= i < n implies (#[trigger] rate_limit_run(limit, key, Map::empty(), n).0[i] <==> i
            < limit) by {
            if i < n - 1 {
                assert(rate_limit_run(limit, key, Map::empty(), n).0[i] == passed[i]);
            } else {
                assert(rate_limit_run(limit, key, Map::empty(), n).0[i] == (reason is None));
            }
        }
    }
}

/// Of the signals charged to one fresh per-minute bucket with a positive
/// limit, exactly the first `limit` pass and every later one is refused.
pub proof fn law_rate_limit_admits_exactly_limit(limit: nat, key: Seq<char>, n: nat)
    requires
        0 < limit,
        n <= u32::MAX,
    ensures
        rate_limit_run(limit, key, Map::empty(), n).0.len() == n,
        forall|i: int| 0 <= i < n ==> (#[trigger] rate_limit_run(limit, key, Map::empty(), n).0[i] <==> i < limit),
{
    lemma_rate_limit_run(limit, key, n);
}

/// A zero limit refuses every signal and charges nothing.
pub proof fn law_rate_limit_zero_refuses(key: Seq<char>, counts: Map<Seq<char>, u32>)
    ensures
        rate_limit_spec(0, key, counts).0 is Some,
        rate_limit_spec(0, key, counts).1 == counts,
{
}

/// Taking the first `batch` signals off a queue and, after a failed flush,
/// putting them back at the front (`take_batch`, then `restore_front`) leaves
/// the queue as it was.
pub proof fn law_failed_batch_is_restored(pending: Seq<SignalEvent>, batch: nat)
    requires
        batch <= pending.len(),
    ensures
        pending.subrange(0, batch as int) + pending.subrange(batch as int, pending.len() as int) == pending,
{
    assert(pending.subrange(0, batch as int) + pending.subrange(batch as int, pending.len() as int) =~= pending);
}

/// With the pipeline off, every signal is rejected as such, no rate counter
/// is charged, and the signal carries the mode `off`.
pub proof fn law_pipeline_off_rejects_every_signal(event: SignalEvent, counts: Map<Seq<char>, u32>)
    ensures
        !process_spec(SignalPipelineMode::Off, event, counts).decision.accepted,
        process_spec(SignalPipelineMode::Off, event, counts).decision.reason == Some(pipeline_off_reason()),
        process_spec(SignalPipelineMode::Off, event, counts).counts == counts,
        process_spec(SignalPipelineMode::Off, event, counts).attributes["signal_pipeline_mode"@] == "off"@,
{
    lemma_pipeline_names_not_sensitive();
    reveal_strlit("off");
    lemma_short_text_unredacted("off"@);
    assert(redacted_attribute("signal_pipeline_mode"@, "off"@) == "off"@);
    reveal_strlit("signal_pipeline_mode");
    reveal_strlit("signal_contract_version");
    reveal_strlit("signal_processor_order");
    reveal_strlit("signal_redact_applied");
    reveal_strlit("signal_filter_applied");
    reveal_strlit("signal_filter_rejected");
    reveal_strlit("signal_sample_applied");
    reveal_strlit("signal_sample_rejected");
    reveal_strlit("signal_rate_limit_applied");
    reveal_strlit("signal_rate_limit_rejected");
    reveal_strlit("off");
}

/// A signal comes out accepted only if it went in accepted, the pipeline is
/// not off, its context is complete and the filter passes its redacted form;
/// its reason is then the one it came in with.
pub proof fn law_accepted_signal_passed_every_check(
    mode: SignalPipelineMode,
    event: SignalEvent,
    counts: Map<Seq<char>, u32>,
)
    ensures
        process_spec(mode, event, counts).decision.accepted ==> {
            &&& event.decision.accepted
            &&& mode != SignalPipelineMode::Off
            &&& validate_context_spec(event) is None
            &&& filter_spec(event.name@, redact_body_spec(opt_view(event.body)), redacted_attrs(mode, event)) is None
            &&& process_spec(mode, event, counts).decision.reason == opt_reason_view(event.decision.reason)
        },
{
}

/// A signal that reaches the rate limit while its bucket has room passes it,
/// and its bucket is charged once.
pub proof fn law_rate_limit_admits_while_room(mode: SignalPipelineMode, event: SignalEvent, counts: Map<Seq<char>, u32>)
    requires
        staged_spec(mode, event).decision.accepted,
        rate_limit_of(staged_spec(mode, event).attributes) > 0,
        ({
            let key = rate_bucket_key(event.context.session_id@, event.name@, event.emitted_at_ms);
            counts.contains_key(key) ==> counts[key] < rate_limit_of(staged_spec(mode, event).attributes)
        }),
    ensures
        ({
            let key = rate_bucket_key(event.context.session_id@, event.name@, event.emitted_at_ms);
            let m = process_spec(mode, event, counts);
            &&& m.decision.accepted
            &&& m.counts == counts.insert(key, (if counts.contains_key(key) { counts[key] + 1 } else { 1 }) as u32)
        }),
{
}

/// A signal that reaches the rate limit when its bucket already holds its
/// limit is refused as rate limited, and says so in its attributes.
pub proof fn law_rate_limit_refuses_full_bucket(mode: SignalPipelineMode, event: SignalEvent, counts: Map<Seq<char>, u32>)
    requires
        staged_spec(mode, event).decision.accepted,
        rate_limit_of(staged_spec(mode, event).attributes) > 0,
        ({
            let key = rate_bucket_key(event.context.session_id@, event.name@, event.emitted_at_ms);
            &&& counts.contains_key(key)
            &&& counts[key] >= rate_limit_of(staged_spec(mode, event).attributes)
            &&& counts[key] < u32::MAX
        }),
    ensures
        !process_spec(mode, event, counts).decision.accepted,
        process_spec(mode, event, counts).decision.reason == Some(
            rate_limited_reason(rate_limit_of(staged_spec(mode, event).attributes)),
        ),
        process_spec(mode, event, counts).attributes["signal_rate_limit_rejected"@] == "true"@,
{
    let l = rate_limit_of(staged_spec(mode, event).attributes);
    reveal_strlit("signal.rate_limited.per_minute");
    reveal_strlit("signal.rate_limited");
    assert(starts_with(rate_limited_reason(l).code, "signal.rate_limited"@)) by {
        assert("signal.rate_limited.per_minute"@.subrange(0, 19) =~= "signal.rate_limited"@);
    }
}

/// Two signals charged to one fresh bucket with a limit of one: the first
/// passes the rate limit and the second is refused.
pub proof fn law_rate_limit_of_one_refuses_the_second(
    mode: SignalPipelineMode,
    a: SignalEvent,
    b: SignalEvent,
    counts: Map<Seq<char>, u32>,
)
    requires
        staged_spec(mode, a).decision.accepted,
        staged_spec(mode, b).decision.accepted,
        rate_limit_of(staged_spec(mode, a).attributes) == 1,
        rate_limit_of(staged_spec(mode, b).attributes) == 1,
        rate_bucket_key(a.context.session_id@, a.name@, a.emitted_at_ms) == rate_bucket_key(
            b.context.session_id@,
            b.name@,
            b.emitted_at_ms,
        ),
        !counts.contains_key(rate_bucket_key(a.context.session_id@, a.name@, a.emitted_at_ms)),
    ensures
        process_spec(mode, a, counts).decision.accepted,
        !process_spec(mode, b, process_spec(mode, a, counts).counts).decision.accepted,
        process_spec(mode, b, process_spec(mode, a, counts).counts).decision.reason == Some(rate_limited_reason(1)),
        process_spec(mode, b, process_spec(mode, a, counts).counts).attributes["signal_rate_limit_rejected"@]
            == "true"@,
{
    law_rate_limit_admits_while_room(mode, a, counts);
    law_rate_limit_refuses_full_bucket(mode, b, process_spec(mode, a, counts).counts);
}


/// Redaction leaves a text shorter than every pattern it looks for as it is.
proof fn lemma_short_text_unredacted(v: Seq<char>)
    requires
        v.len() < 6,
    ensures
        redact_text_spec(v).0 == v,
{
    reveal_strlit("api_key=");
    reveal_strlit("token=");
    reveal_strlit("secret_block=");
    reveal_strlit("authorization: bearer ");
    assert(lower(v).len() == v.len());
    assert(lower("api_key="@).len() == 8);
    assert(lower("token="@).len() == 6);
    assert(lower("secret_block="@).len() == 13);
    assert(lower(bearer_pattern()).len() == 22);
}

/// Text with no `=`, `:` or `[`: redaction has nothing to mask in it, and it
/// cannot hold the redacted-block marker.
pub open spec fn plain_text(v: Seq<char>) -> bool {
    forall|i: int| 0 <= i < v.len() ==> #[trigger] v[i] != '=' && v[i] != ':' && v[i] != '['
}

/// Redaction leaves plain text as it is, and plain text holds no block marker.
proof fn lemma_plain_unredacted(v: Seq<char>)
    requires
        plain_text(v),
    ensures
        redact_text_spec(v).0 == v,
        !contains(v, block_marker()),
{
    reveal_strlit("api_key=");
    reveal_strlit("token=");
    reveal_strlit("secret_block=");
    reveal_strlit("authorization: bearer ");
    reveal_strlit("[REDACTED:BLOCK]");
    let lv = lower(v);
    assert forall|i: int| 0 <= i < lv.len() implies lv[i] != '=' && lv[i] != ':' by {
        assert(lv[i] == lower_char(v[i]));
    }
    assert(lower("api_key="@)[7] == '=');
    assert(lower("token="@)[5] == '=');
    assert(lower("secret_block="@)[12] == '=');
    assert(lower(bearer_pattern())[13] == ':');
    lemma_missing_char(lv, lower("api_key="@), 7);
    lemma_missing_char(lv, lower("token="@), 5);
    lemma_missing_char(lv, lower("secret_block="@), 12);
    lemma_missing_char(lv, lower(bearer_pattern()), 13);
    assert(block_marker()[0] == '[');
    lemma_missing_char(v, block_marker(), 0);
}

/// The texts the pipeline itself records are plain.
proof fn lemma_recorded_values_plain(mode: SignalPipelineMode)
    ensures
        plain_text(mode_label(mode)),
        plain_text("signal.v1"@),
        plain_text("redact>filter>sample>rate_limit"@),
        plain_text("true"@),
        plain_text("false"@),
{
    reveal_strlit("off");
    reveal_strlit("shadow");
    reveal_strlit("enforce");
    reveal_strlit("signal.v1");
    reveal_strlit("redact>filter>sample>rate_limit");
    reveal_strlit("true");
    reveal_strlit("false");
    assert forall|i: int| 0 <= i < 3 implies #[trigger] "off"@[i] != '=' && "off"@[i] != ':' && "off"@[i] != '[' by {
        if i == 0 {} else if i == 1 {} else if i == 2 {}
    }
    assert forall|i: int| 0 <= i < 6 implies #[trigger] "shadow"@[i] != '=' && "shadow"@[i] != ':' && "shadow"@[i] != '[' by {
        if i == 0 {} else if i == 1 {} else if i == 2 {} else if i == 3 {} else if i == 4 {} else if i == 5 {}
    }
    assert forall|i: int| 0 <= i < 7 implies #[trigger] "enforce"@[i] != '=' && "enforce"@[i] != ':' && "enforce"@[i] != '[' by {
        if i == 0 {} else if i == 1 {} else if i == 2 {} else if i == 3 {} else if i == 4 {} else if i == 5 {} else if i == 6 {}
    }
    assert forall|i: int| 0 <= i < 9 implies #[trigger] "signal.v1"@[i] != '=' && "signal.v1"@[i] != ':' && "signal.v1"@[i] != '[' by {
        if i == 0 {} else if i == 1 {} else if i == 2 {} else if i == 3 {} else if i == 4 {} else if i == 5 {} else if i == 6 {} else if i == 7 {} else if i == 8 {}
    }
    assert forall|i: int| 0 <= i < 31 implies #[trigger] "redact>filter>sample>rate_limit"@[i] != '=' && "redact>filter>sample>rate_limit"@[i] != ':' && "redact>filter>sample>rate_limit"@[i] != '[' by {
        if i == 0 {} else if i == 1 {} else if i == 2 {} else if i == 3 {} else if i == 4 {} else if i == 5 {} else if i == 6 {} else if i == 7 {} else if i == 8 {} else if i == 9 {} else if i == 10 {} else if i == 11 {} else if i == 12 {} else if i == 13 {} else if i == 14 {} else if i == 15 {} else if i == 16 {} else if i == 17 {} else if i == 18 {} else if i == 19 {} else if i == 20 {} else if i == 21 {} else if i == 22 {} else if i == 23 {} else if i == 24 {} else if i == 25 {} else if i == 26 {} else if i == 27 {} else if i == 28 {} else if i == 29 {} else if i == 30 {}
    }
    assert forall|i: int| 0 <= i < 4 implies #[trigger] "true"@[i] != '=' && "true"@[i] != ':' && "true"@[i] != '[' by {
        if i == 0 {} else if i == 1 {} else if i == 2 {} else if i == 3 {}
    }
    assert forall|i: int| 0 <= i < 5 implies #[trigger] "false"@[i] != '=' && "false"@[i] != ':' && "false"@[i] != '[' by {
        if i == 0 {} else if i == 1 {} else if i == 2 {} else if i == 3 {} else if i == 4 {}
    }
}

/// A plain signal: accepted on arrival, with a session, a trace and a name,
/// a name outside the internal drop prefix, a plain body, no sampling ratio,
/// and attributes whose names mark no secret and whose values are plain.
pub open spec fn plain_signal(event: SignalEvent) -> bool {
    &&& event.decision.accepted
    &&& validate_context_spec(event) is None
    &&& !starts_with(event.name@, "signal.internal.drop."@)
    &&& (event.body matches Some(b) ==> plain_text(b@))
    &&& !event.attributes@.contains_key("sample_ratio"@)
    &&& forall|k: Seq<char>|
        #[trigger] event.attributes@.contains_key(k) ==> !is_sensitive_key_spec(k) && plain_text(event.attributes@[k])
}

/// A plain signal passes the checks, the filter and the sampler, and reaches
/// the rate limit accepted, asking for the limit it carries.
pub proof fn law_plain_signal_reaches_rate_limit(mode: SignalPipelineMode, event: SignalEvent)
    requires
        mode != SignalPipelineMode::Off,
        plain_signal(event),
    ensures
        staged_spec(mode, event).decision.accepted,
        rate_limit_of(staged_spec(mode, event).attributes) == rate_limit_of(event.attributes@),
{
    lemma_pipeline_names_not_sensitive();
    lemma_recorded_values_plain(mode);
    lemma_plain_unredacted(mode_label(mode));
    lemma_plain_unredacted("signal.v1"@);
    lemma_plain_unredacted("redact>filter>sample>rate_limit"@);
    lemma_plain_unredacted("true"@);
    lemma_plain_unredacted("false"@);
    reveal_strlit("signal_pipeline_mode");
    reveal_strlit("signal_contract_version");
    reveal_strlit("signal_processor_order");
    reveal_strlit("signal_redact_applied");
    reveal_strlit("signal_filter_applied");
    reveal_strlit("signal_filter_rejected");
    reveal_strlit("signal_sample_applied");
    reveal_strlit("signal_sample_rejected");
    reveal_strlit("sample_ratio");
    reveal_strlit("rate_limit_per_minute");
    let attrs1 = stamped_attrs(mode, event);
    let attrs3 = redacted_attrs(mode, event);
    let body = redact_body_spec(opt_view(event.body));
    // The pipeline's own names are distinct from the two it reads.
    assert("sample_ratio"@[1] != "signal_pipeline_mode"@[1]);
    assert("sample_ratio"@ != "signal_pipeline_mode"@);
    assert("sample_ratio"@ != "signal_contract_version"@) by { assert("sample_ratio"@[1] != "signal_contract_version"@[1]); }
    assert("sample_ratio"@ != "signal_processor_order"@) by { assert("sample_ratio"@[1] != "signal_processor_order"@[1]); }
    assert("sample_ratio"@ != "signal_redact_applied"@) by { assert("sample_ratio"@[1] != "signal_redact_applied"@[1]); }
    assert("sample_ratio"@ != "signal_filter_applied"@) by { assert("sample_ratio"@[1] != "signal_filter_applied"@[1]); }
    assert("sample_ratio"@ != "signal_filter_rejected"@) by { assert("sample_ratio"@[1] != "signal_filter_rejected"@[1]); }
    assert("rate_limit_per_minute"@ != "signal_pipeline_mode"@) by { assert("rate_limit_per_minute"@[0] != "signal_pipeline_mode"@[0]); }
    assert("rate_limit_per_minute"@ != "signal_contract_version"@) by { assert("rate_limit_per_minute"@[0] != "signal_contract_version"@[0]); }
    assert("rate_limit_per_minute"@ != "signal_processor_order"@) by { assert("rate_limit_per_minute"@[0] != "signal_processor_order"@[0]); }
    assert("rate_limit_per_minute"@ != "signal_redact_applied"@) by { assert("rate_limit_per_minute"@[0] != "signal_redact_applied"@[0]); }
    assert("rate_limit_per_minute"@ != "signal_filter_applied"@) by { assert("rate_limit_per_minute"@[0] != "signal_filter_applied"@[0]); }
    assert("rate_limit_per_minute"@ != "signal_filter_rejected"@) by { assert("rate_limit_per_minute"@[0] != "signal_filter_rejected"@[0]); }
    assert("rate_limit_per_minute"@ != "signal_sample_applied"@) by { assert("rate_limit_per_minute"@[0] != "signal_sample_applied"@[0]); }
    assert("rate_limit_per_minute"@ != "signal_sample_rejected"@) by { assert("rate_limit_per_minute"@[0] != "signal_sample_rejected"@[0]); }
    // Every value the filter reads is plain after redaction.
    assert forall|k: Seq<char>| attrs1.contains_key(k) implies redacted_attribute(k, attrs1[k]) == attrs1[k] && plain_text(attrs1[k]) by {
        if k == "signal_processor_order"@ {
        } else if k == "signal_contract_version"@ {
        } else if k == "signal_pipeline_mode"@ {
        } else {
            assert(event.attributes@.contains_key(k));
            lemma_plain_unredacted(event.attributes@[k]);
        }
    }
    assert forall|k: Seq<char>| attrs3.contains_key(k) implies !contains(#[trigger] attrs3[k], block_marker()) by {
        if k == "signal_redact_applied"@ {
            lemma_plain_unredacted("true"@);
            lemma_plain_unredacted("false"@);
        } else {
            assert(attrs1.contains_key(k));
            lemma_plain_unredacted(attrs1[k]);
        }
    }
    match event.body {
        Some(b) => {
            lemma_plain_unredacted(b@);
        },
        None => {},
    }
    reveal_strlit("[REDACTED:BLOCK]");
    let btext = match body {
        Some(x) => x,
        None => Seq::<char>::empty(),
    };
    assert(!contains(btext, block_marker()));
    assert(!exists|k: Seq<char>| attrs3.contains_key(k) && contains(#[trigger] attrs3[k], block_marker()));
    assert(filter_spec(event.name@, body, attrs3) is None);
    if event.attributes@.contains_key("rate_limit_per_minute"@) {
        assert(staged_spec(mode, event).attributes["rate_limit_per_minute"@] == event.attributes@["rate_limit_per_minute"@]);
    }
}

/// Two plain signals with a limit of one, charged to one fresh bucket: the
/// first passes the pipeline and the second is refused as rate limited.
pub proof fn law_plain_signals_rate_limited_to_one(
    mode: SignalPipelineMode,
    a: SignalEvent,
    b: SignalEvent,
    counts: Map<Seq<char>, u32>,
)
    requires
        mode != SignalPipelineMode::Off,
        plain_signal(a),
        plain_signal(b),
        rate_limit_of(a.attributes@) == 1,
        rate_limit_of(b.attributes@) == 1,
        rate_bucket_key(a.context.session_id@, a.name@, a.emitted_at_ms) == rate_bucket_key(
            b.context.session_id@,
            b.name@,
            b.emitted_at_ms,
        ),
        !counts.contains_key(rate_bucket_key(a.context.session_id@, a.name@, a.emitted_at_ms)),
    ensures
        process_spec(mode, a, counts).decision.accepted,
        !process_spec(mode, b, process_spec(mode, a, counts).counts).decision.accepted,
        process_spec(mode, b, process_spec(mode, a, counts).counts).decision.reason == Some(rate_limited_reason(1)),
        process_spec(mode, b, process_spec(mode, a, counts).counts).attributes["signal_rate_limit_rejected"@]
            == "true"@,
{
    law_plain_signal_reaches_rate_limit(mode, a);
    law_plain_signal_reaches_rate_limit(mode, b);
    law_rate_limit_of_one_refuses_the_second(mode, a, b, counts);
}

/// `p` does not occur in `s` when `s` lacks one of its characters.
proof fn lemma_missing_char(s: Seq<char>, p: Seq<char>, m: int)
    requires
        0 <= m < p.len(),
        forall|i: int| 0 <= i < s.len() ==> s[i] != p[m],
    ensures
        !contains(s, p),
{
    lemma_find_from_props(s, p, 0);
    if let Some(k) = find(s, p) {
        assert(s.subrange(k, k + p.len())[m] == s[k + m]);
    }
}

/// `p` does not occur in `s` when `s` never holds two of its neighbouring
/// characters side by side.
proof fn lemma_missing_pair(s: Seq<char>, p: Seq<char>, m: int)
    requires
        0 <= m < p.len() - 1,
        forall|i: int| 0 <= i < s.len() - 1 ==> !(#[trigger] s[i] == p[m] && s[i + 1] == p[m + 1]),
    ensures
        !contains(s, p),
{
    lemma_find_from_props(s, p, 0);
    if let Some(k) = find(s, p) {
        assert(s.subrange(k, k + p.len())[m] == s[k + m]);
        assert(s.subrange(k, k + p.len())[m + 1] == s[k + m + 1]);
    }
}

/// A name is no secret's when, lower-cased, it holds no `k`, `z` or `w` and
/// no `c` followed by `r`: every secret marker has one of these.
proof fn lemma_not_sensitive(key: Seq<char>)
    requires
        forall|i: int|
            0 <= i < lower(key).len() ==> lower(key)[i] != 'k' && lower(key)[i] != 'z' && lower(key)[i] != 'w',
        forall|i: int| 0 <= i < lower(key).len() - 1 ==> !(#[trigger] lower(key)[i] == 'c' && lower(key)[i + 1] == 'r'),
    ensures
        !is_sensitive_key_spec(key),
{
    reveal_strlit("api_key");
    reveal_strlit("token");
    reveal_strlit("authorization");
    reveal_strlit("secret");
    reveal_strlit("password");
    let s = lower(key);
    lemma_missing_char(s, "api_key"@, 4);
    lemma_missing_char(s, "token"@, 2);
    lemma_missing_char(s, "authorization"@, 7);
    lemma_missing_char(s, "password"@, 4);
    lemma_missing_pair(s, "secret"@, 2);
}

/// None of the names the pipeline records on a signal marks a secret.
pub proof fn lemma_pipeline_names_not_sensitive()
    ensures
        !is_sensitive_key_spec("signal_pipeline_mode"@),
        !is_sensitive_key_spec("signal_contract_version"@),
        !is_sensitive_key_spec("signal_processor_order"@),
        !is_sensitive_key_spec("signal_redact_applied"@),
        !is_sensitive_key_spec("signal_filter_applied"@),
        !is_sensitive_key_spec("signal_filter_rejected"@),
        !is_sensitive_key_spec("signal_sample_applied"@),
        !is_sensitive_key_spec("signal_sample_rejected"@),
        !is_sensitive_key_spec("signal_rate_limit_applied"@),
        !is_sensitive_key_spec("signal_rate_limit_rejected"@),
{
    assert(!is_sensitive_key_spec("signal_pipeline_mode"@)) by {
        reveal_strlit("signal_pipeline_mode");
        let s = lower("signal_pipeline_mode"@);
        assert(s.len() == 20);
        assert forall|i: int| 0 <= i < 20 implies s[i] != 'k' && s[i] != 'z' && s[i] != 'w' by {
            if i == 0 {} else if i == 1 {} else if i == 2 {} else if i == 3 {} else if i == 4 {} else if i == 5 {} else if i == 6 {} else if i == 7 {} else if i == 8 {} else if i == 9 {} else if i == 10 {} else if i == 11 {} else if i == 12 {} else if i == 13 {} else if i == 14 {} else if i == 15 {} else if i == 16 {} else if i == 17 {} else if i == 18 {} else if i == 19 {}
        }
        assert forall|i: int| 0 <= i < 19 implies !(#[trigger] s[i] == 'c' && s[i + 1] == 'r') by {
            if i == 0 {} else if i == 1 {} else if i == 2 {} else if i == 3 {} else if i == 4 {} else if i == 5 {} else if i == 6 {} else if i == 7 {} else if i == 8 {} else if i == 9 {} else if i == 10 {} else if i == 11 {} else if i == 12 {} else if i == 13 {} else if i == 14 {} else if i == 15 {} else if i == 16 {} else if i == 17 {} else if i == 18 {} else if i == 19 {}
        }
        lemma_not_sensitive("signal_pipeline_mode"@);
    }
    assert(!is_sensitive_key_spec("signal_contract_version"@)) by {
        reveal_strlit("signal_contract_version");
        let s = lower("signal_contract_version"@);
        assert(s.len() == 23);
        assert forall|i: int| 0 <= i < 23 implies s[i] != 'k' && s[i] != 'z' && s[i] != 'w' by {
            if i == 0 {} else if i == 1 {} else if i == 2 {} else if i == 3 {} else if i == 4 {} else if i == 5 {} else if i == 6 {} else if i == 7 {} else if i == 8 {} else if i == 9 {} else if i == 10 {} else if i == 11 {} else if i == 12 {} else if i == 13 {} else if i == 14 {} else if i == 15 {} else if i == 16 {} else if i == 17 {} else if i == 18 {} else if i == 19 {} else if i == 20 {} else if i == 21 {} else if i == 22 {}
        }
        assert forall|i: int| 0 <= i < 22 implies !(#[trigger] s[i] == 'c' && s[i + 1] == 'r') by {
            if i == 0 {} else if i == 1 {} else if i == 2 {} else if i == 3 {} else if i == 4 {} else if i == 5 {} else if i == 6 {} else if i == 7 {} else if i == 8 {} else if i == 9 {} else if i == 10 {} else if i == 11 {} else if i == 12 {} else if i == 13 {} else if i == 14 {} else if i == 15 {} else if i == 16 {} else if i == 17 {} else if i == 18 {} else if i == 19 {} else if i == 20 {} else if i == 21 {} else if i == 22 {}
        }
        lemma_not_sensitive("signal_contract_version"@);
    }
    assert(!is_sensitive_key_spec("signal_processor_order"@)) by {
        reveal_strlit("signal_processor_order");
        let s = lower("signal_processor_order"@);
        assert(s.len() == 22);
        assert forall|i: int| 0 <= i < 22 implies s[i] != 'k' && s[i] != 'z' && s[i] != 'w' by {
            if i == 0 {} else if i == 1 {} else if i == 2 {} else if i == 3 {} else if i == 4 {} else if i == 5 {} else if i == 6 {} else if i == 7 {} else if i == 8 {} else if i == 9 {} else if i == 10 {} else if i == 11 {} else if i == 12 {} else if i == 13 {} else if i == 14 {} else if i == 15 {} else if i == 16 {} else if i == 17 {} else if i == 18 {} else if i == 19 {} else if i == 20 {} else if i == 21 {}
        }
        assert forall|i: int| 0 <= i < 21 implies !(#[trigger] s[i] == 'c' && s[i + 1] == 'r') by {
            if i == 0 {} else if i == 1 {} else if i == 2 {} else if i == 3 {} else if i == 4 {} else if i == 5 {} else if i == 6 {} else if i == 7 {} else if i == 8 {} else if i == 9 {} else if i == 10 {} else if i == 11 {} else if i == 12 {} else if i == 13 {} else if i == 14 {} else if i == 15 {} else if i == 16 {} else if i == 17 {} else if i == 18 {} else if i == 19 {} else if i == 20 {} else if i == 21 {}
        }
        lemma_not_sensitive("signal_processor_order"@);
    }
    assert(!is_sensitive_key_spec("signal_redact_applied"@)) by {
        reveal_strlit("signal_redact_applied");
        let s = lower("signal_redact_applied"@);
        assert(s.len() == 21);
        assert forall|i: int| 0 <= i < 21 implies s[i] != 'k' && s[i] != 'z' && s[i] != 'w' by {
            if i == 0 {} else if i == 1 {} else if i == 2 {} else if i == 3 {} else if i == 4 {} else if i == 5 {} else if i == 6 {} else if i == 7 {} else if i == 8 {} else if i == 9 {} else if i == 10 {} else if i == 11 {} else if i == 12 {} else if i == 13 {} else if i == 14 {} else if i == 15 {} else if i == 16 {} else if i == 17 {} else if i == 18 {} else if i == 19 {} else if i == 20 {}
        }
        assert forall|i: int| 0 <= i < 20 implies !(#[trigger] s[i] == 'c' && s[i + 1] == 'r') by {
            if i == 0 {} else if i == 1 {} else if i == 2 {} else if i == 3 {} else if i == 4 {} else if i == 5 {} else if i == 6 {} else if i == 7 {} else if i == 8 {} else if i == 9 {} else if i == 10 {} else if i == 11 {} else if i == 12 {} else if i == 13 {} else if i == 14 {} else if i == 15 {} else if i == 16 {} else if i == 17 {} else if i == 18 {} else if i == 19 {} else if i == 20 {}
        }
        lemma_not_sensitive("signal_redact_applied"@);
    }
    assert(!is_sensitive_key_spec("signal_filter_applied"@)) by {
        reveal_strlit("signal_filter_applied");
        let s = lower("signal_filter_applied"@);
        assert(s.len() == 21);
        assert forall|i: int| 0 <= i < 21 implies s[i] != 'k' && s[i] != 'z' && s[i] != 'w' by {
            if i == 0 {} else if i == 1 {} else if i == 2 {} else if i == 3 {} else if i == 4 {} else if i == 5 {} else if i == 6 {} else if i == 7 {} else if i == 8 {} else if i == 9 {} else if i == 10 {} else if i == 11 {} else if i == 12 {} else if i == 13 {} else if i == 14 {} else if i == 15 {} else if i == 16 {} else if i == 17 {} else if i == 18 {} else if i == 19 {} else if i == 20 {}
        }
        assert forall|i: int| 0 <= i < 20 implies !(#[trigger] s[i] == 'c' && s[i + 1] == 'r') by {
            if i == 0 {} else if i == 1 {} else if i == 2 {} else if i == 3 {} else if i == 4 {} else if i == 5 {} else if i == 6 {} else if i == 7 {} else if i == 8 {} else if i == 9 {} else if i == 10 {} else if i == 11 {} else if i == 12 {} else if i == 13 {} else if i == 14 {} else if i == 15 {} else if i == 16 {} else if i == 17 {} else if i == 18 {} else if i == 19 {} else if i == 20 {}
        }
        lemma_not_sensitive("signal_filter_applied"@);
    }
    assert(!is_sensitive_key_spec("signal_filter_rejected"@)) by {
        reveal_strlit("signal_filter_rejected");
        let s = lower("signal_filter_rejected"@);
        assert(s.len() == 22);
        assert forall|i: int| 0 <= i < 22 implies s[i] != 'k' && s[i] != 'z' && s[i] != 'w' by {
            if i == 0 {} else if i == 1 {} else if i == 2 {} else if i == 3 {} else if i == 4 {} else if i == 5 {} else if i == 6 {} else if i == 7 {} else if i == 8 {} else if i == 9 {} else if i == 10 {} else if i == 11 {} else if i == 12 {} else if i == 13 {} else if i == 14 {} else if i == 15 {} else if i == 16 {} else if i == 17 {} else if i == 18 {} else if i == 19 {} else if i == 20 {} else if i == 21 {}
        }
        assert forall|i: int| 0 <= i < 21 implies !(#[trigger] s[i] == 'c' && s[i + 1] == 'r') by {
            if i == 0 {} else if i == 1 {} else if i == 2 {} else if i == 3 {} else if i == 4 {} else if i == 5 {} else if i == 6 {} else if i == 7 {} else if i == 8 {} else if i == 9 {} else if i == 10 {} else if i == 11 {} else if i == 12 {} else if i == 13 {} else if i == 14 {} else if i == 15 {} else if i == 16 {} else if i == 17 {} else if i == 18 {} else if i == 19 {} else if i == 20 {} else if i == 21 {}
        }
        lemma_not_sensitive("signal_filter_rejected"@);
    }
    assert(!is_sensitive_key_spec("signal_sample_applied"@)) by {
        reveal_strlit("signal_sample_applied");
        let s = lower("signal_sample_applied"@);
        assert(s.len() == 21);
        assert forall|i: int| 0 <= i < 21 implies s[i] != 'k' && s[i] != 'z' && s[i] != 'w' by {
            if i == 0 {} else if i == 1 {} else if i == 2 {} else if i == 3 {} else if i == 4 {} else if i == 5 {} else if i == 6 {} else if i == 7 {} else if i == 8 {} else if i == 9 {} else if i == 10 {} else if i == 11 {} else if i == 12 {} else if i == 13 {} else if i == 14 {} else if i == 15 {} else if i == 16 {} else if i == 17 {} else if i == 18 {} else if i == 19 {} else if i == 20 {}
        }
        assert forall|i: int| 0 <= i < 20 implies !(#[trigger] s[i] == 'c' && s[i + 1] == 'r') by {
            if i == 0 {} else if i == 1 {} else if i == 2 {} else if i == 3 {} else if i == 4 {} else if i == 5 {} else if i == 6 {} else if i == 7 {} else if i == 8 {} else if i == 9 {} else if i == 10 {} else if i == 11 {} else if i == 12 {} else if i == 13 {} else if i == 14 {} else if i == 15 {} else if i == 16 {} else if i == 17 {} else if i == 18 {} else if i == 19 {} else if i == 20 {}
        }
        lemma_not_sensitive("signal_sample_applied"@);
    }
    assert(!is_sensitive_key_spec("signal_sample_rejected"@)) by {
        reveal_strlit("signal_sample_rejected");
        let s = lower("signal_sample_rejected"@);
        assert(s.len() == 22);
        assert forall|i: int| 0 <= i < 22 implies s[i] != 'k' && s[i] != 'z' && s[i] != 'w' by {
            if i == 0 {} else if i == 1 {} else if i == 2 {} else if i == 3 {} else if i == 4 {} else if i == 5 {} else if i == 6 {} else if i == 7 {} else if i == 8 {} else if i == 9 {} else if i == 10 {} else if i == 11 {} else if i == 12 {} else if i == 13 {} else if i == 14 {} else if i == 15 {} else if i == 16 {} else if i == 17 {} else if i == 18 {} else if i == 19 {} else if i == 20 {} else if i == 21 {}
        }
        assert forall|i: int| 0 <= i < 21 implies !(#[trigger] s[i] == 'c' && s[i + 1] == 'r') by {
            if i == 0 {} else if i == 1 {} else if i == 2 {} else if i == 3 {} else if i == 4 {} else if i == 5 {} else if i == 6 {} else if i == 7 {} else if i == 8 {} else if i == 9 {} else if i == 10 {} else if i == 11 {} else if i == 12 {} else if i == 13 {} else if i == 14 {} else if i == 15 {} else if i == 16 {} else if i == 17 {} else if i == 18 {} else if i == 19 {} else if i == 20 {} else if i == 21 {}
        }
        lemma_not_sensitive("signal_sample_rejected"@);
    }
    assert(!is_sensitive_key_spec("signal_rate_limit_applied"@)) by {
        reveal_strlit("signal_rate_limit_applied");
        let s = lower("signal_rate_limit_applied"@);
        assert(s.len() == 25);
        assert forall|i: int| 0 <= i < 25 implies s[i] != 'k' && s[i] != 'z' && s[i] != 'w' by {
            if i == 0 {} else if i == 1 {} else if i == 2 {} else if i == 3 {} else if i == 4 {} else if i == 5 {} else if i == 6 {} else if i == 7 {} else if i == 8 {} else if i == 9 {} else if i == 10 {} else if i == 11 {} else if i == 12 {} else if i == 13 {} else if i == 14 {} else if i == 15 {} else if i == 16 {} else if i == 17 {} else if i == 18 {} else if i == 19 {} else if i == 20 {} else if i == 21 {} else if i == 22 {} else if i == 23 {} else if i == 24 {}
        }
        assert forall|i: int| 0 <= i < 24 implies !(#[trigger] s[i] == 'c' && s[i + 1] == 'r') by {
            if i == 0 {} else if i == 1 {} else if i == 2 {} else if i == 3 {} else if i == 4 {} else if i == 5 {} else if i == 6 {} else if i == 7 {} else if i == 8 {} else if i == 9 {} else if i == 10 {} else if i == 11 {} else if i == 12 {} else if i == 13 {} else if i == 14 {} else if i == 15 {} else if i == 16 {} else if i == 17 {} else if i == 18 {} else if i == 19 {} else if i == 20 {} else if i == 21 {} else if i == 22 {} else if i == 23 {} else if i == 24 {}
        }
        lemma_not_sensitive("signal_rate_limit_applied"@);
    }
    assert(!is_sensitive_key_spec("signal_rate_limit_rejected"@)) by {
        reveal_strlit("signal_rate_limit_rejected");
        let s = lower("signal_rate_limit_rejected"@);
        assert(s.len() == 26);
        assert forall|i: int| 0 <= i < 26 implies s[i] != 'k' && s[i] != 'z' && s[i] != 'w' by {
            if i == 0 {} else if i == 1 {} else if i == 2 {} else if i == 3 {} else if i == 4 {} else if i == 5 {} else if i == 6 {} else if i == 7 {} else if i == 8 {} else if i == 9 {} else if i == 10 {} else if i == 11 {} else if i == 12 {} else if i == 13 {} else if i == 14 {} else if i == 15 {} else if i == 16 {} else if i == 17 {} else if i == 18 {} else if i == 19 {} else if i == 20 {} else if i == 21 {} else if i == 22 {} else if i == 23 {} else if i == 24 {} else if i == 25 {}
        }
        assert forall|i: int| 0 <= i < 25 implies !(#[trigger] s[i] == 'c' && s[i + 1] == 'r') by {
            if i == 0 {} else if i == 1 {} else if i == 2 {} else if i == 3 {} else if i == 4 {} else if i == 5 {} else if i == 6 {} else if i == 7 {} else if i == 8 {} else if i == 9 {} else if i == 10 {} else if i == 11 {} else if i == 12 {} else if i == 13 {} else if i == 14 {} else if i == 15 {} else if i == 16 {} else if i == 17 {} else if i == 18 {} else if i == 19 {} else if i == 20 {} else if i == 21 {} else if i == 22 {} else if i == 23 {} else if i == 24 {} else if i == 25 {}
        }
        lemma_not_sensitive("signal_rate_limit_rejected"@);
    }
}

/// An attribute whose name marks a secret comes out as `[REDACTED]`, and the
/// signal records that redaction applied.
pub proof fn law_sensitive_attribute_is_masked(
    mode: SignalPipelineMode,
    event: SignalEvent,
    counts: Map<Seq<char>, u32>,
    k: Seq<char>,
)
    requires
        event.attributes@.contains_key(k),
        is_sensitive_key_spec(k),
    ensures
        process_spec(mode, event, counts).attributes[k] == "[REDACTED]"@,
        process_spec(mode, event, counts).attributes["signal_redact_applied"@] == "true"@,
{
    lemma_pipeline_names_not_sensitive();
    reveal_strlit("signal_redact_applied");
    reveal_strlit("signal_filter_applied");
    reveal_strlit("signal_filter_rejected");
    reveal_strlit("signal_sample_applied");
    reveal_strlit("signal_sample_rejected");
    reveal_strlit("signal_rate_limit_applied");
    reveal_strlit("signal_rate_limit_rejected");
    assert("signal_redact_applied"@[7] != "signal_filter_applied"@[7]);
    assert("signal_redact_applied"@[7] != "signal_sample_applied"@[7]);
    assert("signal_redact_applied"@ != "signal_filter_applied"@);
    assert("signal_redact_applied"@ != "signal_sample_applied"@);
    assert("signal_redact_applied"@ != "signal_filter_rejected"@);
    assert("signal_redact_applied"@ != "signal_sample_rejected"@);
    assert("signal_redact_applied"@[8] != "signal_rate_limit_applied"@[8]);
    assert("signal_redact_applied"@[8] != "signal_rate_limit_rejected"@[8]);
    let attrs1 = stamped_attrs(mode, event);
    assert(attrs1.contains_key(k));
    assert(attribute_redacted(k, attrs1[k]));
    let changed = redaction_changed(attrs1, opt_view(event.body));
    assert(changed);
    assert(bool_text(changed) == "true"@);
    assert(redacted_attrs(mode, event)["signal_redact_applied"@] == "true"@);
}

/// A signal without a session (blank after trimming) is rejected as such,
/// unless the pipeline is off.
pub proof fn law_blank_session_is_rejected(mode: SignalPipelineMode, event: SignalEvent, counts: Map<Seq<char>, u32>)
    requires
        mode != SignalPipelineMode::Off,
        trim(event.context.session_id@).len() == 0,
    ensures
        !process_spec(mode, event, counts).decision.accepted,
        process_spec(mode, event, counts).decision.reason == Some(
            reason_view("signal.missing_session_id"@, "session_id is required"@, "process"@),
        ),
        process_spec(mode, event, counts).counts == counts,
{
}

/// A signal with a session but a blank trace is rejected for its missing
/// trace, unless the pipeline is off.
pub proof fn law_blank_trace_is_rejected(mode: SignalPipelineMode, event: SignalEvent, counts: Map<Seq<char>, u32>)
    requires
        mode != SignalPipelineMode::Off,
        trim(event.context.session_id@).len() > 0,
        trim(event.context.trace_id@).len() == 0,
    ensures
        !process_spec(mode, event, counts).decision.accepted,
        process_spec(mode, event, counts).decision.reason == Some(
            reason_view("signal.missing_trace_id"@, "trace_id is required"@, "process"@),
        ),
        process_spec(mode, event, counts).counts == counts,
{
}

/// A signal with a session and a trace but a blank name is rejected for its
/// missing name, unless the pipeline is off.
pub proof fn law_blank_name_is_rejected(mode: SignalPipelineMode, event: SignalEvent, counts: Map<Seq<char>, u32>)
    requires
        mode != SignalPipelineMode::Off,
        trim(event.context.session_id@).len() > 0,
        trim(event.context.trace_id@).len() > 0,
        trim(event.name@).len() == 0,
    ensures
        !process_spec(mode, event, counts).decision.accepted,
        process_spec(mode, event, counts).decision.reason == Some(
            reason_view("signal.missing_name"@, "signal name is required"@, "process"@),
        ),
        process_spec(mode, event, counts).counts == counts,
{
}

} // verus!
