//! The processors a signal passes through: context validation, redaction,
//! filtering, sampling and per-minute rate limiting.
use vstd::prelude::*;

use crate::keyed::KeyedMap;
use crate::observability::redact::{
    is_sensitive_key, is_sensitive_key_spec, redact_text, redact_text_spec,
};
use crate::observability::signal::{
    opt_view, AttributeMap, ReasonView, SignalEvent, SignalReason,
};
use crate::text::{
    chars_of, contains, contains_str, decimal, is_blank, parse_unsigned, parse_unsigned_exec,
    push_decimal, push_str, starts_with, starts_with_str, string_of, trim,
};

verus! {

pub open spec fn reason_view(code: Seq<char>, message: Seq<char>, processor: Seq<char>) -> ReasonView {
    ReasonView { code, message, processor: Some(processor) }
}

/// A reason with the given code, message and processor.
pub fn make_reason(code: &str, message: &str, processor: &str) -> (r: SignalReason)
    ensures
        r@ == reason_view(code@, message@, processor@),
{
    let c = chars_of(code);
    let m = chars_of(message);
    let p = chars_of(processor);
    SignalReason { code: string_of(&c), message: string_of(&m), processor: Some(string_of(&p)) }
}

// ---------------------------------------------------------------------------
// Context validation
// ---------------------------------------------------------------------------

/// A signal needs a session, a trace and a name that are not blank.
pub open spec fn validate_context_spec(event: SignalEvent) -> Option<ReasonView> {
    if trim(event.context.session_id@).len() == 0 {
        Some(reason_view("signal.missing_session_id"@, "session_id is required"@, "process"@))
    } else if trim(event.context.trace_id@).len() == 0 {
        Some(reason_view("signal.missing_trace_id"@, "trace_id is required"@, "process"@))
    } else if trim(event.name@).len() == 0 {
        Some(reason_view("signal.missing_name"@, "signal name is required"@, "process"@))
    } else {
        None
    }
}

pub fn validate_context(event: &SignalEvent) -> (r: Option<SignalReason>)
    ensures
        r matches Some(x) ==> validate_context_spec(*event) == Some(x@),
        r is None ==> validate_context_spec(*event) is None,
{
    let session = chars_of(event.context.session_id.as_str());
    if is_blank(&session) {
        return Some(make_reason("signal.missing_session_id", "session_id is required", "process"));
    }
    let trace = chars_of(event.context.trace_id.as_str());
    if is_blank(&trace) {
        return Some(make_reason("signal.missing_trace_id", "trace_id is required", "process"));
    }
    let name = chars_of(event.name.as_str());
    if is_blank(&name) {
        return Some(make_reason("signal.missing_name", "signal name is required", "process"));
    }
    None
}

// ---------------------------------------------------------------------------
// Redaction of attributes and body
// ---------------------------------------------------------------------------

/// What redaction leaves of an attribute value.
pub open spec fn redacted_attribute(key: Seq<char>, value: Seq<char>) -> Seq<char> {
    if is_sensitive_key_spec(key) {
        "[REDACTED]"@
    } else {
        redact_text_spec(value).0
    }
}

/// Redaction changes an attribute: its name is sensitive or its value held a secret.
pub open spec fn attribute_redacted(key: Seq<char>, value: Seq<char>) -> bool {
    is_sensitive_key_spec(key) || redact_text_spec(value).1
}

/// The attributes after redaction: same names, values redacted.
pub open spec fn redact_attributes_spec(attrs: Map<Seq<char>, Seq<char>>) -> Map<Seq<char>, Seq<char>> {
    Map::new(|k: Seq<char>| attrs.contains_key(k), |k: Seq<char>| redacted_attribute(k, attrs[k]))
}

pub open spec fn redact_body_spec(body: Option<Seq<char>>) -> Option<Seq<char>> {
    match body {
        Some(b) => Some(redact_text_spec(b).0),
        None => None,
    }
}

/// Whether redaction changed anything in the attributes or the body.
pub open spec fn redaction_changed(attrs: Map<Seq<char>, Seq<char>>, body: Option<Seq<char>>) -> bool {
    (exists|k: Seq<char>| attrs.contains_key(k) && #[trigger] attribute_redacted(k, attrs[k]))
        || (body matches Some(b) && redact_text_spec(b).1)
}

/// Redacts every attribute value (see `redacted_attribute`).
pub fn redact_attributes(attrs: &AttributeMap) -> (r: (AttributeMap, bool))
    ensures
        r.0@ == redact_attributes_spec(attrs@),
        r.1 == exists|k: Seq<char>| attrs@.contains_key(k) && #[trigger] attribute_redacted(k, attrs@[k]),
{
    proof {
        use_type_invariant(attrs);
        attrs.lemma_view();
    }
    let ghost s = attrs.entry_seq();
    let mut out: AttributeMap = KeyedMap::new();
    let mut changed = false;
    let mut i: usize = 0;
    let n = attrs.len();
    while i < n
        invariant
            n == s.len(),
            s == attrs.entry_seq(),
            i <= n,
            crate::keyed::keys_distinct(s),
            forall|k: Seq<char>| #[trigger]
                out@.contains_key(k) <==> exists|j: int| 0 <= j < i && s[j].0@ == k,
            forall|j: int| 0 <= j < i ==> #[trigger] out@[s[j].0@] == redacted_attribute(s[j].0@, s[j].1@),
            changed == exists|j: int| 0 <= j < i && #[trigger] attribute_redacted(s[j].0@, s[j].1@),
        decreases n - i,
    {
        let key = attrs.key_at(i);
        let value = attrs.value_at(i);
        let key_chars = chars_of(key.as_str());
        let value_chars = chars_of(value.as_str());
        let new_value: Vec<char>;
        if is_sensitive_key(&key_chars) {
            new_value = chars_of("[REDACTED]");
            changed = true;
        } else {
            let (next, replaced) = redact_text(&value_chars);
            new_value = next;
            changed = changed || replaced;
        }
        let ghost before = out@;
        out.insert(string_of(&key_chars), string_of(&new_value));
        proof {
            assert forall|k: Seq<char>| #[trigger]
                out@.contains_key(k) <==> exists|j: int| 0 <= j < i + 1 && s[j].0@ == k by {
                if k == s[i as int].0@ {
                } else if out@.contains_key(k) {
                    assert(before.contains_key(k));
                }
            }
            assert forall|j: int| 0 <= j < i + 1 implies #[trigger] out@[s[j].0@] == redacted_attribute(
                s[j].0@,
                s[j].1@,
            ) by {
                if j < i {
                    assert(s[j].0@ != s[i as int].0@);
                }
            }
            if attribute_redacted(s[i as int].0@, s[i as int].1@) {
                assert(changed);
            }
        }
        i = i + 1;
    }
    proof {
        assert(out@ =~= redact_attributes_spec(attrs@)) by {
            assert forall|k: Seq<char>| #[trigger] out@.contains_key(k) implies attrs@.contains_key(k)
                && out@[k] == redacted_attribute(k, attrs@[k]) by {
                let j = choose|j: int| 0 <= j < n && s[j].0@ == k;
                assert(attrs@[s[j].0@] == s[j].1@);
            }
            assert forall|k: Seq<char>| attrs@.contains_key(k) implies #[trigger] out@.contains_key(k) by {
                let j = choose|j: int| 0 <= j < s.len() && s[j].0@ == k;
            }
        }
        if changed {
            let j = choose|j: int| 0 <= j < n && #[trigger] attribute_redacted(s[j].0@, s[j].1@);
            assert(attrs@.contains_key(s[j].0@) && attribute_redacted(s[j].0@, attrs@[s[j].0@]));
        } else {
            assert forall|k: Seq<char>| attrs@.contains_key(k) implies !#[trigger] attribute_redacted(
                k,
                attrs@[k],
            ) by {
                let j = choose|j: int| 0 <= j < s.len() && s[j].0@ == k;
                assert(!attribute_redacted(s[j].0@, s[j].1@));
            }
        }
    }
    (out, changed)
}

/// Redacts the attributes and the body of `event`; returns whether anything changed.
pub fn redact_event(event: &mut SignalEvent) -> (changed: bool)
    ensures
        final(event).attributes@ == redact_attributes_spec(old(event).attributes@),
        opt_view(final(event).body) == redact_body_spec(opt_view(old(event).body)),
        changed == redaction_changed(old(event).attributes@, opt_view(old(event).body)),
        final(event).signal_id == old(event).signal_id,
        final(event).kind == old(event).kind,
        final(event).name == old(event).name,
        final(event).context == old(event).context,
        final(event).numeric_value == old(event).numeric_value,
        final(event).decision == old(event).decision,
        final(event).emitted_at_ms == old(event).emitted_at_ms,
{
    let (attrs, mut changed) = redact_attributes(&event.attributes);
    event.attributes = attrs;
    let body = match &event.body {
        Some(b) => {
            let bc = chars_of(b.as_str());
            let (next, replaced) = redact_text(&bc);
            changed = changed || replaced;
            Some(string_of(&next))
        },
        None => None,
    };
    event.body = body;
    changed
}

// ---------------------------------------------------------------------------
// Filter
// ---------------------------------------------------------------------------

pub open spec fn block_marker() -> Seq<char> {
    "[REDACTED:BLOCK]"@
}

pub open spec fn block_marker_reason() -> ReasonView {
    reason_view(
        "signal.filtered.redacted_block_marker"@,
        "redacted block marker requires dropping this signal"@,
        "filter"@,
    )
}

/// Internal drop names and redacted blocks are filtered out.
pub open spec fn filter_spec(
    name: Seq<char>,
    body: Option<Seq<char>>,
    attrs: Map<Seq<char>, Seq<char>>,
) -> Option<ReasonView> {
    if starts_with(name, "signal.internal.drop."@) {
        Some(
            reason_view(
                "signal.filtered.internal_prefix"@,
                "signal name rejected by internal drop prefix rule"@,
                "filter"@,
            ),
        )
    } else if contains(
        match body {
            Some(b) => b,
            None => Seq::<char>::empty(),
        },
        block_marker(),
    ) {
        Some(block_marker_reason())
    } else if exists|k: Seq<char>| attrs.contains_key(k) && contains(#[trigger] attrs[k], block_marker()) {
        Some(block_marker_reason())
    } else {
        None
    }
}

fn any_value_contains(attrs: &AttributeMap, pattern: &str) -> (r: bool)
    ensures
        r == exists|k: Seq<char>| attrs@.contains_key(k) && contains(#[trigger] attrs@[k], pattern@),
{
    proof {
        use_type_invariant(attrs);
        attrs.lemma_view();
    }
    let ghost s = attrs.entry_seq();
    let n = attrs.len();
    let mut i: usize = 0;
    proof {
        assert forall|j: int| 0 <= j < s.len() implies #[trigger] attrs@.contains_key(s[j].0@) by {
        }
    }
    while i < n
        invariant
            n == s.len(),
            s == attrs.entry_seq(),
            i <= n,
            forall|j: int| 0 <= j < s.len() ==> #[trigger] attrs@.contains_key(s[j].0@),
            forall|j: int| 0 <= j < s.len() ==> #[trigger] attrs@[s[j].0@] == s[j].1@,
            forall|j: int| 0 <= j < i ==> !contains(#[trigger] s[j].1@, pattern@),
        decreases n - i,
    {
        let v = chars_of(attrs.value_at(i).as_str());
        if contains_str(&v, pattern) {
            proof {
                assert(attrs@.contains_key(s[i as int].0@));
                assert(contains(attrs@[s[i as int].0@], pattern@));
            }
            return true;
        }
        i = i + 1;
    }
    proof {
        assert forall|k: Seq<char>| attrs@.contains_key(k) implies !contains(
            #[trigger] attrs@[k],
            pattern@,
        ) by {
            let j = choose|j: int| 0 <= j < s.len() && s[j].0@ == k;
            assert(attrs@[s[j].0@] == s[j].1@);
        }
    }
    false
}

pub fn filter_event(event: &SignalEvent) -> (r: Option<SignalReason>)
    ensures
        r matches Some(x) ==> filter_spec(event.name@, opt_view(event.body), event.attributes@) == Some(
            x@,
        ),
        r is None ==> filter_spec(event.name@, opt_view(event.body), event.attributes@) is None,
{
    let name = chars_of(event.name.as_str());
    if starts_with_str(&name, "signal.internal.drop.") {
        return Some(
            make_reason(
                "signal.filtered.internal_prefix",
                "signal name rejected by internal drop prefix rule",
                "filter",
            ),
        );
    }
    let body = match &event.body {
        Some(b) => chars_of(b.as_str()),
        None => Vec::new(),
    };
    assert(body@ == match opt_view(event.body) {
        Some(b) => b,
        None => Seq::<char>::empty(),
    });
    if contains_str(&body, "[REDACTED:BLOCK]") {
        return Some(
            make_reason(
                "signal.filtered.redacted_block_marker",
                "redacted block marker requires dropping this signal",
                "filter",
            ),
        );
    }
    if any_value_contains(&event.attributes, "[REDACTED:BLOCK]") {
        return Some(
            make_reason(
                "signal.filtered.redacted_block_marker",
                "redacted block marker requires dropping this signal",
                "filter",
            ),
        );
    }
    None
}

// ---------------------------------------------------------------------------
// Sequence numbers and retry backoff
// ---------------------------------------------------------------------------

/// The `signal_sequence_no` attribute read as a `u64`, else 0.
pub open spec fn sequence_no_spec(attrs: Map<Seq<char>, Seq<char>>) -> u64 {
    if attrs.contains_key("signal_sequence_no"@) {
        match parse_unsigned(attrs["signal_sequence_no"@], u64::MAX as nat) {
            Some(v) => v as u64,
            None => 0,
        }
    } else {
        0
    }
}

pub fn signal_sequence_no(event: &SignalEvent) -> (r: u64)
    ensures
        r == sequence_no_spec(event.attributes@),
{
    match event.attributes.get("signal_sequence_no") {
        Some(v) => {
            let vc = chars_of(v.as_str());
            match parse_unsigned_exec(&vc, u64::MAX) {
                Some(n) => n,
                None => 0,
            }
        },
        None => 0,
    }
}

pub open spec fn pow2(k: nat) -> nat
    decreases k,
{
    if k == 0 {
        1
    } else {
        2 * pow2((k - 1) as nat)
    }
}

/// The delay before retry number `attempt`: `base_ms` doubled once per earlier
/// attempt, at most ten doublings, saturating at `u64::MAX`.
pub open spec fn retry_backoff_spec(base_ms: u64, attempt: u8) -> u64 {
    let a: nat = if attempt == 0 { 0 } else { (attempt - 1) as nat };
    let k: nat = if a > 10 { 10 } else { a };
    let product = base_ms * pow2(k);
    if product > u64::MAX {
        u64::MAX
    } else {
        product as u64
    }
}

proof fn lemma_pow2_monotone(a: nat, b: nat)
    requires
        a <= b,
    ensures
        pow2(a) <= pow2(b),
    decreases b,
{
    if a < b {
        lemma_pow2_monotone(a, (b - 1) as nat);
    }
}

pub fn retry_backoff_ms(base_ms: u64, attempt: u8) -> (r: u64)
    ensures
        r == retry_backoff_spec(base_ms, attempt),
{
    let a: u8 = if attempt == 0 { 0 } else { attempt - 1 };
    let k: u8 = if a > 10 { 10 } else { a };
    let mut multiplier: u64 = 1;
    let mut j: u8 = 0;
    while j < k
        invariant
            j <= k <= 10,
            multiplier == pow2(j as nat),
        decreases k - j,
    {
        proof {
            lemma_pow2_monotone(j as nat, 10);
            reveal_with_fuel(pow2, 11);
        }
        multiplier = multiplier * 2;
        j = j + 1;
    }
    match base_ms.checked_mul(multiplier) {
        Some(v) => v,
        None => u64::MAX,
    }
}

// ---------------------------------------------------------------------------
// Sampling
// ---------------------------------------------------------------------------

/// How a `sample_ratio` text reads as a number.
pub enum RatioText {
    /// Not a number in the accepted forms; the ratio then counts as 1.
    Unparsed,
    NotANumber,
    Infinite { negative: bool },
    /// Sign, digits before and digits after the decimal point.
    Finite { negative: bool, int_digits: Seq<char>, frac_digits: Seq<char> },
}

pub open spec fn all_digits(s: Seq<char>) -> bool {
    forall|i: int| 0 <= i < s.len() ==> crate::text::is_digit(#[trigger] s[i])
}

pub open spec fn all_zero_digits(s: Seq<char>) -> bool {
    forall|i: int| 0 <= i < s.len() ==> #[trigger] s[i] == '0'
}

/// Text without a leading sign.
pub open spec fn unsigned_part(s: Seq<char>) -> Seq<char> {
    if s.len() > 0 && (s[0] == '-' || s[0] == '+') {
        s.drop_first()
    } else {
        s
    }
}

/// Reads a ratio: an optional sign, then `inf`, `infinity` or `nan` in any ASCII
/// case, or decimal digits with at most one decimal point and at least one digit.
pub open spec fn classify_ratio(s: Seq<char>) -> RatioText {
    let negative = s.len() > 0 && s[0] == '-';
    let rest = unsigned_part(s);
    let l = crate::text::lower(rest);
    if l == "inf"@ || l == "infinity"@ {
        RatioText::Infinite { negative }
    } else if l == "nan"@ {
        RatioText::NotANumber
    } else {
        match crate::text::find(rest, "."@) {
            None => if rest.len() > 0 && all_digits(rest) {
                RatioText::Finite { negative, int_digits: rest, frac_digits: Seq::empty() }
            } else {
                RatioText::Unparsed
            },
            Some(p) => {
                let int_digits = rest.subrange(0, p);
                let frac_digits = rest.subrange(p + 1, rest.len() as int);
                if all_digits(int_digits) && all_digits(frac_digits) && int_digits.len()
                    + frac_digits.len() > 0 {
                    RatioText::Finite { negative, int_digits, frac_digits }
                } else {
                    RatioText::Unparsed
                }
            },
        }
    }
}

/// The first four fraction digits as a number of ten-thousandths
/// (missing digits count as zeros): `floor(10000 * r)` for `r` in `[0, 1)`.
pub open spec fn frac_ten_thousandths(frac: Seq<char>) -> nat {
    crate::text::digits_value((frac + seq!['0', '0', '0', '0']).subrange(0, 4))
}

/// Fraction digits without trailing zeros.
pub open spec fn trim_trailing_zeros(s: Seq<char>) -> Seq<char>
    decreases s.len(),
{
    if s.len() > 0 && s.last() == '0' {
        trim_trailing_zeros(s.drop_last())
    } else {
        s
    }
}

pub open spec fn zero_ratio_reason() -> ReasonView {
    reason_view(
        "signal.sampled_out.zero_ratio"@,
        "signal dropped by zero sample ratio"@,
        "sample"@,
    )
}

pub open spec fn ratio_reason(frac: Seq<char>) -> ReasonView {
    reason_view(
        "signal.sampled_out.ratio"@,
        "signal dropped by sample ratio 0."@ + trim_trailing_zeros(frac),
        "sample"@,
    )
}

/// The sampling decision for a ratio text (absent: ratio 1) and the signal's
/// hash: ratios at or below zero drop every signal, ratios of one or more keep
/// every signal, and a ratio `r` in between drops the signal when
/// `(hash % 10000) / 10000 > r`, that is when `hash % 10000 > floor(10000 * r)`.
pub open spec fn sample_spec(ratio: Option<Seq<char>>, hash: u64) -> Option<ReasonView> {
    let parsed = match ratio {
        Some(t) => classify_ratio(t),
        None => RatioText::Unparsed,
    };
    match parsed {
        RatioText::Unparsed => None,
        RatioText::NotANumber => None,
        RatioText::Infinite { negative } => if negative {
            Some(zero_ratio_reason())
        } else {
            None
        },
        RatioText::Finite { negative, int_digits, frac_digits } => {
            if negative || all_zero_digits(int_digits + frac_digits) {
                Some(zero_ratio_reason())
            } else if !all_zero_digits(int_digits) {
                None
            } else if (hash % 10000) as nat > frac_ten_thousandths(frac_digits) {
                Some(ratio_reason(frac_digits))
            } else {
                None
            }
        },
    }
}

fn all_digits_exec(s: &Vec<char>) -> (r: bool)
    ensures
        r == all_digits(s@),
{
    let mut i: usize = 0;
    while i < s.len()
        invariant
            i <= s.len(),
            forall|j: int| 0 <= j < i ==> crate::text::is_digit(#[trigger] s@[j]),
        decreases s.len() - i,
    {
        if !('0' <= s[i] && s[i] <= '9') {
            return false;
        }
        i = i + 1;
    }
    true
}

fn all_zero_exec(s: &Vec<char>) -> (r: bool)
    ensures
        r == all_zero_digits(s@),
{
    let mut i: usize = 0;
    while i < s.len()
        invariant
            i <= s.len(),
            forall|j: int| 0 <= j < i ==> #[trigger] s@[j] == '0',
        decreases s.len() - i,
    {
        if s[i] != '0' {
            return false;
        }
        i = i + 1;
    }
    true
}

fn frac_ten_thousandths_exec(frac: &Vec<char>) -> (r: u64)
    requires
        all_digits(frac@),
    ensures
        r as nat == frac_ten_thousandths(frac@),
        r < 10000,
{
    let ghost padded = (frac@ + seq!['0', '0', '0', '0']).subrange(0, 4);
    let mut m: u64 = 0;
    let mut j: usize = 0;
    while j < 4
        invariant
            j <= 4,
            all_digits(frac@),
            padded == (frac@ + seq!['0', '0', '0', '0']).subrange(0, 4),
            m as nat == crate::text::digits_value(padded.subrange(0, j as int)),
            m < 10000,
            m < crate::text::digits_value(seq![]) + pow10(j as nat),
        decreases 4 - j,
    {
        let c: char = if j < frac.len() { frac[j] } else { '0' };
        assert(c == padded[j as int]);
        assert(crate::text::is_digit(c)) by {
            if j < frac.len() {
                assert(crate::text::is_digit(frac@[j as int]));
            }
        }
        let d: u64 = ((c as u32) - 48) as u64;
        assert(padded.subrange(0, j + 1).drop_last() =~= padded.subrange(0, j as int));
        proof {
            reveal_with_fuel(pow10, 5);
        }
        m = m * 10 + d;
        j = j + 1;
    }
    assert(padded.subrange(0, 4) =~= padded);
    m
}

pub open spec fn pow10(k: nat) -> nat
    decreases k,
{
    if k == 0 {
        1
    } else {
        10 * pow10((k - 1) as nat)
    }
}

fn trim_trailing_zeros_exec(s: &Vec<char>) -> (r: Vec<char>)
    ensures
        r@ == trim_trailing_zeros(s@),
{
    let mut end = s.len();
    assert(s@.subrange(0, s.len() as int) =~= s@);
    while end > 0 && s[end - 1] == '0'
        invariant
            end <= s.len(),
            trim_trailing_zeros(s@) == trim_trailing_zeros(s@.subrange(0, end as int)),
        decreases end,
    {
        assert(s@.subrange(0, end as int).drop_last() =~= s@.subrange(0, end - 1));
        end = end - 1;
    }
    crate::text::slice(s, 0, end)
}

/// The sampling decision (see `sample_spec`).
pub fn sample_decision(ratio: Option<&String>, hash: u64) -> (r: Option<SignalReason>)
    ensures
        r matches Some(x) ==> sample_spec(
            match ratio {
                Some(t) => Some(t@),
                None => None,
            },
            hash,
        ) == Some(x@),
        r is None ==> sample_spec(
            match ratio {
                Some(t) => Some(t@),
                None => None,
            },
            hash,
        ) is None,
{
    let text = match ratio {
        Some(t) => chars_of(t.as_str()),
        None => {
            return None;
        },
    };
    let negative = text.len() > 0 && text[0] == '-';
    let start: usize = if text.len() > 0 && (text[0] == '-' || text[0] == '+') { 1 } else { 0 };
    let rest = crate::text::slice(&text, start, text.len());
    assert(rest@ == unsigned_part(text@)) by {
        if start == 1 {
            assert(rest@ =~= text@.drop_first());
        } else {
            assert(rest@ =~= text@);
        }
    }
    let lowered = crate::text::to_lower(&rest);
    if crate::text::chars_eq_str(&lowered, "inf") || crate::text::chars_eq_str(&lowered, "infinity") {
        if negative {
            return Some(
                make_reason(
                    "signal.sampled_out.zero_ratio",
                    "signal dropped by zero sample ratio",
                    "sample",
                ),
            );
        }
        return None;
    }
    if crate::text::chars_eq_str(&lowered, "nan") {
        return None;
    }
    let dot = chars_of(".");
    let (int_digits, frac_digits) = match crate::text::find_exec(&rest, &dot) {
        None => {
            if rest.len() > 0 && all_digits_exec(&rest) {
                let e: Vec<char> = Vec::new();
                assert(classify_ratio(text@) == RatioText::Finite {
                    negative,
                    int_digits: rest@,
                    frac_digits: e@,
                });
                (rest, e)
            } else {
                return None;
            }
        },
        Some(p) => {
            proof {
                reveal_strlit(".");
                crate::text::lemma_find_from_props(rest@, "."@, 0);
            }
            let ip = crate::text::slice(&rest, 0, p);
            let fp = crate::text::slice(&rest, p + 1, rest.len());
            if all_digits_exec(&ip) && all_digits_exec(&fp) && ip.len() + fp.len() > 0 {
                assert(classify_ratio(text@) == RatioText::Finite {
                    negative,
                    int_digits: ip@,
                    frac_digits: fp@,
                });
                (ip, fp)
            } else {
                return None;
            }
        },
    };
    assert(classify_ratio(text@) == RatioText::Finite {
        negative,
        int_digits: int_digits@,
        frac_digits: frac_digits@,
    });
    let mut whole = crate::text::slice(&int_digits, 0, int_digits.len());
    crate::text::push_all(&mut whole, &frac_digits);
    assert(whole@ =~= int_digits@ + frac_digits@);
    if negative || all_zero_exec(&whole) {
        return Some(
            make_reason(
                "signal.sampled_out.zero_ratio",
                "signal dropped by zero sample ratio",
                "sample",
            ),
        );
    }
    if !all_zero_exec(&int_digits) {
        return None;
    }
    let m = frac_ten_thousandths_exec(&frac_digits);
    if hash % 10000 > m {
        let mut message = chars_of("signal dropped by sample ratio 0.");
        let trimmed = trim_trailing_zeros_exec(&frac_digits);
        crate::text::push_all(&mut message, &trimmed);
        let code = chars_of("signal.sampled_out.ratio");
        let processor = chars_of("sample");
        return Some(
            SignalReason {
                code: string_of(&code),
                message: string_of(&message),
                processor: Some(string_of(&processor)),
            },
        );
    }
    None
}

// ---------------------------------------------------------------------------
// Rate limiting
// ---------------------------------------------------------------------------

/// The per-minute limit a signal asks for: `rate_limit_per_minute` read as a
/// `u32`, else 120.
pub open spec fn rate_limit_of(attrs: Map<Seq<char>, Seq<char>>) -> nat {
    if attrs.contains_key("rate_limit_per_minute"@) {
        match parse_unsigned(attrs["rate_limit_per_minute"@], u32::MAX as nat) {
            Some(n) => n,
            None => 120,
        }
    } else {
        120
    }
}

/// The counter a signal is charged to: its session, its name and the minute
/// in which it was emitted.
pub open spec fn rate_bucket_key(session_id: Seq<char>, name: Seq<char>, emitted_at_ms: u64) -> Seq<char> {
    session_id + ":"@ + name + ":"@ + decimal((emitted_at_ms / 60000) as nat)
}

pub open spec fn rate_limited_reason(limit: nat) -> ReasonView {
    reason_view(
        "signal.rate_limited.per_minute"@,
        "signal exceeded per-minute limit "@ + decimal(limit),
        "rate_limit"@,
    )
}

/// The rate-limit decision and the counters after it: a zero limit drops the
/// signal and charges nothing; otherwise the signal's counter grows by one
/// (saturating) and the signal is dropped once the counter exceeds the limit.
pub open spec fn rate_limit_spec(
    limit: nat,
    key: Seq<char>,
    counts: Map<Seq<char>, u32>,
) -> (Option<ReasonView>, Map<Seq<char>, u32>) {
    if limit == 0 {
        (
            Some(
                reason_view(
                    "signal.rate_limited.zero_limit"@,
                    "signal dropped by zero per-minute limit"@,
                    "rate_limit"@,
                ),
            ),
            counts,
        )
    } else {
        let previous: u32 = if counts.contains_key(key) {
            counts[key]
        } else {
            0
        };
        let next: u32 = if previous == u32::MAX {
            u32::MAX
        } else {
            (previous + 1) as u32
        };
        (
            if next > limit {
                Some(rate_limited_reason(limit))
            } else {
                None
            },
            counts.insert(key, next),
        )
    }
}

/// Charges `event` to its per-minute counter in `buckets` (see `rate_limit_spec`).
pub fn rate_limit_event(buckets: &mut KeyedMap<u32>, event: &SignalEvent) -> (r: Option<SignalReason>)
    ensures
        ({
            let (reason, counts) = rate_limit_spec(
                rate_limit_of(event.attributes@),
                rate_bucket_key(event.context.session_id@, event.name@, event.emitted_at_ms),
                old(buckets)@,
            );
            &&& final(buckets)@ == counts
            &&& r matches Some(x) ==> reason == Some(x@)
            &&& r is None ==> reason is None
        }),
{
    let limit: u64 = match event.attributes.get("rate_limit_per_minute") {
        Some(v) => {
            let vc = chars_of(v.as_str());
            match parse_unsigned_exec(&vc, 4294967295u64) {
                Some(n) => n,
                None => 120,
            }
        },
        None => 120,
    };
    if limit == 0 {
        return Some(
            make_reason(
                "signal.rate_limited.zero_limit",
                "signal dropped by zero per-minute limit",
                "rate_limit",
            ),
        );
    }
    let mut key = chars_of(event.context.session_id.as_str());
    push_str(&mut key, ":");
    push_str(&mut key, event.name.as_str());
    push_str(&mut key, ":");
    push_decimal(&mut key, event.emitted_at_ms / 60000);
    let key_text = string_of(&key);
    let previous: u32 = match buckets.get(key_text.as_str()) {
        Some(c) => *c,
        None => 0,
    };
    let next: u32 = if previous == u32::MAX { u32::MAX } else { previous + 1 };
    buckets.insert(key_text, next);
    if next as u64 > limit {
        let mut message = chars_of("signal exceeded per-minute limit ");
        push_decimal(&mut message, limit);
        let code = chars_of("signal.rate_limited.per_minute");
        let processor = chars_of("rate_limit");
        return Some(
            SignalReason {
                code: string_of(&code),
                message: string_of(&message),
                processor: Some(string_of(&processor)),
            },
        );
    }
    None
}

} // verus!
