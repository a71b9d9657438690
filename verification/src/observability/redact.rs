//! Redaction of secrets in signal text: `key=value` assignments and bearer
//! authorization headers are masked, matched without regard to ASCII case.
use vstd::prelude::*;

use crate::text::{
    chars_of, contains, contains_exec, contains_str, find, find_exec, lemma_find_from_props, lower,
    push_all, push_str, slice, to_lower,
};

verus! {

/// Characters that end an assigned value.
pub open spec fn is_value_stop(c: char) -> bool {
    c == ' ' || c == '&' || c == ';' || c == ',' || c == '\n' || c == '\r' || c == '\t'
}

/// First index at or after `i` that holds a value stop, else the length.
pub open spec fn first_stop_from(s: Seq<char>, i: int) -> int
    decreases s.len() - i,
{
    if i >= s.len() {
        s.len() as int
    } else if is_value_stop(s[i]) {
        i
    } else {
        first_stop_from(s, i + 1)
    }
}

/// Masks the value after the first case-insensitive occurrence of `key`;
/// the flag says whether `key` occurred.
pub open spec fn redact_assignment_spec(source: Seq<char>, key: Seq<char>, replacement: Seq<char>) -> (
    Seq<char>,
    bool,
) {
    match find(lower(source), lower(key)) {
        None => (source, false),
        Some(start) => {
            let value_start = start + key.len();
            let value_end = first_stop_from(source, value_start);
            (
                source.subrange(0, value_start) + replacement + source.subrange(
                    value_end,
                    source.len() as int,
                ),
                true,
            )
        },
    }
}

/// Replaces the first case-insensitive occurrence of `pattern` by `replacement`.
pub open spec fn replace_case_insensitive_spec(
    source: Seq<char>,
    pattern: Seq<char>,
    replacement: Seq<char>,
) -> Seq<char> {
    match find(lower(source), lower(pattern)) {
        None => source,
        Some(i) => source.subrange(0, i) + replacement + source.subrange(
            i + pattern.len(),
            source.len() as int,
        ),
    }
}

pub open spec fn bearer_pattern() -> Seq<char> {
    "authorization: bearer "@
}

/// The text with `api_key=`, `token=` and `secret_block=` values masked (in that
/// order) and a bearer authorization masked; the flag says whether anything was.
pub open spec fn redact_text_spec(value: Seq<char>) -> (Seq<char>, bool) {
    let a = redact_assignment_spec(value, "api_key="@, "[REDACTED]"@);
    let b = redact_assignment_spec(a.0, "token="@, "[REDACTED]"@);
    let c = redact_assignment_spec(b.0, "secret_block="@, "[REDACTED:BLOCK]"@);
    if contains(lower(c.0), lower(bearer_pattern())) {
        (
            replace_case_insensitive_spec(
                c.0,
                bearer_pattern(),
                "authorization: bearer [REDACTED]"@,
            ),
            true,
        )
    } else {
        (c.0, a.1 || b.1 || c.1)
    }
}

/// Attribute names whose values are secrets.
pub open spec fn is_sensitive_key_spec(key: Seq<char>) -> bool {
    let k = lower(key);
    contains(k, "api_key"@) || contains(k, "token"@) || contains(k, "authorization"@)
        || contains(k, "secret"@) || contains(k, "password"@)
}

proof fn lemma_lower_len(s: Seq<char>)
    ensures
        lower(s).len() == s.len(),
{
}

proof fn lemma_found_in_bounds(s: Seq<char>, p: Seq<char>, k: int)
    requires
        find(lower(s), lower(p)) == Some(k),
    ensures
        0 <= k && k + p.len() <= s.len(),
{
    lemma_find_from_props(lower(s), lower(p), 0);
}

fn first_stop_exec(s: &Vec<char>, from: usize) -> (r: usize)
    requires
        from <= s.len(),
    ensures
        r == first_stop_from(s@, from as int),
        from <= r <= s.len(),
{
    let mut i = from;
    while i < s.len()
        invariant
            from <= i <= s.len(),
            first_stop_from(s@, from as int) == first_stop_from(s@, i as int),
        decreases s.len() - i,
    {
        let c = s[i];
        if c == ' ' || c == '&' || c == ';' || c == ',' || c == '\n' || c == '\r' || c == '\t' {
            return i;
        }
        i = i + 1;
    }
    i
}

/// Masks the value that follows `key` (see `redact_assignment_spec`).
pub fn redact_assignment(source: &Vec<char>, key: &str, replacement: &str) -> (r: (Vec<char>, bool))
    ensures
        (r.0@, r.1) == redact_assignment_spec(source@, key@, replacement@),
{
    let source_lower = to_lower(source);
    let key_chars = chars_of(key);
    let key_lower = to_lower(&key_chars);
    match find_exec(&source_lower, &key_lower) {
        None => (slice(source, 0, source.len()), false),
        Some(start) => {
            proof {
                lemma_found_in_bounds(source@, key@, start as int);
                assert(start + key@.len() <= source@.len());
                assert(key_chars@.len() == key@.len());
                assert(start + key_chars.len() <= source.len());
            }
            let value_start = start + key_chars.len();
            let value_end = first_stop_exec(source, value_start);
            let mut out = slice(source, 0, value_start);
            push_str(&mut out, replacement);
            let tail = slice(source, value_end, source.len());
            push_all(&mut out, &tail);
            (out, true)
        },
    }
}

/// Replaces the first case-insensitive occurrence of `pattern`.
pub fn replace_case_insensitive(source: &Vec<char>, pattern: &str, replacement: &str) -> (r: Vec<char>)
    ensures
        r@ == replace_case_insensitive_spec(source@, pattern@, replacement@),
{
    let source_lower = to_lower(source);
    let pattern_chars = chars_of(pattern);
    let pattern_lower = to_lower(&pattern_chars);
    match find_exec(&source_lower, &pattern_lower) {
        None => slice(source, 0, source.len()),
        Some(index) => {
            proof {
                lemma_found_in_bounds(source@, pattern@, index as int);
            }
            let mut out = slice(source, 0, index);
            push_str(&mut out, replacement);
            let tail = slice(source, index + pattern_chars.len(), source.len());
            push_all(&mut out, &tail);
            out
        },
    }
}

/// Masks secrets in a text (see `redact_text_spec`).
pub fn redact_text(value: &Vec<char>) -> (r: (Vec<char>, bool))
    ensures
        (r.0@, r.1) == redact_text_spec(value@),
{
    let (a, a_changed) = redact_assignment(value, "api_key=", "[REDACTED]");
    let (b, b_changed) = redact_assignment(&a, "token=", "[REDACTED]");
    let (c, c_changed) = redact_assignment(&b, "secret_block=", "[REDACTED:BLOCK]");
    let c_lower = to_lower(&c);
    let pattern = chars_of("authorization: bearer ");
    let pattern_lower = to_lower(&pattern);
    if contains_exec(&c_lower, &pattern_lower) {
        let out = replace_case_insensitive(
            &c,
            "authorization: bearer ",
            "authorization: bearer [REDACTED]",
        );
        (out, true)
    } else {
        (c, a_changed || b_changed || c_changed)
    }
}

/// Whether an attribute name marks a secret.
pub fn is_sensitive_key(key: &Vec<char>) -> (r: bool)
    ensures
        r == is_sensitive_key_spec(key@),
{
    let lowered = to_lower(key);
    contains_str(&lowered, "api_key") || contains_str(&lowered, "token") || contains_str(
        &lowered,
        "authorization",
    ) || contains_str(&lowered, "secret") || contains_str(&lowered, "password")
}

} // verus!
