//! The proof of an artifact: the SHA-256 digest of its file, written in
//! lower-case hexadecimal, the decisions that speak of artifacts, and the
//! status of the proof.
use vstd::prelude::*;

use sha2::Digest;

use crate::memory::json::{json_document, json_member, json_member_text, member_spec, member_text_spec, parse_json_document, JsonValue};
use crate::observability::whitebox::KnowledgeEntry;
use crate::observability::whitebox::{json_u64, json_u64_exec};
use crate::timeline::{sort_by_stamps, sorted_by_stamps};
use crate::text::{chars_eq_str, chars_of, contains, contains_str, hex_char, string_of};

verus! {

/// The SHA-256 digest of `bytes`.
pub uninterp spec fn sha256_of(bytes: Seq<u8>) -> Seq<u8>;

/// Calls `sha2::Sha256::digest` on `bytes`: the result is the named digest of
/// the bytes, and, as `Sha256`'s output size is 32 bytes, it is 32 bytes long.
#[verifier::external_body]
fn sha256_bytes(bytes: &Vec<u8>) -> (r: Vec<u8>)
    ensures
        r@ == sha256_of(bytes@),
        r@.len() == 32,
{
    sha2::Sha256::digest(bytes.as_slice()).to_vec()
}

/// Each byte as two lower-case hexadecimal digits, as `format!("{:x}", ..)`
/// writes a digest.
pub open spec fn hex_bytes(bytes: Seq<u8>) -> Seq<char>
    decreases bytes.len(),
{
    if bytes.len() == 0 {
        Seq::empty()
    } else {
        hex_bytes(bytes.drop_last()) + seq![
            hex_char((bytes.last() / 16) as nat),
            hex_char((bytes.last() % 16) as nat),
        ]
    }
}

fn hex_digit(d: u8) -> (c: char)
    requires
        d < 16,
    ensures
        c == hex_char(d as nat),
{
    if d < 10 {
        (d + 48) as char
    } else {
        (d + 87) as char
    }
}

/// `bytes` in lower-case hexadecimal (see `hex_bytes`).
pub fn hex_text(bytes: &Vec<u8>) -> (r: String)
    ensures
        r@ == hex_bytes(bytes@),
{
    let mut out: Vec<char> = Vec::new();
    let mut i: usize = 0;
    while i < bytes.len()
        invariant
            i <= bytes@.len(),
            out@ == hex_bytes(bytes@.subrange(0, i as int)),
        decreases bytes.len() - i,
    {
        assert(bytes@.subrange(0, i + 1).drop_last() =~= bytes@.subrange(0, i as int));
        let b = bytes[i];
        let ghost o0 = out@;
        out.push(hex_digit(b / 16));
        out.push(hex_digit(b % 16));
        assert(out@ =~= o0 + seq![hex_char((b / 16) as nat), hex_char((b % 16) as nat)]);
        i = i + 1;
    }
    assert(bytes@.subrange(0, bytes@.len() as int) =~= bytes@);
    string_of(&out)
}

/// The SHA-256 digest of an artifact's bytes, in lower-case hexadecimal:
/// 64 digits.
pub fn artifact_sha256(bytes: &Vec<u8>) -> (r: String)
    ensures
        r@ == hex_bytes(sha256_of(bytes@)),
        r@.len() == 64,
{
    let digest = sha256_bytes(bytes);
    proof {
        lemma_hex_len(digest@);
    }
    hex_text(&digest)
}

proof fn lemma_hex_len(bytes: Seq<u8>)
    ensures
        hex_bytes(bytes).len() == 2 * bytes.len(),
    decreases bytes.len(),
{
    if bytes.len() > 0 {
        lemma_hex_len(bytes.drop_last());
    }
}

/// A reason that speaks of artifacts: a text holding `artifact_`.
pub open spec fn artifact_reason(v: JsonValue) -> bool {
    v matches JsonValue::Text(t) && contains(t@, "artifact_"@)
}

/// A runtime decision speaks of artifacts when one of its `reasons` does.
pub open spec fn is_artifact_decision_spec(decision: JsonValue) -> bool {
    match member_spec(decision, "reasons"@) {
        Some(JsonValue::Array(items)) => has_artifact_reason(items@),
        _ => false,
    }
}

pub open spec fn has_artifact_reason(items: Seq<JsonValue>) -> bool {
    exists|i: int| 0 <= i < items.len() && artifact_reason(#[trigger] items[i])
}

/// Whether a runtime decision speaks of artifacts (see `is_artifact_decision_spec`).
pub fn is_artifact_decision(decision: &JsonValue) -> (r: bool)
    ensures
        r == is_artifact_decision_spec(*decision),
{
    let found = json_member(decision, "reasons");
    match found {
        Some(JsonValue::Array(items)) => {
            assert(member_spec(*decision, "reasons"@) == Some(JsonValue::Array(*items)));
            let mut i: usize = 0;
            while i < items.len()
                invariant
                    i <= items@.len(),
                    forall|j: int| 0 <= j < i ==> !artifact_reason(#[trigger] items@[j]),
                    member_spec(*decision, "reasons"@) == Some(JsonValue::Array(*items)),
                decreases items.len() - i,
            {
                match &items[i] {
                    JsonValue::Text(t) => {
                        if contains_str(&chars_of(t.as_str()), "artifact_") {
                            assert(artifact_reason(items@[i as int]));
                            assert(has_artifact_reason(items@));
                            return true;
                        }
                    },
                    _ => {},
                }
                i = i + 1;
            }
            false
        },
        _ => false,
    }
}

/// A decision belongs to the trace asked for (any, when none is).
pub open spec fn on_trace(d: JsonValue, trace_id: Option<Seq<char>>) -> bool {
    match trace_id {
        Some(t) => member_text_spec(d, "trace_id"@) == Some(t),
        None => true,
    }
}

pub open spec fn decisions_on_trace(ds: Seq<JsonValue>, trace_id: Option<Seq<char>>) -> Seq<JsonValue>
    decreases ds.len(),
{
    if ds.len() == 0 {
        Seq::empty()
    } else if on_trace(ds.last(), trace_id) {
        decisions_on_trace(ds.drop_last(), trace_id).push(ds.last())
    } else {
        decisions_on_trace(ds.drop_last(), trace_id)
    }
}

/// When a decision was made: its `decision_at_ms`, 0 when it has none.
pub open spec fn decision_at(d: JsonValue) -> u64 {
    match member_spec(d, "decision_at_ms"@) {
        Some(x) => match json_u64(x) {
            Some(n) => n,
            None => 0,
        },
        None => 0,
    }
}

pub open spec fn artifact_only(ds: Seq<JsonValue>) -> Seq<JsonValue>
    decreases ds.len(),
{
    if ds.len() == 0 {
        Seq::empty()
    } else if is_artifact_decision_spec(ds.last()) {
        artifact_only(ds.drop_last()).push(ds.last())
    } else {
        artifact_only(ds.drop_last())
    }
}

/// The decisions of the trace ordered by when they were made (stably), then
/// newest first.
pub open spec fn newest_first(ds: Seq<JsonValue>, trace_id: Option<Seq<char>>) -> Seq<JsonValue> {
    let kept = decisions_on_trace(ds, trace_id);
    sorted_by_stamps(kept, kept.map_values(|d: JsonValue| decision_at(d))).reverse()
}

/// Of the newest `limit` decisions of the trace, those that speak of
/// artifacts, newest first.
pub open spec fn artifact_hits_spec(ds: Seq<JsonValue>, trace_id: Option<Seq<char>>, limit: usize) -> Seq<JsonValue> {
    let n = newest_first(ds, trace_id);
    artifact_only(n.take(if limit < n.len() { limit as int } else { n.len() as int }))
}

/// The runtime decisions an artifact proof lists (see `artifact_hits_spec`).
pub fn artifact_decision_hits(decisions: Vec<JsonValue>, trace_id: Option<&str>, limit: usize) -> (r: Vec<JsonValue>)
    ensures
        r@ == artifact_hits_spec(
            decisions@,
            match trace_id {
                Some(t) => Some(t@),
                None => None,
            },
            limit,
        ),
{
    let ghost tid = match trace_id {
        Some(t) => Some(t@),
        None => None::<Seq<char>>,
    };
    let ghost all = decisions@;
    let mut kept: Vec<JsonValue> = Vec::new();
    let mut stamps: Vec<u64> = Vec::new();
    let mut rest = decisions;
    let mut i: usize = 0;
    let n = rest.len();
    while i < n
        invariant
            n == all.len(),
            i <= n,
            rest@ == all.subrange(i as int, n as int),
            tid == match trace_id {
                Some(t) => Some(t@),
                None => None::<Seq<char>>,
            },
            kept@ == decisions_on_trace(all.subrange(0, i as int), tid),
            stamps@ == kept@.map_values(|d: JsonValue| decision_at(d)),
        decreases n - i,
    {
        let d = rest.remove(0);
        assert(d == all[i as int]);
        assert(all.subrange(0, i + 1).drop_last() =~= all.subrange(0, i as int));
        let keep = match trace_id {
            Some(t) => match json_member_text(&d, "trace_id") {
                Some(x) => chars_eq_str(&chars_of(x.as_str()), t),
                None => false,
            },
            None => true,
        };
        assert(keep == on_trace(d, tid));
        if keep {
            let at = match json_member(&d, "decision_at_ms") {
                Some(x) => match json_u64_exec(x) {
                    Some(v) => v,
                    None => 0,
                },
                None => 0,
            };
            let ghost k0 = kept@;
            kept.push(d);
            stamps.push(at);
            assert(stamps@ =~= kept@.map_values(|d: JsonValue| decision_at(d)));
        }
        assert(rest@ =~= all.subrange(i + 1, n as int));
        i = i + 1;
    }
    assert(all.subrange(0, n as int) =~= all);
    let ghost st = sorted_by_stamps(kept@, stamps@);
    let mut sorted = sort_by_stamps(kept, stamps);
    let ghost nf = st.reverse();
    let m = sorted.len();
    let take: usize = if limit < m { limit } else { m };
    let mut out: Vec<JsonValue> = Vec::new();
    let mut t: usize = 0;
    while t < take
        invariant
            sorted@.len() == m - t,
            take <= m,
            t <= take,
            st.len() == m,
            nf == st.reverse(),
            sorted@ == st.subrange(0, m - t),
            out@ == artifact_only(nf.take(t as int)),
        decreases take - t,
    {
        let ghost s0 = sorted@;
        let d = sorted.pop().unwrap();
        assert(d == st[m - 1 - t]);
        assert(nf[t as int] == st[m - 1 - t]);
        assert(nf.take(t + 1).drop_last() =~= nf.take(t as int));
        assert(nf.take(t + 1).last() == d);
        if is_artifact_decision(&d) {
            out.push(d);
        }
        assert(sorted@ =~= st.subrange(0, m - t - 1));
        t = t + 1;
    }
    out
}

/// The status of an artifact proof.
#[derive(Debug, Clone, Copy, PartialEq, Eq, Structural)]
pub enum ArtifactProofStatus {
    /// The artifact file named was not found.
    Blocked,
    /// Some decision speaks of artifacts.
    RequiresAttention,
    InOrder,
}

/// A missing artifact file blocks; otherwise a decision that speaks of
/// artifacts asks for attention; otherwise the proof is in order.
/// `file_exists` is whether the named file exists, when a file is named.
pub fn artifact_proof_status(file_exists: Option<bool>, artifact_decisions: usize) -> (r: ArtifactProofStatus)
    ensures
        r == (if file_exists == Some(false) {
            ArtifactProofStatus::Blocked
        } else if artifact_decisions > 0 {
            ArtifactProofStatus::RequiresAttention
        } else {
            ArtifactProofStatus::InOrder
        }),
{
    if file_exists == Some(false) {
        ArtifactProofStatus::Blocked
    } else if artifact_decisions > 0 {
        ArtifactProofStatus::RequiresAttention
    } else {
        ArtifactProofStatus::InOrder
    }
}

impl ArtifactProofStatus {
    /// The status as the view names it.
    pub fn label(&self) -> (r: String)
        ensures
            r@ == match *self {
                ArtifactProofStatus::Blocked => "blocked"@,
                ArtifactProofStatus::RequiresAttention => "requires_attention"@,
                ArtifactProofStatus::InOrder => "ok"@,
            },
    {
        match self {
            ArtifactProofStatus::Blocked => string_of(&chars_of("blocked")),
            ArtifactProofStatus::RequiresAttention => string_of(&chars_of("requires_attention")),
            ArtifactProofStatus::InOrder => string_of(&chars_of("ok")),
        }
    }
}

/// The artifact file named in a proof request, as read.
#[derive(Debug)]
pub enum ArtifactFile {
    /// The path names no file.
    Missing,
    /// The file's bytes.
    Present(Vec<u8>),
}

/// A relation write proof: its key, and its value read as JSON (or kept raw).
#[derive(Debug)]
pub struct WriteProof {
    pub key: String,
    pub value: JsonValue,
}

/// The proof of an artifact.
#[derive(Debug)]
pub struct ArtifactProof {
    pub status: ArtifactProofStatus,
    /// The hex SHA-256 of the file, when a file exists.
    pub file_sha256: Option<String>,
    /// The file's length, when a file exists.
    pub size_bytes: Option<usize>,
    /// The decisions that speak of artifacts (see `artifact_hits_spec`).
    pub decision_reasons: Vec<JsonValue>,
    /// The newest relation write proofs, newest first.
    pub relation_write_proofs: Vec<WriteProof>,
}

/// `w` is the stored entry `e` with its value read as JSON, or kept as
/// `{"raw": value}` when the value is no JSON.
pub open spec fn write_proof_matches(w: WriteProof, e: KnowledgeEntry) -> bool {
    &&& w.key@ == e.key@
    &&& match json_document(e.value@) {
        Some(v) => w.value == v,
        None => raw_wrapped(w.value, e.value@),
    }
}

/// `v` is `{"raw": text}`.
pub open spec fn raw_wrapped(v: JsonValue, text: Seq<char>) -> bool {
    match v {
        JsonValue::Object(m) => m@.len() == 1 && m@[0].0@ == "raw"@ && match m@[0].1 {
            JsonValue::Text(t) => t@ == text,
            _ => false,
        },
        _ => false,
    }
}

/// The newest `limit` entries of a listing (the last ones), newest first.
pub open spec fn newest(es: Seq<KnowledgeEntry>, limit: usize) -> Seq<KnowledgeEntry> {
    es.reverse().take(if limit < es.len() { limit as int } else { es.len() as int })
}

pub open spec fn artifact_status_spec(file: Option<ArtifactFile>, hits: nat) -> ArtifactProofStatus {
    if file matches Some(ArtifactFile::Missing) {
        ArtifactProofStatus::Blocked
    } else if hits > 0 {
        ArtifactProofStatus::RequiresAttention
    } else {
        ArtifactProofStatus::InOrder
    }
}

proof fn lemma_artifact_only_len(ds: Seq<JsonValue>)
    ensures
        artifact_only(ds).len() <= ds.len(),
    decreases ds.len(),
{
    if ds.len() > 0 {
        lemma_artifact_only_len(ds.drop_last());
    }
}

/// The proof of an artifact: the file named (if any), the session's runtime
/// decisions and its relation write proofs, as listed. A missing file
/// blocks; else a decision among the newest `limit` of the trace that speaks
/// of artifacts asks for attention; the file's digest is the hex SHA-256 of
/// its bytes, and at most `limit` decisions and write proofs are listed.
pub fn artifact_proof(
    file: Option<ArtifactFile>,
    decisions: Vec<JsonValue>,
    write_proofs: Vec<KnowledgeEntry>,
    trace_id: Option<&str>,
    limit: usize,
) -> (r: ArtifactProof)
    ensures
        ({
            let tid = match trace_id {
                Some(t) => Some(t@),
                None => None,
            };
            let hits = artifact_hits_spec(decisions@, tid, limit);
            &&& r.decision_reasons@ == hits
            &&& r.decision_reasons@.len() <= limit
            &&& r.status == artifact_status_spec(file, hits.len())
        }),
        match file {
            Some(ArtifactFile::Present(bytes)) => r.file_sha256 matches Some(h) && h@ == hex_bytes(sha256_of(bytes@))
                && r.size_bytes == Some(bytes@.len() as usize),
            _ => r.file_sha256 is None && r.size_bytes is None,
        },
        r.relation_write_proofs@.len() == newest(write_proofs@, limit).len(),
        forall|i: int|
            0 <= i < r.relation_write_proofs@.len() ==> write_proof_matches(
                #[trigger] r.relation_write_proofs@[i],
                newest(write_proofs@, limit)[i],
            ),
{
    let ghost tid = match trace_id {
        Some(t) => Some(t@),
        None => None::<Seq<char>>,
    };
    let hits = artifact_decision_hits(decisions, trace_id, limit);
    proof {
        let n = newest_first(decisions@, tid);
        lemma_artifact_only_len(n.take(if limit < n.len() { limit as int } else { n.len() as int }));
    }
    let (sha, size) = match &file {
        Some(ArtifactFile::Present(bytes)) => (Some(artifact_sha256(bytes)), Some(bytes.len())),
        _ => (None, None),
    };
    let missing = match &file {
        Some(ArtifactFile::Missing) => true,
        _ => false,
    };
    let status = if missing {
        ArtifactProofStatus::Blocked
    } else if hits.len() > 0 {
        ArtifactProofStatus::RequiresAttention
    } else {
        ArtifactProofStatus::InOrder
    };
    let ghost all = write_proofs@;
    let ghost nw = newest(all, limit);
    let m = write_proofs.len();
    let take: usize = if limit < m { limit } else { m };
    let mut rest = write_proofs;
    let mut proofs: Vec<WriteProof> = Vec::new();
    let mut t: usize = 0;
    while t < take
        invariant
            m == all.len(),
            take <= m,
            t <= take,
            take == (if limit < m { limit } else { m }),
            nw == newest(all, limit),
            rest@ == all.subrange(0, m - t),
            proofs@.len() == t,
            forall|i: int| 0 <= i < t ==> write_proof_matches(#[trigger] proofs@[i], nw[i]),
        decreases take - t,
    {
        let e = rest.pop().unwrap();
        assert(e == all[m - 1 - t]);
        assert(nw[t as int] == all[m - 1 - t]);
        let value = match parse_json_document(e.value.as_str()) {
            Some(v) => v,
            None => {
                let raw = e.value.clone();
                JsonValue::Object(vec![(string_of(&chars_of("raw")), JsonValue::Text(raw))])
            },
        };
        proof {
            reveal_strlit("raw");
        }
        let w = WriteProof { key: e.key, value };
        assert(write_proof_matches(w, nw[t as int]));
        let ghost p0 = proofs@;
        proofs.push(w);
        assert forall|i: int| 0 <= i < t + 1 implies write_proof_matches(#[trigger] proofs@[i], nw[i]) by {
            if i < t {
                assert(proofs@[i] == p0[i]);
            }
        }
        assert(rest@ =~= all.subrange(0, m - t - 1));
        t = t + 1;
    }
    ArtifactProof {
        status,
        file_sha256: sha,
        size_bytes: size,
        decision_reasons: hits,
        relation_write_proofs: proofs,
    }
}

} // verus!
