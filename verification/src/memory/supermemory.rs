//! The supermemory kernel: ingestion jobs, content extraction and semantic
//! chunking of documents into overlapping, sequenced chunks.
use vstd::prelude::*;

use crate::clock::current_time_ms;
use crate::keyed::{KeyedMap, TextMap};
use crate::memory::extract::{
    detect_content_type, detect_content_type_spec, estimate_tokens, estimate_tokens_spec,
    extract_by_content_type, extract_by_content_type_spec, normalize_whitespace,
    normalize_whitespace_spec,
};
use crate::text::{
    all_ws, is_ws, join, lemma_trim_end_prefix, lemma_trim_start_suffix, trim_end, trim_start,
    chars_of, decimal, push_all, push_decimal, push_str, sep_pred, split_chars, split_chars_exec,
    split_str, split_str_exec, string_of, trim, trimmed, trimmed_nonblank, trimmed_nonblank_exec,
    views, Separator,
};

verus! {

#[derive(Debug, Clone, Copy, PartialEq, Eq, Structural)]
pub enum ProcessingStatus {
    Queued,
    Extracting,
    Chunking,
    Embedding,
    Indexing,
    Done,
    Failed,
}

/// A document queued for ingestion.
#[derive(Debug)]
pub struct IngestionJob {
    pub job_id: String,
    pub session_id: String,
    pub tenant_id: String,
    pub source: String,
    pub document_id: String,
    pub metadata: TextMap,
    pub document_date: Option<String>,
    pub event_date: Option<String>,
    pub queued_at_ms: u64,
    pub status: ProcessingStatus,
}

/// The text extracted from a document.
#[derive(Debug)]
pub struct ExtractedContent {
    pub job_id: String,
    pub document_id: String,
    pub content_type: String,
    pub raw_text: String,
    pub normalized_text: String,
    pub token_estimate: u32,
    pub metadata: TextMap,
    pub extracted_at_ms: u64,
}

/// One chunk of a document; offsets count bytes of the normalised text.
#[derive(Debug)]
pub struct SemanticChunk {
    pub chunk_id: String,
    pub job_id: String,
    pub document_id: String,
    pub sequence: usize,
    pub text: String,
    pub token_estimate: u32,
    pub start_offset: usize,
    pub end_offset: usize,
    pub metadata: TextMap,
}

/// Chunking and embedding settings.
#[derive(Debug, Clone, Copy)]
pub struct SupermemoryKernel {
    pub chunk_char_target: usize,
    pub chunk_overlap_chars: usize,
    pub embedding_dimensions: usize,
}

impl SupermemoryKernel {
    /// Chunks of about 560 bytes overlapping by 72, 64-dimensional embeddings.
    pub fn new() -> (r: Self)
        ensures
            r.chunk_char_target == 560,
            r.chunk_overlap_chars == 72,
            r.embedding_dimensions == 64,
    {
        SupermemoryKernel { chunk_char_target: 560, chunk_overlap_chars: 72, embedding_dimensions: 64 }
    }
}

impl Default for SupermemoryKernel {
    fn default() -> (r: Self)
        ensures
            r.chunk_char_target == 560,
            r.chunk_overlap_chars == 72,
            r.embedding_dimensions == 64,
    {
        SupermemoryKernel::new()
    }
}

/// The number of bytes of the UTF-8 encoding of `s`, as `str::len` counts.
pub open spec fn byte_len(s: Seq<char>) -> usize {
    vstd::utf8::encode_utf8(s).len() as usize
}

pub fn byte_len_exec(s: &Vec<char>) -> (r: usize)
    ensures
        r == byte_len(s@),
{
    let t = string_of(s);
    t.as_str().len()
}

pub open spec fn sat_add(a: usize, b: usize) -> usize {
    if a + b > usize::MAX {
        usize::MAX
    } else {
        (a + b) as usize
    }
}

pub open spec fn sat_sub(a: usize, b: usize) -> usize {
    if a < b {
        0
    } else {
        (a - b) as usize
    }
}

// ---------------------------------------------------------------------------
// Sentences and semantic blocks
// ---------------------------------------------------------------------------

/// Sentences: pieces between `.`, `!` and `?`, trimmed, blank ones dropped.
pub open spec fn split_sentences_spec(text: Seq<char>) -> Seq<Seq<char>> {
    trimmed_nonblank(split_chars(text, sep_pred(Separator::SentenceEnd)))
}

pub fn split_sentences(text: &Vec<char>) -> (r: Vec<Vec<char>>)
    ensures
        views(r@) == split_sentences_spec(text@),
{
    let parts = split_chars_exec(text, Separator::SentenceEnd);
    trimmed_nonblank_exec(&parts)
}

/// Sentences gathered into pieces of at most `target` bytes: a sentence opens a
/// new piece when adding it (with a joining space) would pass `target` and the
/// current piece is not blank. Returns the closed pieces and the open one.
pub open spec fn gather_sentences(sents: Seq<Seq<char>>, target: usize) -> (Seq<Seq<char>>, Seq<char>)
    decreases sents.len(),
{
    if sents.len() == 0 {
        (Seq::empty(), Seq::empty())
    } else {
        let (done, current) = gather_sentences(sents.drop_last(), target);
        let s = sents.last();
        let candidate = sat_add(sat_add(byte_len(current), byte_len(s)), 1);
        let (done2, current2) = if candidate > target && trim(current).len() > 0 {
            (done.push(trim(current)), Seq::<char>::empty())
        } else {
            (done, current)
        };
        let current3 = if current2.len() > 0 {
            current2 + " "@ + s
        } else {
            s
        };
        (done2, current3)
    }
}

/// A block too long for one chunk, cut at sentence boundaries.
pub open spec fn sentence_pieces(block: Seq<char>, target: usize) -> Seq<Seq<char>> {
    let (done, current) = gather_sentences(split_sentences_spec(block), target);
    if trim(current).len() > 0 {
        done.push(trim(current))
    } else {
        done
    }
}

/// Non-empty, with no white space at either end.
pub open spec fn tight(x: Seq<char>) -> bool {
    x.len() > 0 && !is_ws(x[0]) && !is_ws(x.last())
}

proof fn lemma_trim_tight(x: Seq<char>)
    requires
        tight(x),
    ensures
        trim(x) == x,
{
}

proof fn lemma_trimmed_is_tight(s: Seq<char>)
    requires
        trim(s).len() > 0,
    ensures
        tight(trim(s)),
{
    lemma_trim_start_suffix(s);
    let ts = trim_start(s);
    let k = choose|k: int|
        0 <= k <= s.len() && trim_start(s) == s.subrange(k, s.len() as int) && all_ws(s.subrange(0, k)) && (k
            < s.len() ==> !is_ws(s[k]));
    lemma_trim_end_prefix(ts);
    let k2 = choose|k2: int|
        0 <= k2 <= ts.len() && trim_end(ts) == ts.subrange(0, k2) && all_ws(ts.subrange(k2, ts.len() as int))
            && (k2 > 0 ==> !is_ws(ts[k2 - 1]));
    assert(trim(s)[0] == ts[0]);
    assert(ts[0] == s[k]);
    assert(trim(s).last() == ts[k2 - 1]);
}

proof fn lemma_nonblank_pieces_tight(pieces: Seq<Seq<char>>)
    ensures
        forall|i: int| 0 <= i < trimmed_nonblank(pieces).len() ==> tight(#[trigger] trimmed_nonblank(pieces)[i]),
    decreases pieces.len(),
{
    if pieces.len() > 0 {
        lemma_nonblank_pieces_tight(pieces.drop_last());
        let rest = trimmed_nonblank(pieces.drop_last());
        let t = trim(pieces.last());
        if t.len() > 0 {
            lemma_trimmed_is_tight(pieces.last());
            assert forall|i: int| 0 <= i < trimmed_nonblank(pieces).len() implies tight(
                #[trigger] trimmed_nonblank(pieces)[i],
            ) by {
                if i < rest.len() {
                    assert(trimmed_nonblank(pieces)[i] == rest[i]);
                    assert(tight(rest[i]));
                }
            }
        } else {
            assert(trimmed_nonblank(pieces) == rest);
        }
    }
}

proof fn lemma_join_push(xs: Seq<Seq<char>>, y: Seq<char>, sep: Seq<char>)
    ensures
        join(xs.push(y), sep) == (if xs.len() == 0 {
            y
        } else {
            join(xs, sep) + sep + y
        }),
{
    assert(xs.push(y).drop_last() =~= xs);
    if xs.len() == 0 {
        assert(xs.push(y)[0] == y);
    }
}

/// Gathering keeps every sentence: the closed pieces and the open one, joined
/// by single spaces, are the sentences joined by single spaces.
proof fn lemma_gather_keeps_sentences(sents: Seq<Seq<char>>, target: usize)
    requires
        forall|i: int| 0 <= i < sents.len() ==> tight(#[trigger] sents[i]),
    ensures
        sents.len() == 0 ==> gather_sentences(sents, target).0.len() == 0 && gather_sentences(sents, target).1.len()
            == 0,
        sents.len() > 0 ==> tight(gather_sentences(sents, target).1) && join(
            gather_sentences(sents, target).0.push(gather_sentences(sents, target).1),
            " "@,
        ) == join(sents, " "@),
    decreases sents.len(),
{
    if sents.len() > 0 {
        let prev = sents.drop_last();
        assert forall|i: int| 0 <= i < prev.len() implies tight(#[trigger] prev[i]) by {
            assert(prev[i] == sents[i]);
        }
        lemma_gather_keeps_sentences(prev, target);
        let (done, current) = gather_sentences(prev, target);
        let x = sents.last();
        assert(tight(sents[sents.len() - 1]));
        lemma_join_push(prev, x, " "@);
        assert(sents =~= prev.push(x));
        if prev.len() == 0 {
            lemma_join_push(Seq::<Seq<char>>::empty(), x, " "@);
        } else {
            lemma_trim_tight(current);
            let candidate = sat_add(sat_add(byte_len(current), byte_len(x)), 1);
            if candidate > target && trim(current).len() > 0 {
                lemma_join_push(done.push(current), x, " "@);
            } else {
                let merged = current + " "@ + x;
                lemma_join_push(done, merged, " "@);
                lemma_join_push(done, current, " "@);
                assert(join(done, " "@) + " "@ + current + " "@ + x =~= join(done, " "@) + " "@ + merged);
                assert(current + " "@ + x =~= merged);
                reveal_strlit(" ");
                assert(merged[0] == current[0]);
                assert(merged.last() == x.last());
            }
        }
    }
}

/// Cutting a long block at sentence boundaries loses nothing: its pieces,
/// joined by single spaces, are its sentences joined by single spaces.
pub proof fn law_sentence_pieces_keep_every_sentence(block: Seq<char>, target: usize)
    ensures
        join(sentence_pieces(block, target), " "@) == join(split_sentences_spec(block), " "@),
{
    let sents = split_sentences_spec(block);
    lemma_nonblank_pieces_tight(split_chars(block, sep_pred(Separator::SentenceEnd)));
    lemma_gather_keeps_sentences(sents, target);
    let (done, current) = gather_sentences(sents, target);
    if sents.len() > 0 {
        lemma_trim_tight(current);
    } else {
        assert(join(done, " "@) == Seq::<char>::empty());
    }
}

/// Blocks in order: a block within `target` bytes stays whole, a longer one is
/// cut at sentence boundaries.
pub open spec fn block_pieces(blocks: Seq<Seq<char>>, target: usize) -> Seq<Seq<char>>
    decreases blocks.len(),
{
    if blocks.len() == 0 {
        Seq::empty()
    } else {
        let rest = block_pieces(blocks.drop_last(), target);
        let b = blocks.last();
        if byte_len(b) <= target {
            rest.push(b)
        } else {
            rest + sentence_pieces(b, target)
        }
    }
}

/// Paragraphs (split at blank lines, trimmed, blank ones dropped) cut to the
/// target size; the whole trimmed text when that leaves nothing.
pub open spec fn split_semantic_blocks_spec(text: Seq<char>, target: usize) -> Seq<Seq<char>> {
    let pieces = block_pieces(trimmed_nonblank(split_str(text, "\n\n"@)), target);
    if pieces.len() == 0 {
        seq![trim(text)]
    } else {
        pieces
    }
}

fn sentence_pieces_exec(block: &Vec<char>, target: usize) -> (r: Vec<Vec<char>>)
    ensures
        views(r@) == sentence_pieces(block@, target),
{
    let sents = split_sentences(block);
    let mut done: Vec<Vec<char>> = Vec::new();
    let mut current: Vec<char> = Vec::new();
    let mut i: usize = 0;
    while i < sents.len()
        invariant
            i <= sents.len(),
            (views(done@), current@) == gather_sentences(views(sents@).subrange(0, i as int), target),
        decreases sents.len() - i,
    {
        let s = &sents[i];
        let a = byte_len_exec(&current);
        let b = byte_len_exec(s);
        let candidate = a.saturating_add(b).saturating_add(1);
        assert(views(sents@).subrange(0, i + 1).drop_last() =~= views(sents@).subrange(0, i as int));
        assert(views(sents@)[i as int] == sents@[i as int]@);
        let t = trimmed(&current);
        if candidate > target && t.len() > 0 {
            let ghost before = views(done@);
            done.push(t);
            assert(views(done@) =~= before.push(t@));
            current = Vec::new();
        }
        if current.len() > 0 {
            push_str(&mut current, " ");
        }
        push_all(&mut current, s);
        i = i + 1;
    }
    assert(views(sents@).subrange(0, sents.len() as int) =~= views(sents@));
    let t = trimmed(&current);
    if t.len() > 0 {
        let ghost before = views(done@);
        done.push(t);
        assert(views(done@) =~= before.push(t@));
    }
    done
}

/// Paragraph and sentence splitting (see `split_semantic_blocks_spec`).
pub fn split_semantic_blocks(text: &Vec<char>, target: usize) -> (r: Vec<Vec<char>>)
    ensures
        views(r@) == split_semantic_blocks_spec(text@, target),
        r@.len() > 0,
{
    let raw_blocks = split_str_exec(text, "\n\n");
    let blocks = trimmed_nonblank_exec(&raw_blocks);
    let mut out: Vec<Vec<char>> = Vec::new();
    let mut i: usize = 0;
    while i < blocks.len()
        invariant
            i <= blocks.len(),
            views(out@) == block_pieces(views(blocks@).subrange(0, i as int), target),
        decreases blocks.len() - i,
    {
        let block = &blocks[i];
        assert(views(blocks@).subrange(0, i + 1).drop_last() =~= views(blocks@).subrange(0, i as int));
        assert(views(blocks@)[i as int] == blocks@[i as int]@);
        let ghost before = views(out@);
        if byte_len_exec(block) <= target {
            out.push(crate::text::slice(block, 0, block.len()));
            assert(block@.subrange(0, block.len() as int) =~= block@);
            assert(views(out@) =~= before.push(block@));
        } else {
            let pieces = sentence_pieces_exec(block, target);
            let mut j: usize = 0;
            while j < pieces.len()
                invariant
                    j <= pieces.len(),
                    views(out@) == before + views(pieces@).subrange(0, j as int),
                decreases pieces.len() - j,
            {
                let ghost mid = views(out@);
                let piece = crate::text::slice(&pieces[j], 0, pieces[j].len());
                assert(piece@ =~= pieces@[j as int]@);
                assert(views(pieces@)[j as int] == pieces@[j as int]@);
                out.push(piece);
                assert(views(out@) =~= mid.push(piece@));
                assert(views(out@) =~= before + views(pieces@).subrange(0, j + 1));
                j = j + 1;
            }
            assert(views(pieces@).subrange(0, pieces.len() as int) =~= views(pieces@));
        }
        i = i + 1;
    }
    assert(views(blocks@).subrange(0, blocks.len() as int) =~= views(blocks@));
    if out.len() == 0 {
        let mut single: Vec<Vec<char>> = Vec::new();
        single.push(trimmed(text));
        assert(views(single@) =~= seq![crate::text::trim(text@)]);
        return single;
    }
    out
}

// ---------------------------------------------------------------------------
// Extraction and chunking
// ---------------------------------------------------------------------------

/// Where chunk `i` starts: each chunk starts where the previous one ended,
/// stepped back by the overlap (at most the previous chunk's length).
pub open spec fn chunk_start(lens: Seq<usize>, overlap: usize, i: int) -> usize
    decreases i,
{
    if i <= 0 {
        0
    } else {
        let start = chunk_start(lens, overlap, i - 1);
        let len = lens[i - 1];
        let end = sat_add(start, len);
        sat_sub(end, if overlap < len { overlap } else { len })
    }
}

pub open spec fn byte_lens(blocks: Seq<Seq<char>>) -> Seq<usize> {
    blocks.map_values(|b: Seq<char>| byte_len(b))
}

/// Chunk `i` of a document cut into `blocks`.
pub open spec fn chunk_matches(
    c: SemanticChunk,
    extracted: ExtractedContent,
    blocks: Seq<Seq<char>>,
    overlap: usize,
    i: int,
) -> bool {
    let start = chunk_start(byte_lens(blocks), overlap, i);
    &&& c.sequence == i
    &&& c.chunk_id@ == "chunk:"@ + extracted.job_id@ + ":"@ + decimal(i as nat)
    &&& c.job_id@ == extracted.job_id@
    &&& c.document_id@ == extracted.document_id@
    &&& c.text@ == blocks[i]
    &&& c.token_estimate == estimate_tokens_spec(blocks[i])
    &&& c.start_offset == start
    &&& c.end_offset == sat_add(start, byte_len(blocks[i]))
    &&& c.metadata@ == extracted.metadata@.insert("chunk_sequence"@, decimal(i as nat))
}

impl SupermemoryKernel {
    /// Extracts `raw_content` for `job` at time `now`: the content type is
    /// detected, its text extracted and normalised, and the job's metadata
    /// extended by its source and tenant.
    pub fn extract_content_at(&self, job: &IngestionJob, raw_content: &str, now: u64) -> (r:
        ExtractedContent)
        ensures
            r.job_id@ == job.job_id@,
            r.document_id@ == job.document_id@,
            r.content_type@ == detect_content_type_spec(raw_content@, job.metadata@),
            r.raw_text@ == extract_by_content_type_spec(r.content_type@, raw_content@, job.metadata@),
            r.normalized_text@ == normalize_whitespace_spec(r.raw_text@),
            r.token_estimate == estimate_tokens_spec(r.normalized_text@),
            r.metadata@ == job.metadata@.insert("source"@, job.source@).insert(
                "tenant_id"@,
                job.tenant_id@,
            ),
            r.extracted_at_ms == now,
    {
        let raw = chars_of(raw_content);
        let content_type = detect_content_type(&raw, &job.metadata);
        let extracted = extract_by_content_type(&content_type, &raw, &job.metadata);
        let normalized = normalize_whitespace(&extracted);
        let mut metadata = job.metadata.duplicate();
        metadata.insert(string_of(&chars_of("source")), job.source.clone());
        metadata.insert(string_of(&chars_of("tenant_id")), job.tenant_id.clone());
        ExtractedContent {
            job_id: job.job_id.clone(),
            document_id: job.document_id.clone(),
            content_type: string_of(&content_type),
            raw_text: string_of(&extracted),
            normalized_text: string_of(&normalized),
            token_estimate: estimate_tokens(&normalized),
            metadata,
            extracted_at_ms: now,
        }
    }

    /// Extracts `raw_content` for `job` now (see `extract_content_at`).
    pub fn extract_content(&self, job: &IngestionJob, raw_content: &str) -> (r: ExtractedContent)
        ensures
            r.job_id@ == job.job_id@,
            r.document_id@ == job.document_id@,
            r.content_type@ == detect_content_type_spec(raw_content@, job.metadata@),
            r.raw_text@ == extract_by_content_type_spec(r.content_type@, raw_content@, job.metadata@),
            r.normalized_text@ == normalize_whitespace_spec(r.raw_text@),
            r.token_estimate == estimate_tokens_spec(r.normalized_text@),
            r.metadata@ == job.metadata@.insert("source"@, job.source@).insert(
                "tenant_id"@,
                job.tenant_id@,
            ),
    {
        let now = current_time_ms();
        self.extract_content_at(job, raw_content, now)
    }

    /// Cuts the normalised text into chunks, one per semantic block, with
    /// overlapping byte offsets and their sequence number in the metadata.
    pub fn chunk_semantic(&self, extracted: &ExtractedContent) -> (r: Vec<SemanticChunk>)
        ensures
            ({
                let blocks = split_semantic_blocks_spec(extracted.normalized_text@, self.chunk_char_target);
                &&& r@.len() == blocks.len()
                &&& forall|i: int| 0 <= i < r@.len() ==> chunk_matches(
                    #[trigger] r@[i],
                    *extracted,
                    blocks,
                    self.chunk_overlap_chars,
                    i,
                )
            }),
            r@.len() > 0,
            r@[0].start_offset == 0,
            forall|i: int|
                0 <= i < r@.len() && (#[trigger] r@[i]).start_offset + byte_len(r@[i].text@) <= usize::MAX
                    ==> r@[i].end_offset == r@[i].start_offset + byte_len(r@[i].text@),
            forall|i: int|
                0 <= i < r@.len() - 1 ==> (#[trigger] r@[i + 1]).start_offset == sat_sub(
                    r@[i].end_offset,
                    if self.chunk_overlap_chars < byte_len(r@[i].text@) {
                        self.chunk_overlap_chars
                    } else {
                        byte_len(r@[i].text@)
                    },
                ),
    {
        let text = chars_of(extracted.normalized_text.as_str());
        let blocks = split_semantic_blocks(&text, self.chunk_char_target);
        let ghost bs = views(blocks@);
        let mut chunks: Vec<SemanticChunk> = Vec::new();
        let mut cursor: usize = 0;
        let mut sequence: usize = 0;
        while sequence < blocks.len()
            invariant
                sequence <= blocks.len(),
                bs == views(blocks@),
                bs == split_semantic_blocks_spec(extracted.normalized_text@, self.chunk_char_target),
                chunks@.len() == sequence,
                cursor == chunk_start(byte_lens(bs), self.chunk_overlap_chars, sequence as int),
                forall|i: int| 0 <= i < sequence ==> chunk_matches(
                    #[trigger] chunks@[i],
                    *extracted,
                    bs,
                    self.chunk_overlap_chars,
                    i,
                ),
            decreases blocks.len() - sequence,
        {
            let block = &blocks[sequence];
            assert(bs[sequence as int] == block@);
            let len = byte_len_exec(block);
            assert(byte_lens(bs)[sequence as int] == len);
            let start = cursor;
            let end = start.saturating_add(len);
            let step = if self.chunk_overlap_chars < len { self.chunk_overlap_chars } else { len };
            cursor = end.saturating_sub(step);
            let mut metadata = extracted.metadata.duplicate();
            let seq_text = crate::text::decimal_chars(sequence as u64);
            metadata.insert(string_of(&chars_of("chunk_sequence")), string_of(&seq_text));
            let mut id = chars_of("chunk:");
            push_str(&mut id, extracted.job_id.as_str());
            push_str(&mut id, ":");
            push_decimal(&mut id, sequence as u64);
            let chunk = SemanticChunk {
                chunk_id: string_of(&id),
                job_id: extracted.job_id.clone(),
                document_id: extracted.document_id.clone(),
                sequence,
                text: string_of(block),
                token_estimate: estimate_tokens(block),
                start_offset: start,
                end_offset: end,
                metadata,
            };
            chunks.push(chunk);
            sequence = sequence + 1;
        }
        proof {
            let ov = self.chunk_overlap_chars;
            assert(chunk_matches(chunks@[0], *extracted, bs, ov, 0));
            assert forall|i: int|
                0 <= i < chunks@.len() && (#[trigger] chunks@[i]).start_offset + byte_len(chunks@[i].text@) <= usize::MAX
                    implies chunks@[i].end_offset == chunks@[i].start_offset + byte_len(chunks@[i].text@) by {
                assert(chunk_matches(chunks@[i], *extracted, bs, ov, i));
            }
            assert forall|i: int| 0 <= i < chunks@.len() - 1 implies (#[trigger] chunks@[i + 1]).start_offset == sat_sub(
                chunks@[i].end_offset,
                if ov < byte_len(chunks@[i].text@) {
                    ov
                } else {
                    byte_len(chunks@[i].text@)
                },
            ) by {
                assert(chunk_matches(chunks@[i], *extracted, bs, ov, i));
                assert(chunk_matches(chunks@[i + 1], *extracted, bs, ov, i + 1));
                assert(byte_lens(bs)[i] == byte_len(bs[i]));
            }
        }
        chunks
    }
}

} // verus!
