//! Turning raw ingested content into text: content-type detection, tag
//! stripping, CSV and Markdown flattening, whitespace normalisation.
use vstd::prelude::*;

use crate::keyed::TextMap;
use crate::memory::json::{flatten_json_text, flatten_json_text_spec};
use crate::text::{
    chars_eq_str, chars_of, contains, contains_str, ends_with, ends_with_exec, is_blank, join,
    join_exec, lines, lines_exec, lower, push_all, push_str, replace_all, replace_all_exec,
    sep_pred, slice, split_chars, split_chars_exec, starts_with, starts_with_str, to_lower, trim,
    trim_start, trimmed, views, Separator,
};

verus! {

/// Each piece trimmed.
pub open spec fn trim_all(ps: Seq<Seq<char>>) -> Seq<Seq<char>> {
    ps.map_values(|p: Seq<char>| trim(p))
}

pub fn trim_all_exec(ps: &Vec<Vec<char>>) -> (r: Vec<Vec<char>>)
    ensures
        views(r@) == trim_all(views(ps@)),
{
    let mut out: Vec<Vec<char>> = Vec::new();
    let mut i: usize = 0;
    while i < ps.len()
        invariant
            i <= ps.len(),
            views(out@) == trim_all(views(ps@).subrange(0, i as int)),
        decreases ps.len() - i,
    {
        let t = trimmed(&ps[i]);
        let ghost before = views(out@);
        out.push(t);
        proof {
            let a = trim_all(views(ps@).subrange(0, i + 1));
            assert(views(out@) =~= before.push(t@));
            assert forall|j: int| 0 <= j < i + 1 implies #[trigger] a[j] == before.push(t@)[j] by {
                if j < i {
                    assert(before[j] == trim(views(ps@)[j]));
                }
            }
            assert(a =~= before.push(t@));
        }
        i = i + 1;
    }
    assert(views(ps@).subrange(0, ps.len() as int) =~= views(ps@));
    out
}

/// `lines().map(str::trim).collect::<Vec<_>>().join("\n").replace("\n\n\n", "\n\n")`.
pub open spec fn normalize_whitespace_spec(text: Seq<char>) -> Seq<char> {
    replace_all(join(trim_all(lines(text)), "\n"@), "\n\n\n"@, "\n\n"@)
}

pub fn normalize_whitespace(text: &Vec<char>) -> (r: Vec<char>)
    ensures
        r@ == normalize_whitespace_spec(text@),
{
    let ls = lines_exec(text);
    let ts = trim_all_exec(&ls);
    let joined = join_exec(&ts, "\n");
    replace_all_exec(&joined, "\n\n\n", "\n\n")
}

/// One token per four characters, rounded up: `ceil(chars / 4)`.
pub open spec fn estimate_tokens_spec(text: Seq<char>) -> u32 {
    let t = (text.len() + 3) / 4;
    if t > u32::MAX {
        u32::MAX
    } else {
        t as u32
    }
}

pub fn estimate_tokens(text: &Vec<char>) -> (r: u32)
    ensures
        r == estimate_tokens_spec(text@),
{
    let t = text.len() / 4 + if text.len() % 4 == 0 { 0 } else { 1 };
    assert(t == (text.len() + 3) / 4);
    if t > 4294967295usize {
        u32::MAX
    } else {
        t as u32
    }
}

/// `str::eq_ignore_ascii_case`.
pub open spec fn eq_ignore_case(a: Seq<char>, b: Seq<char>) -> bool {
    lower(a) == lower(b)
}

pub open spec fn opt_text(m: Map<Seq<char>, Seq<char>>, k: Seq<char>) -> Option<Seq<char>> {
    if m.contains_key(k) {
        Some(m[k])
    } else {
        None
    }
}

/// The content type of ingested content: the `content_type` metadata when it
/// is not blank (lower-cased), else guessed from the text and the file extension.
pub open spec fn detect_content_type_spec(raw: Seq<char>, metadata: Map<Seq<char>, Seq<char>>) -> Seq<char> {
    let given = opt_text(metadata, "content_type"@);
    let trimmed = trim_start(raw);
    if given is Some && trim(lower(given.unwrap())).len() > 0 {
        lower(given.unwrap())
    } else if starts_with(trimmed, "<!doctype html"@) || starts_with(trimmed, "<html"@) {
        "html"@
    } else if (starts_with(trimmed, "{"@) && ends_with(trimmed, "}"@)) || (starts_with(trimmed, "["@)
        && ends_with(trimmed, "]"@)) {
        "json"@
    } else if contains(raw, ","@) && lines(raw).len() > 1 {
        "csv"@
    } else if contains(raw, "```"@) || contains(raw, "# "@) {
        "markdown"@
    } else if starts_with(trimmed, "http"@) {
        "url"@
    } else if opt_text(metadata, "file_ext"@) matches Some(ext) && (eq_ignore_case(ext, "png"@)
        || eq_ignore_case(ext, "jpg"@)) {
        "ocr"@
    } else {
        "text"@
    }
}

fn trim_start_exec(s: &Vec<char>) -> (r: Vec<char>)
    ensures
        r@ == trim_start(s@),
{
    let mut i: usize = 0;
    assert(s@.subrange(0, s.len() as int) =~= s@);
    while i < s.len() && crate::text::is_whitespace(s[i])
        invariant
            i <= s.len(),
            trim_start(s@) == trim_start(s@.subrange(i as int, s.len() as int)),
        decreases s.len() - i,
    {
        assert(s@.subrange(i as int, s.len() as int).drop_first() =~= s@.subrange(
            i + 1,
            s.len() as int,
        ));
        i = i + 1;
    }
    slice(s, i, s.len())
}

fn eq_ignore_case_exec(a: &Vec<char>, b: &str) -> (r: bool)
    ensures
        r == eq_ignore_case(a@, b@),
{
    let la = to_lower(a);
    let bv = chars_of(b);
    let lb = to_lower(&bv);
    crate::text::chars_eq(&la, &lb)
}

pub fn detect_content_type(raw: &Vec<char>, metadata: &TextMap) -> (r: Vec<char>)
    ensures
        r@ == detect_content_type_spec(raw@, metadata@),
{
    match metadata.get("content_type") {
        Some(kind) => {
            let kc = chars_of(kind.as_str());
            let lowered = to_lower(&kc);
            if !is_blank(&lowered) {
                return lowered;
            }
        },
        None => {},
    }
    let t = trim_start_exec(raw);
    let open_brace = chars_of("}");
    let close_bracket = chars_of("]");
    if starts_with_str(&t, "<!doctype html") || starts_with_str(&t, "<html") {
        chars_of("html")
    } else if (starts_with_str(&t, "{") && ends_with_exec(&t, &open_brace)) || (starts_with_str(
        &t,
        "[",
    ) && ends_with_exec(&t, &close_bracket)) {
        chars_of("json")
    } else if contains_str(raw, ",") && lines_exec(raw).len() > 1 {
        chars_of("csv")
    } else if contains_str(raw, "```") || contains_str(raw, "# ") {
        chars_of("markdown")
    } else if starts_with_str(&t, "http") {
        chars_of("url")
    } else {
        let is_image = match metadata.get("file_ext") {
            Some(ext) => {
                let ec = chars_of(ext.as_str());
                eq_ignore_case_exec(&ec, "png") || eq_ignore_case_exec(&ec, "jpg")
            },
            None => false,
        };
        if is_image {
            chars_of("ocr")
        } else {
            chars_of("text")
        }
    }
}

/// State of the tag scan over `s`: the text kept so far and whether a tag is open.
pub open spec fn html_scan(s: Seq<char>) -> (Seq<char>, bool)
    decreases s.len(),
{
    if s.len() == 0 {
        (Seq::empty(), false)
    } else {
        let (kept, in_tag) = html_scan(s.drop_last());
        let c = s.last();
        if c == '<' {
            (kept, true)
        } else if c == '>' {
            (kept, false)
        } else if !in_tag {
            (kept.push(c), in_tag)
        } else {
            (kept, in_tag)
        }
    }
}

/// Text outside `<...>` tags; `<` and `>` themselves are dropped.
pub open spec fn strip_html_tags_spec(text: Seq<char>) -> Seq<char> {
    html_scan(text).0
}

pub fn strip_html_tags(text: &Vec<char>) -> (r: Vec<char>)
    ensures
        r@ == strip_html_tags_spec(text@),
{
    let mut out: Vec<char> = Vec::new();
    let mut in_tag = false;
    let mut i: usize = 0;
    while i < text.len()
        invariant
            i <= text.len(),
            (out@, in_tag) == html_scan(text@.subrange(0, i as int)),
        decreases text.len() - i,
    {
        let c = text[i];
        assert(text@.subrange(0, i + 1).drop_last() =~= text@.subrange(0, i as int));
        if c == '<' {
            in_tag = true;
        } else if c == '>' {
            in_tag = false;
        } else if !in_tag {
            out.push(c);
        }
        i = i + 1;
    }
    assert(text@.subrange(0, text.len() as int) =~= text@);
    out
}

/// Text with no `<` or `>`.
pub open spec fn tag_free(s: Seq<char>) -> bool {
    forall|i: int| 0 <= i < s.len() ==> #[trigger] s[i] != '<' && s[i] != '>'
}

/// Scanning tag-free text keeps all of it outside a tag and none of it inside one.
proof fn lemma_scan_tag_free(a: Seq<char>, t: Seq<char>)
    requires
        tag_free(t),
    ensures
        html_scan(a + t) == (if html_scan(a).1 {
            html_scan(a)
        } else {
            (html_scan(a).0 + t, false)
        }),
    decreases t.len(),
{
    if t.len() == 0 {
        assert(a + t =~= a);
        assert(html_scan(a).0 + t =~= html_scan(a).0);
    } else {
        let t0 = t.drop_last();
        assert forall|i: int| 0 <= i < t0.len() implies #[trigger] t0[i] != '<' && t0[i] != '>' by {
            assert(t0[i] == t[i]);
        }
        lemma_scan_tag_free(a, t0);
        assert((a + t).drop_last() =~= a + t0);
        assert((a + t).last() == t.last());
        assert(t.last() == t[t.len() - 1]);
        assert(html_scan(a).0 + t0 + seq![t.last()] =~= html_scan(a).0 + t);
    }
}

proof fn lemma_scan_push(a: Seq<char>, c: char)
    ensures
        html_scan(a.push(c)) == (if c == '<' {
            (html_scan(a).0, true)
        } else if c == '>' {
            (html_scan(a).0, false)
        } else if !html_scan(a).1 {
            (html_scan(a).0.push(c), false)
        } else {
            html_scan(a)
        }),
{
    assert(a.push(c).drop_last() =~= a);
}

/// What tag stripping keeps holds no `<` or `>`.
pub proof fn law_stripped_text_is_tag_free(s: Seq<char>)
    ensures
        tag_free(strip_html_tags_spec(s)),
    decreases s.len(),
{
    if s.len() > 0 {
        law_stripped_text_is_tag_free(s.drop_last());
        lemma_scan_push(s.drop_last(), s.last());
        assert(s.drop_last().push(s.last()) =~= s);
        let k = html_scan(s.drop_last()).0;
        assert forall|i: int| 0 <= i < strip_html_tags_spec(s).len() implies #[trigger] strip_html_tags_spec(s)[i]
            != '<' && strip_html_tags_spec(s)[i] != '>' by {
            if i < k.len() {
                assert(k[i] != '<' && k[i] != '>');
            }
        }
    }
}

/// Text without tags comes through tag stripping unchanged.
pub proof fn law_tag_free_text_is_kept(t: Seq<char>)
    requires
        tag_free(t),
    ensures
        strip_html_tags_spec(t) == t,
{
    lemma_scan_tag_free(Seq::empty(), t);
    assert(Seq::<char>::empty() + t =~= t);
    assert(Seq::<char>::empty() + t =~= t);
}

/// Once a tag closes, the text that follows it is kept: stripping
/// `p<u>t` gives what stripping `p` gives, then `t`.
pub proof fn law_text_after_closed_tag_is_kept(p: Seq<char>, u: Seq<char>, t: Seq<char>)
    requires
        tag_free(u),
        tag_free(t),
    ensures
        strip_html_tags_spec(p + seq!['<'] + u + seq!['>'] + t) == strip_html_tags_spec(p) + t,
{
    lemma_scan_push(p, '<');
    assert(p + seq!['<'] =~= p.push('<'));
    lemma_scan_tag_free(p + seq!['<'], u);
    lemma_scan_push(p + seq!['<'] + u, '>');
    assert(p + seq!['<'] + u + seq!['>'] =~= (p + seq!['<'] + u).push('>'));
    lemma_scan_tag_free(p + seq!['<'] + u + seq!['>'], t);
}

/// Everything after a `<` that never closes is dropped.
pub proof fn law_unclosed_tag_drops_the_rest(p: Seq<char>, u: Seq<char>)
    requires
        tag_free(u),
    ensures
        strip_html_tags_spec(p + seq!['<'] + u) == strip_html_tags_spec(p),
{
    lemma_scan_push(p, '<');
    assert(p + seq!['<'] =~= p.push('<'));
    lemma_scan_tag_free(p + seq!['<'], u);
}

/// The text of an element is what stripping its tags leaves:
/// stripping `<o>t</c>` (tag-free `o`, `t`, `c`) gives `t`.
pub proof fn law_element_text_is_kept(o: Seq<char>, t: Seq<char>, c: Seq<char>)
    requires
        tag_free(o),
        tag_free(t),
        tag_free(c),
    ensures
        strip_html_tags_spec(seq!['<'] + o + seq!['>'] + t + seq!['<'] + c + seq!['>']) == t,
{
    let e = Seq::<char>::empty();
    law_text_after_closed_tag_is_kept(e, o, t);
    assert(e + seq!['<'] + o + seq!['>'] + t =~= seq!['<'] + o + seq!['>'] + t);
    assert(strip_html_tags_spec(e) =~= e);
    assert(e + t =~= t);
    let w = seq!['<'] + o + seq!['>'] + t;
    law_text_after_closed_tag_is_kept(w, c, e);
    assert(w + seq!['<'] + c + seq!['>'] + e =~= seq!['<'] + o + seq!['>'] + t + seq!['<'] + c + seq!['>']);
    assert(t + e =~= t);
}

/// A CSV line with its fields trimmed and joined by ` | `.
pub open spec fn csv_row(line: Seq<char>) -> Seq<char> {
    join(trim_all(split_chars(line, sep_pred(Separator::Char(',')))), " | "@)
}

pub open spec fn csv_rows(ls: Seq<Seq<char>>) -> Seq<Seq<char>> {
    ls.map_values(|l: Seq<char>| csv_row(l))
}

/// Each line's fields trimmed and joined by ` | `; lines joined by `\n`.
pub open spec fn normalize_csv_spec(text: Seq<char>) -> Seq<char> {
    join(csv_rows(lines(text)), "\n"@)
}

pub fn normalize_csv(text: &Vec<char>) -> (r: Vec<char>)
    ensures
        r@ == normalize_csv_spec(text@),
{
    let ls = lines_exec(text);
    let mut rows: Vec<Vec<char>> = Vec::new();
    let mut i: usize = 0;
    while i < ls.len()
        invariant
            i <= ls.len(),
            views(rows@) == csv_rows(views(ls@).subrange(0, i as int)),
        decreases ls.len() - i,
    {
        let fields = split_chars_exec(&ls[i], Separator::Char(','));
        let tf = trim_all_exec(&fields);
        let row = join_exec(&tf, " | ");
        let ghost before = views(rows@);
        rows.push(row);
        proof {
            assert(views(ls@)[i as int] == ls@[i as int]@);
            let a = csv_rows(views(ls@).subrange(0, i + 1));
            assert(views(rows@) =~= before.push(row@));
            assert forall|j: int| 0 <= j < i + 1 implies #[trigger] a[j] == before.push(row@)[j] by {
                if j < i {
                    assert(before[j] == csv_row(views(ls@)[j]));
                }
            }
            assert(a =~= before.push(row@));
        }
        i = i + 1;
    }
    assert(views(ls@).subrange(0, ls.len() as int) =~= views(ls@));
    join_exec(&rows, "\n")
}

/// `s` without leading copies of `c`, as `str::trim_start_matches(c)`.
pub open spec fn trim_start_char(s: Seq<char>, c: char) -> Seq<char>
    decreases s.len(),
{
    if s.len() > 0 && s[0] == c {
        trim_start_char(s.drop_first(), c)
    } else {
        s
    }
}

fn trim_start_char_exec(s: &Vec<char>, c: char) -> (r: Vec<char>)
    ensures
        r@ == trim_start_char(s@, c),
{
    let mut i: usize = 0;
    assert(s@.subrange(0, s.len() as int) =~= s@);
    while i < s.len() && s[i] == c
        invariant
            i <= s.len(),
            trim_start_char(s@, c) == trim_start_char(s@.subrange(i as int, s.len() as int), c),
        decreases s.len() - i,
    {
        assert(s@.subrange(i as int, s.len() as int).drop_first() =~= s@.subrange(
            i + 1,
            s.len() as int,
        ));
        i = i + 1;
    }
    slice(s, i, s.len())
}

/// A Markdown line without leading `#`, then `-`, then `*` runs, trimmed.
pub open spec fn markdown_line(l: Seq<char>) -> Seq<char> {
    trim(trim_start_char(trim_start_char(trim_start_char(l, '#'), '-'), '*'))
}

/// Markdown lines stripped, empty ones dropped.
pub open spec fn markdown_lines(ls: Seq<Seq<char>>) -> Seq<Seq<char>>
    decreases ls.len(),
{
    if ls.len() == 0 {
        Seq::empty()
    } else {
        let rest = markdown_lines(ls.drop_last());
        let m = markdown_line(ls.last());
        if m.len() > 0 {
            rest.push(m)
        } else {
            rest
        }
    }
}

pub open spec fn strip_markdown_spec(text: Seq<char>) -> Seq<char> {
    join(markdown_lines(lines(text)), "\n"@)
}

pub fn strip_markdown(text: &Vec<char>) -> (r: Vec<char>)
    ensures
        r@ == strip_markdown_spec(text@),
{
    let ls = lines_exec(text);
    let mut kept: Vec<Vec<char>> = Vec::new();
    let mut i: usize = 0;
    while i < ls.len()
        invariant
            i <= ls.len(),
            views(kept@) == markdown_lines(views(ls@).subrange(0, i as int)),
        decreases ls.len() - i,
    {
        let a = trim_start_char_exec(&ls[i], '#');
        let b = trim_start_char_exec(&a, '-');
        let c = trim_start_char_exec(&b, '*');
        let m = trimmed(&c);
        let ghost before = views(kept@);
        assert(views(ls@).subrange(0, i + 1).drop_last() =~= views(ls@).subrange(0, i as int));
        assert(views(ls@)[i as int] == ls@[i as int]@);
        if m.len() > 0 {
            kept.push(m);
            assert(views(kept@) =~= before.push(m@));
        }
        i = i + 1;
    }
    assert(views(ls@).subrange(0, ls.len() as int) =~= views(ls@));
    join_exec(&kept, "\n")
}

/// The text extracted for a content type: tags stripped from HTML, JSON
/// flattened (the raw text when it does not parse), CSV and Markdown
/// flattened, OCR text from the metadata (else a pending marker), and the raw
/// text otherwise.
pub open spec fn extract_by_content_type_spec(
    content_type: Seq<char>,
    raw: Seq<char>,
    metadata: Map<Seq<char>, Seq<char>>,
) -> Seq<char> {
    if content_type == "html"@ {
        strip_html_tags_spec(raw)
    } else if content_type == "json"@ {
        match flatten_json_text_spec(raw) {
            Some(t) => t,
            None => raw,
        }
    } else if content_type == "csv"@ {
        normalize_csv_spec(raw)
    } else if content_type == "markdown"@ || content_type == "code_or_markdown"@ {
        strip_markdown_spec(raw)
    } else if content_type == "ocr"@ || content_type == "image"@ {
        match opt_text(metadata, "ocr_text"@) {
            Some(t) => t,
            None => "OCR_PENDING "@ + raw,
        }
    } else {
        raw
    }
}

pub fn extract_by_content_type(content_type: &Vec<char>, raw: &Vec<char>, metadata: &TextMap) -> (r: Vec<char>)
    ensures
        r@ == extract_by_content_type_spec(content_type@, raw@, metadata@),
{
    if chars_eq_str(content_type, "html") {
        strip_html_tags(raw)
    } else if chars_eq_str(content_type, "json") {
        let raw_text = crate::text::string_of(raw);
        match flatten_json_text(raw_text.as_str()) {
            Some(t) => t,
            None => slice(raw, 0, raw.len()),
        }
    } else if chars_eq_str(content_type, "csv") {
        normalize_csv(raw)
    } else if chars_eq_str(content_type, "markdown") || chars_eq_str(content_type, "code_or_markdown") {
        strip_markdown(raw)
    } else if chars_eq_str(content_type, "ocr") || chars_eq_str(content_type, "image") {
        match metadata.get("ocr_text") {
            Some(t) => chars_of(t.as_str()),
            None => {
                let mut out = chars_of("OCR_PENDING ");
                push_all(&mut out, raw);
                out
            },
        }
    } else {
        slice(raw, 0, raw.len())
    }
}

} // verus!
