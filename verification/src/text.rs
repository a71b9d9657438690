//! Character-level text model shared by the pipelines: ASCII case folding,
//! Unicode whitespace, trimming and substring search, stated over `Seq<char>`.
use vstd::prelude::*;

verus! {

/// ASCII letters and digits, as `char::is_ascii_alphanumeric` classifies them.
pub open spec fn is_ascii_alnum(c: char) -> bool {
    ('a' <= c && c <= 'z') || ('A' <= c && c <= 'Z') || ('0' <= c && c <= '9')
}

/// Lower-cases an ASCII upper-case letter and keeps every other character.
pub open spec fn lower_char(c: char) -> char {
    if 'A' <= c && c <= 'Z' {
        ((c as u32) + 32) as char
    } else {
        c
    }
}

/// `str::to_ascii_lowercase` on the character sequence.
pub open spec fn lower(s: Seq<char>) -> Seq<char> {
    s.map_values(|c: char| lower_char(c))
}

/// The Unicode `White_Space` property, which `char::is_whitespace`, `str::trim`
/// and `str::split_whitespace` use.
pub open spec fn is_ws(c: char) -> bool {
    c == ' ' || c == '\t' || c == '\n' || c == '\x0B' || c == '\x0C' || c == '\r'
        || c == '\u{85}' || c == '\u{A0}' || c == '\u{1680}'
        || ('\u{2000}' <= c && c <= '\u{200A}')
        || c == '\u{2028}' || c == '\u{2029}' || c == '\u{202F}' || c == '\u{205F}'
        || c == '\u{3000}'
}

pub open spec fn trim_start(s: Seq<char>) -> Seq<char>
    decreases s.len(),
{
    if s.len() > 0 && is_ws(s[0]) {
        trim_start(s.drop_first())
    } else {
        s
    }
}

pub open spec fn trim_end(s: Seq<char>) -> Seq<char>
    decreases s.len(),
{
    if s.len() > 0 && is_ws(s.last()) {
        trim_end(s.drop_last())
    } else {
        s
    }
}

/// `str::trim`: whitespace removed at both ends.
pub open spec fn trim(s: Seq<char>) -> Seq<char> {
    trim_end(trim_start(s))
}

/// Every character is whitespace (so `trim` leaves nothing).
pub open spec fn all_ws(s: Seq<char>) -> bool {
    forall|i: int| 0 <= i < s.len() ==> is_ws(#[trigger] s[i])
}

/// `p` occurs in `s` starting at index `i`.
pub open spec fn occurs_at(s: Seq<char>, p: Seq<char>, i: int) -> bool {
    0 <= i && i + p.len() <= s.len() && s.subrange(i, i + p.len()) == p
}

/// First index at or after `i` where `p` occurs, as `str::find` scans.
pub open spec fn find_from(s: Seq<char>, p: Seq<char>, i: int) -> Option<int>
    decreases s.len() + 1 - i,
{
    if i < 0 || i + p.len() > s.len() {
        None
    } else if occurs_at(s, p, i) {
        Some(i)
    } else {
        find_from(s, p, i + 1)
    }
}

pub open spec fn find(s: Seq<char>, p: Seq<char>) -> Option<int> {
    find_from(s, p, 0)
}

pub open spec fn contains(s: Seq<char>, p: Seq<char>) -> bool {
    find(s, p) is Some
}

pub open spec fn starts_with(s: Seq<char>, p: Seq<char>) -> bool {
    p.len() <= s.len() && s.subrange(0, p.len() as int) == p
}

pub open spec fn ends_with(s: Seq<char>, p: Seq<char>) -> bool {
    p.len() <= s.len() && s.subrange(s.len() - p.len(), s.len() as int) == p
}

pub proof fn lemma_find_from_props(s: Seq<char>, p: Seq<char>, i: int)
    requires
        0 <= i,
    ensures
        find_from(s, p, i) matches Some(k) ==> i <= k && occurs_at(s, p, k)
            && forall|j: int| i <= j < k ==> !occurs_at(s, p, j),
        find_from(s, p, i) is None ==> forall|j: int| i <= j ==> !occurs_at(s, p, j),
    decreases s.len() + 1 - i,
{
    if i + p.len() > s.len() {
    } else if occurs_at(s, p, i) {
    } else {
        lemma_find_from_props(s, p, i + 1);
    }
}

/// A `str` as its characters.
#[verifier::external_body]
pub fn chars_of(s: &str) -> (r: Vec<char>)
    ensures
        r@ == s@,
{
    s.chars().collect()
}

/// The `String` made of the given characters.
#[verifier::external_body]
pub fn string_of(v: &Vec<char>) -> (r: String)
    ensures
        r@ == v@,
{
    v.iter().collect()
}

pub fn is_alnum(c: char) -> (r: bool)
    ensures
        r == is_ascii_alnum(c),
{
    ('a' <= c && c <= 'z') || ('A' <= c && c <= 'Z') || ('0' <= c && c <= '9')
}

pub fn is_whitespace(c: char) -> (r: bool)
    ensures
        r == is_ws(c),
{
    c == ' ' || c == '\t' || c == '\n' || c == '\x0B' || c == '\x0C' || c == '\r'
        || c == '\u{85}' || c == '\u{A0}' || c == '\u{1680}'
        || ('\u{2000}' <= c && c <= '\u{200A}')
        || c == '\u{2028}' || c == '\u{2029}' || c == '\u{202F}' || c == '\u{205F}'
        || c == '\u{3000}'
}

pub fn to_lower_char(c: char) -> (r: char)
    ensures
        r == lower_char(c),
{
    if 'A' <= c && c <= 'Z' {
        let b: u8 = (c as u8) + 32;
        b as char
    } else {
        c
    }
}

/// `to_ascii_lowercase` on a character vector.
pub fn to_lower(s: &Vec<char>) -> (r: Vec<char>)
    ensures
        r@ == lower(s@),
{
    let mut out: Vec<char> = Vec::new();
    let mut i: usize = 0;
    while i < s.len()
        invariant
            i <= s.len(),
            out@ == lower(s@.subrange(0, i as int)),
        decreases s.len() - i,
    {
        let c = to_lower_char(s[i]);
        out.push(c);
        i = i + 1;
        assert(lower(s@.subrange(0, i as int)) =~= lower(s@.subrange(0, i - 1)).push(c));
    }
    assert(s@.subrange(0, s.len() as int) =~= s@);
    out
}

/// The characters `s[from..to]`.
pub fn slice(s: &Vec<char>, from: usize, to: usize) -> (r: Vec<char>)
    requires
        from <= to <= s.len(),
    ensures
        r@ == s@.subrange(from as int, to as int),
{
    let mut out: Vec<char> = Vec::new();
    let mut i: usize = from;
    while i < to
        invariant
            from <= i <= to <= s.len(),
            out@ == s@.subrange(from as int, i as int),
        decreases to - i,
    {
        out.push(s[i]);
        i = i + 1;
        assert(out@ =~= s@.subrange(from as int, i as int));
    }
    out
}

/// Appends the characters of `p` to `out`.
pub fn push_all(out: &mut Vec<char>, p: &Vec<char>)
    ensures
        final(out)@ == old(out)@ + p@,
{
    let mut i: usize = 0;
    while i < p.len()
        invariant
            i <= p.len(),
            out@ == old(out)@ + p@.subrange(0, i as int),
        decreases p.len() - i,
    {
        out.push(p[i]);
        i = i + 1;
        assert(out@ =~= old(out)@ + p@.subrange(0, i as int));
    }
    assert(p@.subrange(0, p.len() as int) =~= p@);
}

/// Appends the characters of a `str` to `out`.
pub fn push_str(out: &mut Vec<char>, p: &str)
    ensures
        final(out)@ == old(out)@ + p@,
{
    let v = chars_of(p);
    push_all(out, &v);
}

pub proof fn lemma_trim_start_suffix(s: Seq<char>)
    ensures
        exists|k: int|
            0 <= k <= s.len() && trim_start(s) == s.subrange(k, s.len() as int)
                && all_ws(s.subrange(0, k)) && (k < s.len() ==> !is_ws(s[k])),
    decreases s.len(),
{
    if s.len() > 0 && is_ws(s[0]) {
        lemma_trim_start_suffix(s.drop_first());
        let k = choose|k: int|
            0 <= k <= s.drop_first().len() && trim_start(s.drop_first())
                == s.drop_first().subrange(k, s.drop_first().len() as int)
                && all_ws(s.drop_first().subrange(0, k)) && (k < s.drop_first().len()
                ==> !is_ws(s.drop_first()[k]));
        assert(s.drop_first().subrange(k, s.drop_first().len() as int) =~= s.subrange(
            k + 1,
            s.len() as int,
        ));
        assert forall|i: int| 0 <= i < k + 1 implies is_ws(#[trigger] s.subrange(0, k + 1)[i]) by {
            if i > 0 {
                assert(s.subrange(0, k + 1)[i] == s.drop_first().subrange(0, k)[i - 1]);
            }
        }
    } else {
        assert(s.subrange(0, s.len() as int) =~= s);
        assert(all_ws(s.subrange(0, 0)));
    }
}

pub proof fn lemma_trim_end_prefix(s: Seq<char>)
    ensures
        exists|k: int|
            0 <= k <= s.len() && trim_end(s) == s.subrange(0, k) && all_ws(
                s.subrange(k, s.len() as int),
            ) && (k > 0 ==> !is_ws(s[k - 1])),
    decreases s.len(),
{
    if s.len() > 0 && is_ws(s.last()) {
        lemma_trim_end_prefix(s.drop_last());
        let k = choose|k: int|
            0 <= k <= s.drop_last().len() && trim_end(s.drop_last()) == s.drop_last().subrange(
                0,
                k,
            ) && all_ws(s.drop_last().subrange(k, s.drop_last().len() as int)) && (k > 0
                ==> !is_ws(s.drop_last()[k - 1]));
        assert(s.drop_last().subrange(0, k) =~= s.subrange(0, k));
        assert forall|i: int| 0 <= i < s.len() - k implies is_ws(
            #[trigger] s.subrange(k, s.len() as int)[i],
        ) by {
            if i < s.len() - k - 1 {
                assert(s.subrange(k, s.len() as int)[i] == s.drop_last().subrange(
                    k,
                    s.drop_last().len() as int,
                )[i]);
            }
        }
    } else {
        assert(s.subrange(0, s.len() as int) =~= s);
        assert(all_ws(s.subrange(s.len() as int, s.len() as int)));
    }
}

/// Index of the first non-whitespace character at or after `i`.
fn skip_ws_from(s: &Vec<char>, i: usize) -> (r: usize)
    requires
        i <= s.len(),
    ensures
        i <= r <= s.len(),
        r < s.len() ==> !is_ws(s@[r as int]),
        trim_start(s@.subrange(i as int, s.len() as int)) == s@.subrange(r as int, s.len() as int),
    decreases s.len() - i,
{
    if i < s.len() && is_whitespace(s[i]) {
        assert(s@.subrange(i as int, s.len() as int).drop_first() =~= s@.subrange(
            i + 1,
            s.len() as int,
        ));
        skip_ws_from(s, i + 1)
    } else {
        i
    }
}

/// End (exclusive) of `s[0..j]` once trailing whitespace is dropped.
fn trim_end_to(s: &Vec<char>, j: usize) -> (r: usize)
    requires
        j <= s.len(),
    ensures
        r <= j,
        trim_end(s@.subrange(0, j as int)) == s@.subrange(0, r as int),
    decreases j,
{
    if j > 0 && is_whitespace(s[j - 1]) {
        assert(s@.subrange(0, j as int).drop_last() =~= s@.subrange(0, j - 1));
        trim_end_to(s, j - 1)
    } else {
        j
    }
}

/// Bounds `(a, b)` with `trim(s) == s[a..b]`.
pub fn trim_bounds(s: &Vec<char>) -> (r: (usize, usize))
    ensures
        r.0 <= r.1 <= s.len(),
        trim(s@) == s@.subrange(r.0 as int, r.1 as int),
{
    let a = skip_ws_from(s, 0);
    assert(s@.subrange(0, s.len() as int) =~= s@);
    let b = trim_end_to(s, s.len());
    proof {
        lemma_trim_end_shift(s@, a as int);
        assert(trim_end(s@).len() == b);
    }
    if b <= a {
        assert(s@.subrange(a as int, a as int) =~= Seq::<char>::empty());
        return (a, a);
    }
    (a, b)
}

/// Trimming the end of a suffix `s[a..]` gives `s[a..b]` where `s[..b]` is the
/// trimmed prefix, when the suffix starts with a non-whitespace character.
proof fn lemma_trim_end_shift(s: Seq<char>, a: int)
    requires
        0 <= a <= s.len(),
        a < s.len() ==> !is_ws(s[a]),
    ensures
        ({
            let b = trim_end(s).len();
            &&& (a < s.len() ==> a < b)
            &&& trim_end(s.subrange(a, s.len() as int)) == if a < b {
                s.subrange(a, b as int)
            } else {
                Seq::<char>::empty()
            }
        }),
    decreases s.len(),
{
    lemma_trim_end_prefix(s);
    if a == s.len() {
        assert(s.subrange(a, s.len() as int) =~= Seq::<char>::empty());
    } else if is_ws(s.last()) {
        lemma_trim_end_shift(s.drop_last(), a);
        assert(s.subrange(a, s.len() as int).drop_last() =~= s.drop_last().subrange(
            a,
            s.drop_last().len() as int,
        ));
        assert(s.drop_last().subrange(a, trim_end(s.drop_last()).len() as int) =~= s.subrange(
            a,
            trim_end(s).len() as int,
        ));
    } else {
        assert(s.subrange(a, s.len() as int).last() == s.last());
    }
}

/// `str::trim` on a character vector.
pub fn trimmed(s: &Vec<char>) -> (r: Vec<char>)
    ensures
        r@ == trim(s@),
{
    let (a, b) = trim_bounds(s);
    slice(s, a, b)
}

/// `s.trim().is_empty()`.
pub fn is_blank(s: &Vec<char>) -> (r: bool)
    ensures
        r == (trim(s@).len() == 0),
{
    let (a, b) = trim_bounds(s);
    a == b
}

/// Whether `p` occurs in `s` at index `i`.
pub fn occurs_at_exec(s: &Vec<char>, p: &Vec<char>, i: usize) -> (r: bool)
    ensures
        r == occurs_at(s@, p@, i as int),
{
    if i > s.len() || p.len() > s.len() - i {
        return false;
    }
    let mut j: usize = 0;
    while j < p.len()
        invariant
            i + p.len() <= s.len(),
            j <= p.len(),
            forall|k: int| 0 <= k < j ==> s@[i + k] == p@[k],
        decreases p.len() - j,
    {
        if s[i + j] != p[j] {
            assert(s@.subrange(i as int, i + p.len())[j as int] != p@[j as int]);
            return false;
        }
        j = j + 1;
    }
    assert(s@.subrange(i as int, i + p.len()) =~= p@);
    true
}

/// `str::find`: the first index where `p` occurs in `s`.
pub fn find_exec(s: &Vec<char>, p: &Vec<char>) -> (r: Option<usize>)
    ensures
        r matches Some(k) ==> find(s@, p@) == Some(k as int),
        r is None ==> find(s@, p@) is None,
{
    let mut i: usize = 0;
    while i <= s.len()
        invariant
            i <= s.len(),
            find(s@, p@) == find_from(s@, p@, i as int),
        decreases s.len() + 1 - i,
    {
        if p.len() > s.len() - i {
            return None;
        }
        if occurs_at_exec(s, p, i) {
            return Some(i);
        }
        if i == s.len() {
            assert(find_from(s@, p@, i + 1) is None);
            return None;
        }
        i = i + 1;
    }
    None
}

/// `str::contains`.
pub fn contains_exec(s: &Vec<char>, p: &Vec<char>) -> (r: bool)
    ensures
        r == contains(s@, p@),
{
    find_exec(s, p).is_some()
}

/// `str::contains` with a `str` pattern.
pub fn contains_str(s: &Vec<char>, p: &str) -> (r: bool)
    ensures
        r == contains(s@, p@),
{
    let pv = chars_of(p);
    contains_exec(s, &pv)
}

/// `str::starts_with`.
pub fn starts_with_exec(s: &Vec<char>, p: &Vec<char>) -> (r: bool)
    ensures
        r == starts_with(s@, p@),
{
    let r = occurs_at_exec(s, p, 0);
    r
}

/// `str::starts_with` with a `str` pattern.
pub fn starts_with_str(s: &Vec<char>, p: &str) -> (r: bool)
    ensures
        r == starts_with(s@, p@),
{
    let pv = chars_of(p);
    starts_with_exec(s, &pv)
}

/// `str::ends_with`.
pub fn ends_with_exec(s: &Vec<char>, p: &Vec<char>) -> (r: bool)
    ensures
        r == ends_with(s@, p@),
{
    if p.len() > s.len() {
        return false;
    }
    occurs_at_exec(s, p, s.len() - p.len())
}

/// Equality of two character vectors.
pub fn chars_eq(a: &Vec<char>, b: &Vec<char>) -> (r: bool)
    ensures
        r == (a@ == b@),
{
    if a.len() != b.len() {
        return false;
    }
    let r = occurs_at_exec(a, b, 0);
    proof {
        if r {
            assert(a@.subrange(0, a.len() as int) =~= a@);
        } else {
            assert(a@ != b@ || a@.subrange(0, b.len() as int) != b@);
            if a@ == b@ {
                assert(a@.subrange(0, a.len() as int) =~= a@);
            }
        }
    }
    r
}

/// Equality of a character vector and a `str`.
pub fn chars_eq_str(a: &Vec<char>, b: &str) -> (r: bool)
    ensures
        r == (a@ == b@),
{
    let bv = chars_of(b);
    chars_eq(a, &bv)
}

// ---------------------------------------------------------------------------
// Decimal and hexadecimal numerals.
// ---------------------------------------------------------------------------

pub open spec fn is_digit(c: char) -> bool {
    '0' <= c && c <= '9'
}

pub open spec fn digit_char(d: nat) -> char {
    ((d + 48) as u32) as char
}

/// The decimal numeral of `n`, as `Display` writes an unsigned integer.
pub open spec fn decimal(n: nat) -> Seq<char>
    decreases n,
{
    if n < 10 {
        seq![digit_char(n)]
    } else {
        decimal(n / 10).push(digit_char(n % 10))
    }
}

/// Value of a run of decimal digits.
pub open spec fn digits_value(s: Seq<char>) -> nat
    decreases s.len(),
{
    if s.len() == 0 {
        0
    } else {
        digits_value(s.drop_last()) * 10 + ((s.last() as u32) - 48) as nat
    }
}

/// The digits that `u64::from_str` reads: an optional leading `+` is dropped.
pub open spec fn unsigned_digits(s: Seq<char>) -> Seq<char> {
    if s.len() > 0 && s[0] == '+' {
        s.drop_first()
    } else {
        s
    }
}

/// `from_str` of an unsigned integer type whose largest value is `max`:
/// the value when the text is an optional `+` and one or more decimal digits
/// whose value fits, else nothing.
pub open spec fn parse_unsigned(s: Seq<char>, max: nat) -> Option<nat> {
    let d = unsigned_digits(s);
    if d.len() > 0 && (forall|i: int| 0 <= i < d.len() ==> is_digit(#[trigger] d[i]))
        && digits_value(d) <= max {
        Some(digits_value(d))
    } else {
        None
    }
}

pub open spec fn hex_char(d: nat) -> char {
    if d < 10 {
        ((d + 48) as u32) as char
    } else {
        ((d + 87) as u32) as char
    }
}

/// The lowest `k` hexadecimal digits of `n`, most significant first.
pub open spec fn hex_digits(n: nat, k: nat) -> Seq<char>
    decreases k,
{
    if k == 0 {
        Seq::empty()
    } else {
        hex_digits(n / 16, (k - 1) as nat).push(hex_char(n % 16))
    }
}

/// `format!("{:016x}", n)`.
pub open spec fn hex16(n: u64) -> Seq<char> {
    hex_digits(n as nat, 16)
}

proof fn lemma_digits_value_monotone(s: Seq<char>)
    requires
        forall|i: int| 0 <= i < s.len() ==> is_digit(#[trigger] s[i]),
    ensures
        s.len() > 0 ==> digits_value(s) >= digits_value(s.drop_last()) * 10,
{
}

fn digit_to_char(d: u64) -> (c: char)
    requires
        d < 10,
    ensures
        c == digit_char(d as nat),
{
    let b: u8 = (d as u8) + 48;
    b as char
}

/// The decimal numeral of `n`.
pub fn decimal_chars(n: u64) -> (r: Vec<char>)
    ensures
        r@ == decimal(n as nat),
    decreases n,
{
    if n < 10 {
        let mut v: Vec<char> = Vec::new();
        v.push(digit_to_char(n));
        assert(v@ =~= seq![digit_char(n as nat)]);
        v
    } else {
        let mut v = decimal_chars(n / 10);
        v.push(digit_to_char(n % 10));
        v
    }
}

/// Appends the decimal numeral of `n` to `out`.
pub fn push_decimal(out: &mut Vec<char>, n: u64)
    ensures
        final(out)@ == old(out)@ + decimal(n as nat),
{
    let d = decimal_chars(n);
    push_all(out, &d);
}

/// Reads an unsigned integer no larger than `max`, as `from_str` does.
pub fn parse_unsigned_exec(s: &Vec<char>, max: u64) -> (r: Option<u64>)
    ensures
        r matches Some(v) ==> parse_unsigned(s@, max as nat) == Some(v as nat),
        r is None ==> parse_unsigned(s@, max as nat) is None,
{
    let start: usize = if s.len() > 0 && s[0] == '+' { 1 } else { 0 };
    let ghost d = unsigned_digits(s@);
    assert(d =~= s@.subrange(start as int, s.len() as int));
    if start >= s.len() {
        return None;
    }
    let mut value: u64 = 0;
    let mut i: usize = start;
    while i < s.len()
        invariant
            start <= i <= s.len(),
            start < s.len(),
            d == s@.subrange(start as int, s.len() as int),
            d == unsigned_digits(s@),
            forall|k: int| start <= k < i ==> is_digit(#[trigger] s@[k]),
            value as nat == digits_value(s@.subrange(start as int, i as int)),
            value <= max,
        decreases s.len() - i,
    {
        let c = s[i];
        if !('0' <= c && c <= '9') {
            assert(!is_digit(d[i - start]));
            assert(!(forall|k: int| 0 <= k < d.len() ==> is_digit(#[trigger] d[k])));
            return None;
        }
        let digit: u64 = ((c as u32) - 48) as u64;
        assert(s@.subrange(start as int, i + 1).drop_last() =~= s@.subrange(
            start as int,
            i as int,
        ));
        assert(digits_value(s@.subrange(start as int, i + 1)) == value * 10 + digit);
        if value > max / 10 || (value == max / 10 && digit > max % 10) {
            proof {
                // the full digit run is at least the prefix through `i`
                lemma_digits_prefix_bound(s@.subrange(start as int, s.len() as int), (i + 1 - start) as int);
                assert(s@.subrange(start as int, s.len() as int).subrange(0, i + 1 - start)
                    =~= s@.subrange(start as int, i + 1));
                assert(value * 10 + digit > max) by (nonlinear_arith)
                    requires
                        value > max / 10 || (value == max / 10 && digit > max % 10),
                        max >= 0,
                        digit < 10,
                ;
                assert forall|k: int| 0 <= k < i + 1 - start implies is_digit(
                    #[trigger] d[k],
                ) by {
                    assert(d[k] == s@[start + k]);
                }
                if forall|k: int| 0 <= k < d.len() ==> is_digit(#[trigger] d[k]) {
                    assert(digits_value(d) > max);
                }
            }
            return None;
        }
        assert(value * 10 + digit <= max) by (nonlinear_arith)
            requires
                !(value > max / 10 || (value == max / 10 && digit > max % 10)),
                digit < 10,
        ;
        value = value * 10 + digit;
        i = i + 1;
    }
    assert(forall|k: int| 0 <= k < d.len() ==> is_digit(#[trigger] d[k])) by {
        assert forall|k: int| 0 <= k < d.len() implies is_digit(#[trigger] d[k]) by {
            assert(d[k] == s@[start + k]);
        }
    }
    Some(value)
}

/// A digit run is worth at least any of its prefixes.
proof fn lemma_digits_prefix_bound(s: Seq<char>, k: int)
    requires
        0 <= k <= s.len(),
        forall|i: int| 0 <= i < k ==> is_digit(#[trigger] s[i]),
    ensures
        (forall|i: int| 0 <= i < s.len() ==> is_digit(#[trigger] s[i])) ==> digits_value(s)
            >= digits_value(s.subrange(0, k)),
    decreases s.len() - k,
{
    if k < s.len() {
        if forall|i: int| 0 <= i < s.len() ==> is_digit(#[trigger] s[i]) {
            lemma_digits_prefix_bound(s, k + 1);
            assert(s.subrange(0, k + 1).drop_last() =~= s.subrange(0, k));
            assert(is_digit(s[k]));
        }
    } else {
        assert(s.subrange(0, k) =~= s);
    }
}

fn hex_digit_char(d: u64) -> (c: char)
    requires
        d < 16,
    ensures
        c == hex_char(d as nat),
{
    if d < 10 {
        let b: u8 = (d as u8) + 48;
        b as char
    } else {
        let b: u8 = (d as u8) + 87;
        b as char
    }
}

/// Appends the lowest `k` hexadecimal digits of `n` to `out`.
pub fn push_hex_digits(out: &mut Vec<char>, n: u64, k: u64)
    ensures
        final(out)@ == old(out)@ + hex_digits(n as nat, k as nat),
    decreases k,
{
    if k == 0 {
        assert(hex_digits(n as nat, 0) =~= Seq::<char>::empty());
        assert(out@ =~= old(out)@ + Seq::<char>::empty());
    } else {
        push_hex_digits(out, n / 16, k - 1);
        out.push(hex_digit_char(n % 16));
        assert(out@ =~= old(out)@ + hex_digits(n as nat, k as nat));
    }
}

/// `format!("{:016x}", n)` as characters.
pub fn hex16_chars(n: u64) -> (r: Vec<char>)
    ensures
        r@ == hex16(n),
{
    let mut v: Vec<char> = Vec::new();
    push_hex_digits(&mut v, n, 16);
    assert(v@ =~= hex16(n));
    v
}

/// `s[i..].find(p)` as an index into `s`.
pub fn find_from_exec(s: &Vec<char>, p: &Vec<char>, from: usize) -> (r: Option<usize>)
    requires
        from <= s.len(),
    ensures
        r matches Some(k) ==> find_from(s@, p@, from as int) == Some(k as int),
        r is None ==> find_from(s@, p@, from as int) is None,
{
    let mut i: usize = from;
    while i <= s.len()
        invariant
            from <= i <= s.len(),
            find_from(s@, p@, from as int) == find_from(s@, p@, i as int),
        decreases s.len() + 1 - i,
    {
        if p.len() > s.len() - i {
            return None;
        }
        if occurs_at_exec(s, p, i) {
            return Some(i);
        }
        if i == s.len() {
            assert(find_from(s@, p@, i + 1) is None);
            return None;
        }
        i = i + 1;
    }
    None
}

/// A found occurrence lies after `i` and inside `s`.
pub proof fn lemma_find_from_bounds(s: Seq<char>, p: Seq<char>, i: int, k: int)
    requires
        0 <= i,
        find_from(s, p, i) == Some(k),
    ensures
        i <= k,
        k + p.len() <= s.len(),
        occurs_at(s, p, k),
{
    lemma_find_from_props(s, p, i);
}

/// Pieces of `s[i..]` between the non-overlapping occurrences of `p`, left to
/// right, as `str::split` with a string pattern.
pub open spec fn split_str_from(s: Seq<char>, p: Seq<char>, i: int) -> Seq<Seq<char>>
    decreases s.len() - i,
{
    if i < 0 || i > s.len() || p.len() == 0 {
        seq![s.subrange(i, s.len() as int)]
    } else {
        match find_from(s, p, i) {
            None => seq![s.subrange(i, s.len() as int)],
            Some(k) => {
                if k < i || k + p.len() > s.len() {
                    seq![s.subrange(i, s.len() as int)]
                } else {
                    seq![s.subrange(i, k)] + split_str_from(s, p, k + p.len())
                }
            },
        }
    }
}

pub open spec fn split_str(s: Seq<char>, p: Seq<char>) -> Seq<Seq<char>> {
    split_str_from(s, p, 0)
}

/// `s[i..]` with every non-overlapping occurrence of `p` replaced by `r`,
/// left to right, as `str::replace`.
pub open spec fn replace_from(s: Seq<char>, p: Seq<char>, r: Seq<char>, i: int) -> Seq<char>
    decreases s.len() - i,
{
    if i < 0 || i > s.len() || p.len() == 0 {
        s.subrange(i, s.len() as int)
    } else {
        match find_from(s, p, i) {
            None => s.subrange(i, s.len() as int),
            Some(k) => {
                if k < i || k + p.len() > s.len() {
                    s.subrange(i, s.len() as int)
                } else {
                    s.subrange(i, k) + r + replace_from(s, p, r, k + p.len())
                }
            },
        }
    }
}

pub open spec fn replace_all(s: Seq<char>, p: Seq<char>, r: Seq<char>) -> Seq<char> {
    replace_from(s, p, r, 0)
}

/// Pieces of `s` between the characters that satisfy `is_sep`, as `str::split`
/// with a character predicate: one more piece than separators.
pub open spec fn split_chars(s: Seq<char>, is_sep: spec_fn(char) -> bool) -> Seq<Seq<char>>
    decreases s.len(),
{
    if s.len() == 0 {
        seq![Seq::<char>::empty()]
    } else {
        let rest = split_chars(s.drop_last(), is_sep);
        if is_sep(s.last()) {
            rest.push(Seq::<char>::empty())
        } else {
            rest.update(rest.len() - 1, rest.last().push(s.last()))
        }
    }
}

pub proof fn lemma_split_chars_nonempty(s: Seq<char>, is_sep: spec_fn(char) -> bool)
    ensures
        split_chars(s, is_sep).len() >= 1,
    decreases s.len(),
{
    if s.len() > 0 {
        lemma_split_chars_nonempty(s.drop_last(), is_sep);
    }
}

/// `pieces` joined with `sep` between neighbours, as `[T]::join`.
pub open spec fn join(pieces: Seq<Seq<char>>, sep: Seq<char>) -> Seq<char>
    decreases pieces.len(),
{
    if pieces.len() == 0 {
        Seq::empty()
    } else if pieces.len() == 1 {
        pieces[0]
    } else {
        join(pieces.drop_last(), sep) + sep + pieces.last()
    }
}

/// The character views of a list of character vectors.
pub open spec fn views(v: Seq<Vec<char>>) -> Seq<Seq<char>> {
    v.map_values(|x: Vec<char>| x@)
}

/// Appends `p` joined by `sep` to `out`.
pub fn join_exec(pieces: &Vec<Vec<char>>, sep: &str) -> (r: Vec<char>)
    ensures
        r@ == join(views(pieces@), sep@),
{
    let mut out: Vec<char> = Vec::new();
    let mut i: usize = 0;
    while i < pieces.len()
        invariant
            i <= pieces.len(),
            out@ == join(views(pieces@).subrange(0, i as int), sep@),
        decreases pieces.len() - i,
    {
        if i > 0 {
            push_str(&mut out, sep);
        }
        push_all(&mut out, &pieces[i]);
        proof {
            let t = views(pieces@).subrange(0, i + 1);
            assert(t.drop_last() =~= views(pieces@).subrange(0, i as int));
            if i == 0 {
                assert(out@ =~= t[0]);
            }
        }
        i = i + 1;
    }
    assert(views(pieces@).subrange(0, pieces.len() as int) =~= views(pieces@));
    out
}

/// `str::split` with a string pattern (see `split_str`).
pub fn split_str_exec(s: &Vec<char>, p: &str) -> (r: Vec<Vec<char>>)
    ensures
        views(r@) == split_str(s@, p@),
{
    let pv = chars_of(p);
    let mut out: Vec<Vec<char>> = Vec::new();
    let mut i: usize = 0;
    if pv.len() == 0 {
        out.push(slice(s, 0, s.len()));
        assert(views(out@) =~= split_str(s@, p@));
        return out;
    }
    while i <= s.len()
        invariant
            i <= s.len(),
            pv@ == p@,
            pv.len() > 0,
            views(out@) + split_str_from(s@, p@, i as int) == split_str(s@, p@),
        decreases s.len() + 1 - i,
    {
        match find_from_exec(s, &pv, i) {
            None => {
                let piece = slice(s, i, s.len());
                let ghost before = views(out@);
                out.push(piece);
                assert(views(out@) =~= before.push(piece@));
                assert(views(out@) =~= split_str(s@, p@));
                return out;
            },
            Some(k) => {
                proof {
                    lemma_find_from_bounds(s@, p@, i as int, k as int);
                }
                let piece = slice(s, i, k);
                let ghost before = views(out@);
                out.push(piece);
                assert(views(out@) =~= before.push(piece@));
                assert(split_str_from(s@, p@, i as int) =~= seq![piece@] + split_str_from(
                    s@,
                    p@,
                    k + p@.len(),
                ));
                assert(views(out@) + split_str_from(s@, p@, k + p@.len()) =~= before
                    + split_str_from(s@, p@, i as int));
                i = k + pv.len();
            },
        }
    }
    assert(false);
    out
}

/// `str::replace` (see `replace_all`).
pub fn replace_all_exec(s: &Vec<char>, p: &str, r: &str) -> (out: Vec<char>)
    ensures
        out@ == replace_all(s@, p@, r@),
{
    let pv = chars_of(p);
    let mut out: Vec<char> = Vec::new();
    let mut i: usize = 0;
    if pv.len() == 0 {
        return slice(s, 0, s.len());
    }
    while i <= s.len()
        invariant
            i <= s.len(),
            pv@ == p@,
            pv.len() > 0,
            out@ + replace_from(s@, p@, r@, i as int) == replace_all(s@, p@, r@),
        decreases s.len() + 1 - i,
    {
        match find_from_exec(s, &pv, i) {
            None => {
                let piece = slice(s, i, s.len());
                let ghost before = out@;
                push_all(&mut out, &piece);
                assert(out@ =~= replace_all(s@, p@, r@));
                return out;
            },
            Some(k) => {
                proof {
                    lemma_find_from_bounds(s@, p@, i as int, k as int);
                }
                let piece = slice(s, i, k);
                let ghost before = out@;
                push_all(&mut out, &piece);
                push_str(&mut out, r);
                assert(out@ + replace_from(s@, p@, r@, k + p@.len()) =~= before + replace_from(
                    s@,
                    p@,
                    r@,
                    i as int,
                ));
                i = k + pv.len();
            },
        }
    }
    assert(false);
    out
}

/// Which characters separate pieces.
#[derive(Clone, Copy)]
pub enum Separator {
    /// One given character.
    Char(char),
    /// `.`, `!` or `?`.
    SentenceEnd,
    /// Anything but an ASCII letter or digit.
    NonAlnum,
    /// Unicode white space.
    Whitespace,
}

pub open spec fn separates(sep: Separator, c: char) -> bool {
    match sep {
        Separator::Char(x) => c == x,
        Separator::SentenceEnd => c == '.' || c == '!' || c == '?',
        Separator::NonAlnum => !is_ascii_alnum(c),
        Separator::Whitespace => is_ws(c),
    }
}

pub open spec fn sep_pred(sep: Separator) -> spec_fn(char) -> bool {
    |c: char| separates(sep, c)
}

fn separates_exec(sep: Separator, c: char) -> (r: bool)
    ensures
        r == separates(sep, c),
{
    match sep {
        Separator::Char(x) => c == x,
        Separator::SentenceEnd => c == '.' || c == '!' || c == '?',
        Separator::NonAlnum => !is_alnum(c),
        Separator::Whitespace => is_whitespace(c),
    }
}

/// `str::split` with a character separator (see `split_chars`).
pub fn split_chars_exec(s: &Vec<char>, sep: Separator) -> (r: Vec<Vec<char>>)
    ensures
        views(r@) == split_chars(s@, sep_pred(sep)),
        r@.len() >= 1,
{
    let mut done: Vec<Vec<char>> = Vec::new();
    let mut current: Vec<char> = Vec::new();
    let mut i: usize = 0;
    assert(s@.subrange(0, 0) =~= Seq::<char>::empty());
    assert(views(done@).push(current@) =~= split_chars(s@.subrange(0, 0), sep_pred(sep)));
    while i < s.len()
        invariant
            i <= s.len(),
            views(done@).push(current@) == split_chars(s@.subrange(0, i as int), sep_pred(sep)),
        decreases s.len() - i,
    {
        let c = s[i];
        let ghost before = views(done@).push(current@);
        assert(s@.subrange(0, i + 1).drop_last() =~= s@.subrange(0, i as int));
        assert(s@.subrange(0, i + 1).last() == c);
        if separates_exec(sep, c) {
            let mut fresh: Vec<char> = Vec::new();
            std::mem::swap(&mut fresh, &mut current);
            done.push(fresh);
            assert(views(done@).push(current@) =~= before.push(Seq::<char>::empty()));
        } else {
            current.push(c);
            assert(views(done@).push(current@) =~= before.update(
                before.len() - 1,
                before.last().push(c),
            ));
        }
        i = i + 1;
    }
    done.push(current);
    assert(s@.subrange(0, s.len() as int) =~= s@);
    done
}

/// The non-empty pieces of `pieces`, in order.
pub open spec fn nonempty(pieces: Seq<Seq<char>>) -> Seq<Seq<char>>
    decreases pieces.len(),
{
    if pieces.len() == 0 {
        Seq::empty()
    } else if pieces.last().len() == 0 {
        nonempty(pieces.drop_last())
    } else {
        nonempty(pieces.drop_last()).push(pieces.last())
    }
}

/// The non-empty pieces, in order (see `nonempty`).
pub fn nonempty_pieces(pieces: &Vec<Vec<char>>) -> (r: Vec<Vec<char>>)
    ensures
        views(r@) == nonempty(views(pieces@)),
{
    let mut out: Vec<Vec<char>> = Vec::new();
    let mut i: usize = 0;
    while i < pieces.len()
        invariant
            i <= pieces@.len(),
            views(out@) == nonempty(views(pieces@).subrange(0, i as int)),
        decreases pieces.len() - i,
    {
        let ghost pre = views(pieces@).subrange(0, i as int);
        assert(views(pieces@).subrange(0, i + 1).drop_last() =~= pre);
        assert(views(pieces@).subrange(0, i + 1).last() == pieces@[i as int]@);
        if pieces[i].len() > 0 {
            let ghost o0 = views(out@);
            let mut w: Vec<char> = Vec::new();
            let mut k: usize = 0;
            while k < pieces[i].len()
                invariant
                    i < pieces@.len(),
                    k <= pieces@[i as int]@.len(),
                    w@ =~= pieces@[i as int]@.subrange(0, k as int),
                decreases pieces@[i as int]@.len() - k,
            {
                w.push(pieces[i][k]);
                k = k + 1;
            }
            assert(w@ =~= pieces@[i as int]@);
            out.push(w);
            assert(views(out@) =~= o0.push(pieces@[i as int]@));
        }
        i = i + 1;
    }
    assert(views(pieces@).subrange(0, pieces@.len() as int) =~= views(pieces@));
    out
}

/// Pieces trimmed, blank ones dropped: `.map(str::trim).filter(|p| !p.is_empty())`.
pub open spec fn trimmed_nonblank(pieces: Seq<Seq<char>>) -> Seq<Seq<char>>
    decreases pieces.len(),
{
    if pieces.len() == 0 {
        Seq::empty()
    } else {
        let rest = trimmed_nonblank(pieces.drop_last());
        let t = trim(pieces.last());
        if t.len() > 0 {
            rest.push(t)
        } else {
            rest
        }
    }
}

pub fn trimmed_nonblank_exec(pieces: &Vec<Vec<char>>) -> (r: Vec<Vec<char>>)
    ensures
        views(r@) == trimmed_nonblank(views(pieces@)),
{
    let mut out: Vec<Vec<char>> = Vec::new();
    let mut i: usize = 0;
    while i < pieces.len()
        invariant
            i <= pieces.len(),
            views(out@) == trimmed_nonblank(views(pieces@).subrange(0, i as int)),
        decreases pieces.len() - i,
    {
        let t = trimmed(&pieces[i]);
        let ghost before = views(out@);
        assert(views(pieces@).subrange(0, i + 1).drop_last() =~= views(pieces@).subrange(
            0,
            i as int,
        ));
        if t.len() > 0 {
            out.push(t);
            assert(views(out@) =~= before.push(t@));
        }
        i = i + 1;
    }
    assert(views(pieces@).subrange(0, pieces.len() as int) =~= views(pieces@));
    out
}

/// A line without the `\r` of a `\r\n` ending.
pub open spec fn strip_cr(p: Seq<char>) -> Seq<char> {
    if p.len() > 0 && p.last() == '\r' {
        p.drop_last()
    } else {
        p
    }
}

pub open spec fn strip_cr_all(ps: Seq<Seq<char>>) -> Seq<Seq<char>> {
    ps.map_values(|p: Seq<char>| strip_cr(p))
}

/// `str::lines`: pieces between `\n`, a `\r` before a `\n` dropped, and no
/// empty last line after a final `\n`.
pub open spec fn lines(s: Seq<char>) -> Seq<Seq<char>> {
    let parts = split_chars(s, sep_pred(Separator::Char('\n')));
    let init = strip_cr_all(parts.drop_last());
    if parts.last().len() > 0 {
        init.push(parts.last())
    } else {
        init
    }
}

pub fn lines_exec(s: &Vec<char>) -> (r: Vec<Vec<char>>)
    ensures
        views(r@) == lines(s@),
{
    let parts = split_chars_exec(s, Separator::Char('\n'));
    let n = parts.len();
    let mut out: Vec<Vec<char>> = Vec::new();
    let mut i: usize = 0;
    while i + 1 < n
        invariant
            n == parts.len(),
            n >= 1,
            i + 1 <= n,
            views(out@) == strip_cr_all(views(parts@).drop_last().subrange(0, i as int)),
        decreases n - i,
    {
        let part = &parts[i];
        let line = if part.len() > 0 && part[part.len() - 1] == '\r' {
            slice(part, 0, part.len() - 1)
        } else {
            slice(part, 0, part.len())
        };
        assert(line@ == strip_cr(parts@[i as int]@)) by {
            if part.len() > 0 && part@[part.len() - 1] == '\r' {
                assert(part@.subrange(0, part.len() - 1) =~= part@.drop_last());
            } else {
                assert(part@.subrange(0, part.len() as int) =~= part@);
            }
        }
        assert(views(parts@)[i as int] == parts@[i as int]@);
        let ghost before = views(out@);
        out.push(line);
        assert(views(out@) =~= before.push(line@));
        proof {
            let x = views(parts@).drop_last();
            assert(x[i as int] == parts@[i as int]@);
            let a = strip_cr_all(x.subrange(0, i + 1));
            let b = strip_cr_all(x.subrange(0, i as int));
            assert(a.len() == i + 1);
            assert forall|j: int| 0 <= j < i + 1 implies #[trigger] a[j] == before.push(line@)[j] by {
                if j < i {
                    assert(a[j] == strip_cr(x[j]));
                    assert(b[j] == strip_cr(x[j]));
                } else {
                    assert(a[j] == strip_cr(x[i as int]));
                }
            }
            assert(a =~= before.push(line@));
        }
        i = i + 1;
    }
    assert(views(parts@).drop_last().subrange(0, i as int) =~= views(parts@).drop_last());
    let last = &parts[n - 1];
    if last.len() > 0 {
        let ghost before = views(out@);
        assert(last@.subrange(0, last.len() as int) =~= last@);
        assert(views(parts@).last() == parts@[n - 1]@);
        out.push(slice(last, 0, last.len()));
        assert(views(out@) =~= before.push(views(parts@).last()));
    }
    out
}

} // verus!
