//! Text helpers: substring search on UTF-8 bytes, and the few std text
//! conversions the library relies on.
use vstd::prelude::*;
use vstd::string::{StringSliceAdditionalSpecFns, StringExecFns, StrSliceExecFns};
use vstd::utf8::{valid_utf8, decode_utf8, is_ascii_chars};

verus! {

// ---------------------------------------------------------------------------
// Substring search
// ---------------------------------------------------------------------------

/// `needle` occurs in `hay` starting at byte `i`.
pub open spec fn occurs_at(hay: Seq<u8>, needle: Seq<u8>, i: int) -> bool {
    0 <= i && i + needle.len() <= hay.len() && hay.subrange(i, i + needle.len()) == needle
}

/// `needle` occurs somewhere in `hay` (the empty needle always does).
pub open spec fn bytes_contain(hay: Seq<u8>, needle: Seq<u8>) -> bool {
    exists|i: int| occurs_at(hay, needle, i)
}

fn matches_at(hay: &[u8], needle: &[u8], i: usize) -> (r: bool)
    requires
        i + needle@.len() <= hay@.len(),
    ensures
        r == occurs_at(hay@, needle@, i as int),
{
    let hl = hay.len();
    let mut k: usize = 0;
    while k < needle.len()
        invariant
            hl == hay@.len(),
            k <= needle@.len(),
            i + needle@.len() <= hay@.len(),
            forall|q: int| 0 <= q < k ==> hay@[i + q] == needle@[q],
        decreases needle@.len() - k,
    {
        if hay[i + k] != needle[k] {
            proof {
                assert(hay@.subrange(i as int, i + needle@.len())[k as int] != needle@[k as int]);
            }
            return false;
        }
        k = k + 1;
    }
    proof {
        assert(hay@.subrange(i as int, i + needle@.len()) =~= needle@);
    }
    true
}

/// Whether `needle` occurs in `hay` as a contiguous byte string.
pub fn bytes_contains(hay: &[u8], needle: &[u8]) -> (r: bool)
    ensures
        r == bytes_contain(hay@, needle@),
{
    if needle.len() > hay.len() {
        proof {
            assert forall|i: int| !occurs_at(hay@, needle@, i) by {}
        }
        return false;
    }
    if needle.len() == 0 {
        proof {
            assert(hay@.subrange(0, 0) =~= needle@);
            assert(occurs_at(hay@, needle@, 0));
        }
        return true;
    }
    let hl = hay.len();
    let last = hl - needle.len();
    let mut i: usize = 0;
    while i <= last
        invariant
            last == hay@.len() - needle@.len(),
            hl == hay@.len(),
            needle@.len() >= 1,
            i <= last + 1,
            forall|q: int| 0 <= q < i ==> !occurs_at(hay@, needle@, q),
        decreases last + 1 - i,
    {
        if matches_at(hay, needle, i) {
            return true;
        }
        i = i + 1;
    }
    proof {
        assert forall|q: int| !occurs_at(hay@, needle@, q) by {
            if 0 <= q < i {
            }
        }
    }
    false
}

/// Whether the text `needle` occurs in the text `hay` (byte-wise on UTF-8,
/// which is how `str::contains` matches a string pattern).
pub fn str_contains(hay: &str, needle: &str) -> (r: bool)
    ensures
        r == bytes_contain(hay.spec_bytes(), needle.spec_bytes()),
{
    bytes_contains(hay.as_bytes(), needle.as_bytes())
}

/// Whether the text contains the character `c` (ASCII).
pub fn str_contains_ascii_char(hay: &str, c: u8) -> (r: bool)
    requires
        c < 128,
    ensures
        r == bytes_contain(hay.spec_bytes(), seq![c]),
{
    let mut needle: Vec<u8> = Vec::new();
    needle.push(c);
    let r = bytes_contains(hay.as_bytes(), needle.as_slice());
    proof {
        assert(needle@ =~= seq![c]);
    }
    r
}

/// Whether the byte string starts with `prefix`.
pub fn bytes_starts_with(hay: &[u8], prefix: &[u8]) -> (r: bool)
    ensures
        r == occurs_at(hay@, prefix@, 0),
{
    if prefix.len() > hay.len() {
        return false;
    }
    matches_at(hay, prefix, 0)
}

// ---------------------------------------------------------------------------
// std text conversions
// ---------------------------------------------------------------------------

/// What `String::from_utf8_lossy` makes of `bytes`: the decoded text, with
/// each invalid sequence replaced by U+FFFD.
pub uninterp spec fn utf8_lossy(bytes: Seq<u8>) -> Seq<char>;

/// How lossy UTF-8 decoding reads `bytes`: valid UTF-8 decodes as is;
/// otherwise the text is what `utf8_lossy` names.
pub open spec fn lossy_text(bytes: Seq<u8>) -> Seq<char> {
    if valid_utf8(bytes) {
        decode_utf8(bytes)
    } else {
        utf8_lossy(bytes)
    }
}

/// What `str::to_lowercase` makes of `s` (Unicode lowercase mapping).
pub uninterp spec fn unicode_lowercase(s: Seq<char>) -> Seq<char>;

/// ASCII lowercase of one character.
pub open spec fn ascii_lower_char(c: char) -> char {
    if 'A' <= c && c <= 'Z' {
        ((c as u32) + 32) as char
    } else {
        c
    }
}

/// Calls `std::str::from_utf8`: the text when `bytes` is valid UTF-8
/// (its bytes are exactly `bytes`), nothing otherwise.
#[verifier::external_body]
pub(crate) fn utf8_str(bytes: &[u8]) -> (r: Option<&str>)
    ensures
        r is Some <==> valid_utf8(bytes@),
        r matches Some(s) ==> s.spec_bytes() == bytes@,
{
    std::str::from_utf8(bytes).ok()
}

/// Calls `String::from_utf8_lossy` and takes the owned text.  On valid UTF-8
/// the result is the decoded text; otherwise it is named by `utf8_lossy`.
#[verifier::external_body]
pub(crate) fn utf8_lossy_string(bytes: &[u8]) -> (r: String)
    ensures
        r@ == utf8_lossy(bytes@),
        valid_utf8(bytes@) ==> r@ == decode_utf8(bytes@),
{
    String::from_utf8_lossy(bytes).into_owned()
}

/// Calls `str::to_lowercase`.  ASCII text is lowercased letter by letter.
#[verifier::external_body]
pub(crate) fn to_lowercase(s: &str) -> (r: String)
    ensures
        r@ == unicode_lowercase(s@),
        is_ascii_chars(s@) ==> r@ == s@.map_values(|c: char| ascii_lower_char(c)),
{
    s.to_lowercase()
}

/// The decimal digit character of `d` (0..=9).
pub open spec fn digit_char(d: int) -> char {
    (48 + d) as char
}

/// Decimal representation of `n` without leading zeros.
pub open spec fn decimal_chars(n: nat) -> Seq<char>
    decreases n,
{
    if n < 10 {
        seq![digit_char(n as int)]
    } else {
        decimal_chars(n / 10).push(digit_char((n % 10) as int))
    }
}

/// The lowercase hexadecimal digit character of `d` (0..=15).
pub open spec fn hex_digit_char(d: int) -> char {
    if d < 10 {
        (48 + d) as char
    } else {
        (87 + d) as char
    }
}

/// Lowercase hexadecimal representation of `n` without leading zeros.
pub open spec fn hex_chars(n: nat) -> Seq<char>
    decreases n,
{
    if n < 16 {
        seq![hex_digit_char(n as int)]
    } else {
        hex_chars(n / 16).push(hex_digit_char((n % 16) as int))
    }
}

/// The text of one lowercase hexadecimal digit (a decimal digit below 10).
fn digit_text(d: u64) -> (t: &'static str)
    requires
        d < 16,
    ensures
        t@ == seq![hex_digit_char(d as int)],
{
    let t = if d == 0 {
        "0"
    } else if d == 1 {
        "1"
    } else if d == 2 {
        "2"
    } else if d == 3 {
        "3"
    } else if d == 4 {
        "4"
    } else if d == 5 {
        "5"
    } else if d == 6 {
        "6"
    } else if d == 7 {
        "7"
    } else if d == 8 {
        "8"
    } else if d == 9 {
        "9"
    } else if d == 10 {
        "a"
    } else if d == 11 {
        "b"
    } else if d == 12 {
        "c"
    } else if d == 13 {
        "d"
    } else if d == 14 {
        "e"
    } else {
        "f"
    };
    proof {
        reveal_strlit("0");
        reveal_strlit("1");
        reveal_strlit("2");
        reveal_strlit("3");
        reveal_strlit("4");
        reveal_strlit("5");
        reveal_strlit("6");
        reveal_strlit("7");
        reveal_strlit("8");
        reveal_strlit("9");
        reveal_strlit("a");
        reveal_strlit("b");
        reveal_strlit("c");
        reveal_strlit("d");
        reveal_strlit("e");
        reveal_strlit("f");
        assert(t@ =~= seq![hex_digit_char(d as int)]);
    }
    t
}

/// Formats `x` in decimal, without leading zeros.
pub(crate) fn u64_to_decimal(x: u64) -> (r: String)
    ensures
        r@ == decimal_chars(x as nat),
    decreases x,
{
    if x < 10 {
        String::from_str(digit_text(x))
    } else {
        let mut r = u64_to_decimal(x / 10);
        r.append(digit_text(x % 10));
        proof {
            assert(r@ =~= decimal_chars((x / 10) as nat).push(digit_char((x % 10) as int)));
        }
        r
    }
}

/// Formats `x` in lowercase hexadecimal, without leading zeros.
fn u64_to_hex(x: u64) -> (r: String)
    ensures
        r@ == hex_chars(x as nat),
    decreases x,
{
    if x < 16 {
        String::from_str(digit_text(x))
    } else {
        let mut r = u64_to_hex(x / 16);
        r.append(digit_text(x % 16));
        proof {
            assert(r@ =~= hex_chars((x / 16) as nat).push(hex_digit_char((x % 16) as int)));
        }
        r
    }
}

/// Formats `x` as `0x` followed by lowercase hexadecimal digits (as `{:#x}`
/// does).
pub(crate) fn u64_to_prefixed_hex(x: u64) -> (r: String)
    ensures
        r@ == seq!['0', 'x'] + hex_chars(x as nat),
{
    let mut r = String::from_str("0x");
    let h = u64_to_hex(x);
    r.append(h.as_str());
    proof {
        reveal_strlit("0x");
        assert(r@ =~= seq!['0', 'x'] + hex_chars(x as nat));
    }
    r
}

/// The characters of `s`.
pub fn collect_chars(s: &str) -> (v: Vec<char>)
    ensures
        v@ == s@,
{
    broadcast use vstd::string::axiom_spec_iter;

    let mut v: Vec<char> = Vec::new();
    for c in it: s.chars()
        invariant
            v@ == it.seq().subrange(0, it.index() as int),
            it.seq() == s@,
    {
        v.push(c);
    }
    v
}

/// The characters of ASCII bytes, one per byte.
pub open spec fn ascii_chars(bytes: Seq<u8>) -> Seq<char> {
    Seq::new(bytes.len(), |i: int| bytes[i] as char)
}

/// The text made of ASCII bytes.
pub fn ascii_string(bytes: &[u8]) -> (s: String)
    requires
        forall|i: int| 0 <= i < bytes@.len() ==> bytes@[i] < 128,
    ensures
        s@ == ascii_chars(bytes@),
{
    let ghost chars = ascii_chars(bytes@);
    proof {
        assert(is_ascii_chars(chars));
        vstd::utf8::is_ascii_chars_encode_utf8(chars);
        assert(vstd::utf8::encode_utf8(chars) =~= bytes@);
        vstd::utf8::encode_utf8_valid_utf8(chars);
    }
    match utf8_str(bytes) {
        Some(t) => {
            proof {
                vstd::utf8::encode_utf8_decode_utf8(chars);
                vstd::utf8::encode_utf8_decode_utf8(t@);
            }
            String::from_str(t)
        },
        Option::None => {
            proof {
                assert(false);
            }
            String::new()
        },
    }
}

// ---------------------------------------------------------------------------
// Whitespace and separators
// ---------------------------------------------------------------------------

/// Unicode `White_Space`, the whitespace `str::trim` removes.
pub open spec fn is_unicode_whitespace(c: char) -> bool {
    ||| '\u{9}' <= c <= '\u{d}'
    ||| c == ' '
    ||| c == '\u{85}'
    ||| c == '\u{a0}'
    ||| c == '\u{1680}'
    ||| '\u{2000}' <= c <= '\u{200a}'
    ||| c == '\u{2028}'
    ||| c == '\u{2029}'
    ||| c == '\u{202f}'
    ||| c == '\u{205f}'
    ||| c == '\u{3000}'
}

pub fn is_whitespace(c: char) -> (r: bool)
    ensures
        r == is_unicode_whitespace(c),
{
    ('\u{9}' <= c && c <= '\u{d}') || c == ' ' || c == '\u{85}' || c == '\u{a0}' || c == '\u{1680}'
        || ('\u{2000}' <= c && c <= '\u{200a}') || c == '\u{2028}' || c == '\u{2029}' || c
        == '\u{202f}' || c == '\u{205f}' || c == '\u{3000}'
}

/// The end of the whitespace run that starts at `i`.
pub open spec fn ws_run_from(s: Seq<char>, i: int) -> int
    decreases s.len() - i,
{
    if 0 <= i < s.len() && is_unicode_whitespace(s[i]) {
        ws_run_from(s, i + 1)
    } else {
        i
    }
}

/// The start of the whitespace run that ends at `j`, not going below `lo`.
pub open spec fn ws_run_back(s: Seq<char>, lo: int, j: int) -> int
    decreases j - lo,
{
    if lo < j && j <= s.len() && is_unicode_whitespace(s[j - 1]) {
        ws_run_back(s, lo, j - 1)
    } else {
        j
    }
}

/// `s` without leading and trailing whitespace.
pub open spec fn trim_ws(s: Seq<char>) -> Seq<char> {
    let a = ws_run_from(s, 0);
    s.subrange(a, ws_run_back(s, a, s.len() as int))
}

/// The whitespace run from `i` ends within the text.
pub proof fn lemma_ws_run_from_bounds(s: Seq<char>, i: int)
    requires
        0 <= i <= s.len(),
    ensures
        i <= ws_run_from(s, i) <= s.len(),
        ws_run_from(s, i) < s.len() ==> !is_unicode_whitespace(s[ws_run_from(s, i)]),
    decreases s.len() - i,
{
    if i < s.len() && is_unicode_whitespace(s[i]) {
        lemma_ws_run_from_bounds(s, i + 1);
    }
}

/// The whitespace run back from `j` starts within `lo..=j`.
pub proof fn lemma_ws_run_back_bounds(s: Seq<char>, lo: int, j: int)
    requires
        0 <= lo <= j <= s.len(),
    ensures
        lo <= ws_run_back(s, lo, j) <= j,
    decreases j - lo,
{
    if lo < j && is_unicode_whitespace(s[j - 1]) {
        lemma_ws_run_back_bounds(s, lo, j - 1);
    }
}

/// The whitespace run back from `j` stops after a non-whitespace character.
pub proof fn lemma_ws_run_back_stops(s: Seq<char>, lo: int, j: int)
    requires
        0 <= lo <= j <= s.len(),
    ensures
        ws_run_back(s, lo, j) > lo ==> !is_unicode_whitespace(s[ws_run_back(s, lo, j) - 1]),
    decreases j - lo,
{
    if lo < j && is_unicode_whitespace(s[j - 1]) {
        lemma_ws_run_back_stops(s, lo, j - 1);
    }
}

/// Trimming twice is trimming once.
pub proof fn lemma_trim_idempotent(s: Seq<char>)
    ensures
        trim_ws(trim_ws(s)) == trim_ws(s),
{
    let a = ws_run_from(s, 0);
    lemma_ws_run_from_bounds(s, 0);
    let b = ws_run_back(s, a, s.len() as int);
    lemma_ws_run_back_bounds(s, a, s.len() as int);
    lemma_ws_run_back_stops(s, a, s.len() as int);
    let t = trim_ws(s);
    if t.len() > 0 {
        assert(t[0] == s[a]);
        assert(ws_run_from(t, 0) == 0);
        assert(t[t.len() - 1] == s[b - 1]);
        assert(ws_run_back(t, 0, t.len() as int) == t.len());
        assert(t.subrange(0, t.len() as int) =~= t);
    } else {
        assert(trim_ws(t) =~= t);
    }
}

/// Bounds of the trimmed part of `v`: `(a, b)` with `v[a..b]` the trimmed
/// text.
pub fn trim_bounds(v: &Vec<char>) -> (r: (usize, usize))
    ensures
        r.0 == ws_run_from(v@, 0),
        r.1 == ws_run_back(v@, r.0 as int, v@.len() as int),
        r.0 <= r.1 <= v@.len(),
{
    let n = v.len();
    let mut a: usize = 0;
    while a < n && is_whitespace(v[a])
        invariant
            a <= n,
            n == v@.len(),
            ws_run_from(v@, 0) == ws_run_from(v@, a as int),
        decreases n - a,
    {
        a = a + 1;
    }
    let mut b: usize = n;
    while b > a && is_whitespace(v[b - 1])
        invariant
            a <= b <= n,
            n == v@.len(),
            ws_run_back(v@, a as int, n as int) == ws_run_back(v@, a as int, b as int),
        decreases b - a,
    {
        b = b - 1;
    }
    (a, b)
}

/// The first index of `c` in `s` at or after `from`, or the length of `s`.
pub open spec fn first_index_of(s: Seq<char>, c: char, from: int) -> int
    decreases s.len() - from,
{
    if from < 0 || from >= s.len() {
        s.len() as int
    } else if s[from] == c {
        from
    } else {
        first_index_of(s, c, from + 1)
    }
}

/// The first index of a character lies between the start and the end.
pub proof fn lemma_first_index_bounds(s: Seq<char>, c: char, from: int)
    requires
        0 <= from <= s.len(),
    ensures
        from <= first_index_of(s, c, from) <= s.len(),
    decreases s.len() - from,
{
    if from < s.len() && s[from] != c {
        lemma_first_index_bounds(s, c, from + 1);
    }
}

/// Before the first index of `c` there is no `c`, and at it there is one.
pub proof fn lemma_first_index_before(s: Seq<char>, c: char, from: int)
    requires
        0 <= from <= s.len(),
    ensures
        forall|i: int| from <= i < first_index_of(s, c, from) ==> s[i] != c,
        first_index_of(s, c, from) < s.len() ==> s[first_index_of(s, c, from)] == c,
    decreases s.len() - from,
{
    if from < s.len() && s[from] != c {
        lemma_first_index_before(s, c, from + 1);
    }
}

/// The first `c` at or after `from` is at `k` when there is one at `k` and
/// none before.
pub proof fn lemma_first_index_at(s: Seq<char>, c: char, from: int, k: int)
    requires
        0 <= from <= k < s.len(),
        s[k] == c,
        forall|i: int| from <= i < k ==> s[i] != c,
    ensures
        first_index_of(s, c, from) == k,
    decreases k - from,
{
    if from < k {
        lemma_first_index_at(s, c, from + 1, k);
    }
}

/// Searching in `p + q` past `p` is searching in `q`.
pub proof fn lemma_first_index_shift(p: Seq<char>, q: Seq<char>, c: char, j: int)
    requires
        0 <= j <= q.len(),
    ensures
        first_index_of(p + q, c, p.len() + j) == p.len() + first_index_of(q, c, j),
    decreases q.len() - j,
{
    if j < q.len() {
        assert((p + q)[p.len() + j] == q[j]);
        if q[j] != c {
            lemma_first_index_shift(p, q, c, j + 1);
        }
    }
}

/// A `c` found in `p` is found at the same place in `p + q`.
pub proof fn lemma_first_index_in_prefix(p: Seq<char>, q: Seq<char>, c: char, i: int)
    requires
        0 <= i <= p.len(),
        first_index_of(p, c, i) < p.len(),
    ensures
        first_index_of(p + q, c, i) == first_index_of(p, c, i),
    decreases p.len() - i,
{
    if i < p.len() {
        assert((p + q)[i] == p[i]);
        if p[i] != c {
            lemma_first_index_in_prefix(p, q, c, i + 1);
        }
    }
}

/// The first index of `c` in `v` at or after `from`, or the length of `v`.
pub fn find_char(v: &Vec<char>, c: char, from: usize) -> (e: usize)
    requires
        from <= v@.len(),
    ensures
        e == first_index_of(v@, c, from as int),
        from <= e <= v@.len(),
{
    let mut i = from;
    while i < v.len() && v[i] != c
        invariant
            from <= i <= v@.len(),
            first_index_of(v@, c, from as int) == first_index_of(v@, c, i as int),
        decreases v@.len() - i,
    {
        i = i + 1;
    }
    i
}

/// The end of the run of non-whitespace characters that starts at `i`.
pub open spec fn word_end(s: Seq<char>, i: int) -> int
    decreases s.len() - i,
{
    if 0 <= i < s.len() && !is_unicode_whitespace(s[i]) {
        word_end(s, i + 1)
    } else {
        i
    }
}

/// A word runs at least one character past a non-whitespace start.
pub proof fn lemma_word_end_bounds(s: Seq<char>, i: int)
    requires
        0 <= i <= s.len(),
    ensures
        i <= word_end(s, i) <= s.len(),
        i < s.len() && !is_unicode_whitespace(s[i]) ==> word_end(s, i) > i,
    decreases s.len() - i,
{
    if i < s.len() && !is_unicode_whitespace(s[i]) {
        lemma_word_end_bounds(s, i + 1);
    }
}

/// The whitespace-separated words of `s` from `i` on, as
/// `str::split_whitespace` yields them.
pub open spec fn words_from(s: Seq<char>, i: int) -> Seq<Seq<char>>
    decreases s.len() + 1 - i,
{
    if i < 0 || i >= s.len() {
        Seq::empty()
    } else {
        let a = ws_run_from(s, i);
        proof {
            lemma_ws_run_from_bounds(s, i);
        }
        if a >= s.len() {
            Seq::empty()
        } else {
            let b = word_end(s, a);
            proof {
                lemma_word_end_bounds(s, a);
            }
            seq![s.subrange(a, b)] + words_from(s, b)
        }
    }
}

/// The whitespace-separated words of `s`.
pub open spec fn split_ws(s: Seq<char>) -> Seq<Seq<char>> {
    words_from(s, 0)
}

/// The texts of a list of strings.
pub open spec fn strings_view(v: Seq<String>) -> Seq<Seq<char>> {
    v.map_values(|x: String| x@)
}

/// The words of `s`, as `str::split_whitespace` yields them.
pub fn split_whitespace(s: &str) -> (v: Vec<String>)
    ensures
        strings_view(v@) == split_ws(s@),
{
    let cs = collect_chars(s);
    let n = cs.len();
    let mut v: Vec<String> = Vec::new();
    let mut i: usize = 0;
    proof {
        assert(strings_view(v@) =~= Seq::<Seq<char>>::empty());
    }
    while i < n
        invariant
            cs@ == s@,
            n == cs@.len(),
            i <= n,
            split_ws(s@) == strings_view(v@) + words_from(s@, i as int),
        decreases n - i,
    {
        let ghost i0 = i as int;
        let mut a = i;
        while a < n && is_whitespace(cs[a])
            invariant
                i <= a <= n,
                n == cs@.len(),
                ws_run_from(cs@, i0) == ws_run_from(cs@, a as int),
            decreases n - a,
        {
            a = a + 1;
        }
        if a >= n {
            proof {
                assert(words_from(s@, i0) =~= Seq::<Seq<char>>::empty());
                assert(strings_view(v@) + words_from(s@, i0) =~= strings_view(v@));
                assert(words_from(s@, n as int) =~= Seq::<Seq<char>>::empty());
            }
            i = n;
        } else {
            let mut b = a;
            while b < n && !is_whitespace(cs[b])
                invariant
                    a <= b <= n,
                    n == cs@.len(),
                    word_end(cs@, a as int) == word_end(cs@, b as int),
                decreases n - b,
            {
                b = b + 1;
            }
            proof {
                lemma_ws_run_from_bounds(cs@, i0);
                lemma_word_end_bounds(cs@, a as int);
            }
            let w = s.substring_char(a, b);
            let ghost before = strings_view(v@);
            v.push(String::from_str(w));
            proof {
                assert(strings_view(v@) =~= before.push(w@));
                assert(words_from(s@, i0) == seq![s@.subrange(a as int, b as int)] + words_from(s@, b as int));
                assert(strings_view(v@) + words_from(s@, b as int) =~= before + words_from(s@, i0));
            }
            i = b;
        }
    }
    proof {
        assert(strings_view(v@) + words_from(s@, i as int) =~= strings_view(v@));
    }
    v
}

/// The lines of `s` from `i` on, as `str::lines` yields them: split at
/// `\n`, a `\r` before the `\n` dropped, no empty line after a final `\n`.
pub open spec fn lines_from(s: Seq<char>, i: int) -> Seq<Seq<char>>
    decreases s.len() + 1 - i,
{
    if i < 0 || i >= s.len() {
        Seq::empty()
    } else {
        let e = first_index_of(s, '\n', i);
        proof {
            lemma_first_index_bounds(s, '\n', i);
        }
        let line = if e < s.len() && e > i && s[e - 1] == '\r' {
            s.subrange(i, e - 1)
        } else {
            s.subrange(i, e)
        };
        seq![line] + lines_from(s, e + 1)
    }
}

/// The lines of `s`.
pub open spec fn split_lines_spec(s: Seq<char>) -> Seq<Seq<char>> {
    lines_from(s, 0)
}

/// The lines of `s`, as `str::lines` yields them.
pub fn split_lines(s: &str) -> (v: Vec<String>)
    ensures
        strings_view(v@) == split_lines_spec(s@),
{
    let cs = collect_chars(s);
    let n = cs.len();
    let mut v: Vec<String> = Vec::new();
    let mut i: usize = 0;
    proof {
        assert(strings_view(v@) =~= Seq::<Seq<char>>::empty());
    }
    while i < n
        invariant
            cs@ == s@,
            n == cs@.len(),
            i <= n,
            split_lines_spec(s@) == strings_view(v@) + lines_from(s@, i as int),
        decreases n - i,
    {
        let e = find_char(&cs, '\n', i);
        let end = if e < n && e > i && cs[e - 1] == '\r' {
            e - 1
        } else {
            e
        };
        let line = s.substring_char(i, end);
        let ghost before = strings_view(v@);
        v.push(String::from_str(line));
        proof {
            assert(strings_view(v@) =~= before.push(line@));
            assert(strings_view(v@) + lines_from(s@, e + 1) =~= before + lines_from(s@, i as int));
        }
        if e >= n {
            proof {
                assert(strings_view(v@) + lines_from(s@, e + 1) =~= strings_view(v@));
            }
            return v;
        }
        i = e + 1;
    }
    proof {
        assert(strings_view(v@) + lines_from(s@, i as int) =~= strings_view(v@));
    }
    v
}

/// Whether `c` is an ASCII hexadecimal digit.
pub open spec fn is_hex_digit(c: char) -> bool {
    ('0' <= c <= '9') || ('a' <= c <= 'f') || ('A' <= c <= 'F')
}

/// The value of a hexadecimal digit.
pub open spec fn hex_digit_value(c: char) -> nat {
    if '0' <= c <= '9' {
        (c as nat - 48) as nat
    } else if 'a' <= c <= 'f' {
        (c as nat - 87) as nat
    } else {
        (c as nat - 55) as nat
    }
}

/// The value of a string of hexadecimal digits.
pub open spec fn hex_digits_value(d: Seq<char>) -> nat
    decreases d.len(),
{
    if d.len() == 0 {
        0
    } else {
        hex_digits_value(d.drop_last()) * 16 + hex_digit_value(d.last())
    }
}

/// The text after an optional leading `+`.
pub open spec fn signless(s: Seq<char>) -> Seq<char> {
    if s.len() > 0 && s[0] == '+' {
        s.drop_first()
    } else {
        s
    }
}

/// What `u64::from_str_radix(s, 16)` accepts: an optional `+`, then one or
/// more hexadecimal digits whose value fits in 64 bits.
pub open spec fn spec_parse_hex_u64(s: Seq<char>) -> Option<u64> {
    let d = signless(s);
    if d.len() > 0 && (forall|i: int| 0 <= i < d.len() ==> is_hex_digit(#[trigger] d[i]))
        && hex_digits_value(d) <= u64::MAX {
        Some(hex_digits_value(d) as u64)
    } else {
        Option::None
    }
}

proof fn lemma_hex_value_prefix(d: Seq<char>, k: int)
    requires
        0 <= k <= d.len(),
        forall|i: int| 0 <= i < d.len() ==> is_hex_digit(#[trigger] d[i]),
    ensures
        hex_digits_value(d.subrange(0, k)) <= hex_digits_value(d),
    decreases d.len() - k,
{
    if k < d.len() {
        lemma_hex_value_prefix(d, k + 1);
        assert(d.subrange(0, k + 1).drop_last() =~= d.subrange(0, k));
    } else {
        assert(d.subrange(0, k) =~= d);
    }
}

/// Parses hexadecimal text as `u64::from_str_radix(s, 16)` does.
pub fn parse_hex_u64(s: &str) -> (r: Option<u64>)
    ensures
        r == spec_parse_hex_u64(s@),
{
    let v = collect_chars(s);
    let n = v.len();
    let mut start: usize = 0;
    if n > 0 && v[0] == '+' {
        start = 1;
    }
    let ghost d = v@.subrange(start as int, n as int);
    proof {
        if n > 0 && v@[0] == '+' {
            assert(v@.drop_first() =~= d);
        } else {
            assert(v@ =~= d);
        }
    }
    if start >= n {
        return Option::None;
    }
    let mut value: u64 = 0;
    let mut i: usize = start;
    while i < n
        invariant
            start <= i <= n,
            start < n,
            n == v@.len(),
            v@ == s@,
            d == v@.subrange(start as int, n as int),
            signless(s@) == d,
            value == hex_digits_value(d.subrange(0, i - start)),
            forall|q: int| 0 <= q < i - start ==> is_hex_digit(#[trigger] d[q]),
        decreases n - i,
    {
        let c = v[i];
        let digit: u64 = if '0' <= c && c <= '9' {
            (c as u32 - 48) as u64
        } else if 'a' <= c && c <= 'f' {
            (c as u32 - 87) as u64
        } else if 'A' <= c && c <= 'F' {
            (c as u32 - 55) as u64
        } else {
            proof {
                assert(!is_hex_digit(d[i - start]));
            }
            return Option::None;
        };
        proof {
            assert(d.subrange(0, i - start + 1).drop_last() =~= d.subrange(0, i - start));
        }
        let next = match value.checked_mul(16) {
            Option::None => Option::None,
            Some(m) => m.checked_add(digit),
        };
        match next {
            Option::None => {
                proof {
                    assert(hex_digits_value(d.subrange(0, i - start + 1)) > u64::MAX);
                    if forall|q: int| 0 <= q < d.len() ==> is_hex_digit(#[trigger] d[q]) {
                        lemma_hex_value_prefix(d, i - start + 1);
                    }
                }
                return Option::None;
            },
            Some(nv) => {
                value = nv;
            },
        }
        i = i + 1;
    }
    proof {
        assert(d.subrange(0, d.len() as int) =~= d);
    }
    Some(value)
}

} // verus!
