//! Per-player enrollment tokens and their on-disk store.
//!
//! A token is 32 lowercase hexadecimal characters drawn from 16 random
//! bytes.  The store is text, one record per line: `<steam_id> TAB <token>`.
//! Reading keeps the last record for each id whose id parses as a `u64` and
//! whose token, trimmed of whitespace, is non-empty and at most 128 bytes.
use vstd::prelude::*;
use vstd::string::{StringSliceAdditionalSpecFns, StringExecFns, StrSliceExecFns};
use vstd::utf8::encode_utf8;
use std::collections::HashMap;
use crate::entropy::os_random_bytes;
use crate::protocol::MAX_TOKEN_LEN;
use crate::text::{
    ascii_chars, ascii_string, collect_chars, decimal_chars, digit_char, find_char, first_index_of, hex_digit_char,
    lemma_first_index_at, lemma_first_index_before, lemma_first_index_bounds,
    lemma_first_index_in_prefix, lemma_first_index_shift, lemma_trim_idempotent, signless,
    trim_bounds, trim_ws, u64_to_decimal,
};

verus! {

broadcast use vstd::std_specs::hash::group_hash_axioms;

/// Random bytes behind a token.
pub const TOKEN_BYTES: usize = 16;

// ---------------------------------------------------------------------------
// Generation
// ---------------------------------------------------------------------------

/// The two lowercase hexadecimal digits of a byte.
pub open spec fn hex_pair(b: u8) -> Seq<char> {
    seq![hex_digit_char((b / 16) as int), hex_digit_char((b % 16) as int)]
}

/// Lowercase hexadecimal text of a byte string, two digits per byte.
pub open spec fn hex_lower(b: Seq<u8>) -> Seq<char>
    decreases b.len(),
{
    if b.len() == 0 {
        Seq::empty()
    } else {
        hex_lower(b.drop_last()) + hex_pair(b.last())
    }
}

/// A well-formed token: 32 lowercase hexadecimal digits.
pub open spec fn is_token_text(t: Seq<char>) -> bool {
    &&& t.len() == 2 * TOKEN_BYTES
    &&& forall|i: int| 0 <= i < t.len() ==> ('0' <= #[trigger] t[i] <= '9' || 'a' <= t[i] <= 'f')
}

proof fn lemma_hex_lower_len(b: Seq<u8>)
    ensures
        hex_lower(b).len() == 2 * b.len(),
        forall|i: int|
            0 <= i < hex_lower(b).len() ==> ('0' <= #[trigger] hex_lower(b)[i] <= '9' || 'a'
                <= hex_lower(b)[i] <= 'f'),
    decreases b.len(),
{
    if b.len() > 0 {
        lemma_hex_lower_len(b.drop_last());
        let x = b.last();
        assert(x / 16 < 16 && x % 16 < 16);
    }
}

fn hex_digit_byte(d: u8) -> (c: u8)
    requires
        d < 16,
    ensures
        c as char == hex_digit_char(d as int),
        c < 128,
{
    if d < 10 {
        48 + d
    } else {
        87 + d
    }
}

/// Lowercase hexadecimal text of `bytes`.
pub fn hex_encode(bytes: &[u8]) -> (s: String)
    ensures
        s@ == hex_lower(bytes@),
{
    let mut out: Vec<u8> = Vec::new();
    let mut i: usize = 0;
    while i < bytes.len()
        invariant
            i <= bytes@.len(),
            ascii_chars(out@) == hex_lower(bytes@.subrange(0, i as int)),
            forall|q: int| 0 <= q < out@.len() ==> out@[q] < 128,
        decreases bytes@.len() - i,
    {
        let b = bytes[i];
        let ghost before = out@;
        out.push(hex_digit_byte(b / 16));
        out.push(hex_digit_byte(b % 16));
        proof {
            assert(bytes@.subrange(0, i + 1).drop_last() =~= bytes@.subrange(0, i as int));
            assert(ascii_chars(out@) =~= ascii_chars(before) + hex_pair(b));
        }
        i = i + 1;
    }
    proof {
        assert(bytes@.subrange(0, bytes@.len() as int) =~= bytes@);
    }
    ascii_string(out.as_slice())
}

/// A fresh enrollment token: 16 bytes from the operating system's random
/// source in lowercase hexadecimal.
pub fn generate() -> (t: String)
    ensures
        is_token_text(t@),
        exists|b: Seq<u8>| b.len() == TOKEN_BYTES && t@ == hex_lower(b),
{
    let bytes = os_random_bytes(TOKEN_BYTES);
    let t = hex_encode(bytes.as_slice());
    proof {
        lemma_hex_lower_len(bytes@);
    }
    t
}

// ---------------------------------------------------------------------------
// Whitespace and numbers
// ---------------------------------------------------------------------------

/// Whether `c` is an ASCII decimal digit.
pub open spec fn is_digit(c: char) -> bool {
    '0' <= c <= '9'
}

/// The value of a string of decimal digits.
pub open spec fn digits_value(d: Seq<char>) -> nat
    decreases d.len(),
{
    if d.len() == 0 {
        0
    } else {
        digits_value(d.drop_last()) * 10 + ((d.last() as nat) - 48) as nat
    }
}

/// What `str::parse::<u64>` accepts: an optional `+`, then one or more
/// decimal digits whose value fits in 64 bits.
pub open spec fn spec_parse_u64(s: Seq<char>) -> Option<u64> {
    let d = signless(s);
    if d.len() > 0 && (forall|i: int| 0 <= i < d.len() ==> is_digit(#[trigger] d[i])) && digits_value(d)
        <= u64::MAX {
        Some(digits_value(d) as u64)
    } else {
        Option::None
    }
}

proof fn lemma_digits_value_prefix(d: Seq<char>, k: int)
    requires
        0 <= k <= d.len(),
        forall|i: int| 0 <= i < d.len() ==> is_digit(#[trigger] d[i]),
    ensures
        digits_value(d.subrange(0, k)) <= digits_value(d),
    decreases d.len() - k,
{
    if k < d.len() {
        lemma_digits_value_prefix(d, k + 1);
        assert(d.subrange(0, k + 1).drop_last() =~= d.subrange(0, k));
    } else {
        assert(d.subrange(0, k) =~= d);
    }
}

/// Parses `v[from..to]` as `str::parse::<u64>` does.
pub fn parse_u64_chars(v: &Vec<char>, from: usize, to: usize) -> (r: Option<u64>)
    requires
        from <= to <= v@.len(),
    ensures
        r == spec_parse_u64(v@.subrange(from as int, to as int)),
{
    let ghost s = v@.subrange(from as int, to as int);
    let mut start = from;
    if from < to && v[from] == '+' {
        start = from + 1;
    }
    let ghost d = v@.subrange(start as int, to as int);
    proof {
        assert(signless(s) =~= d);
    }
    if start >= to {
        return Option::None;
    }
    let mut value: u64 = 0;
    let mut i: usize = start;
    while i < to
        invariant
            start <= i <= to <= v@.len(),
            start < to,
            d == v@.subrange(start as int, to as int),
            signless(v@.subrange(from as int, to as int)) == d,
            value == digits_value(d.subrange(0, i - start)),
            forall|q: int| 0 <= q < i - start ==> is_digit(#[trigger] d[q]),
        decreases to - i,
    {
        let c = v[i];
        if !('0' <= c && c <= '9') {
            proof {
                assert(!is_digit(d[i - start]));
            }
            return Option::None;
        }
        let digit = (c as u32 - 48) as u64;
        proof {
            assert(d.subrange(0, i - start + 1).drop_last() =~= d.subrange(0, i - start));
        }
        let next = match value.checked_mul(10) {
            Option::None => Option::None,
            Some(m) => m.checked_add(digit),
        };
        match next {
            Option::None => {
                proof {
                    assert(digits_value(d.subrange(0, i - start + 1)) > u64::MAX);
                    if forall|q: int| 0 <= q < d.len() ==> is_digit(#[trigger] d[q]) {
                        lemma_digits_value_prefix(d, i - start + 1);
                    }
                }
                return Option::None;
            },
            Some(nv) => {
                value = nv;
            },
        }
        i = i + 1;
    }
    proof {
        assert(d.subrange(0, d.len() as int) =~= d);
    }
    Some(value)
}

// ---------------------------------------------------------------------------
// Reading the store
// ---------------------------------------------------------------------------

/// The record a line holds, if any: the id before the first tab and the
/// trimmed token after it.
pub open spec fn parse_record(line: Seq<char>) -> Option<(u64, Seq<char>)> {
    let t = first_index_of(line, '\t', 0);
    if t >= line.len() {
        Option::None
    } else {
        let tok = trim_ws(line.subrange(t + 1, line.len() as int));
        match spec_parse_u64(line.subrange(0, t)) {
            Some(id) => if tok.len() > 0 && encode_utf8(tok).len() <= MAX_TOKEN_LEN {
                Some((id, tok))
            } else {
                Option::None
            },
            Option::None => Option::None,
        }
    }
}

/// The store after reading one more line.
pub open spec fn apply_record(m: Map<u64, Seq<char>>, line: Seq<char>) -> Map<u64, Seq<char>> {
    match parse_record(line) {
        Some((id, tok)) => m.insert(id, tok),
        Option::None => m,
    }
}

/// The store after reading the lines of `s` from `from` on into `m`.
/// Lines end at `\n`; a `\r` before it ends up in the token and is trimmed
/// away.
pub open spec fn db_from(s: Seq<char>, from: int, m: Map<u64, Seq<char>>) -> Map<u64, Seq<char>>
    decreases s.len() + 1 - from,
{
    if from < 0 || from >= s.len() {
        m
    } else {
        let e = first_index_of(s, '\n', from);
        proof {
            lemma_first_index_bounds(s, '\n', from);
        }
        db_from(s, e + 1, apply_record(m, s.subrange(from, e)))
    }
}

/// The tokens a store's text holds.
pub open spec fn token_db(s: Seq<char>) -> Map<u64, Seq<char>> {
    db_from(s, 0, Map::empty())
}

/// The texts of a map of strings.
pub open spec fn string_map_view(m: Map<u64, String>) -> Map<u64, Seq<char>> {
    Map::new(|k: u64| m.dom().contains(k), |k: u64| m[k]@)
}

fn copy_chars(v: &Vec<char>, from: usize, to: usize) -> (r: Vec<char>)
    requires
        from <= to <= v@.len(),
    ensures
        r@ == v@.subrange(from as int, to as int),
{
    let mut r: Vec<char> = Vec::new();
    let mut i = from;
    while i < to
        invariant
            from <= i <= to <= v@.len(),
            r@ == v@.subrange(from as int, i as int),
        decreases to - i,
    {
        r.push(v[i]);
        proof {
            assert(v@.subrange(from as int, i + 1) =~= v@.subrange(from as int, i as int).push(
                v@[i as int],
            ));
        }
        i = i + 1;
    }
    r
}

/// The record of the line `content[start..end]` (in characters).
fn parse_line(content: &str, cs: &Vec<char>, start: usize, end: usize) -> (r: Option<(u64, String)>)
    requires
        cs@ == content@,
        start <= end <= cs@.len(),
    ensures
        match r {
            Option::None => parse_record(cs@.subrange(start as int, end as int)) is None,
            Some((id, t)) => parse_record(cs@.subrange(start as int, end as int)) == Some((id, t@)),
        },
{
    let line = copy_chars(cs, start, end);
    let t = find_char(&line, '\t', 0);
    if t >= line.len() {
        return Option::None;
    }
    let id = match parse_u64_chars(&line, 0, t) {
        Some(id) => id,
        Option::None => {
            return Option::None;
        },
    };
    let rest = copy_chars(&line, t + 1, line.len());
    let (a, b) = trim_bounds(&rest);
    if a == b {
        return Option::None;
    }
    let tok = content.substring_char(start + t + 1 + a, start + t + 1 + b);
    proof {
        assert(tok@ =~= trim_ws(rest@));
    }
    if tok.as_bytes().len() > MAX_TOKEN_LEN {
        return Option::None;
    }
    proof {
        let sl = cs@.subrange(start as int, end as int);
        assert(sl == line@);
        assert(first_index_of(sl, '\t', 0) == t);
        assert(spec_parse_u64(sl.subrange(0, t as int)) == Some(id));
        assert(trim_ws(sl.subrange(t + 1, sl.len() as int)) == tok@);
        assert(tok@.len() > 0);
        assert(encode_utf8(tok@).len() <= MAX_TOKEN_LEN);
    }
    Some((id, String::from_str(tok)))
}

/// Reads the token store's text: for each id, the token of its last valid
/// record.
pub fn parse_token_db(content: &str) -> (m: HashMap<u64, String>)
    ensures
        string_map_view(m@) == token_db(content@),
{
    let cs = collect_chars(content);
    let n = cs.len();
    let mut m: HashMap<u64, String> = HashMap::new();
    proof {
        assert(string_map_view(m@) =~= Map::<u64, Seq<char>>::empty());
    }
    let mut start: usize = 0;
    while start < n
        invariant
            cs@ == content@,
            n == cs@.len(),
            start <= n,
            token_db(content@) == db_from(content@, start as int, string_map_view(m@)),
        decreases n + 1 - start,
    {
        let e = find_char(&cs, '\n', start);
        let ghost before = string_map_view(m@);
        match parse_line(content, &cs, start, e) {
            Some((id, t)) => {
                m.insert(id, t);
                proof {
                    assert(string_map_view(m@) =~= before.insert(id, t@));
                }
            },
            Option::None => {},
        }
        if e >= n {
            proof {
                assert(db_from(content@, e + 1, string_map_view(m@)) == string_map_view(m@));
            }
            return m;
        }
        start = e + 1;
    }
    m
}


// ---------------------------------------------------------------------------
// Writing the store
// ---------------------------------------------------------------------------

/// One record line: the id in decimal, a tab, the token, a newline.
pub open spec fn record_line(id: u64, tok: Seq<char>) -> Seq<char> {
    decimal_chars(id as nat) + "\t"@ + tok + "\n"@
}

/// The text of a list of records, one line each, in order.
pub open spec fn records_text(e: Seq<(u64, Seq<char>)>) -> Seq<char>
    decreases e.len(),
{
    if e.len() == 0 {
        Seq::empty()
    } else {
        records_text(e.drop_last()) + record_line(e.last().0, e.last().1)
    }
}

/// The tokens of a list of records, a later record for an id winning.
pub open spec fn records_map(e: Seq<(u64, Seq<char>)>) -> Map<u64, Seq<char>>
    decreases e.len(),
{
    if e.len() == 0 {
        Map::empty()
    } else {
        records_map(e.drop_last()).insert(e.last().0, e.last().1)
    }
}

/// A token that reads back unchanged: non-empty, without surrounding
/// whitespace or a newline, and at most 128 bytes.
pub open spec fn storable_token(t: Seq<char>) -> bool {
    &&& t.len() > 0
    &&& trim_ws(t) == t
    &&& !t.contains('\n')
    &&& encode_utf8(t).len() <= MAX_TOKEN_LEN
}

/// The records of a list, as plain values.
pub open spec fn records_view(v: Seq<(u64, String)>) -> Seq<(u64, Seq<char>)> {
    v.map_values(|x: (u64, String)| (x.0, x.1@))
}

/// The records of a list except those for `id`.
pub open spec fn drop_id(e: Seq<(u64, Seq<char>)>, id: u64) -> Seq<(u64, Seq<char>)>
    decreases e.len(),
{
    if e.len() == 0 {
        Seq::empty()
    } else if e.last().0 == id {
        drop_id(e.drop_last(), id)
    } else {
        drop_id(e.drop_last(), id).push(e.last())
    }
}

proof fn lemma_decimal_parse(n: nat)
    ensures
        decimal_chars(n).len() > 0,
        forall|i: int| 0 <= i < decimal_chars(n).len() ==> is_digit(#[trigger] decimal_chars(n)[i]),
        digits_value(decimal_chars(n)) == n,
    decreases n,
{
    if n >= 10 {
        lemma_decimal_parse(n / 10);
        let d = decimal_chars(n / 10);
        assert(decimal_chars(n).drop_last() =~= d);
        assert(n == (n / 10) * 10 + n % 10);
        let c = digit_char((n % 10) as int);
        assert(c as nat == 48 + n % 10);
        assert(decimal_chars(n).last() == c);
        assert(digits_value(decimal_chars(n)) == digits_value(d) * 10 + ((c as nat) - 48) as nat);
        assert forall|i: int| 0 <= i < decimal_chars(n).len() implies is_digit(
            #[trigger] decimal_chars(n)[i],
        ) by {
            if i < d.len() {
                assert(decimal_chars(n)[i] == d[i]);
            }
        }
    } else {
        let c = digit_char(n as int);
        assert(c as nat == 48 + n);
        assert(decimal_chars(n).drop_last() =~= Seq::<char>::empty());
        assert(decimal_chars(n).last() == c);
        assert(digits_value(Seq::<char>::empty()) == 0);
    }
}

proof fn lemma_parse_decimal(id: u64)
    ensures
        spec_parse_u64(decimal_chars(id as nat)) == Some(id),
{
    let d = decimal_chars(id as nat);
    lemma_decimal_parse(id as nat);
    assert(is_digit(d[0]));
    assert(signless(d) == d);
}

proof fn lemma_record_parses(id: u64, tok: Seq<char>)
    requires
        storable_token(tok),
    ensures
        parse_record(decimal_chars(id as nat) + "\t"@ + tok) == Some((id, tok)),
{
    let d = decimal_chars(id as nat);
    let line = d + "\t"@ + tok;
    reveal_strlit("\t");
    lemma_decimal_parse(id as nat);
    lemma_parse_decimal(id);
    assert(line[d.len() as int] == '\t');
    assert forall|i: int| 0 <= i < d.len() implies line[i] != '\t' by {
        assert(line[i] == d[i]);
        assert(is_digit(d[i]));
    }
    lemma_first_index_at(line, '\t', 0, d.len() as int);
    assert(line.subrange(0, d.len() as int) =~= d);
    assert(line.subrange(d.len() as int + 1, line.len() as int) =~= tok);
}

proof fn lemma_record_line_db(id: u64, tok: Seq<char>, m: Map<u64, Seq<char>>)
    requires
        storable_token(tok),
    ensures
        db_from(record_line(id, tok), 0, m) == m.insert(id, tok),
{
    let d = decimal_chars(id as nat);
    let line = d + "\t"@ + tok;
    let r = record_line(id, tok);
    reveal_strlit("\t");
    reveal_strlit("\n");
    lemma_decimal_parse(id as nat);
    assert(r =~= line + "\n"@);
    assert(r[line.len() as int] == '\n');
    assert forall|i: int| 0 <= i < line.len() implies r[i] != '\n' by {
        assert(r[i] == line[i]);
        if i < d.len() {
            assert(line[i] == d[i]);
            assert(is_digit(d[i]));
        } else if i == d.len() {
        } else {
            assert(line[i] == tok[i - d.len() - 1]);
            assert(!tok.contains('\n'));
        }
    }
    lemma_first_index_at(r, '\n', 0, line.len() as int);
    assert(r.subrange(0, line.len() as int) =~= line);
    lemma_record_parses(id, tok);
    assert(db_from(r, r.len() as int, m.insert(id, tok)) == m.insert(id, tok));
}

proof fn lemma_db_shift(p: Seq<char>, q: Seq<char>, j: int, m: Map<u64, Seq<char>>)
    requires
        0 <= j,
    ensures
        db_from(p + q, p.len() + j, m) == db_from(q, j, m),
    decreases q.len() + 1 - j,
{
    if j < q.len() {
        lemma_first_index_shift(p, q, '\n', j);
        lemma_first_index_bounds(q, '\n', j);
        let e = first_index_of(q, '\n', j);
        assert((p + q).subrange(p.len() + j, p.len() + e) =~= q.subrange(j, e));
        lemma_db_shift(p, q, e + 1, apply_record(m, q.subrange(j, e)));
    }
}

proof fn lemma_db_prefix(p: Seq<char>, q: Seq<char>, i: int, m: Map<u64, Seq<char>>)
    requires
        p.len() > 0,
        p.last() == '\n',
        0 <= i <= p.len(),
    ensures
        db_from(p + q, i, m) == db_from(p + q, p.len() as int, db_from(p, i, m)),
    decreases p.len() - i,
{
    if i < p.len() {
        lemma_first_index_found_at_end(p, i);
        lemma_first_index_in_prefix(p, q, '\n', i);
        lemma_first_index_bounds(p, '\n', i);
        let e = first_index_of(p, '\n', i);
        assert((p + q).subrange(i, e) =~= p.subrange(i, e));
        lemma_db_prefix(p, q, e + 1, apply_record(m, p.subrange(i, e)));
    }
}

proof fn lemma_first_index_found_at_end(p: Seq<char>, i: int)
    requires
        p.len() > 0,
        p.last() == '\n',
        0 <= i < p.len(),
    ensures
        first_index_of(p, '\n', i) < p.len(),
    decreases p.len() - i,
{
    if p[i] != '\n' {
        lemma_first_index_found_at_end(p, i + 1);
    }
}

proof fn lemma_db_concat(p: Seq<char>, q: Seq<char>, m: Map<u64, Seq<char>>)
    requires
        p.len() == 0 || p.last() == '\n',
    ensures
        db_from(p + q, 0, m) == db_from(q, 0, db_from(p, 0, m)),
{
    if p.len() == 0 {
        assert(p + q =~= q);
    } else {
        lemma_db_prefix(p, q, 0, m);
        lemma_db_shift(p, q, 0, db_from(p, 0, m));
    }
}

/// Law: the store's text reads back as what was written: for records whose
/// tokens are storable, reading the text of the records gives each id the
/// token of its last record.
pub proof fn lemma_records_roundtrip(e: Seq<(u64, Seq<char>)>)
    requires
        forall|k: int| 0 <= k < e.len() ==> storable_token(#[trigger] e[k].1),
    ensures
        token_db(records_text(e)) == records_map(e),
    decreases e.len(),
{
    if e.len() > 0 {
        let d = e.drop_last();
        assert forall|k: int| 0 <= k < d.len() implies storable_token(#[trigger] d[k].1) by {
            assert(d[k] == e[k]);
        }
        lemma_records_roundtrip(d);
        let p = records_text(d);
        let l = record_line(e.last().0, e.last().1);
        assert(storable_token(e[e.len() - 1].1));
        if p.len() > 0 {
            lemma_records_text_ends(d);
        }
        lemma_db_concat(p, l, Map::empty());
        lemma_record_line_db(e.last().0, e.last().1, records_map(d));
    }
}

proof fn lemma_records_text_ends(e: Seq<(u64, Seq<char>)>)
    requires
        records_text(e).len() > 0,
    ensures
        records_text(e).last() == '\n',
{
    reveal_strlit("\n");
    let l = record_line(e.last().0, e.last().1);
    assert(l.last() == '\n');
    assert(records_text(e).last() == l.last());
}

proof fn lemma_drop_id_map(e: Seq<(u64, Seq<char>)>, id: u64)
    ensures
        records_map(drop_id(e, id)) == records_map(e).remove(id),
        forall|k: int| 0 <= k < drop_id(e, id).len() ==> #[trigger] e.contains(drop_id(e, id)[k]),
    decreases e.len(),
{
    if e.len() > 0 {
        let d = e.drop_last();
        lemma_drop_id_map(d, id);
        if e.last().0 != id {
            assert(drop_id(d, id).push(e.last()).drop_last() =~= drop_id(d, id));
        }
        assert(records_map(drop_id(e, id)) =~= records_map(e).remove(id));
        assert forall|k: int| 0 <= k < drop_id(e, id).len() implies #[trigger] e.contains(
            drop_id(e, id)[k],
        ) by {
            let x = drop_id(e, id)[k];
            if k < drop_id(d, id).len() {
                assert(x == drop_id(d, id)[k]);
                assert(d.contains(x));
                let q = choose|q: int| 0 <= q < d.len() && d[q] == x;
                assert(e[q] == x);
            } else {
                assert(e[e.len() - 1] == x);
            }
        }
    }
}

fn without_id(v: &Vec<(u64, String)>, id: u64) -> (r: Vec<(u64, String)>)
    ensures
        records_view(r@) == drop_id(records_view(v@), id),
{
    let ghost orig = records_view(v@);
    let mut r: Vec<(u64, String)> = Vec::new();
    let mut i: usize = 0;
    proof {
        assert(records_view(r@) =~= drop_id(orig.subrange(0, 0), id));
    }
    while i < v.len()
        invariant
            i <= v@.len(),
            orig == records_view(v@),
            records_view(r@) == drop_id(orig.subrange(0, i as int), id),
        decreases v@.len() - i,
    {
        proof {
            assert(orig.subrange(0, i + 1).drop_last() =~= orig.subrange(0, i as int));
            assert(orig[i as int] == (v@[i as int].0, v@[i as int].1@));
        }
        if v[i].0 != id {
            let ghost before = records_view(r@);
            r.push((v[i].0, v[i].1.clone()));
            proof {
                assert(records_view(r@) =~= before.push(orig[i as int]));
            }
        }
        i = i + 1;
    }
    proof {
        assert(orig.subrange(0, v@.len() as int) =~= orig);
    }
    r
}

fn push_record(s: &mut String, id: u64, tok: &str)
    ensures
        final(s)@ == old(s)@ + record_line(id, tok@),
{
    let d = u64_to_decimal(id);
    s.append(d.as_str());
    s.append("\t");
    s.append(tok);
    s.append("\n");
    proof {
        reveal_strlit("\t");
        reveal_strlit("\n");
        assert(final(s)@ =~= old(s)@ + record_line(id, tok@));
    }
}

/// The store's text after recording `token` for `steam_id`: the records
/// read from `content` for the other ids (one each, with the token that
/// reading gave them), then the new record.  With a storable token, reading
/// the result gives what reading `content` gave, with `steam_id` now mapped
/// to `token`.
pub fn store_record(content: &str, steam_id: u64, token: &str) -> (r: String)
    ensures
        exists|kept: Seq<(u64, Seq<char>)>|
            {
                &&& records_map(kept) == token_db(content@).remove(steam_id)
                &&& forall|k: int| 0 <= k < kept.len() ==> storable_token(#[trigger] kept[k].1)
                &&& r@ == records_text(kept) + record_line(steam_id, token@)
            },
        storable_token(token@) ==> token_db(r@) == token_db(content@).insert(steam_id, token@),
{
    let cs = collect_chars(content);
    let n = cs.len();
    let mut list: Vec<(u64, String)> = Vec::new();
    let ghost mut acc: Map<u64, Seq<char>> = Map::empty();
    let mut start: usize = 0;
    while start < n
        invariant
            cs@ == content@,
            n == cs@.len(),
            start <= n,
            token_db(content@) == db_from(content@, start as int, acc),
            records_map(records_view(list@)) == acc.remove(steam_id),
            forall|k: int|
                0 <= k < records_view(list@).len() ==> storable_token(
                    #[trigger] records_view(list@)[k].1,
                ),
        decreases n + 1 - start,
    {
        let e = find_char(&cs, '\n', start);
        proof {
            lemma_first_index_before(cs@, '\n', start as int);
        }
        let ghost line = content@.subrange(start as int, e as int);
        match parse_line(content, &cs, start, e) {
            Some((id, t)) => {
                proof {
                    lemma_trim_idempotent(line.subrange(
                        first_index_of(line, '\t', 0) + 1,
                        line.len() as int,
                    ));
                    assert(!t@.contains('\n')) by {
                        lemma_first_index_bounds(line, '\t', 0);
                        let tt = first_index_of(line, '\t', 0);
                        let raw = line.subrange(tt + 1, line.len() as int);
                        let a = crate::text::ws_run_from(raw, 0);
                        crate::text::lemma_ws_run_from_bounds(raw, 0);
                        crate::text::lemma_ws_run_back_bounds(
                            raw,
                            a,
                            raw.len() as int,
                        );
                        if t@.contains('\n') {
                            let q = choose|q: int| 0 <= q < t@.len() && t@[q] == '\n';
                            assert(t@[q] == raw[a + q]);
                            assert(raw[a + q] == cs@[start + tt + 1 + a + q]);
                        }
                    }
                    acc = acc.insert(id, t@);
                }
                if id != steam_id {
                    let ghost before = records_view(list@);
                    proof {
                        lemma_drop_id_map(before, id);
                    }
                    list = without_id(&list, id);
                    let ghost mid = records_view(list@);
                    let ghost tv = t@;
                    list.push((id, t));
                    proof {
                        assert(records_view(list@) =~= mid.push((id, tv)));
                        assert(records_view(list@).drop_last() =~= mid);
                        assert(records_map(records_view(list@)) =~= acc.remove(steam_id));
                        assert forall|k: int| 0 <= k < records_view(list@).len() implies storable_token(
                            #[trigger] records_view(list@)[k].1,
                        ) by {
                            if k < mid.len() {
                                assert(records_view(list@)[k] == mid[k]);
                                assert(before.contains(mid[k]));
                                let q = choose|q: int| 0 <= q < before.len() && before[q] == mid[k];
                                assert(storable_token(before[q].1));
                            }
                        }
                    }
                } else {
                    proof {
                        assert(acc.remove(steam_id) =~= acc.remove(id).remove(steam_id));
                        assert(records_map(records_view(list@)) =~= acc.remove(steam_id));
                    }
                }
            },
            Option::None => {},
        }
        if e >= n {
            proof {
                assert(db_from(content@, e + 1, acc) == acc);
            }
            start = n;
        } else {
            start = e + 1;
        }
    }
    proof {
        assert(db_from(content@, start as int, acc) == acc);
    }
    let mut out = String::new();
    let mut i: usize = 0;
    proof {
        assert(out@ =~= records_text(records_view(list@).subrange(0, 0)));
    }
    while i < list.len()
        invariant
            i <= list@.len(),
            out@ == records_text(records_view(list@).subrange(0, i as int)),
        decreases list@.len() - i,
    {
        proof {
            assert(records_view(list@).subrange(0, i + 1).drop_last() =~= records_view(list@).subrange(
                0,
                i as int,
            ));
        }
        push_record(&mut out, list[i].0, list[i].1.as_str());
        i = i + 1;
    }
    let ghost kept = records_view(list@);
    proof {
        assert(kept.subrange(0, list@.len() as int) =~= kept);
    }
    let ghost body = out@;
    push_record(&mut out, steam_id, token);
    proof {
        let all = kept.push((steam_id, token@));
        assert(all.drop_last() =~= kept);
        assert(records_text(all) == body + record_line(steam_id, token@));
        if storable_token(token@) {
            assert forall|k: int| 0 <= k < all.len() implies storable_token(#[trigger] all[k].1) by {
                if k < kept.len() {
                    assert(all[k] == kept[k]);
                }
            }
            lemma_records_roundtrip(all);
            assert(records_map(all) =~= token_db(content@).insert(steam_id, token@));
        }
    }
    out
}


// ---------------------------------------------------------------------------
// Where the store lives
// ---------------------------------------------------------------------------

/// The store's path when neither an explicit path nor the environment
/// names one.
pub open spec fn default_db_path() -> Seq<char> {
    "vac-tokens.db"@
}

/// The store's path: an explicitly set path, else the `VAC_TOKEN_DB_PATH`
/// value when non-empty, else the default.
pub open spec fn spec_db_path(explicit: Option<Seq<char>>, env: Option<Seq<char>>) -> Seq<char> {
    match explicit {
        Some(p) => p,
        Option::None => match env {
            Some(e) => if e.len() > 0 {
                e
            } else {
                default_db_path()
            },
            Option::None => default_db_path(),
        },
    }
}

/// The configured location of the token store.
pub struct TokenDbConfig {
    /// The path set explicitly, if any.
    pub explicit: Option<String>,
}

impl TokenDbConfig {
    /// No explicit path.
    pub fn new() -> (c: Self)
        ensures
            c.explicit is None,
    {
        TokenDbConfig { explicit: Option::None }
    }

    /// The store's path, given the value of `VAC_TOKEN_DB_PATH` (`None` when
    /// unset).
    pub fn db_path(&self, env: Option<&str>) -> (p: String)
        ensures
            p@ == spec_db_path(
                match self.explicit {
                    Some(x) => Some(x@),
                    Option::None => Option::None,
                },
                match env {
                    Some(x) => Some(x@),
                    Option::None => Option::None,
                },
            ),
    {
        match &self.explicit {
            Some(x) => x.clone(),
            Option::None => match env {
                Some(e) => if e.unicode_len() > 0 {
                    String::from_str(e)
                } else {
                    String::from_str("vac-tokens.db")
                },
                Option::None => String::from_str("vac-tokens.db"),
            },
        }
    }
}


/// Sets the store's path explicitly; it takes precedence over the
/// environment.
pub fn set_db_path(cfg: &mut TokenDbConfig, path: &str)
    ensures
        final(cfg).explicit matches Some(p) && p@ == path@,
{
    cfg.explicit = Some(String::from_str(path));
}

} // verus!
