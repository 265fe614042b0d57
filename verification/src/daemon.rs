//! The client daemon's side of a scan: the payloads of the ring-0 process
//! list (module 7), the hidden-process check (module 8) and the memory scan
//! (module 9), how it reads the listener's messages, and how it seals a
//! result for the listener.
use vstd::prelude::*;
use vstd::string::{StringSliceAdditionalSpecFns, StrSliceExecFns};
use vstd::utf8::{encode_utf8, decode_utf8, valid_utf8};
use crate::policy::{
    is_anon_exec, is_rwx, le_u32_at, maps_view, ring0_record, ring0_record_count, trim_trailing_nul,
    Ring0ProcView,
};
use crate::protocol::{
    build_scan_result, le32, lemma_le32_roundtrip, parse_scan_cmd, push_all, push_le32,
    scan_cmd_key_len, scan_cmd_len_ok, seal_module_id, spec_scan_result, spec_seal_module_id, ScanCommand,
    MAX_FRAME_LEN, MSG_PING, MSG_SCAN_CMD, NONCE_LEN,
};
use crate::host::copy_bytes;
use crate::seal::{kyber768_encapsulation, seal, sealed_len, sealed_view, spec_seal_with, SealError, SealKey, AES_NONCE_LEN, KYBER_CT_LEN, KYBER_PK_LEN, SHARED_SECRET_LEN};
use crate::text::{
    bytes_contain, bytes_starts_with, collect_chars, find_char, first_index_of, occurs_at, parse_hex_u64,
    spec_parse_hex_u64, split_lines, split_lines_spec, split_whitespace, split_ws, str_contains,
    str_contains_ascii_char, strings_view,
};

verus! {

// ---------------------------------------------------------------------------
// Module 7: the ring-0 process list
// ---------------------------------------------------------------------------

/// The 16-byte name field of a process record: at most 15 bytes of the
/// name, zero padded.
pub open spec fn comm_field(b: Seq<u8>) -> Seq<u8> {
    let n: int = if b.len() < 15 {
        b.len() as int
    } else {
        15
    };
    b.subrange(0, n) + Seq::new((16 - n) as nat, |i: int| 0u8)
}

/// The views of `(pid, ppid, name)` triples, the name as UTF-8 bytes.
pub open spec fn triples_view(p: Seq<(u32, u32, String)>) -> Seq<(u32, u32, Seq<u8>)> {
    p.map_values(|e: (u32, u32, String)| (e.0, e.1, encode_utf8(e.2@)))
}

/// The records of a process list.
pub open spec fn ring0_records(p: Seq<(u32, u32, Seq<u8>)>) -> Seq<u8>
    decreases p.len(),
{
    if p.len() == 0 {
        Seq::empty()
    } else {
        ring0_records(p.drop_last()) + le32(p.last().0) + le32(p.last().1) + comm_field(p.last().2)
    }
}

/// The ring-0 process list payload: the count, then one 24-byte record per
/// process.
pub open spec fn spec_ring0_payload(p: Seq<(u32, u32, Seq<u8>)>) -> Seq<u8> {
    le32(p.len() as u32) + ring0_records(p)
}

proof fn lemma_ring0_records_len(p: Seq<(u32, u32, Seq<u8>)>)
    ensures
        ring0_records(p).len() == 24 * p.len(),
    decreases p.len(),
{
    if p.len() > 0 {
        lemma_ring0_records_len(p.drop_last());
    }
}

/// Builds the ring-0 process list payload.
pub fn ring0_proc_payload(procs: &[(u32, u32, String)]) -> (p: Vec<u8>)
    ensures
        p@ == spec_ring0_payload(triples_view(procs@)),
{
    let ghost v = triples_view(procs@);
    let mut p: Vec<u8> = Vec::new();
    push_le32(&mut p, procs.len() as u32);
    let ghost head = p@;
    let mut i: usize = 0;
    while i < procs.len()
        invariant
            i <= procs@.len(),
            v == triples_view(procs@),
            head == le32(procs@.len() as u32),
            p@ == head + ring0_records(v.subrange(0, i as int)),
        decreases procs@.len() - i,
    {
        let (pid, ppid, comm) = &procs[i];
        push_le32(&mut p, *pid);
        push_le32(&mut p, *ppid);
        let bytes = comm.as_str().as_bytes();
        let n = if bytes.len() < 15 {
            bytes.len()
        } else {
            15
        };
        push_all(&mut p, vstd::slice::slice_subrange(bytes, 0, n));
        let mut k = n;
        let ghost before_pad = p@;
        while k < 16
            invariant
                n <= k <= 16,
                p@ == before_pad + Seq::new((k - n) as nat, |j: int| 0u8),
            decreases 16 - k,
        {
            p.push(0u8);
            proof {
                assert(p@ =~= before_pad + Seq::new((k + 1 - n) as nat, |j: int| 0u8));
            }
            k = k + 1;
        }
        proof {
            assert(v.subrange(0, i + 1).drop_last() =~= v.subrange(0, i as int));
            assert(v[i as int] == (*pid, *ppid, encode_utf8(comm@)));
            assert(p@ =~= head + ring0_records(v.subrange(0, i + 1)));
        }
        i = i + 1;
    }
    proof {
        assert(v.subrange(0, procs@.len() as int) =~= v);
    }
    p
}

proof fn lemma_encode_utf8_concat(a: Seq<char>, b: Seq<char>)
    ensures
        encode_utf8(a + b) == encode_utf8(a) + encode_utf8(b),
    decreases a.len(),
{
    if a.len() > 0 {
        assert((a + b).drop_first() =~= a.drop_first() + b);
        lemma_encode_utf8_concat(a.drop_first(), b);
        assert((a + b)[0] == a[0]);
    } else {
        assert(a + b =~= b);
    }
}

proof fn lemma_encode_nuls(n: nat)
    ensures
        encode_utf8(Seq::new(n, |i: int| '\0')) == Seq::new(n, |i: int| 0u8),
    decreases n,
{
    if n > 0 {
        let s = Seq::new(n, |i: int| '\0');
        assert(s.drop_first() =~= Seq::new((n - 1) as nat, |i: int| '\0'));
        lemma_encode_nuls((n - 1) as nat);
        assert(('\0' as u32) == 0u32);
        assert((0u32 & 0x7F) as u8 == 0u8) by (bit_vector);
        assert(vstd::utf8::encode_scalar(0u32) =~= seq![0u8]);
        assert(encode_utf8(s) =~= Seq::new(n, |i: int| 0u8));
    } else {
        assert(encode_utf8(Seq::new(n, |i: int| '\0')) =~= Seq::<u8>::empty());
    }
}

proof fn lemma_trim_nuls(c: Seq<char>, n: nat)
    requires
        c.len() == 0 || c.last() != '\0',
    ensures
        trim_trailing_nul(c + Seq::new(n, |i: int| '\0')) == c,
    decreases n,
{
    let s = c + Seq::new(n, |i: int| '\0');
    if n > 0 {
        assert(s.drop_last() =~= c + Seq::new((n - 1) as nat, |i: int| '\0'));
        lemma_trim_nuls(c, (n - 1) as nat);
    } else {
        assert(s =~= c);
    }
}

/// Law: the listener reads back the ring-0 process list a daemon sends: the
/// pids, the parent pids and every name of at most 15 bytes that does not
/// end in a NUL.
pub proof fn lemma_ring0_payload_roundtrip(p: Seq<(u32, u32, Seq<char>)>)
    requires
        p.len() <= u32::MAX,
        forall|k: int|
            0 <= k < p.len() ==> encode_utf8(#[trigger] p[k].2).len() <= 15 && (p[k].2.len() == 0
                || p[k].2.last() != '\0'),
    ensures
        ({
            let payload = spec_ring0_payload(
                p.map_values(|e: (u32, u32, Seq<char>)| (e.0, e.1, encode_utf8(e.2))),
            );
            &&& ring0_record_count(payload) == p.len()
            &&& forall|k: int|
                0 <= k < p.len() ==> #[trigger] ring0_record(payload, k) == (Ring0ProcView {
                    pid: p[k].0,
                    ppid: p[k].1,
                    comm: p[k].2,
                })
        }),
{
    let v = p.map_values(|e: (u32, u32, Seq<char>)| (e.0, e.1, encode_utf8(e.2)));
    let payload = spec_ring0_payload(v);
    let recs = ring0_records(v);
    lemma_ring0_records_len(v);
    lemma_le32_roundtrip(p.len() as u32);
    assert(payload.subrange(0, 4) =~= le32(p.len() as u32));
    assert(le_u32_at(payload, 0) == le_u32_at(payload.subrange(0, 4), 0));
    assert forall|k: int| 0 <= k < p.len() implies #[trigger] ring0_record(payload, k) == (Ring0ProcView {
        pid: p[k].0,
        ppid: p[k].1,
        comm: p[k].2,
    }) by {
        lemma_ring0_record_at(v, k);
        let off = 4 + 24 * k;
        let rec = le32(p[k].0) + le32(p[k].1) + comm_field(encode_utf8(p[k].2));
        assert(payload.subrange(off, off + 24) == rec);
        lemma_le32_roundtrip(p[k].0);
        lemma_le32_roundtrip(p[k].1);
        assert(rec.subrange(0, 4) =~= le32(p[k].0));
        assert(rec.subrange(4, 8) =~= le32(p[k].1));
        assert(payload.subrange(off, off + 4) =~= le32(p[k].0));
        assert(payload.subrange(off + 4, off + 8) =~= le32(p[k].1));
        assert(le_u32_at(payload, off) == le_u32_at(payload.subrange(off, off + 4), 0));
        assert(le_u32_at(payload, off + 4) == le_u32_at(payload.subrange(off + 4, off + 8), 0));
        let c = p[k].2;
        let b = encode_utf8(c);
        let pad = (16 - b.len()) as nat;
        assert(b.subrange(0, b.len() as int) =~= b);
        lemma_encode_nuls(pad);
        lemma_encode_utf8_concat(c, Seq::new(pad, |i: int| '\0'));
        let field = payload.subrange(off + 8, off + 24);
        assert(v[k] == (p[k].0, p[k].1, b));
        assert(field =~= payload.subrange(off, off + 24).subrange(8, 24));
        assert(rec.subrange(8, 24) =~= comm_field(b));
        assert(field =~= comm_field(b));
        assert(field =~= encode_utf8(c + Seq::new(pad, |i: int| '\0')));
        vstd::utf8::encode_utf8_valid_utf8(c + Seq::new(pad, |i: int| '\0'));
        vstd::utf8::encode_utf8_decode_utf8(c + Seq::new(pad, |i: int| '\0'));
        lemma_trim_nuls(c, pad);
    }
}

/// Record `k` of a process list payload lies at `4 + 24 * k`.
proof fn lemma_ring0_record_at(v: Seq<(u32, u32, Seq<u8>)>, k: int)
    requires
        0 <= k < v.len(),
    ensures
        spec_ring0_payload(v).subrange(4 + 24 * k, 4 + 24 * k + 24) == le32(v[k].0) + le32(v[k].1)
            + comm_field(v[k].2),
    decreases v.len(),
{
    lemma_ring0_records_len(v.drop_last());
    if k == v.len() - 1 {
        assert(spec_ring0_payload(v).subrange(4 + 24 * k, 4 + 24 * k + 24) =~= le32(v[k].0) + le32(
            v[k].1,
        ) + comm_field(v[k].2));
    } else {
        lemma_ring0_record_at(v.drop_last(), k);
        assert(spec_ring0_payload(v).subrange(4 + 24 * k, 4 + 24 * k + 24) =~= spec_ring0_payload(
            v.drop_last(),
        ).subrange(4 + 24 * k, 4 + 24 * k + 24));
    }
}

// ---------------------------------------------------------------------------
// Module 8: hidden processes
// ---------------------------------------------------------------------------

/// The ring-0 list holds `pid`.
pub open spec fn ring0_lists(r: Seq<(u32, u32, Seq<u8>)>, pid: u32) -> bool {
    exists|i: int| 0 <= i < r.len() && (#[trigger] r[i]).0 == pid
}

/// The user-mode list holds `pid`.
pub open spec fn user_lists(u: Seq<(u32, Seq<u8>)>, pid: u32) -> bool {
    exists|i: int| 0 <= i < u.len() && (#[trigger] u[i]).0 == pid
}

/// Ring-0 processes the user-mode list does not show, in ring-0 order.
pub open spec fn hidden_entries(r: Seq<(u32, u32, Seq<u8>)>, u: Seq<(u32, Seq<u8>)>) -> Seq<(u32, Seq<u8>)>
    decreases r.len(),
{
    if r.len() == 0 {
        Seq::empty()
    } else {
        let rest = hidden_entries(r.drop_last(), u);
        if !user_lists(u, r.last().0) {
            rest.push((r.last().0, r.last().2))
        } else {
            rest
        }
    }
}

/// User-mode processes the ring-0 list does not show, in user-mode order.
pub open spec fn missing_entries(u: Seq<(u32, Seq<u8>)>, r: Seq<(u32, u32, Seq<u8>)>) -> Seq<(u32, Seq<u8>)>
    decreases u.len(),
{
    if u.len() == 0 {
        Seq::empty()
    } else {
        let rest = missing_entries(u.drop_last(), r);
        if !ring0_lists(r, u.last().0) {
            rest.push(u.last())
        } else {
            rest
        }
    }
}

/// `pid | name length | name` for each process.
pub open spec fn pid_name_records(e: Seq<(u32, Seq<u8>)>) -> Seq<u8>
    decreases e.len(),
{
    if e.len() == 0 {
        Seq::empty()
    } else {
        pid_name_records(e.drop_last()) + le32(e.last().0) + le32(e.last().1.len() as u32)
            + e.last().1
    }
}

/// The hidden-process report: two zero counts when the daemon's own pid is
/// not in the ring-0 list (no kernel module, or another pid namespace);
/// otherwise the counts of hidden and missing processes, then their records.
pub open spec fn spec_hidden_report(r: Seq<(u32, u32, Seq<u8>)>, u: Seq<(u32, Seq<u8>)>, own_pid: u32) -> Seq<
    u8,
> {
    if !ring0_lists(r, own_pid) {
        le32(0) + le32(0)
    } else {
        spec_proc_list_diff(r, u)
    }
}

/// The comparison of the two process lists: the counts of hidden and of
/// missing processes, then their records.
pub open spec fn spec_proc_list_diff(r: Seq<(u32, u32, Seq<u8>)>, u: Seq<(u32, Seq<u8>)>) -> Seq<u8> {
    let h = hidden_entries(r, u);
    let m = missing_entries(u, r);
    le32(h.len() as u32) + le32(m.len() as u32) + pid_name_records(h) + pid_name_records(m)
}

/// The views of `(pid, name)` pairs, the name as UTF-8 bytes.
pub open spec fn pairs_view(p: Seq<(u32, String)>) -> Seq<(u32, Seq<u8>)> {
    p.map_values(|e: (u32, String)| (e.0, encode_utf8(e.1@)))
}

fn ring0_has(r: &[(u32, u32, String)], pid: u32) -> (b: bool)
    ensures
        b == ring0_lists(triples_view(r@), pid),
{
    let ghost v = triples_view(r@);
    let mut i: usize = 0;
    while i < r.len()
        invariant
            i <= r@.len(),
            v == triples_view(r@),
            forall|q: int| 0 <= q < i ==> v[q].0 != pid,
        decreases r@.len() - i,
    {
        if r[i].0 == pid {
            proof {
                assert(v[i as int].0 == pid);
            }
            return true;
        }
        i = i + 1;
    }
    false
}

fn user_has(u: &[(u32, String)], pid: u32) -> (b: bool)
    ensures
        b == user_lists(pairs_view(u@), pid),
{
    let ghost v = pairs_view(u@);
    let mut i: usize = 0;
    while i < u.len()
        invariant
            i <= u@.len(),
            v == pairs_view(u@),
            forall|q: int| 0 <= q < i ==> v[q].0 != pid,
        decreases u@.len() - i,
    {
        if u[i].0 == pid {
            proof {
                assert(v[i as int].0 == pid);
            }
            return true;
        }
        i = i + 1;
    }
    false
}

fn push_pid_name(out: &mut Vec<u8>, pid: u32, name: &String)
    ensures
        final(out)@ == old(out)@ + le32(pid) + le32(encode_utf8(name@).len() as u32) + encode_utf8(
            name@,
        ),
{
    let bytes = name.as_str().as_bytes();
    push_le32(out, pid);
    push_le32(out, bytes.len() as u32);
    push_all(out, bytes);
}

proof fn lemma_records_push(e: Seq<(u32, Seq<u8>)>, x: (u32, Seq<u8>))
    ensures
        pid_name_records(e.push(x)) == pid_name_records(e) + le32(x.0) + le32(x.1.len() as u32) + x.1,
{
    assert(e.push(x).drop_last() =~= e);
}

fn hidden_records(ring0: &[(u32, u32, String)], user: &[(u32, String)]) -> (r: (usize, Vec<u8>))
    ensures
        r.0 == hidden_entries(triples_view(ring0@), pairs_view(user@)).len(),
        r.1@ == pid_name_records(hidden_entries(triples_view(ring0@), pairs_view(user@))),
{
    let ghost rv = triples_view(ring0@);
    let ghost uv = pairs_view(user@);
    let mut count: usize = 0;
    let mut bytes: Vec<u8> = Vec::new();
    let mut i: usize = 0;
    while i < ring0.len()
        invariant
            i <= ring0@.len(),
            rv == triples_view(ring0@),
            uv == pairs_view(user@),
            count == hidden_entries(rv.subrange(0, i as int), uv).len(),
            bytes@ == pid_name_records(hidden_entries(rv.subrange(0, i as int), uv)),
            count <= i,
        decreases ring0@.len() - i,
    {
        let (pid, _, comm) = &ring0[i];
        let ghost prev = hidden_entries(rv.subrange(0, i as int), uv);
        proof {
            assert(rv.subrange(0, i + 1).drop_last() =~= rv.subrange(0, i as int));
            assert(rv[i as int] == (*pid, rv[i as int].1, encode_utf8(comm@)));
        }
        if !user_has(user, *pid) {
            push_pid_name(&mut bytes, *pid, comm);
            count = count + 1;
            proof {
                lemma_records_push(prev, (*pid, encode_utf8(comm@)));
            }
        }
        i = i + 1;
    }
    proof {
        assert(rv.subrange(0, ring0@.len() as int) =~= rv);
    }
    (count, bytes)
}

fn missing_records(ring0: &[(u32, u32, String)], user: &[(u32, String)]) -> (r: (usize, Vec<u8>))
    ensures
        r.0 == missing_entries(pairs_view(user@), triples_view(ring0@)).len(),
        r.1@ == pid_name_records(missing_entries(pairs_view(user@), triples_view(ring0@))),
{
    let ghost rv = triples_view(ring0@);
    let ghost uv = pairs_view(user@);
    let mut count: usize = 0;
    let mut bytes: Vec<u8> = Vec::new();
    let mut j: usize = 0;
    while j < user.len()
        invariant
            j <= user@.len(),
            rv == triples_view(ring0@),
            uv == pairs_view(user@),
            count == missing_entries(uv.subrange(0, j as int), rv).len(),
            bytes@ == pid_name_records(missing_entries(uv.subrange(0, j as int), rv)),
            count <= j,
        decreases user@.len() - j,
    {
        let (pid, comm) = &user[j];
        let ghost prev = missing_entries(uv.subrange(0, j as int), rv);
        proof {
            assert(uv.subrange(0, j + 1).drop_last() =~= uv.subrange(0, j as int));
            assert(uv[j as int] == (*pid, encode_utf8(comm@)));
        }
        if !ring0_has(ring0, *pid) {
            push_pid_name(&mut bytes, *pid, comm);
            count = count + 1;
            proof {
                lemma_records_push(prev, (*pid, encode_utf8(comm@)));
            }
        }
        j = j + 1;
    }
    proof {
        assert(uv.subrange(0, user@.len() as int) =~= uv);
    }
    (count, bytes)
}

/// Builds the hidden-process report from the ring-0 list, the user-mode
/// list and the daemon's own pid.
pub fn hidden_proc_report(ring0: &[(u32, u32, String)], user: &[(u32, String)], own_pid: u32) -> (p:
    Vec<u8>)
    ensures
        p@ == spec_hidden_report(triples_view(ring0@), pairs_view(user@), own_pid),
{
    if !ring0_has(ring0, own_pid) {
        let mut p: Vec<u8> = Vec::new();
        push_le32(&mut p, 0);
        push_le32(&mut p, 0);
        return p;
    }
    proc_list_diff(ring0, user)
}

/// Compares the ring-0 process list with the user-mode one, with no check of
/// the caller's own namespace: the report of the Windows daemon.
pub fn proc_list_diff(ring0: &[(u32, u32, String)], user: &[(u32, String)]) -> (p: Vec<u8>)
    ensures
        p@ == spec_proc_list_diff(triples_view(ring0@), pairs_view(user@)),
{
    let mut p: Vec<u8> = Vec::new();
    let (hidden_count, hidden_bytes) = hidden_records(ring0, user);
    let (missing_count, missing_bytes) = missing_records(ring0, user);
    push_le32(&mut p, hidden_count as u32);
    push_le32(&mut p, missing_count as u32);
    push_all(&mut p, hidden_bytes.as_slice());
    push_all(&mut p, missing_bytes.as_slice());
    p
}

// ---------------------------------------------------------------------------
// Module 9: the memory scan
// ---------------------------------------------------------------------------

/// The map entry of one line of `/proc/self/maps`: at least five words, a
/// range `start-end` of two hexadecimal numbers (an unreadable number is 0),
/// the permissions and the path (the sixth word, or empty).
pub open spec fn maps_line_entry(line: Seq<char>) -> Option<(u64, u64, Seq<char>, Seq<char>)> {
    let w = split_ws(line);
    if w.len() < 5 {
        Option::None
    } else {
        let r = w[0];
        let d = first_index_of(r, '-', 0);
        if d >= r.len() || first_index_of(r, '-', d + 1) < r.len() {
            Option::None
        } else {
            let start = match spec_parse_hex_u64(r.subrange(0, d)) {
                Some(x) => x,
                Option::None => 0,
            };
            let end = match spec_parse_hex_u64(r.subrange(d + 1, r.len() as int)) {
                Some(x) => x,
                Option::None => 0,
            };
            let path = if w.len() > 5 {
                w[5]
            } else {
                Seq::empty()
            };
            Some((start, end, w[1], path))
        }
    }
}

/// The map entries of the lines of a maps file.
pub open spec fn maps_entries(lines: Seq<Seq<char>>) -> Seq<(u64, u64, Seq<char>, Seq<char>)>
    decreases lines.len(),
{
    if lines.len() == 0 {
        Seq::empty()
    } else {
        let rest = maps_entries(lines.drop_last());
        match maps_line_entry(lines.last()) {
            Some(e) => rest.push(e),
            Option::None => rest,
        }
    }
}

fn parse_maps_line(line: &str) -> (r: Option<(u64, u64, String, String)>)
    ensures
        match r {
            Option::None => maps_line_entry(line@) is None,
            Some(e) => maps_line_entry(line@) == Some((e.0, e.1, e.2@, e.3@)),
        },
{
    let w = split_whitespace(line);
    let ghost wv = strings_view(w@);
    if w.len() < 5 {
        return Option::None;
    }
    proof {
        assert(wv[0] == w@[0]@);
        assert(wv[1] == w@[1]@);
    }
    let range = w[0].as_str();
    let rc = collect_chars(range);
    let d = find_char(&rc, '-', 0);
    if d >= rc.len() {
        return Option::None;
    }
    let d2 = find_char(&rc, '-', d + 1);
    if d2 < rc.len() {
        return Option::None;
    }
    let start = match parse_hex_u64(range.substring_char(0, d)) {
        Some(x) => x,
        Option::None => 0,
    };
    let end = match parse_hex_u64(range.substring_char(d + 1, rc.len())) {
        Some(x) => x,
        Option::None => 0,
    };
    let path = if w.len() > 5 {
        proof {
            assert(wv[5] == w@[5]@);
        }
        w[5].clone()
    } else {
        String::new()
    };
    Some((start, end, w[1].clone(), path))
}

/// Parses `/proc/self/maps` text into `(start, end, perms, path)` entries.
pub fn parse_maps(content: &str) -> (entries: Vec<(u64, u64, String, String)>)
    ensures
        maps_view(entries@) == maps_entries(split_lines_spec(content@)),
{
    let lines = split_lines(content);
    let ghost lv = strings_view(lines@);
    let mut entries: Vec<(u64, u64, String, String)> = Vec::new();
    let mut i: usize = 0;
    proof {
        assert(maps_view(entries@) =~= maps_entries(lv.subrange(0, 0)));
    }
    while i < lines.len()
        invariant
            i <= lines@.len(),
            lv == strings_view(lines@),
            maps_view(entries@) == maps_entries(lv.subrange(0, i as int)),
        decreases lines@.len() - i,
    {
        let ghost before = entries@;
        proof {
            assert(lv.subrange(0, i + 1).drop_last() =~= lv.subrange(0, i as int));
            assert(lv[i as int] == lines@[i as int]@);
        }
        match parse_maps_line(lines[i].as_str()) {
            Some(e) => {
                entries.push(e);
                proof {
                    assert(maps_view(entries@) =~= maps_view(before).push(maps_view(entries@).last()));
                }
            },
            Option::None => {},
        }
        i = i + 1;
    }
    proof {
        assert(lv.subrange(0, lines@.len() as int) =~= lv);
    }
    entries
}

/// Number of entries with RWX permissions.
pub open spec fn count_rwx(e: Seq<(u64, u64, Seq<char>, Seq<char>)>) -> nat
    decreases e.len(),
{
    if e.len() == 0 {
        0
    } else {
        count_rwx(e.drop_last()) + if is_rwx(e.last().2) {
            1nat
        } else {
            0nat
        }
    }
}

/// Number of anonymous executable, non-writable entries.
pub open spec fn count_anon_exec(e: Seq<(u64, u64, Seq<char>, Seq<char>)>) -> nat
    decreases e.len(),
{
    if e.len() == 0 {
        0
    } else {
        count_anon_exec(e.drop_last()) + if is_anon_exec(e.last().2, e.last().3) {
            1nat
        } else {
            0nat
        }
    }
}

proof fn lemma_counts_bounded(e: Seq<(u64, u64, Seq<char>, Seq<char>)>)
    ensures
        count_rwx(e) <= e.len(),
        count_anon_exec(e) <= e.len(),
    decreases e.len(),
{
    if e.len() > 0 {
        lemma_counts_bounded(e.drop_last());
    }
}

/// Counts the RWX and anonymous executable entries, and all entries.
pub fn memory_scan_counts(entries: &[(u64, u64, String, String)]) -> (r: (u32, u32, u32))
    requires
        entries@.len() <= u32::MAX,
    ensures
        r.0 == count_rwx(maps_view(entries@)),
        r.1 == count_anon_exec(maps_view(entries@)),
        r.2 == entries@.len(),
{
    let ghost ev = maps_view(entries@);
    let mut rwx: u32 = 0;
    let mut anon: u32 = 0;
    let mut i: usize = 0;
    while i < entries.len()
        invariant
            i <= entries@.len() <= u32::MAX,
            ev == maps_view(entries@),
            rwx == count_rwx(ev.subrange(0, i as int)),
            anon == count_anon_exec(ev.subrange(0, i as int)),
        decreases entries@.len() - i,
    {
        proof {
            assert(ev.subrange(0, i + 1).drop_last() =~= ev.subrange(0, i as int));
            assert(ev[i as int] == (entries@[i as int].0, entries@[i as int].1, entries@[i as int].2@, entries@[i as int].3@));
            lemma_counts_bounded(ev.subrange(0, i as int));
        }
        let perms = entries[i].2.as_str();
        if str_contains(perms, "rwx") {
            rwx = rwx + 1;
        }
        let x = str_contains_ascii_char(perms, 0x78);
        let w = str_contains_ascii_char(perms, 0x77);
        if x && !w && entries[i].3.as_str().is_empty() {
            anon = anon + 1;
        }
        i = i + 1;
    }
    proof {
        assert(ev.subrange(0, entries@.len() as int) =~= ev);
    }
    (rwx, anon, entries.len() as u32)
}

/// Whether an entry's first bytes are worth checking: executable and
/// backed by a file.
pub open spec fn wants_text_check(perms: Seq<char>, path: Seq<char>) -> bool {
    bytes_contain(encode_utf8(perms), seq![0x78u8]) && path.len() > 0
}

/// Whether the first bytes of an executable mapping read from the ring-0
/// side contradict its file: a shared object (`.so` or `.dll`) that does
/// not start with the ELF magic.
pub open spec fn spec_text_mismatch(path: Seq<char>, header: Seq<u8>) -> bool {
    let b = encode_utf8(path);
    let lib = (b.len() >= 3 && b.subrange(b.len() - 3, b.len() as int) == seq![0x2eu8, 0x73u8, 0x6fu8])
        || (b.len() >= 4 && b.subrange(b.len() - 4, b.len() as int) == seq![0x2eu8, 0x64u8, 0x6cu8, 0x6cu8]);
    lib && !(header.len() >= 4 && header.subrange(0, 4) == seq![0x7fu8, 0x45u8, 0x4cu8, 0x46u8])
}

fn ends_with_bytes(b: &[u8], suffix: &[u8]) -> (r: bool)
    ensures
        r == (b@.len() >= suffix@.len() && b@.subrange(b@.len() - suffix@.len(), b@.len() as int)
            == suffix@),
{
    if b.len() < suffix.len() {
        return false;
    }
    let n = b.len();
    let off = n - suffix.len();
    let mut k: usize = 0;
    while k < suffix.len()
        invariant
            off + suffix@.len() == b@.len(),
            b@.len() <= usize::MAX,
            k <= suffix@.len(),
            forall|q: int| 0 <= q < k ==> b@[off + q] == suffix@[q],
        decreases suffix@.len() - k,
    {
        if b[off + k] != suffix[k] {
            proof {
                assert(b@.subrange(off as int, b@.len() as int)[k as int] != suffix@[k as int]);
            }
            return false;
        }
        k = k + 1;
    }
    proof {
        assert(b@.subrange(off as int, b@.len() as int) =~= suffix@);
    }
    true
}

/// Whether an entry's first bytes should be read from the ring-0 side.
pub fn text_check_wanted(perms: &str, path: &str) -> (r: bool)
    ensures
        r == wants_text_check(perms@, path@),
{
    str_contains_ascii_char(perms, 0x78) && !path.is_empty()
}

/// Whether the first bytes read of a mapping contradict its file.
pub fn text_mismatch(path: &str, header: &[u8]) -> (r: bool)
    ensures
        r == spec_text_mismatch(path@, header@),
{
    let b = path.as_bytes();
    let so: [u8; 3] = [0x2e, 0x73, 0x6f];
    let dll: [u8; 4] = [0x2e, 0x64, 0x6c, 0x6c];
    let elf: [u8; 4] = [0x7f, 0x45, 0x4c, 0x46];
    let lib = ends_with_bytes(b, &so) || ends_with_bytes(b, &dll);
    proof {
        assert(so@ =~= seq![0x2eu8, 0x73u8, 0x6fu8]);
        assert(dll@ =~= seq![0x2eu8, 0x64u8, 0x6cu8, 0x6cu8]);
        assert(elf@ =~= seq![0x7fu8, 0x45u8, 0x4cu8, 0x46u8]);
    }
    let elf_magic = bytes_starts_with(header, &elf);
    proof {
        if header@.len() >= 4 {
            assert(occurs_at(header@, elf@, 0) == (header@.subrange(0, 4) == elf@));
        }
    }
    lib && !elf_magic
}

/// The number of mismatches among the entries, given for each entry the
/// bytes read from the start of its mapping (nothing when it was not read
/// or the read failed).
pub open spec fn count_mismatches(e: Seq<(u64, u64, Seq<char>, Seq<char>)>, headers: Seq<Option<Seq<u8>>>) -> nat
    decreases e.len(),
{
    if e.len() == 0 || headers.len() != e.len() {
        0
    } else {
        count_mismatches(e.drop_last(), headers.drop_last()) + match headers.last() {
            Some(h) => if wants_text_check(e.last().2, e.last().3) && spec_text_mismatch(e.last().3, h) {
                1nat
            } else {
                0nat
            },
            Option::None => 0nat,
        }
    }
}

/// The views of optional byte buffers.
pub open spec fn headers_view(h: Seq<Option<Vec<u8>>>) -> Seq<Option<Seq<u8>>> {
    h.map_values(|x: Option<Vec<u8>>| match x {
        Some(v) => Some(v@),
        Option::None => Option::None,
    })
}

/// Counts the text mismatches given what was read for each entry.
pub fn count_text_mismatches(entries: &[(u64, u64, String, String)], headers: &[Option<Vec<u8>>]) -> (n: u32)
    requires
        entries@.len() <= u32::MAX,
        headers@.len() == entries@.len(),
    ensures
        n == count_mismatches(maps_view(entries@), headers_view(headers@)),
{
    let ghost ev = maps_view(entries@);
    let ghost hv = headers_view(headers@);
    let mut n: u32 = 0;
    let mut i: usize = 0;
    while i < entries.len()
        invariant
            i <= entries@.len() <= u32::MAX,
            headers@.len() == entries@.len(),
            ev == maps_view(entries@),
            hv == headers_view(headers@),
            n == count_mismatches(ev.subrange(0, i as int), hv.subrange(0, i as int)),
            n <= i,
        decreases entries@.len() - i,
    {
        proof {
            assert(ev.subrange(0, i + 1).drop_last() =~= ev.subrange(0, i as int));
            assert(hv.subrange(0, i + 1).drop_last() =~= hv.subrange(0, i as int));
            assert(ev[i as int] == (entries@[i as int].0, entries@[i as int].1, entries@[i as int].2@, entries@[i as int].3@));
        }
        match &headers[i] {
            Some(h) => {
                if text_check_wanted(entries[i].2.as_str(), entries[i].3.as_str()) && text_mismatch(
                    entries[i].3.as_str(),
                    h.as_slice(),
                ) {
                    n = n + 1;
                }
            },
            Option::None => {},
        }
        i = i + 1;
    }
    proof {
        assert(ev.subrange(0, entries@.len() as int) =~= ev);
        assert(hv.subrange(0, entries@.len() as int) =~= hv);
    }
    n
}

/// The memory scan payload: RWX count, anonymous executable count, entries
/// checked, text mismatches.
pub fn memory_report(rwx: u32, anon_exec: u32, regions: u32, text_mismatches: u32) -> (p: Vec<u8>)
    ensures
        p@ == le32(rwx) + le32(anon_exec) + le32(regions) + le32(text_mismatches),
{
    let mut p: Vec<u8> = Vec::new();
    push_le32(&mut p, rwx);
    push_le32(&mut p, anon_exec);
    push_le32(&mut p, regions);
    push_le32(&mut p, text_mismatches);
    p
}

// ---------------------------------------------------------------------------
// Messages and replies
// ---------------------------------------------------------------------------

/// A message from the listener, as the daemon reads it.
pub enum DaemonRequest {
    /// Run a module and reply with its sealed result.
    Scan(ScanCommand),
    /// Reply with PONG.
    Ping,
    /// Nothing to do (an unknown type, or a SCAN_CMD too short to use).
    Ignored,
}

/// Frame lengths the daemon accepts: 1..=65536.
pub fn daemon_frame_len_ok(len: u32) -> (ok: bool)
    ensures
        ok == (len != 0 && len <= MAX_FRAME_LEN),
{
    len != 0 && len as usize <= MAX_FRAME_LEN
}

/// Whether the SCAN_CMD bounds check can be evaluated without overflowing.
pub fn scan_cmd_len_fits(payload: &[u8]) -> (ok: bool)
    ensures
        ok == scan_cmd_len_ok(payload@),
{
    if payload.len() < 20 {
        return true;
    }
    let k = crate::protocol::read_u32_le(payload, 4) as i32 as usize;
    match k.checked_add(8 + NONCE_LEN) {
        Some(_) => true,
        Option::None => false,
    }
}

/// Reads a message: SCAN_CMD becomes a scan when its payload parses, PING
/// a ping, anything else is ignored.
pub fn daemon_request(msg_type: u8, payload: &[u8]) -> (r: DaemonRequest)
    requires
        msg_type == MSG_SCAN_CMD ==> scan_cmd_len_ok(payload@),
    ensures
        msg_type == MSG_SCAN_CMD && payload@.len() >= 20 && 8 + scan_cmd_key_len(payload@) + NONCE_LEN
            <= payload@.len() ==> (r matches DaemonRequest::Scan(c) && c.module_id == le_u32_at(
            payload@,
            0,
        ) && c.public_key@ == payload@.subrange(8, 8 + scan_cmd_key_len(payload@)) && c.nonce@
            == payload@.subrange(
            8 + scan_cmd_key_len(payload@),
            8 + scan_cmd_key_len(payload@) + NONCE_LEN,
        )),
        msg_type == MSG_SCAN_CMD && !(payload@.len() >= 20 && 8 + scan_cmd_key_len(payload@)
            + NONCE_LEN <= payload@.len()) ==> r is Ignored,
        msg_type == MSG_PING ==> r is Ping,
        msg_type != MSG_SCAN_CMD && msg_type != MSG_PING ==> r is Ignored,
{
    if msg_type == MSG_SCAN_CMD {
        match parse_scan_cmd(payload) {
            Some(c) => DaemonRequest::Scan(c),
            Option::None => DaemonRequest::Ignored,
        }
    } else if msg_type == MSG_PING {
        DaemonRequest::Ping
    } else {
        DaemonRequest::Ignored
    }
}

/// The plaintext a daemon seals: the challenge nonce, then the module's
/// data.
pub fn result_plaintext(nonce: &[u8], data: &[u8]) -> (p: Vec<u8>)
    ensures
        p@ == nonce@ + data@,
{
    let mut p: Vec<u8> = Vec::new();
    push_all(&mut p, nonce);
    push_all(&mut p, data);
    p
}

/// Seals a module's result for the listener (without a signature, under
/// the sealed module id for `module_id`) and wraps it in a SCAN_RESULT
/// payload.
pub fn seal_scan_reply(module_id: u32, plaintext: &[u8], kyber_pk: &[u8]) -> (r: Result<Vec<u8>, SealError>)
    requires
        module_id <= u32::MAX - 100,
    ensures
        kyber_pk@.len() != KYBER_PK_LEN ==> (r matches Err(e) && e == SealError::BadKyberPublicKey {
            actual: kyber_pk@.len() as usize,
        }),
        kyber_pk@.len() == KYBER_PK_LEN ==> exists|ts: u64, ss: Seq<u8>, ct: Seq<u8>, nonce: Seq<u8>|
            #![trigger spec_seal_with(plaintext@, spec_seal_module_id(module_id), Option::None, ts, ss, ct, nonce)]
            {
                &&& ss.len() == SHARED_SECRET_LEN
                &&& ct.len() == KYBER_CT_LEN
                &&& kyber768_encapsulation(kyber_pk@, ss, ct)
                &&& nonce.len() == AES_NONCE_LEN
                &&& match spec_seal_with(
                    plaintext@,
                    spec_seal_module_id(module_id),
                    Option::None,
                    ts,
                    ss,
                    ct,
                    nonce,
                ) {
                    Ok(s) => r matches Ok(p) && p@ == spec_scan_result(module_id, s),
                    Err(e) => r matches Err(x) && x == e,
                }
            },
        r matches Ok(p) ==> p@.len() == 8 + sealed_len(plaintext@.len() as int, false),
{
    let key = SealKey { kyber_public_key: copy_bytes(kyber_pk), mldsa65_secret_key: Option::None };
    let sealed_id = seal_module_id(module_id);
    match seal(plaintext, sealed_id, &key) {
        Ok(sealed) => Ok(build_scan_result(module_id, sealed.raw.as_slice())),
        Err(e) => Err(e),
    }
}

} // verus!
