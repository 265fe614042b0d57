//! How the listener scores a client's sealed scan results: which findings
//! each module's result produces, what a failed opening or a stale nonce
//! counts, and what the score calls for at the end of a round.
use vstd::prelude::*;
use vstd::string::StringExecFns;
use crate::host::{open_error_code, opened_view};
use crate::policy::{
    findings_view, le_u32_at, points_sum, ring0_cheat_findings, ring0_findings, ring0_record,
    ring0_record_count, ring0_analysis, parse_ring0_payload, spec_action, spec_findings_summary, findings_summary,
    Action, Finding, FindingKind, FindingKindView, FindingView, ScoreState, POINTS_ANON_EXEC,
    POINTS_DEBUGGER_FLAGS, POINTS_HIDDEN_PROCESS, POINTS_INJECTED_ASSEMBLY,
    POINTS_LATENCY_ANOMALY, POINTS_MISSING_RING0, POINTS_RWX_PAGE, POINTS_SUSPICIOUS_ENV,
    POINTS_TRACER, entries_view,
};
use crate::protocol::{read_u32_le, NONCE_LEN};
use crate::seal::{open, spec_open, OpenKey, SealError};
use crate::text::{decimal_chars, u64_to_decimal};

verus! {

// ---------------------------------------------------------------------------
// Result words
// ---------------------------------------------------------------------------

/// The result data holds word `k` (the words are little-endian).
pub open spec fn has_word(d: Seq<u8>, k: int) -> bool {
    d.len() >= 4 * k + 4
}

/// Word `k` of the result data.
pub open spec fn word_at(d: Seq<u8>, k: int) -> u32 {
    le_u32_at(d, 4 * k)
}

/// Word `k`, or 0 when the data is too short.
pub open spec fn word_or_zero(d: Seq<u8>, k: int) -> u32 {
    if has_word(d, k) {
        word_at(d, k)
    } else {
        0
    }
}

/// `a * b`, saturating at `u32::MAX`.
pub open spec fn sat_mul(a: u32, b: u32) -> u32 {
    if a * b > u32::MAX {
        u32::MAX
    } else {
        (a * b) as u32
    }
}

/// One finding.
pub open spec fn one(kind: FindingKindView, points: u32) -> Seq<FindingView> {
    seq![FindingView { kind, points }]
}

/// `f` when `c` holds, nothing otherwise.
pub open spec fn when(c: bool, f: Seq<FindingView>) -> Seq<FindingView> {
    if c {
        f
    } else {
        Seq::empty()
    }
}

/// `prefix`, the decimal digits of `n`, then `suffix`.
pub open spec fn labelled(prefix: Seq<char>, n: u32, suffix: Seq<char>) -> Seq<char> {
    prefix + decimal_chars(n as nat) + suffix
}

// ---------------------------------------------------------------------------
// Per-module findings
// ---------------------------------------------------------------------------

/// Client modules (sealed as 101..=106).
pub open spec fn client_module_findings(mid: u32, d: Seq<u8>) -> Seq<FindingView> {
    if mid == 101 {
        when(
            word_or_zero(d, 5) == 1 && word_or_zero(d, 6) == 0,
            one(FindingKindView::DebuggerFlags { flags: 0x101 }, 20),
        )
    } else if mid == 102 {
        when(
            has_word(d, 0) && word_at(d, 0) > 400,
            one(FindingKindView::SuspiciousEnv { flags: word_at(d, 0) }, 15),
        )
    } else if mid == 103 {
        when(
            has_word(d, 0) && word_at(d, 0) != 0,
            one(FindingKindView::DebuggerFlags { flags: word_at(d, 0) }, POINTS_DEBUGGER_FLAGS),
        ) + when(
            has_word(d, 1) && word_at(d, 1) != 0,
            one(FindingKindView::TracerAttached { tracer_pid: word_at(d, 1) }, POINTS_TRACER),
        )
    } else if mid == 104 {
        when(
            has_word(d, 1) && word_at(d, 1) != 0,
            one(
                FindingKindView::InjectedAssembly { name: labelled("count="@, word_at(d, 1), ""@) },
                POINTS_INJECTED_ASSEMBLY,
            ),
        )
    } else if mid == 105 {
        when(
            has_word(d, 0) && word_at(d, 0) != 0,
            one(FindingKindView::SuspiciousEnv { flags: word_at(d, 0) }, POINTS_SUSPICIOUS_ENV),
        )
    } else if mid == 106 {
        when(
            has_word(d, 0) && word_at(d, 0) != 0,
            one(
                FindingKindView::DebuggerFlags { flags: word_at(d, 0) },
                sat_mul(word_at(d, 0), 20),
            ),
        )
    } else {
        Seq::empty()
    }
}

/// The hidden-process check (sealed as 201): `[hidden, missing]`.
pub open spec fn hidden_module_findings(d: Seq<u8>) -> Seq<FindingView> {
    if !has_word(d, 1) {
        Seq::empty()
    } else {
        let hidden = word_at(d, 0);
        let missing = word_at(d, 1);
        when(
            hidden > 0,
            one(
                FindingKindView::HiddenProcess { pid: 0, comm: labelled(""@, hidden, " hidden"@) },
                sat_mul(hidden, POINTS_HIDDEN_PROCESS),
            ),
        ) + when(
            missing > 0,
            one(
                FindingKindView::HiddenProcess {
                    pid: 0,
                    comm: labelled(""@, missing, " missing-from-ring0"@),
                },
                sat_mul(missing, POINTS_MISSING_RING0),
            ),
        )
    }
}

/// The memory scan (sealed as 202): `[rwx, anon_exec, checked, text_mismatches]`.
pub open spec fn memory_module_findings(d: Seq<u8>) -> Seq<FindingView> {
    if !has_word(d, 3) {
        Seq::empty()
    } else {
        let rwx = word_at(d, 0);
        let anon = word_at(d, 1);
        let text = word_at(d, 3);
        when(
            rwx > 0,
            one(
                FindingKindView::RwxPage { address: 0, size: rwx as u64 },
                sat_mul(rwx, POINTS_RWX_PAGE),
            ),
        ) + when(
            anon > 0,
            one(
                FindingKindView::AnonymousExec { address: 0, size: anon as u64 },
                sat_mul(anon, POINTS_ANON_EXEC),
            ),
        ) + when(
            text > 0,
            one(
                FindingKindView::InjectedAssembly { name: labelled("text-mismatch("@, text, ")"@) },
                sat_mul(text, POINTS_INJECTED_ASSEMBLY),
            ),
        )
    }
}

/// Points for game-module header mismatches: 20 each, at most 60.
pub open spec fn game_points(mismatches: u32) -> u32 {
    let p = sat_mul(mismatches, POINTS_DEBUGGER_FLAGS);
    if p < 60 {
        p
    } else {
        60
    }
}

/// The game-process scan (sealed as 203):
/// `[found, pid, status, rwx, priv_exec, hdr_mismatch]`.  Only header
/// mismatches score, and only for a running, accessible game process.
pub open spec fn game_module_findings(d: Seq<u8>) -> Seq<FindingView> {
    if !has_word(d, 5) || word_at(d, 0) == 0 || word_at(d, 2) == 3 {
        Seq::empty()
    } else {
        let pid = word_at(d, 1);
        let hdr = word_at(d, 5);
        when(
            hdr > 0,
            one(
                FindingKindView::InjectedAssembly {
                    name: labelled("game-hdr-mismatch("@, hdr, ") pid="@) + decimal_chars(
                        pid as nat,
                    ),
                },
                game_points(hdr),
            ),
        )
    }
}

/// Server-local modules 1 and 2.
pub open spec fn server_module_findings(mid: u32, d: Seq<u8>) -> Seq<FindingView> {
    if mid == 1 {
        when(
            has_word(d, 23) && word_at(d, 23) & 1 == 1,
            one(FindingKindView::DebuggerFlags { flags: word_at(d, 23) }, 20),
        )
    } else if mid == 2 {
        when(
            has_word(d, 6) && word_at(d, 6) > 0,
            one(FindingKindView::DebuggerFlags { flags: word_at(d, 6) }, sat_mul(word_at(d, 6), 10)),
        )
    } else {
        Seq::empty()
    }
}

/// The ring-0 process list (sealed as 200).
pub open spec fn ring0_module_findings(d: Seq<u8>) -> Seq<FindingView> {
    ring0_findings(Seq::new(ring0_record_count(d), |k: int| ring0_record(d, k)))
}

/// The findings a module's result data produces.
pub open spec fn spec_module_findings(mid: u32, d: Seq<u8>) -> Seq<FindingView> {
    if 101 <= mid <= 106 {
        client_module_findings(mid, d)
    } else if mid == 200 {
        ring0_module_findings(d)
    } else if mid == 201 {
        hidden_module_findings(d)
    } else if mid == 202 {
        memory_module_findings(d)
    } else if mid == 203 {
        game_module_findings(d)
    } else {
        server_module_findings(mid, d)
    }
}

fn word(d: &[u8], k: usize) -> (w: u32)
    requires
        has_word(d@, k as int),
    ensures
        w == word_at(d@, k as int),
{
    let n = d.len();
    assert(4 * k + 4 <= n);
    read_u32_le(d, 4 * k)
}

fn word_or_zero_exec(d: &[u8], k: usize) -> (w: u32)
    requires
        k < 0x1000,
    ensures
        w == word_or_zero(d@, k as int),
{
    if d.len() >= 4 * k + 4 {
        word(d, k)
    } else {
        0
    }
}

fn sat_mul_exec(a: u32, b: u32) -> (r: u32)
    ensures
        r == sat_mul(a, b),
{
    match a.checked_mul(b) {
        Some(p) => p,
        Option::None => u32::MAX,
    }
}

fn labelled_string(prefix: &str, n: u32, suffix: &str) -> (s: String)
    ensures
        s@ == labelled(prefix@, n, suffix@),
{
    let mut s = String::from_str(prefix);
    let digits = u64_to_decimal(n as u64);
    s.append(digits.as_str());
    s.append(suffix);
    s
}

fn push_finding(v: &mut Vec<Finding>, kind: FindingKind, points: u32)
    ensures
        findings_view(final(v)@) == findings_view(old(v)@) + one(kind@, points),
{
    let ghost before = v@;
    v.push(Finding { kind, points });
    proof {
        assert(findings_view(v@) =~= findings_view(before) + one(kind@, points));
    }
}

fn client_module(mid: u32, d: &[u8]) -> (found: Vec<Finding>)
    ensures
        findings_view(found@) == client_module_findings(mid, d@),
{
    let mut found: Vec<Finding> = Vec::new();
    proof {
        assert(findings_view(found@) =~= Seq::<FindingView>::empty());
    }
    if mid == 101 {
        let kmod = word_or_zero_exec(d, 5);
        let pcount = word_or_zero_exec(d, 6);
        if kmod == 1 && pcount == 0 {
            push_finding(&mut found, FindingKind::DebuggerFlags { flags: 0x101 }, 20);
        }
    } else if mid == 102 {
        if d.len() >= 4 && word(d, 0) > 400 {
            push_finding(&mut found, FindingKind::SuspiciousEnv { flags: word(d, 0) }, 15);
        }
    } else if mid == 103 {
        if d.len() >= 4 && word(d, 0) != 0 {
            push_finding(
                &mut found,
                FindingKind::DebuggerFlags { flags: word(d, 0) },
                POINTS_DEBUGGER_FLAGS,
            );
        }
        if d.len() >= 8 && word(d, 1) != 0 {
            push_finding(&mut found, FindingKind::TracerAttached { tracer_pid: word(d, 1) }, POINTS_TRACER);
        }
        proof {
            assert(findings_view(found@) =~= client_module_findings(mid, d@));
        }
    } else if mid == 104 {
        if d.len() >= 8 && word(d, 1) != 0 {
            let name = labelled_string("count=", word(d, 1), "");
            push_finding(&mut found, FindingKind::InjectedAssembly { name }, POINTS_INJECTED_ASSEMBLY);
        }
    } else if mid == 105 {
        if d.len() >= 4 && word(d, 0) != 0 {
            push_finding(
                &mut found,
                FindingKind::SuspiciousEnv { flags: word(d, 0) },
                POINTS_SUSPICIOUS_ENV,
            );
        }
    } else if mid == 106 {
        if d.len() >= 4 && word(d, 0) != 0 {
            let count = word(d, 0);
            push_finding(&mut found, FindingKind::DebuggerFlags { flags: count }, sat_mul_exec(count, 20));
        }
    }
    proof {
        assert(findings_view(found@) =~= client_module_findings(mid, d@));
    }
    found
}

fn hidden_module(d: &[u8]) -> (found: Vec<Finding>)
    ensures
        findings_view(found@) == hidden_module_findings(d@),
{
    let mut found: Vec<Finding> = Vec::new();
    proof {
        assert(findings_view(found@) =~= Seq::<FindingView>::empty());
    }
    if d.len() < 8 {
        return found;
    }
    let hidden = word(d, 0);
    let missing = word(d, 1);
    if hidden > 0 {
        let comm = labelled_string("", hidden, " hidden");
        push_finding(
            &mut found,
            FindingKind::HiddenProcess { pid: 0, comm },
            sat_mul_exec(hidden, POINTS_HIDDEN_PROCESS),
        );
    }
    if missing > 0 {
        let comm = labelled_string("", missing, " missing-from-ring0");
        push_finding(
            &mut found,
            FindingKind::HiddenProcess { pid: 0, comm },
            sat_mul_exec(missing, POINTS_MISSING_RING0),
        );
    }
    proof {
        assert(findings_view(found@) =~= hidden_module_findings(d@));
    }
    found
}

fn memory_module(d: &[u8]) -> (found: Vec<Finding>)
    ensures
        findings_view(found@) == memory_module_findings(d@),
{
    let mut found: Vec<Finding> = Vec::new();
    proof {
        assert(findings_view(found@) =~= Seq::<FindingView>::empty());
    }
    if d.len() < 16 {
        return found;
    }
    let rwx = word(d, 0);
    let anon = word(d, 1);
    let text = word(d, 3);
    if rwx > 0 {
        push_finding(
            &mut found,
            FindingKind::RwxPage { address: 0, size: rwx as u64 },
            sat_mul_exec(rwx, POINTS_RWX_PAGE),
        );
    }
    if anon > 0 {
        push_finding(
            &mut found,
            FindingKind::AnonymousExec { address: 0, size: anon as u64 },
            sat_mul_exec(anon, POINTS_ANON_EXEC),
        );
    }
    if text > 0 {
        let name = labelled_string("text-mismatch(", text, ")");
        push_finding(
            &mut found,
            FindingKind::InjectedAssembly { name },
            sat_mul_exec(text, POINTS_INJECTED_ASSEMBLY),
        );
    }
    proof {
        assert(findings_view(found@) =~= memory_module_findings(d@));
    }
    found
}

fn game_module(d: &[u8]) -> (found: Vec<Finding>)
    ensures
        findings_view(found@) == game_module_findings(d@),
{
    let mut found: Vec<Finding> = Vec::new();
    proof {
        assert(findings_view(found@) =~= Seq::<FindingView>::empty());
    }
    if d.len() < 24 || word(d, 0) == 0 || word(d, 2) == 3 {
        return found;
    }
    let pid = word(d, 1);
    let hdr = word(d, 5);
    if hdr > 0 {
        let p = sat_mul_exec(hdr, POINTS_DEBUGGER_FLAGS);
        let points = if p < 60 {
            p
        } else {
            60
        };
        let mut name = labelled_string("game-hdr-mismatch(", hdr, ") pid=");
        let digits = u64_to_decimal(pid as u64);
        name.append(digits.as_str());
        push_finding(&mut found, FindingKind::InjectedAssembly { name }, points);
    }
    proof {
        assert(findings_view(found@) =~= game_module_findings(d@));
    }
    found
}

fn server_module(mid: u32, d: &[u8]) -> (found: Vec<Finding>)
    ensures
        findings_view(found@) == server_module_findings(mid, d@),
{
    let mut found: Vec<Finding> = Vec::new();
    proof {
        assert(findings_view(found@) =~= Seq::<FindingView>::empty());
    }
    if mid == 1 {
        if d.len() >= 96 && word(d, 23) & 1 == 1 {
            push_finding(&mut found, FindingKind::DebuggerFlags { flags: word(d, 23) }, 20);
        }
    } else if mid == 2 {
        if d.len() >= 28 && word(d, 6) > 0 {
            let count = word(d, 6);
            push_finding(&mut found, FindingKind::DebuggerFlags { flags: count }, sat_mul_exec(count, 10));
        }
    }
    proof {
        assert(findings_view(found@) =~= server_module_findings(mid, d@));
    }
    found
}

/// The findings a module's result data (the plaintext after the nonce)
/// produces.
pub fn module_findings(mid: u32, data: &[u8]) -> (found: Vec<Finding>)
    ensures
        findings_view(found@) == spec_module_findings(mid, data@),
{
    if 101 <= mid && mid <= 106 {
        client_module(mid, data)
    } else if mid == 200 {
        let entries = parse_ring0_payload(data);
        proof {
            assert(entries_view(entries@) =~= Seq::new(
                ring0_record_count(data@),
                |k: int| ring0_record(data@, k),
            ));
        }
        ring0_cheat_findings(entries.as_slice())
    } else if mid == 201 {
        hidden_module(data)
    } else if mid == 202 {
        memory_module(data)
    } else if mid == 203 {
        game_module(data)
    } else {
        server_module(mid, data)
    }
}

// ---------------------------------------------------------------------------
// Opened results
// ---------------------------------------------------------------------------

/// A latency anomaly finding with no duration, as used for failed openings
/// and nonce problems.
pub open spec fn anomaly(points: u32) -> Seq<FindingView> {
    one(FindingKindView::LatencyAnomaly { duration_ms: 0 }, points)
}

/// The findings of one opened result: 50 for a bad signature and 10 for any
/// other failure to open; 20 when the plaintext is too short to hold the
/// nonce; otherwise 50 when the nonce differs from the challenge, then what
/// the module's data produces.
pub open spec fn outcome_findings(opened: Result<(Seq<u8>, u32, u64), SealError>, nonce: Seq<u8>) -> Seq<
    FindingView,
> {
    match opened {
        Err(e) => anomaly(
            if open_error_code(e) == 1 {
                50
            } else {
                10
            },
        ),
        Ok((pt, mid, _)) => if pt.len() < NONCE_LEN {
            anomaly(20)
        } else {
            when(pt.subrange(0, NONCE_LEN as int) != nonce, anomaly(50)) + spec_module_findings(
                mid,
                pt.subrange(NONCE_LEN as int, pt.len() as int),
            )
        },
    }
}

/// The findings of an opened result, given the outcome of opening it.
pub fn open_outcome_findings(
    opened: &Result<(Vec<u8>, u32, u64), SealError>,
    expected_nonce: &[u8],
) -> (found: Vec<Finding>)
    ensures
        findings_view(found@) == outcome_findings(opened_view(*opened), expected_nonce@),
{
    match opened {
        Err(e) => {
            let msg = e.message();
            let points: u32 = if crate::text::str_contains(msg.as_str(), "signature") {
                50
            } else {
                10
            };
            let mut found: Vec<Finding> = Vec::new();
            push_finding(&mut found, FindingKind::LatencyAnomaly { duration_ms: 0 }, points);
            proof {
                assert(findings_view(Seq::<Finding>::empty()) =~= Seq::<FindingView>::empty());
                assert(findings_view(found@) =~= outcome_findings(opened_view(*opened), expected_nonce@));
            }
            found
        },
        Ok((pt, mid, _)) => {
            let mut found: Vec<Finding> = Vec::new();
            proof {
                assert(findings_view(found@) =~= Seq::<FindingView>::empty());
            }
            if pt.len() < NONCE_LEN {
                push_finding(&mut found, FindingKind::LatencyAnomaly { duration_ms: 0 }, 20);
                return found;
            }
            let got = vstd::slice::slice_subrange(pt.as_slice(), 0, NONCE_LEN);
            if !crate::protocol::constant_time_eq(got, expected_nonce) {
                push_finding(&mut found, FindingKind::LatencyAnomaly { duration_ms: 0 }, 50);
            }
            let data = vstd::slice::slice_subrange(pt.as_slice(), NONCE_LEN, pt.len());
            let rest = module_findings(*mid, data);
            let ghost before = findings_view(found@);
            let mut i: usize = 0;
            while i < rest.len()
                invariant
                    i <= rest@.len(),
                    findings_view(found@) == before + findings_view(rest@).subrange(0, i as int),
                decreases rest@.len() - i,
            {
                let f = rest[i].duplicate();
                let ghost prev = found@;
                found.push(f);
                proof {
                    assert(findings_view(found@) =~= findings_view(prev).push(rest@[i as int]@));
                    assert(findings_view(rest@).subrange(0, i + 1) =~= findings_view(rest@).subrange(
                        0,
                        i as int,
                    ).push(rest@[i as int]@));
                }
                i = i + 1;
            }
            proof {
                assert(findings_view(rest@).subrange(0, rest@.len() as int) =~= findings_view(rest@));
                assert(findings_view(found@) =~= outcome_findings(opened_view(*opened), expected_nonce@));
            }
            found
        },
    }
}

/// Opens a sealed scan result with the host's key and scores it against the
/// challenge nonce.  Without a key nothing is scored.
pub fn decrypt_result(sealed: &[u8], open_key: Option<&OpenKey>, expected_nonce: &[u8]) -> (found:
    Vec<Finding>)
    ensures
        open_key is None ==> found@.len() == 0,
        open_key matches Some(k) ==> findings_view(found@) == outcome_findings(
            spec_open(sealed@, k.kyber_secret_key@, k.mldsa65_public_key@),
            expected_nonce@,
        ),
{
    match open_key {
        Option::None => Vec::new(),
        Some(k) => {
            let opened = open(sealed, k);
            open_outcome_findings(&opened, expected_nonce)
        },
    }
}

/// Results that take longer than this to process count as a latency anomaly.
pub const LATENCY_LIMIT_NANOS: u64 = 100_000_000;

/// The latency finding for a result that took `elapsed_nanos` to process:
/// over 100 ms scores 15, reporting the whole milliseconds.
pub fn latency_finding(elapsed_nanos: u64) -> (f: Option<Finding>)
    ensures
        elapsed_nanos <= LATENCY_LIMIT_NANOS ==> f is None,
        elapsed_nanos > LATENCY_LIMIT_NANOS ==> (f matches Some(x) && x@ == (FindingView {
            kind: FindingKindView::LatencyAnomaly { duration_ms: elapsed_nanos / 1_000_000 },
            points: POINTS_LATENCY_ANOMALY,
        })),
{
    if elapsed_nanos > LATENCY_LIMIT_NANOS {
        Some(
            Finding {
                kind: FindingKind::LatencyAnomaly { duration_ms: elapsed_nanos / 1_000_000 },
                points: POINTS_LATENCY_ANOMALY,
            },
        )
    } else {
        Option::None
    }
}

/// Adds `found` to the score when the total stays within `u32`; otherwise
/// leaves the state as it was and says so.
pub fn record_findings(state: &mut ScoreState, found: Vec<Finding>) -> (ok: bool)
    ensures
        ok == (old(state).total + points_sum(findings_view(found@)) <= u32::MAX),
        ok ==> final(state).total == old(state).total + points_sum(findings_view(found@)),
        ok ==> findings_view(final(state).findings@) == findings_view(old(state).findings@)
            + findings_view(found@),
        !ok ==> final(state).total == old(state).total && findings_view(final(state).findings@)
            == findings_view(old(state).findings@),
        final(state).clean_scan_count == old(state).clean_scan_count,
{
    if state.can_add(&found) {
        state.add_findings(found);
        true
    } else {
        false
    }
}

// ---------------------------------------------------------------------------
// Enforcement
// ---------------------------------------------------------------------------

/// What the listener does about a client at the end of a round.
pub enum Enforcement {
    /// Nothing to report.
    Nothing,
    /// Log a warning with the findings summary.
    Warn { summary: String },
    /// Report the client for a kick with this reason.
    Kick { reason: String },
    /// Report the client for a ban with this reason.
    Ban { reason: String },
}

/// What the score calls for: a warning with the findings summary, or a kick
/// or ban report whose reason is `SCORE_KICK: ` or `SCORE_BAN: ` followed by
/// the summary.
pub fn enforcement(state: &ScoreState) -> (e: Enforcement)
    ensures
        ({
            let summary = spec_findings_summary(findings_view(state.findings@));
            match spec_action(state.total) {
                Action::NoAction => e is Nothing,
                Action::Warn => e matches Enforcement::Warn { summary: s } && s@ == summary,
                Action::Kick => e matches Enforcement::Kick { reason } && reason@ == "SCORE_KICK: "@
                    + summary,
                Action::Ban => e matches Enforcement::Ban { reason } && reason@ == "SCORE_BAN: "@
                    + summary,
            }
        }),
{
    match state.action() {
        Action::NoAction => Enforcement::Nothing,
        Action::Warn => Enforcement::Warn { summary: findings_summary(state.findings.as_slice()) },
        Action::Kick => {
            let mut reason = String::from_str("SCORE_KICK: ");
            let s = findings_summary(state.findings.as_slice());
            reason.append(s.as_str());
            Enforcement::Kick { reason }
        },
        Action::Ban => {
            let mut reason = String::from_str("SCORE_BAN: ");
            let s = findings_summary(state.findings.as_slice());
            reason.append(s.as_str());
            Enforcement::Ban { reason }
        },
    }
}


/// `n` zero bytes.
pub open spec fn zero_bytes(n: nat) -> Seq<u8> {
    Seq::new(n, |i: int| 0u8)
}

proof fn lemma_zero_words(n: nat, k: int)
    requires
        0 <= k,
        has_word(zero_bytes(n), k),
    ensures
        word_at(zero_bytes(n), k) == 0,
{
    let d = zero_bytes(n);
    let (a, b, c, e) = (d[4 * k], d[4 * k + 1], d[4 * k + 2], d[4 * k + 3]);
    assert(a == 0 && b == 0 && c == 0 && e == 0);
    assert((a as u32) | ((b as u32) << 8u32) | ((c as u32) << 16u32) | ((e as u32) << 24u32) == 0)
        by (bit_vector)
        requires
            a == 0 && b == 0 && c == 0 && e == 0,
    ;
}

/// `n * points`, capped at `u32::MAX`.
pub open spec fn capped_points(n: u32, points: int) -> u32 {
    if n * points > u32::MAX {
        u32::MAX
    } else {
        (n * points) as u32
    }
}

/// Law: a hidden-process report (sealed as 201) whose first word says `h`
/// processes are hidden from user mode and whose second word says `m` are
/// missing from the ring-0 list scores one finding per nonzero count: first
/// "`h` hidden" worth 40 points per process, then "`m`
/// missing-from-ring0" worth 30 per process, each capped at `u32::MAX`.  A
/// report shorter than two words scores nothing.
pub proof fn lemma_hidden_report_findings(d: Seq<u8>)
    ensures
        d.len() < 8 ==> spec_module_findings(201, d).len() == 0,
        d.len() >= 8 ==> ({
            let h = le_u32_at(d, 0);
            let m = le_u32_at(d, 4);
            let f = spec_module_findings(201, d);
            &&& f.len() == (if h > 0 {
                1int
            } else {
                0int
            }) + (if m > 0 {
                1int
            } else {
                0int
            })
            &&& h > 0 ==> f[0] == FindingView {
                kind: FindingKindView::HiddenProcess {
                    pid: 0,
                    comm: decimal_chars(h as nat) + " hidden"@,
                },
                points: capped_points(h, 40),
            }
            &&& m > 0 ==> f[f.len() - 1] == FindingView {
                kind: FindingKindView::HiddenProcess {
                    pid: 0,
                    comm: decimal_chars(m as nat) + " missing-from-ring0"@,
                },
                points: capped_points(m, 30),
            }
        }),
{
    reveal_strlit("");
    let h = le_u32_at(d, 0);
    let m = le_u32_at(d, 4);
    assert(""@ + decimal_chars(h as nat) + " hidden"@ =~= decimal_chars(h as nat) + " hidden"@);
    assert(""@ + decimal_chars(m as nat) + " missing-from-ring0"@ =~= decimal_chars(m as nat)
        + " missing-from-ring0"@);
}

/// Law: result data made only of zero bytes produces no findings, whatever
/// module it comes from (an idle machine's empty report scores nothing).
pub proof fn lemma_zero_data_scores_nothing(mid: u32, n: nat)
    ensures
        spec_module_findings(mid, zero_bytes(n)) == Seq::<FindingView>::empty(),
{
    let d = zero_bytes(n);
    assert forall|k: int| 0 <= k && has_word(d, k) implies #[trigger] word_at(d, k) == 0 by {
        lemma_zero_words(n, k);
    }
    if has_word(d, 0) {
        assert(word_at(d, 0) == 0);
        assert(le_u32_at(d, 0) == 0);
    }
    assert(ring0_record_count(d) == 0);
    let none = Seq::new(0, |k: int| ring0_record(d, k));
    assert(ring0_analysis(none, none.len()).1 =~= Seq::<FindingView>::empty());
    if has_word(d, 23) {
        assert(word_at(d, 23) == 0);
        assert(0u32 & 1u32 == 0) by (bit_vector);
    }
    if has_word(d, 5) {
        assert(word_at(d, 5) == 0);
    }
    if has_word(d, 6) {
        assert(word_at(d, 6) == 0);
    }
    if has_word(d, 1) {
        assert(word_at(d, 1) == 0);
    }
    if has_word(d, 3) {
        assert(word_at(d, 3) == 0);
    }
    assert(spec_module_findings(mid, d) =~= Seq::<FindingView>::empty());
}

} // verus!
