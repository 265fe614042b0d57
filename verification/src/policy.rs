//! Server-side scoring policy: findings, their point weights, the per-client
//! score and the action it calls for, and the analyses that turn raw scan
//! data into findings.
use vstd::prelude::*;
use vstd::string::{StringSliceAdditionalSpecFns, StringExecFns, StrSliceExecFns};
use vstd::utf8::encode_utf8;
use crate::text::{
    bytes_contain, str_contains, str_contains_ascii_char, to_lowercase, unicode_lowercase,
    lossy_text, utf8_lossy_string, u64_to_decimal, u64_to_prefixed_hex, decimal_chars, hex_chars,
};

verus! {

// ---------------------------------------------------------------------------
// Cheat process name signatures
// ---------------------------------------------------------------------------

/// Number of known cheat/tool process names.
pub const KNOWN_CHEAT_COMMS_LEN: usize = 31;

/// Known cheat/tool process name `i` (matched against the kernel's task name).
pub open spec fn spec_known_cheat_comm(i: int) -> Seq<char> {
    if i == 0 { "cheatengine"@ }
    else if i == 1 { "cheat"@ }
    else if i == 2 { "injector"@ }
    else if i == 3 { "inject"@ }
    else if i == 4 { "loader"@ }
    else if i == 5 { "reclass"@ }
    else if i == 6 { "x64dbg"@ }
    else if i == 7 { "x32dbg"@ }
    else if i == 8 { "ollydbg"@ }
    else if i == 9 { "dnspy"@ }
    else if i == 10 { "de4dot"@ }
    else if i == 11 { "confuser"@ }
    else if i == 12 { "processhacker"@ }
    else if i == 13 { "pchunter"@ }
    else if i == 14 { "frida"@ }
    else if i == 15 { "gdb"@ }
    else if i == 16 { "lldb"@ }
    else if i == 17 { "strace"@ }
    else if i == 18 { "ltrace"@ }
    else if i == 19 { "httrack"@ }
    else if i == 20 { "wireshark"@ }
    else if i == 21 { "tcpdump"@ }
    else if i == 22 { "mitmproxy"@ }
    else if i == 23 { "burpsuite"@ }
    else if i == 24 { "fiddler"@ }
    else if i == 25 { "proxifier"@ }
    else if i == 26 { "sockscap"@ }
    else if i == 27 { "gameguardian"@ }
    else if i == 28 { "artmoney"@ }
    else if i == 29 { "wemod"@ }
    else { "trainer"@ }
}

/// Known cheat/tool process name `i`.
pub fn known_cheat_comm(i: usize) -> (s: &'static str)
    requires
        i < KNOWN_CHEAT_COMMS_LEN,
    ensures
        s@ == spec_known_cheat_comm(i as int),
{
    if i == 0 { "cheatengine" }
    else if i == 1 { "cheat" }
    else if i == 2 { "injector" }
    else if i == 3 { "inject" }
    else if i == 4 { "loader" }
    else if i == 5 { "reclass" }
    else if i == 6 { "x64dbg" }
    else if i == 7 { "x32dbg" }
    else if i == 8 { "ollydbg" }
    else if i == 9 { "dnspy" }
    else if i == 10 { "de4dot" }
    else if i == 11 { "confuser" }
    else if i == 12 { "processhacker" }
    else if i == 13 { "pchunter" }
    else if i == 14 { "frida" }
    else if i == 15 { "gdb" }
    else if i == 16 { "lldb" }
    else if i == 17 { "strace" }
    else if i == 18 { "ltrace" }
    else if i == 19 { "httrack" }
    else if i == 20 { "wireshark" }
    else if i == 21 { "tcpdump" }
    else if i == 22 { "mitmproxy" }
    else if i == 23 { "burpsuite" }
    else if i == 24 { "fiddler" }
    else if i == 25 { "proxifier" }
    else if i == 26 { "sockscap" }
    else if i == 27 { "gameguardian" }
    else if i == 28 { "artmoney" }
    else if i == 29 { "wemod" }
    else { "trainer" }
}

// ---------------------------------------------------------------------------
// Ring-0 process data
// ---------------------------------------------------------------------------

/// A process as reported by the kernel module.
#[derive(Debug, Clone)]
pub struct Ring0ProcEntry {
    pub pid: u32,
    pub ppid: u32,
    pub comm: String,
}

/// Abstract view of a process entry.
pub struct Ring0ProcView {
    pub pid: u32,
    pub ppid: u32,
    pub comm: Seq<char>,
}

impl View for Ring0ProcEntry {
    type V = Ring0ProcView;

    open spec fn view(&self) -> Ring0ProcView {
        Ring0ProcView { pid: self.pid, ppid: self.ppid, comm: self.comm@ }
    }
}

/// Size of one process record in a ring-0 payload.
pub const RING0_RECORD_LEN: usize = 24;

/// Little-endian `u32` at byte `off`.
pub open spec fn le_u32_at(data: Seq<u8>, off: int) -> u32 {
    (data[off] as u32) | ((data[off + 1] as u32) << 8u32) | ((data[off + 2] as u32) << 16u32) | ((
    data[off + 3] as u32) << 24u32)
}

/// `s` without its trailing run of NUL characters.
pub open spec fn trim_trailing_nul(s: Seq<char>) -> Seq<char>
    decreases s.len(),
{
    if s.len() > 0 && s.last() == '\0' {
        trim_trailing_nul(s.drop_last())
    } else {
        s
    }
}

/// The text with its trailing NUL characters removed.
pub(crate) fn trim_nul_end(s: &str) -> (r: &str)
    ensures
        r@ == trim_trailing_nul(s@),
{
    let n = s.unicode_len();
    let mut j: usize = n;
    proof {
        assert(s@.subrange(0, n as int) =~= s@);
    }
    while j > 0
        invariant
            j <= s@.len(),
            n == s@.len(),
            trim_trailing_nul(s@) == trim_trailing_nul(s@.subrange(0, j as int)),
        ensures
            j <= s@.len(),
            trim_trailing_nul(s@) == trim_trailing_nul(s@.subrange(0, j as int)),
            j == 0 || s@[j - 1] != '\0',
        decreases j,
    {
        if s.get_char(j - 1) != '\0' {
            break;
        }
        proof {
            assert(s@.subrange(0, j as int).drop_last() =~= s@.subrange(0, j - 1));
        }
        j = j - 1;
    }
    s.substring_char(0, j)
}

/// Number of records `parse_ring0_payload` reads: the declared count, cut
/// short by the end of the data.
pub open spec fn ring0_record_count(data: Seq<u8>) -> nat {
    if data.len() < 4 {
        0
    } else {
        let declared = le_u32_at(data, 0) as nat;
        let available = ((data.len() - 4) / 24) as nat;
        if declared <= available {
            declared
        } else {
            available
        }
    }
}

/// Record `k` of a ring-0 payload.
pub open spec fn ring0_record(data: Seq<u8>, k: int) -> Ring0ProcView {
    let off = 4 + 24 * k;
    Ring0ProcView {
        pid: le_u32_at(data, off),
        ppid: le_u32_at(data, off + 4),
        comm: trim_trailing_nul(lossy_text(data.subrange(off + 8, off + 24))),
    }
}

fn read_le_u32(data: &[u8], off: usize) -> (v: u32)
    requires
        off + 4 <= data@.len(),
    ensures
        v == le_u32_at(data@, off as int),
{
    (data[off] as u32) | ((data[off + 1] as u32) << 8u32) | ((data[off + 2] as u32) << 16u32) | ((
    data[off + 3] as u32) << 24u32)
}

/// Parses a ring-0 payload: a little-endian `u32` count followed by that many
/// 24-byte records `pid, ppid, comm[16]`.  Records that would run past the
/// end of the data are not read; the name is decoded lossily and stripped
/// of trailing NULs.
pub fn parse_ring0_payload(data: &[u8]) -> (entries: Vec<Ring0ProcEntry>)
    ensures
        entries@.len() == ring0_record_count(data@),
        forall|k: int|
            0 <= k < entries@.len() ==> #[trigger] entries@[k]@ == ring0_record(data@, k),
{
    let mut entries: Vec<Ring0ProcEntry> = Vec::new();
    if data.len() < 4 {
        return entries;
    }
    let count = read_le_u32(data, 0);
    let total = data.len();
    let mut off: usize = 4;
    let mut n: u32 = 0;
    while n < count
        invariant
            total == data@.len(),
            total >= 4,
            count == le_u32_at(data@, 0),
            n <= count,
            off == 4 + 24 * n,
            off <= total,
            n <= ring0_record_count(data@),
            entries@.len() == n,
            forall|k: int|
                0 <= k < entries@.len() ==> #[trigger] entries@[k]@ == ring0_record(data@, k),
        decreases count - n,
    {
        if total - off < 24 {
            proof {
                assert(ring0_record_count(data@) == n) by (nonlinear_arith)
                    requires
                        off == 4 + 24 * n,
                        off + 24 > total,
                        off <= total,
                        n <= count,
                        ring0_record_count(data@) == if (count as nat) <= ((total - 4) / 24) as nat {
                            count as nat
                        } else {
                            ((total - 4) / 24) as nat
                        },
                ;
            }
            return entries;
        }
        let pid = read_le_u32(data, off);
        let ppid = read_le_u32(data, off + 4);
        let comm_bytes = vstd::slice::slice_subrange(data, off + 8, off + 24);
        let lossy = utf8_lossy_string(comm_bytes);
        let trimmed = trim_nul_end(lossy.as_str());
        let comm = trimmed.to_owned();
        let ghost k = n as int;
        entries.push(Ring0ProcEntry { pid, ppid, comm });
        proof {
            assert(off == 4 + 24 * k);
            assert(n + 1 <= ring0_record_count(data@)) by (nonlinear_arith)
                requires
                    off == 4 + 24 * n,
                    off + 24 <= total,
                    n < count,
                    ring0_record_count(data@) == if (count as nat) <= ((total - 4) / 24) as nat {
                        count as nat
                    } else {
                        ((total - 4) / 24) as nat
                    },
            ;
        }
        off = off + 24;
        n = n + 1;
    }
    entries
}

// ---------------------------------------------------------------------------
// Findings
// ---------------------------------------------------------------------------

/// What a finding reports.
#[derive(Clone, Debug)]
pub enum FindingKind {
    CheatProcess { pid: u32, comm: String },
    HiddenProcess { pid: u32, comm: String },
    MissingFromRing0 { pid: u32, comm: String },
    RwxPage { address: u64, size: u64 },
    AnonymousExec { address: u64, size: u64 },
    TracerAttached { tracer_pid: u32 },
    DebuggerFlags { flags: u32 },
    SuspiciousEnv { flags: u32 },
    InjectedAssembly { name: String },
    LatencyAnomaly { duration_ms: u64 },
}

/// Abstract view of a finding kind: texts as character sequences.
pub enum FindingKindView {
    CheatProcess { pid: u32, comm: Seq<char> },
    HiddenProcess { pid: u32, comm: Seq<char> },
    MissingFromRing0 { pid: u32, comm: Seq<char> },
    RwxPage { address: u64, size: u64 },
    AnonymousExec { address: u64, size: u64 },
    TracerAttached { tracer_pid: u32 },
    DebuggerFlags { flags: u32 },
    SuspiciousEnv { flags: u32 },
    InjectedAssembly { name: Seq<char> },
    LatencyAnomaly { duration_ms: u64 },
}

impl View for FindingKind {
    type V = FindingKindView;

    open spec fn view(&self) -> FindingKindView {
        match self {
            FindingKind::CheatProcess { pid, comm } => FindingKindView::CheatProcess {
                pid: *pid,
                comm: comm@,
            },
            FindingKind::HiddenProcess { pid, comm } => FindingKindView::HiddenProcess {
                pid: *pid,
                comm: comm@,
            },
            FindingKind::MissingFromRing0 { pid, comm } => FindingKindView::MissingFromRing0 {
                pid: *pid,
                comm: comm@,
            },
            FindingKind::RwxPage { address, size } => FindingKindView::RwxPage {
                address: *address,
                size: *size,
            },
            FindingKind::AnonymousExec { address, size } => FindingKindView::AnonymousExec {
                address: *address,
                size: *size,
            },
            FindingKind::TracerAttached { tracer_pid } => FindingKindView::TracerAttached {
                tracer_pid: *tracer_pid,
            },
            FindingKind::DebuggerFlags { flags } => FindingKindView::DebuggerFlags { flags: *flags },
            FindingKind::SuspiciousEnv { flags } => FindingKindView::SuspiciousEnv { flags: *flags },
            FindingKind::InjectedAssembly { name } => FindingKindView::InjectedAssembly {
                name: name@,
            },
            FindingKind::LatencyAnomaly { duration_ms } => FindingKindView::LatencyAnomaly {
                duration_ms: *duration_ms,
            },
        }
    }
}

impl FindingKind {
    /// A copy with the same view.
    pub fn duplicate(&self) -> (r: Self)
        ensures
            r@ == self@,
    {
        match self {
            FindingKind::CheatProcess { pid, comm } => FindingKind::CheatProcess {
                pid: *pid,
                comm: comm.clone(),
            },
            FindingKind::HiddenProcess { pid, comm } => FindingKind::HiddenProcess {
                pid: *pid,
                comm: comm.clone(),
            },
            FindingKind::MissingFromRing0 { pid, comm } => FindingKind::MissingFromRing0 {
                pid: *pid,
                comm: comm.clone(),
            },
            FindingKind::RwxPage { address, size } => FindingKind::RwxPage {
                address: *address,
                size: *size,
            },
            FindingKind::AnonymousExec { address, size } => FindingKind::AnonymousExec {
                address: *address,
                size: *size,
            },
            FindingKind::TracerAttached { tracer_pid } => FindingKind::TracerAttached {
                tracer_pid: *tracer_pid,
            },
            FindingKind::DebuggerFlags { flags } => FindingKind::DebuggerFlags { flags: *flags },
            FindingKind::SuspiciousEnv { flags } => FindingKind::SuspiciousEnv { flags: *flags },
            FindingKind::InjectedAssembly { name } => FindingKind::InjectedAssembly {
                name: name.clone(),
            },
            FindingKind::LatencyAnomaly { duration_ms } => FindingKind::LatencyAnomaly {
                duration_ms: *duration_ms,
            },
        }
    }
}

/// A finding and the points it adds to the score.
#[derive(Clone, Debug)]
pub struct Finding {
    pub kind: FindingKind,
    pub points: u32,
}

/// Abstract view of a finding.
pub struct FindingView {
    pub kind: FindingKindView,
    pub points: u32,
}

impl View for Finding {
    type V = FindingView;

    open spec fn view(&self) -> FindingView {
        FindingView { kind: self.kind@, points: self.points }
    }
}

impl Finding {
    /// A copy with the same view.
    pub fn duplicate(&self) -> (r: Self)
        ensures
            r@ == self@,
    {
        Finding { kind: self.kind.duplicate(), points: self.points }
    }
}

/// The views of a list of findings.
pub open spec fn findings_view(f: Seq<Finding>) -> Seq<FindingView> {
    f.map_values(|x: Finding| x@)
}

/// Total points of a list of findings.
pub open spec fn points_sum(f: Seq<FindingView>) -> int
    decreases f.len(),
{
    if f.len() == 0 {
        0
    } else {
        points_sum(f.drop_last()) + f.last().points
    }
}

proof fn lemma_points_sum_push(f: Seq<FindingView>, x: FindingView)
    ensures
        points_sum(f.push(x)) == points_sum(f) + x.points,
{
    assert(f.push(x).drop_last() =~= f);
}

proof fn lemma_points_sum_nonneg(f: Seq<FindingView>)
    ensures
        points_sum(f) >= 0,
    decreases f.len(),
{
    if f.len() > 0 {
        lemma_points_sum_nonneg(f.drop_last());
    }
}

// ---------------------------------------------------------------------------
// Scoring
// ---------------------------------------------------------------------------

pub const SCORE_WARN: u32 = 30;
pub const SCORE_KICK: u32 = 50;
pub const SCORE_BAN: u32 = 80;

pub const POINTS_CHEAT_PROCESS: u32 = 50;
pub const POINTS_HIDDEN_PROCESS: u32 = 40;
pub const POINTS_MISSING_RING0: u32 = 30;
pub const POINTS_RWX_PAGE: u32 = 35;
pub const POINTS_ANON_EXEC: u32 = 30;
pub const POINTS_TRACER: u32 = 25;
pub const POINTS_DEBUGGER_FLAGS: u32 = 20;
pub const POINTS_SUSPICIOUS_ENV: u32 = 10;
pub const POINTS_INJECTED_ASSEMBLY: u32 = 30;
pub const POINTS_LATENCY_ANOMALY: u32 = 15;

/// What to do about a client.
#[derive(Clone, Copy, Debug, PartialEq, Eq, Structural)]
pub enum Action {
    NoAction,
    Warn,
    Kick,
    Ban,
}

/// The action a score calls for.
pub open spec fn spec_action(total: u32) -> Action {
    if total >= SCORE_BAN {
        Action::Ban
    } else if total >= SCORE_KICK {
        Action::Kick
    } else if total >= SCORE_WARN {
        Action::Warn
    } else {
        Action::NoAction
    }
}

/// Severity rank of an action.
pub open spec fn action_rank(a: Action) -> int {
    match a {
        Action::NoAction => 0,
        Action::Warn => 1,
        Action::Kick => 2,
        Action::Ban => 3,
    }
}

/// Per-client score state.
#[derive(Clone, Debug)]
pub struct ScoreState {
    pub total: u32,
    pub findings: Vec<Finding>,
    pub clean_scan_count: u32,
}

impl ScoreState {
    /// A clean state.
    pub fn new() -> (s: Self)
        ensures
            s.total == 0,
            s.findings@.len() == 0,
            s.clean_scan_count == 0,
    {
        ScoreState { total: 0, findings: Vec::new(), clean_scan_count: 0 }
    }

    /// A copy with the same score, findings and clean streak.
    pub fn duplicate(&self) -> (r: Self)
        ensures
            r.total == self.total,
            findings_view(r.findings@) == findings_view(self.findings@),
            r.clean_scan_count == self.clean_scan_count,
    {
        let mut findings: Vec<Finding> = Vec::new();
        let mut i: usize = 0;
        while i < self.findings.len()
            invariant
                i <= self.findings@.len(),
                findings_view(findings@) == findings_view(self.findings@).subrange(0, i as int),
            decreases self.findings@.len() - i,
        {
            let f = self.findings[i].duplicate();
            let ghost prev = findings@;
            findings.push(f);
            proof {
                assert(findings_view(findings@) =~= findings_view(prev).push(self.findings@[i as int]@));
                assert(findings_view(self.findings@).subrange(0, i + 1) =~= findings_view(
                    self.findings@,
                ).subrange(0, i as int).push(self.findings@[i as int]@));
            }
            i = i + 1;
        }
        proof {
            assert(findings_view(self.findings@).subrange(0, self.findings@.len() as int)
                =~= findings_view(self.findings@));
        }
        ScoreState { total: self.total, findings, clean_scan_count: self.clean_scan_count }
    }

    /// Adds a finding with its point weight.
    pub fn add_finding(&mut self, kind: FindingKind, points: u32)
        requires
            old(self).total + points <= u32::MAX,
        ensures
            final(self).total == old(self).total + points,
            findings_view(final(self).findings@) == findings_view(old(self).findings@).push(
                FindingView { kind: kind@, points },
            ),
            final(self).clean_scan_count == old(self).clean_scan_count,
    {
        self.total = self.total + points;
        let ghost before = self.findings@;
        self.findings.push(Finding { kind, points });
        proof {
            assert(findings_view(self.findings@) =~= findings_view(before).push(
                FindingView { kind: kind@, points },
            ));
        }
    }

    /// Whether all of `found` can be added without the total overflowing.
    pub fn can_add(&self, found: &Vec<Finding>) -> (ok: bool)
        ensures
            ok == (self.total + points_sum(findings_view(found@)) <= u32::MAX),
    {
        let mut sum: u64 = self.total as u64;
        let mut i: usize = 0;
        while i < found.len()
            invariant
                i <= found@.len(),
                sum == self.total + points_sum(findings_view(found@.subrange(0, i as int))),
                sum <= u32::MAX,
            decreases found@.len() - i,
        {
            proof {
                let pre = found@.subrange(0, i as int);
                assert(findings_view(found@.subrange(0, i + 1)) =~= findings_view(pre).push(
                    found@[i as int]@,
                ));
                lemma_points_sum_push(findings_view(pre), found@[i as int]@);
            }
            sum = sum + found[i].points as u64;
            if sum > u32::MAX as u64 {
                proof {
                    lemma_points_sum_suffix_bound(findings_view(found@), (i + 1) as int);
                    assert(findings_view(found@.subrange(0, i + 1)) =~= findings_view(found@).subrange(0, i + 1));
                }
                return false;
            }
            i = i + 1;
        }
        proof {
            assert(found@.subrange(0, found@.len() as int) =~= found@);
        }
        true
    }

    /// Adds every finding of `found`, in order.
    pub fn add_findings(&mut self, found: Vec<Finding>)
        requires
            old(self).total + points_sum(findings_view(found@)) <= u32::MAX,
        ensures
            final(self).total == old(self).total + points_sum(findings_view(found@)),
            findings_view(final(self).findings@) == findings_view(old(self).findings@) + findings_view(
                found@,
            ),
            final(self).clean_scan_count == old(self).clean_scan_count,
    {
        let ghost f0 = findings_view(self.findings@);
        let ghost t0 = self.total;
        let mut i: usize = 0;
        while i < found.len()
            invariant
                i <= found@.len(),
                t0 + points_sum(findings_view(found@)) <= u32::MAX,
                self.total == t0 + points_sum(findings_view(found@.subrange(0, i as int))),
                findings_view(self.findings@) == f0 + findings_view(found@.subrange(0, i as int)),
                self.clean_scan_count == old(self).clean_scan_count,
            decreases found@.len() - i,
        {
            let f = found[i].duplicate();
            proof {
                let pre = found@.subrange(0, i as int);
                assert(findings_view(found@.subrange(0, i + 1)) =~= findings_view(pre).push(
                    found@[i as int]@,
                ));
                lemma_points_sum_push(findings_view(pre), found@[i as int]@);
                lemma_points_sum_suffix_bound(findings_view(found@), (i + 1) as int);
                assert(findings_view(found@.subrange(0, i + 1)) =~= findings_view(found@).subrange(0, i + 1));
            }
            self.add_finding(f.kind, f.points);
            proof {
                assert(findings_view(self.findings@) =~= f0 + findings_view(found@.subrange(0, i + 1)));
            }
            i = i + 1;
        }
        proof {
            assert(found@.subrange(0, found@.len() as int) =~= found@);
        }
    }

    /// The action the current score calls for.
    pub fn action(&self) -> (a: Action)
        ensures
            a == spec_action(self.total),
    {
        if self.total >= SCORE_BAN {
            Action::Ban
        } else if self.total >= SCORE_KICK {
            Action::Kick
        } else if self.total >= SCORE_WARN {
            Action::Warn
        } else {
            Action::NoAction
        }
    }

    /// Resets after a scan round: a round without points extends the clean
    /// streak, any other round ends it; the score and findings are cleared.
    pub fn reset(&mut self)
        requires
            old(self).total == 0 ==> old(self).clean_scan_count < u32::MAX,
        ensures
            final(self).total == 0,
            final(self).findings@.len() == 0,
            final(self).clean_scan_count == if old(self).total == 0 {
                old(self).clean_scan_count + 1
            } else {
                0
            },
    {
        if self.total == 0 {
            self.clean_scan_count = self.clean_scan_count + 1;
        } else {
            self.clean_scan_count = 0;
        }
        self.total = 0;
        self.findings.clear();
    }
}

proof fn lemma_points_sum_suffix_bound(f: Seq<FindingView>, n: int)
    requires
        0 <= n <= f.len(),
    ensures
        points_sum(f.subrange(0, n)) <= points_sum(f),
    decreases f.len() - n,
{
    if n < f.len() {
        lemma_points_sum_suffix_bound(f, n + 1);
        assert(f.subrange(0, n + 1).drop_last() =~= f.subrange(0, n));
    } else {
        assert(f.subrange(0, n) =~= f);
    }
}

/// Law: a reset state calls for no action.
pub proof fn lemma_reset_clears_action(total_after_reset: u32)
    requires
        total_after_reset == 0,
    ensures
        spec_action(total_after_reset) == Action::NoAction,
{
}

/// Law: the action never gets milder as points are added.
pub proof fn lemma_action_monotone(t1: u32, t2: u32)
    requires
        t1 <= t2,
    ensures
        action_rank(spec_action(t1)) <= action_rank(spec_action(t2)),
{
}

// ---------------------------------------------------------------------------
// Ring-0 process analysis
// ---------------------------------------------------------------------------

/// Index of the first known cheat name (from `k` on) whose bytes occur in
/// `lower`, or `KNOWN_CHEAT_COMMS_LEN` when none does.
pub open spec fn first_cheat_from(lower: Seq<u8>, k: int) -> int
    decreases KNOWN_CHEAT_COMMS_LEN - k,
{
    if k >= KNOWN_CHEAT_COMMS_LEN || k < 0 {
        KNOWN_CHEAT_COMMS_LEN as int
    } else if bytes_contain(lower, encode_utf8(spec_known_cheat_comm(k))) {
        k
    } else {
        first_cheat_from(lower, k + 1)
    }
}

/// Cheat signatures already reported and findings produced after the first
/// `n` entries: an entry whose lowercased name contains a known cheat name
/// is reported under the first such name, once per name.
pub open spec fn ring0_analysis(entries: Seq<Ring0ProcView>, n: nat) -> (Set<int>, Seq<FindingView>)
    decreases n,
{
    if n == 0 || n > entries.len() {
        (Set::empty(), Seq::empty())
    } else {
        let prev = ring0_analysis(entries, (n - 1) as nat);
        let e = entries[n - 1];
        let lower = unicode_lowercase(e.comm);
        let k = first_cheat_from(encode_utf8(lower), 0);
        if lower.len() == 0 || k >= KNOWN_CHEAT_COMMS_LEN || prev.0.contains(k) {
            prev
        } else {
            (
                prev.0.insert(k),
                prev.1.push(
                    FindingView {
                        kind: FindingKindView::CheatProcess { pid: e.pid, comm: e.comm },
                        points: POINTS_CHEAT_PROCESS,
                    },
                ),
            )
        }
    }
}

/// The findings of the ring-0 process analysis.
pub open spec fn ring0_findings(entries: Seq<Ring0ProcView>) -> Seq<FindingView> {
    ring0_analysis(entries, entries.len()).1
}

/// Views of a slice of process entries.
pub open spec fn entries_view(e: Seq<Ring0ProcEntry>) -> Seq<Ring0ProcView> {
    e.map_values(|x: Ring0ProcEntry| x@)
}

fn first_cheat(lower: &str) -> (k: usize)
    ensures
        k == first_cheat_from(lower.spec_bytes(), 0),
        k <= KNOWN_CHEAT_COMMS_LEN,
{
    let mut k: usize = 0;
    while k < KNOWN_CHEAT_COMMS_LEN
        invariant
            k <= KNOWN_CHEAT_COMMS_LEN,
            first_cheat_from(lower.spec_bytes(), 0) == first_cheat_from(lower.spec_bytes(), k as int),
        decreases KNOWN_CHEAT_COMMS_LEN - k,
    {
        let name = known_cheat_comm(k);
        if str_contains(lower, name) {
            return k;
        }
        k = k + 1;
    }
    k
}

/// The findings the ring-0 analysis produces for `entries`.
pub fn ring0_cheat_findings(entries: &[Ring0ProcEntry]) -> (found: Vec<Finding>)
    ensures
        findings_view(found@) == ring0_findings(entries_view(entries@)),
{
    let ghost ev = entries_view(entries@);
    let mut seen: Vec<bool> = Vec::new();
    let mut z: usize = 0;
    while z < KNOWN_CHEAT_COMMS_LEN
        invariant
            z <= KNOWN_CHEAT_COMMS_LEN,
            seen@.len() == z,
            forall|q: int| 0 <= q < z ==> !seen@[q],
        decreases KNOWN_CHEAT_COMMS_LEN - z,
    {
        seen.push(false);
        z = z + 1;
    }
    let mut found: Vec<Finding> = Vec::new();
    let mut i: usize = 0;
    while i < entries.len()
        invariant
            i <= entries@.len(),
            ev == entries_view(entries@),
            seen@.len() == KNOWN_CHEAT_COMMS_LEN,
            forall|q: int|
                0 <= q < KNOWN_CHEAT_COMMS_LEN ==> (#[trigger] seen@[q] <==> ring0_analysis(
                    ev,
                    i as nat,
                ).0.contains(q)),
            forall|q: int| ring0_analysis(ev, i as nat).0.contains(q) ==> 0 <= q < KNOWN_CHEAT_COMMS_LEN,
            findings_view(found@) == ring0_analysis(ev, i as nat).1,
        decreases entries@.len() - i,
    {
        let entry = &entries[i];
        let lower = to_lowercase(entry.comm.as_str());
        assert(ev[i as int] == entry@);
        if !lower.as_str().is_empty() {
            let k = first_cheat(lower.as_str());
            if k < KNOWN_CHEAT_COMMS_LEN && !seen[k] {
                seen.set(k, true);
                let ghost before = found@;
                found.push(
                    Finding {
                        kind: FindingKind::CheatProcess { pid: entry.pid, comm: entry.comm.clone() },
                        points: POINTS_CHEAT_PROCESS,
                    },
                );
                proof {
                    assert(findings_view(found@) =~= findings_view(before).push(
                        found@[found@.len() - 1]@,
                    ));
                }
            }
        }
        i = i + 1;
    }
    found
}

/// Adds a cheat-process finding for every entry whose lowercased name
/// contains a known cheat name, at most once per cheat name.
pub fn analyze_ring0_procs(entries: &[Ring0ProcEntry], state: &mut ScoreState)
    requires
        old(state).total + points_sum(ring0_findings(entries_view(entries@))) <= u32::MAX,
    ensures
        final(state).total == old(state).total + points_sum(ring0_findings(entries_view(entries@))),
        findings_view(final(state).findings@) == findings_view(old(state).findings@) + ring0_findings(
            entries_view(entries@),
        ),
        final(state).clean_scan_count == old(state).clean_scan_count,
{
    let found = ring0_cheat_findings(entries);
    state.add_findings(found);
}

// ---------------------------------------------------------------------------
// Hidden process analysis
// ---------------------------------------------------------------------------

/// Views of a list of `(pid, name)` pairs.
pub open spec fn procs_view(p: Seq<(u32, String)>) -> Seq<(u32, Seq<char>)> {
    p.map_values(|x: (u32, String)| (x.0, x.1@))
}

/// `pid` appears in the list.
pub open spec fn lists_pid(p: Seq<(u32, Seq<char>)>, pid: u32) -> bool {
    exists|i: int| 0 <= i < p.len() && #[trigger] p[i].0 == pid
}

/// Findings for the first `n` entries of `src` whose pid is not in `other`:
/// `MissingFromRing0` (30 points) when `src` is the user-mode list,
/// `HiddenProcess` (40 points) when it is the ring-0 list.
pub open spec fn unlisted_findings(
    src: Seq<(u32, Seq<char>)>,
    other: Seq<(u32, Seq<char>)>,
    src_is_user: bool,
    n: nat,
) -> Seq<FindingView>
    decreases n,
{
    if n == 0 || n > src.len() {
        Seq::empty()
    } else {
        let prev = unlisted_findings(src, other, src_is_user, (n - 1) as nat);
        let (pid, comm) = src[n - 1];
        if lists_pid(other, pid) {
            prev
        } else if src_is_user {
            prev.push(
                FindingView {
                    kind: FindingKindView::MissingFromRing0 { pid, comm },
                    points: POINTS_MISSING_RING0,
                },
            )
        } else {
            prev.push(
                FindingView {
                    kind: FindingKindView::HiddenProcess { pid, comm },
                    points: POINTS_HIDDEN_PROCESS,
                },
            )
        }
    }
}

/// Findings of the hidden-process comparison: user-mode processes missing
/// from the ring-0 list first, then ring-0 processes hidden from user mode.
pub open spec fn hidden_findings(user: Seq<(u32, Seq<char>)>, ring0: Seq<(u32, Seq<char>)>) -> Seq<
    FindingView,
> {
    unlisted_findings(user, ring0, true, user.len()) + unlisted_findings(
        ring0,
        user,
        false,
        ring0.len(),
    )
}

fn contains_pid(list: &[(u32, String)], pid: u32) -> (r: bool)
    ensures
        r == lists_pid(procs_view(list@), pid),
{
    let mut i: usize = 0;
    while i < list.len()
        invariant
            i <= list@.len(),
            forall|q: int| 0 <= q < i ==> list@[q].0 != pid,
        decreases list@.len() - i,
    {
        if list[i].0 == pid {
            proof {
                assert(procs_view(list@)[i as int].0 == pid);
            }
            return true;
        }
        i = i + 1;
    }
    proof {
        assert forall|q: int| 0 <= q < list@.len() implies #[trigger] procs_view(list@)[q].0 != pid by {
            assert(procs_view(list@)[q].0 == list@[q].0);
        }
    }
    false
}

fn collect_unlisted(
    src: &[(u32, String)],
    other: &[(u32, String)],
    src_is_user: bool,
    found: &mut Vec<Finding>,
)
    ensures
        findings_view(final(found)@) == findings_view(old(found)@) + unlisted_findings(
            procs_view(src@),
            procs_view(other@),
            src_is_user,
            src@.len(),
        ),
{
    let ghost f0 = findings_view(found@);
    let ghost sv = procs_view(src@);
    let ghost ov = procs_view(other@);
    let mut i: usize = 0;
    while i < src.len()
        invariant
            i <= src@.len(),
            sv == procs_view(src@),
            ov == procs_view(other@),
            findings_view(found@) == f0 + unlisted_findings(sv, ov, src_is_user, i as nat),
        decreases src@.len() - i,
    {
        let pid = src[i].0;
        assert(sv[i as int] == (pid, src@[i as int].1@));
        if !contains_pid(other, pid) {
            let comm = src[i].1.clone();
            let kind = if src_is_user {
                FindingKind::MissingFromRing0 { pid, comm }
            } else {
                FindingKind::HiddenProcess { pid, comm }
            };
            let points = if src_is_user {
                POINTS_MISSING_RING0
            } else {
                POINTS_HIDDEN_PROCESS
            };
            let ghost before = found@;
            found.push(Finding { kind, points });
            proof {
                assert(findings_view(found@) =~= findings_view(before).push(
                    found@[found@.len() - 1]@,
                ));
            }
        }
        i = i + 1;
    }
}

/// The findings of comparing the user-mode and ring-0 process lists.
pub fn hidden_proc_findings(user_procs: &[(u32, String)], ring0_procs: &[(u32, String)]) -> (found:
    Vec<Finding>)
    ensures
        findings_view(found@) == hidden_findings(procs_view(user_procs@), procs_view(ring0_procs@)),
{
    let mut found: Vec<Finding> = Vec::new();
    collect_unlisted(user_procs, ring0_procs, true, &mut found);
    collect_unlisted(ring0_procs, user_procs, false, &mut found);
    proof {
        assert(findings_view(Seq::<Finding>::empty()) =~= Seq::<FindingView>::empty());
    }
    found
}

/// Compares the user-mode and ring-0 process lists and adds a finding for
/// every process visible on one side only.
pub fn analyze_hidden_procs(
    user_procs: &[(u32, String)],
    ring0_procs: &[(u32, String)],
    state: &mut ScoreState,
)
    requires
        old(state).total + points_sum(
            hidden_findings(procs_view(user_procs@), procs_view(ring0_procs@)),
        ) <= u32::MAX,
    ensures
        final(state).total == old(state).total + points_sum(
            hidden_findings(procs_view(user_procs@), procs_view(ring0_procs@)),
        ),
        findings_view(final(state).findings@) == findings_view(old(state).findings@)
            + hidden_findings(procs_view(user_procs@), procs_view(ring0_procs@)),
        final(state).clean_scan_count == old(state).clean_scan_count,
{
    let found = hidden_proc_findings(user_procs, ring0_procs);
    state.add_findings(found);
}

/// Law: a process listed on both sides never gives rise to a finding, so two
/// identical lists produce none.
pub proof fn lemma_same_lists_no_findings(p: Seq<(u32, Seq<char>)>)
    ensures
        hidden_findings(p, p).len() == 0,
{
    lemma_unlisted_self(p, true, p.len());
    lemma_unlisted_self(p, false, p.len());
}

/// Whether an entry's pid is absent from `other`.
pub open spec fn unlisted_in(other: Seq<(u32, Seq<char>)>) -> spec_fn((u32, Seq<char>)) -> bool {
    |e: (u32, Seq<char>)| !lists_pid(other, e.0)
}

/// The finding for one process seen on one side only: missing from ring 0
/// (30 points) for a user-mode entry, hidden (40 points) for a ring-0 one.
pub open spec fn one_sided_finding(e: (u32, Seq<char>), from_user: bool) -> FindingView {
    if from_user {
        FindingView { kind: FindingKindView::MissingFromRing0 { pid: e.0, comm: e.1 }, points: 30 }
    } else {
        FindingView { kind: FindingKindView::HiddenProcess { pid: e.0, comm: e.1 }, points: 40 }
    }
}

proof fn lemma_unlisted_contains(
    src: Seq<(u32, Seq<char>)>,
    other: Seq<(u32, Seq<char>)>,
    u: bool,
    n: nat,
    i: int,
)
    requires
        0 <= i < n <= src.len(),
        !lists_pid(other, src[i].0),
    ensures
        unlisted_findings(src, other, u, n).contains(one_sided_finding(src[i], u)),
    decreases n,
{
    let prev = unlisted_findings(src, other, u, (n - 1) as nat);
    let f = unlisted_findings(src, other, u, n);
    if i == n - 1 {
        assert(f[f.len() - 1] == one_sided_finding(src[i], u));
    } else {
        lemma_unlisted_contains(src, other, u, (n - 1) as nat, i);
        let k = choose|k: int| 0 <= k < prev.len() && prev[k] == one_sided_finding(src[i], u);
        assert(f[k] == prev[k]);
    }
}

proof fn lemma_unlisted_len(src: Seq<(u32, Seq<char>)>, other: Seq<(u32, Seq<char>)>, u: bool, n: nat)
    requires
        n <= src.len(),
    ensures
        unlisted_findings(src, other, u, n).len() == src.take(n as int).filter(unlisted_in(other)).len(),
    decreases n,
{
    reveal(Seq::filter);
    if n > 0 {
        lemma_unlisted_len(src, other, u, (n - 1) as nat);
        assert(src.take(n as int).drop_last() =~= src.take(n - 1));
        assert(src.take(n as int).last() == src[n - 1]);
    }
}

/// Law: every process that one list shows and the other lacks gets a finding
/// of its own (a ring-0 process hidden from user mode 40 points, a user-mode
/// process missing from ring 0 30 points), and there are exactly as many
/// findings as such processes.
pub proof fn lemma_each_one_sided_process_reported(
    user: Seq<(u32, Seq<char>)>,
    ring0: Seq<(u32, Seq<char>)>,
)
    ensures
        forall|i: int|
            0 <= i < ring0.len() && !lists_pid(user, ring0[i].0) ==> #[trigger] hidden_findings(
                user,
                ring0,
            ).contains(one_sided_finding(ring0[i], false)),
        forall|i: int|
            0 <= i < user.len() && !lists_pid(ring0, user[i].0) ==> #[trigger] hidden_findings(
                user,
                ring0,
            ).contains(one_sided_finding(user[i], true)),
        hidden_findings(user, ring0).len() == user.filter(unlisted_in(ring0)).len() + ring0.filter(
            unlisted_in(user),
        ).len(),
{
    let a = unlisted_findings(user, ring0, true, user.len());
    let b = unlisted_findings(ring0, user, false, ring0.len());
    assert forall|i: int|
        0 <= i < ring0.len() && !lists_pid(user, ring0[i].0) implies #[trigger] hidden_findings(
            user,
            ring0,
        ).contains(one_sided_finding(ring0[i], false)) by {
        lemma_unlisted_contains(ring0, user, false, ring0.len(), i);
        let k = choose|k: int| 0 <= k < b.len() && b[k] == one_sided_finding(ring0[i], false);
        assert((a + b)[a.len() + k] == b[k]);
    }
    assert forall|i: int|
        0 <= i < user.len() && !lists_pid(ring0, user[i].0) implies #[trigger] hidden_findings(
            user,
            ring0,
        ).contains(one_sided_finding(user[i], true)) by {
        lemma_unlisted_contains(user, ring0, true, user.len(), i);
        let k = choose|k: int| 0 <= k < a.len() && a[k] == one_sided_finding(user[i], true);
        assert((a + b)[k] == a[k]);
    }
    lemma_unlisted_len(user, ring0, true, user.len());
    lemma_unlisted_len(ring0, user, false, ring0.len());
    assert(user.take(user.len() as int) =~= user);
    assert(ring0.take(ring0.len() as int) =~= ring0);
}

proof fn lemma_unlisted_self(p: Seq<(u32, Seq<char>)>, u: bool, n: nat)
    requires
        n <= p.len(),
    ensures
        unlisted_findings(p, p, u, n).len() == 0,
    decreases n,
{
    if n > 0 {
        lemma_unlisted_self(p, u, (n - 1) as nat);
        assert(p[n - 1].0 == p[n - 1].0);
        assert(lists_pid(p, p[n - 1].0));
    }
}

// ---------------------------------------------------------------------------
// Memory anomaly analysis
// ---------------------------------------------------------------------------

/// Views of memory map entries `(start, end, perms, path)`.
pub open spec fn maps_view(e: Seq<(u64, u64, String, String)>) -> Seq<(u64, u64, Seq<char>, Seq<char>)> {
    e.map_values(|x: (u64, u64, String, String)| (x.0, x.1, x.2@, x.3@))
}

/// The mapping is readable, writable and executable.
pub open spec fn is_rwx(perms: Seq<char>) -> bool {
    bytes_contain(encode_utf8(perms), encode_utf8("rwx"@))
}

/// The mapping is executable, not writable and has no backing file.
pub open spec fn is_anon_exec(perms: Seq<char>, path: Seq<char>) -> bool {
    bytes_contain(encode_utf8(perms), seq![0x78u8]) && !bytes_contain(encode_utf8(perms), seq![0x77u8])
        && path.len() == 0
}

/// Findings for the first `n` map entries.
pub open spec fn memory_findings_upto(e: Seq<(u64, u64, Seq<char>, Seq<char>)>, n: nat) -> Seq<
    FindingView,
>
    decreases n,
{
    if n == 0 || n > e.len() {
        Seq::empty()
    } else {
        let prev = memory_findings_upto(e, (n - 1) as nat);
        let (start, end, perms, path) = e[n - 1];
        let size = (end - start) as u64;
        let a = if is_rwx(perms) {
            prev.push(
                FindingView {
                    kind: FindingKindView::RwxPage { address: start, size },
                    points: POINTS_RWX_PAGE,
                },
            )
        } else {
            prev
        };
        if is_anon_exec(perms, path) {
            a.push(
                FindingView {
                    kind: FindingKindView::AnonymousExec { address: start, size },
                    points: POINTS_ANON_EXEC,
                },
            )
        } else {
            a
        }
    }
}

/// Findings for all map entries.
pub open spec fn memory_findings(e: Seq<(u64, u64, Seq<char>, Seq<char>)>) -> Seq<FindingView> {
    memory_findings_upto(e, e.len())
}

/// Every flagged entry ends at or after its start (its size is computed).
pub open spec fn flagged_entries_ordered(e: Seq<(u64, u64, Seq<char>, Seq<char>)>) -> bool {
    forall|i: int|
        0 <= i < e.len() && (is_rwx(#[trigger] e[i].2) || is_anon_exec(e[i].2, e[i].3)) ==> e[i].0
            <= e[i].1
}

proof fn lemma_encode_utf8_concat(a: Seq<char>, b: Seq<char>)
    ensures
        encode_utf8(a + b) == encode_utf8(a) + encode_utf8(b),
    decreases a.len(),
{
    if a.len() == 0 {
        assert(a + b =~= b);
        assert(encode_utf8(a) =~= Seq::<u8>::empty());
        assert(encode_utf8(a) + encode_utf8(b) =~= encode_utf8(b));
    } else {
        assert((a + b).drop_first() =~= a.drop_first() + b);
        assert((a + b)[0] == a[0]);
        lemma_encode_utf8_concat(a.drop_first(), b);
        assert(encode_utf8(a + b) =~= encode_utf8(a) + encode_utf8(b));
    }
}

/// Permissions that contain the characters `r`, `w`, `x` in a row are RWX.
proof fn lemma_rwx_chars_is_rwx(perms: Seq<char>, k: int)
    requires
        0 <= k,
        k + 3 <= perms.len(),
        perms.subrange(k, k + 3) == seq!['r', 'w', 'x'],
    ensures
        is_rwx(perms),
{
    reveal_strlit("rwx");
    let t = seq!['r', 'w', 'x'];
    assert("rwx"@ =~= t);
    let x = perms.subrange(0, k);
    let y = perms.subrange(k + 3, perms.len() as int);
    assert(perms =~= x + t + y);
    lemma_encode_utf8_concat(x + t, y);
    lemma_encode_utf8_concat(x, t);
    assert(vstd::utf8::is_ascii_chars(t));
    vstd::utf8::is_ascii_chars_encode_utf8(t);
    let ex = encode_utf8(x);
    let et = encode_utf8(t);
    let all = encode_utf8(perms);
    assert(all == ex + et + encode_utf8(y));
    assert(all.subrange(ex.len() as int, (ex.len() + et.len()) as int) =~= et);
    assert(crate::text::occurs_at(all, et, ex.len() as int));
}

proof fn lemma_memory_upto_has_rwx(e: Seq<(u64, u64, Seq<char>, Seq<char>)>, n: nat, i: int)
    requires
        0 <= i < n <= e.len(),
        is_rwx(e[i].2),
    ensures
        memory_findings_upto(e, n).contains(
            FindingView {
                kind: FindingKindView::RwxPage { address: e[i].0, size: (e[i].1 - e[i].0) as u64 },
                points: POINTS_RWX_PAGE,
            },
        ),
    decreases n,
{
    let want = FindingView {
        kind: FindingKindView::RwxPage { address: e[i].0, size: (e[i].1 - e[i].0) as u64 },
        points: POINTS_RWX_PAGE,
    };
    let prev = memory_findings_upto(e, (n - 1) as nat);
    let f = memory_findings_upto(e, n);
    if i == n - 1 {
        assert(f[prev.len() as int] == want);
    } else {
        lemma_memory_upto_has_rwx(e, (n - 1) as nat, i);
        let k = choose|k: int| 0 <= k < prev.len() && prev[k] == want;
        assert(f[k] == want);
    }
}

/// Law: every mapping whose permissions contain `rwx` is reported as an RWX
/// page with its start address and size, worth 35 points, whatever file
/// (if any) backs it.
pub proof fn lemma_rwx_mapping_reported(e: Seq<(u64, u64, Seq<char>, Seq<char>)>, i: int, k: int)
    requires
        0 <= i < e.len(),
        0 <= k,
        k + 3 <= e[i].2.len(),
        e[i].2.subrange(k, k + 3) == seq!['r', 'w', 'x'],
    ensures
        memory_findings(e).contains(
            FindingView {
                kind: FindingKindView::RwxPage { address: e[i].0, size: (e[i].1 - e[i].0) as u64 },
                points: 35,
            },
        ),
{
    lemma_rwx_chars_is_rwx(e[i].2, k);
    lemma_memory_upto_has_rwx(e, e.len(), i);
}

/// The findings of the memory-map analysis.
pub fn memory_map_findings(entries: &[(u64, u64, String, String)]) -> (found: Vec<Finding>)
    requires
        flagged_entries_ordered(maps_view(entries@)),
    ensures
        findings_view(found@) == memory_findings(maps_view(entries@)),
{
    let ghost ev = maps_view(entries@);
    let mut found: Vec<Finding> = Vec::new();
    let mut i: usize = 0;
    while i < entries.len()
        invariant
            i <= entries@.len(),
            ev == maps_view(entries@),
            flagged_entries_ordered(ev),
            findings_view(found@) == memory_findings_upto(ev, i as nat),
        decreases entries@.len() - i,
    {
        let (start, end, perms, path) = (entries[i].0, entries[i].1, &entries[i].2, &entries[i].3);
        assert(ev[i as int] == (start, end, perms@, path@));
        let rwx = str_contains(perms.as_str(), "rwx");
        let x = str_contains_ascii_char(perms.as_str(), 0x78);
        let w = str_contains_ascii_char(perms.as_str(), 0x77);
        let anon = x && !w && path.as_str().is_empty();
        proof {
            if rwx || anon {
                assert(is_rwx(ev[i as int].2) || is_anon_exec(ev[i as int].2, ev[i as int].3));
            }
        }
        if rwx {
            let ghost before = found@;
            found.push(Finding { kind: FindingKind::RwxPage { address: start, size: end - start }, points: POINTS_RWX_PAGE });
            proof {
                assert(findings_view(found@) =~= findings_view(before).push(found@[found@.len() - 1]@));
            }
        }
        if anon {
            let ghost before = found@;
            found.push(Finding { kind: FindingKind::AnonymousExec { address: start, size: end - start }, points: POINTS_ANON_EXEC });
            proof {
                assert(findings_view(found@) =~= findings_view(before).push(found@[found@.len() - 1]@));
            }
        }
        i = i + 1;
    }
    found
}

/// Adds a finding for every RWX mapping and every anonymous executable
/// mapping.
pub fn analyze_memory_map(entries: &[(u64, u64, String, String)], state: &mut ScoreState)
    requires
        flagged_entries_ordered(maps_view(entries@)),
        old(state).total + points_sum(memory_findings(maps_view(entries@))) <= u32::MAX,
    ensures
        final(state).total == old(state).total + points_sum(memory_findings(maps_view(entries@))),
        findings_view(final(state).findings@) == findings_view(old(state).findings@) + memory_findings(
            maps_view(entries@),
        ),
        final(state).clean_scan_count == old(state).clean_scan_count,
{
    let found = memory_map_findings(entries);
    state.add_findings(found);
}

// ---------------------------------------------------------------------------
// Summary text
// ---------------------------------------------------------------------------

/// The summary text of one finding.
pub open spec fn summary_part(k: FindingKindView) -> Seq<char> {
    match k {
        FindingKindView::CheatProcess { pid, comm } => "cheat["@ + comm + "](pid="@ + decimal_chars(
            pid as nat,
        ) + ")"@,
        FindingKindView::HiddenProcess { pid, comm } => "hidden["@ + comm + "](pid="@
            + decimal_chars(pid as nat) + ")"@,
        FindingKindView::MissingFromRing0 { pid, comm } => "user-hides-ring0["@ + comm + "](pid="@
            + decimal_chars(pid as nat) + ")"@,
        FindingKindView::RwxPage { address, size } => "rwx@"@ + (seq!['0', 'x'] + hex_chars(
            address as nat,
        )) + "+"@ + decimal_chars(size as nat),
        FindingKindView::AnonymousExec { address, size } => "anon-exec@"@ + (seq!['0', 'x']
            + hex_chars(address as nat)) + "+"@ + decimal_chars(size as nat),
        FindingKindView::TracerAttached { tracer_pid } => "tracer(pid="@ + decimal_chars(
            tracer_pid as nat,
        ) + ")"@,
        FindingKindView::DebuggerFlags { flags } => "dbg-flags("@ + decimal_chars(flags as nat)
            + ")"@,
        FindingKindView::SuspiciousEnv { flags } => "env-flags("@ + decimal_chars(flags as nat)
            + ")"@,
        FindingKindView::InjectedAssembly { name } => "injected("@ + name + ")"@,
        FindingKindView::LatencyAnomaly { duration_ms } => "latency("@ + decimal_chars(
            duration_ms as nat,
        ) + "ms)"@,
    }
}

/// The parts of the first `n` findings joined with `"; "`.
pub open spec fn joined_parts(f: Seq<FindingView>, n: nat) -> Seq<char>
    decreases n,
{
    if n == 0 {
        Seq::empty()
    } else if n == 1 {
        summary_part(f[0].kind)
    } else {
        joined_parts(f, (n - 1) as nat) + "; "@ + summary_part(f[n - 1].kind)
    }
}

/// The human-readable summary of a list of findings: `"clean"` when there
/// are none, otherwise one part per finding, separated by `"; "`.
pub open spec fn spec_findings_summary(f: Seq<FindingView>) -> Seq<char> {
    if f.len() == 0 {
        "clean"@
    } else {
        joined_parts(f, f.len())
    }
}

fn push_decimal(s: &mut String, x: u64)
    ensures
        final(s)@ == old(s)@ + decimal_chars(x as nat),
{
    let d = u64_to_decimal(x);
    s.append(d.as_str());
}

fn summary_part_string(k: &FindingKind) -> (s: String)
    ensures
        s@ == summary_part(k@),
{
    match k {
        FindingKind::CheatProcess { pid, comm } => {
            let mut s = String::from_str("cheat[");
            s.append(comm.as_str());
            s.append("](pid=");
            push_decimal(&mut s, *pid as u64);
            s.append(")");
            s
        },
        FindingKind::HiddenProcess { pid, comm } => {
            let mut s = String::from_str("hidden[");
            s.append(comm.as_str());
            s.append("](pid=");
            push_decimal(&mut s, *pid as u64);
            s.append(")");
            s
        },
        FindingKind::MissingFromRing0 { pid, comm } => {
            let mut s = String::from_str("user-hides-ring0[");
            s.append(comm.as_str());
            s.append("](pid=");
            push_decimal(&mut s, *pid as u64);
            s.append(")");
            s
        },
        FindingKind::RwxPage { address, size } => {
            let mut s = String::from_str("rwx@");
            let h = u64_to_prefixed_hex(*address);
            s.append(h.as_str());
            s.append("+");
            push_decimal(&mut s, *size);
            s
        },
        FindingKind::AnonymousExec { address, size } => {
            let mut s = String::from_str("anon-exec@");
            let h = u64_to_prefixed_hex(*address);
            s.append(h.as_str());
            s.append("+");
            push_decimal(&mut s, *size);
            s
        },
        FindingKind::TracerAttached { tracer_pid } => {
            let mut s = String::from_str("tracer(pid=");
            push_decimal(&mut s, *tracer_pid as u64);
            s.append(")");
            s
        },
        FindingKind::DebuggerFlags { flags } => {
            let mut s = String::from_str("dbg-flags(");
            push_decimal(&mut s, *flags as u64);
            s.append(")");
            s
        },
        FindingKind::SuspiciousEnv { flags } => {
            let mut s = String::from_str("env-flags(");
            push_decimal(&mut s, *flags as u64);
            s.append(")");
            s
        },
        FindingKind::InjectedAssembly { name } => {
            let mut s = String::from_str("injected(");
            s.append(name.as_str());
            s.append(")");
            s
        },
        FindingKind::LatencyAnomaly { duration_ms } => {
            let mut s = String::from_str("latency(");
            push_decimal(&mut s, *duration_ms);
            s.append("ms)");
            s
        },
    }
}

/// A human-readable summary of all findings.
pub fn findings_summary(findings: &[Finding]) -> (s: String)
    ensures
        s@ == spec_findings_summary(findings_view(findings@)),
{
    let ghost fv = findings_view(findings@);
    if findings.len() == 0 {
        return String::from_str("clean");
    }
    let mut s = summary_part_string(&findings[0].kind);
    assert(fv[0] == findings@[0]@);
    let mut i: usize = 1;
    while i < findings.len()
        invariant
            1 <= i <= findings@.len(),
            fv == findings_view(findings@),
            s@ == joined_parts(fv, i as nat),
        decreases findings@.len() - i,
    {
        s.append("; ");
        let part = summary_part_string(&findings[i].kind);
        s.append(part.as_str());
        assert(fv[i as int] == findings@[i as int]@);
        i = i + 1;
    }
    s
}

} // verus!
