//! The client scan modules' reports.  Each module appends its words to the
//! report buffer and then pads the cursor to the module's fixed size.  What
//! the modules read from the system is handed in as plain values.
use vstd::prelude::*;
use vstd::string::StringSliceAdditionalSpecFns;
use vstd::utf8::encode_utf8;
use crate::buffer::{append_words, byte_chunk_words, DataBuffer, DATA_BUFFER_DWORDS};
use crate::hash::{spec_vac_hash, vac_hash_str};
use crate::procfs::{
    has_prefix, join_spaces, spec_parse_u32, split_char, split_char_spec, status_value_u32, text_eq,
};
use crate::sysinfo::LibraryInfo;
use crate::text::{
    bytes_contain, split_lines, split_lines_spec, split_whitespace, split_ws, str_contains, strings_view,
    to_lowercase, unicode_lowercase, trim_ws, occurs_at, bytes_starts_with,
};

verus! {

pub const CLIENT_MODULE_PROCESS: u32 = 1;
pub const CLIENT_MODULE_LIBRARIES: u32 = 2;
pub const CLIENT_MODULE_DEBUGGER: u32 = 3;
pub const CLIENT_MODULE_ASSEMBLIES: u32 = 4;
pub const CLIENT_MODULE_ENVIRONMENT: u32 = 5;
pub const CLIENT_MODULE_CHEATS: u32 = 6;
/// Game-process memory scan; sealed as 203.
pub const CLIENT_MODULE_GAME_MEMORY: u32 = 10;

/// The buffer state after padding the cursor to `target` (at most the end).
pub open spec fn padded(state: (Seq<u32>, nat), target: nat) -> (Seq<u32>, nat) {
    if state.1 < target {
        (state.0, if target < DATA_BUFFER_DWORDS {
            target
        } else {
            DATA_BUFFER_DWORDS as nat
        })
    } else {
        state
    }
}

/// Moves the cursor up to `target` when it is short of it.
pub fn pad_to(buf: &mut DataBuffer, target: usize)
    requires
        old(buf).wf(),
    ensures
        final(buf).wf(),
        (final(buf).words(), final(buf).pos()) == padded((old(buf).words(), old(buf).pos()), target as nat),
{
    if buf.cursor() < target {
        let t = if target < DATA_BUFFER_DWORDS {
            target
        } else {
            DATA_BUFFER_DWORDS
        };
        buf.set_cursor(t);
    }
}

/// Appends `words`, then pads to `target`.
pub open spec fn module_write(state: (Seq<u32>, nat), words: Seq<u32>, target: nat) -> (Seq<u32>, nat) {
    padded(append_words(state.0, state.1, words), target)
}

fn write_module(buf: &mut DataBuffer, words: &Vec<u32>, target: usize)
    requires
        old(buf).wf(),
    ensures
        final(buf).wf(),
        (final(buf).words(), final(buf).pos()) == module_write(
            (old(buf).words(), old(buf).pos()),
            words@,
            target as nat,
        ),
{
    buf.write_slice(words.as_slice());
    pad_to(buf, target);
}

// ---------------------------------------------------------------------------
// Module 1: the process
// ---------------------------------------------------------------------------

/// The parent pid of `pid` in a process list (the first entry for it), or
/// 0 when there is no list or no entry.
pub open spec fn spec_parent_pid(procs: Option<Seq<(u32, u32)>>, pid: u32) -> u32 {
    match procs {
        Option::None => 0,
        Some(p) => {
            let i = first_pid_index(p, pid, 0);
            if i < p.len() {
                p[i].1
            } else {
                0
            }
        },
    }
}

/// Index of the first entry for `pid` from `i` on, or the length.
pub open spec fn first_pid_index(p: Seq<(u32, u32)>, pid: u32, i: int) -> int
    decreases p.len() - i,
{
    if i < 0 || i >= p.len() {
        p.len() as int
    } else if p[i].0 == pid {
        i
    } else {
        first_pid_index(p, pid, i + 1)
    }
}

/// The pids and parent pids of a process list.
pub open spec fn pid_pairs(p: Seq<(u32, u32, String)>) -> Seq<(u32, u32)> {
    p.map_values(|e: (u32, u32, String)| (e.0, e.1))
}

/// The parent pid of `pid` in the kernel's process list.
pub fn parent_pid_of(procs: Option<&[(u32, u32, String)]>, pid: u32) -> (pp: u32)
    ensures
        pp == spec_parent_pid(
            match procs {
                Some(p) => Some(pid_pairs(p@)),
                Option::None => Option::None,
            },
            pid,
        ),
{
    match procs {
        Option::None => 0,
        Some(p) => {
            let ghost v = pid_pairs(p@);
            let mut i: usize = 0;
            while i < p.len()
                invariant
                    i <= p@.len(),
                    procs == Some(p),
                    v == pid_pairs(p@),
                    first_pid_index(v, pid, 0) == first_pid_index(v, pid, i as int),
                decreases p@.len() - i,
            {
                proof {
                    assert(v[i as int] == (p@[i as int].0, p@[i as int].1));
                }
                if p[i].0 == pid {
                    proof {
                        assert(first_pid_index(v, pid, i as int) == i);
                    }
                    return p[i].1;
                }
                i = i + 1;
            }
            0
        },
    }
}

/// The presence words: the first 32 bytes in little-endian words (a last
/// partial word zero-extended).
pub open spec fn presence_words(presence: Seq<u8>) -> Seq<u32> {
    byte_chunk_words(
        if presence.len() <= 32 {
            presence
        } else {
            presence.subrange(0, 32)
        },
    )
}

/// The words of the process module.
pub open spec fn process_words(
    pid: u32,
    tid: u32,
    parent_pid: u32,
    exe: Seq<char>,
    cmdline: Seq<char>,
    kmod_loaded: bool,
    kernel_proc_count: Option<nat>,
    presence: Seq<u8>,
) -> Seq<u32> {
    seq![
        pid,
        tid,
        parent_pid,
        spec_vac_hash(encode_utf8(exe)),
        spec_vac_hash(encode_utf8(cmdline)),
        if kmod_loaded {
            1u32
        } else {
            0u32
        },
        if kmod_loaded {
            match kernel_proc_count {
                Some(n) => n as u32,
                Option::None => 0u32,
            }
        } else {
            0u32
        },
    ] + presence_words(presence)
}

/// Writes the process module's report: pid, tid, parent pid, hashes of the
/// executable path and command line, the kernel module flag and its process
/// count, the presence block; padded to 96 words.
pub fn process_report(
    buf: &mut DataBuffer,
    pid: u32,
    tid: u32,
    parent_pid: u32,
    exe: &str,
    cmdline: &str,
    kmod_loaded: bool,
    kernel_proc_count: Option<usize>,
    presence: &[u8],
)
    requires
        old(buf).wf(),
    ensures
        final(buf).wf(),
        (final(buf).words(), final(buf).pos()) == module_write(
            (old(buf).words(), old(buf).pos()),
            process_words(
                pid,
                tid,
                parent_pid,
                exe@,
                cmdline@,
                kmod_loaded,
                match kernel_proc_count {
                    Some(n) => Some(n as nat),
                    Option::None => Option::None,
                },
                presence@,
            ),
            96,
        ),
{
    let mut words: Vec<u32> = Vec::new();
    words.push(pid);
    words.push(tid);
    words.push(parent_pid);
    words.push(vac_hash_str(exe));
    words.push(vac_hash_str(cmdline));
    words.push(if kmod_loaded { 1 } else { 0 });
    let count: u32 = if kmod_loaded {
        match kernel_proc_count {
            Some(n) => n as u32,
            Option::None => 0,
        }
    } else {
        0
    };
    words.push(count);
    let n = if presence.len() <= 32 {
        presence.len()
    } else {
        32
    };
    let head = vstd::slice::slice_subrange(presence, 0, n);
    let mut tmp = DataBuffer::new();
    tmp.write_bytes(head);
    let ghost pw = presence_words(presence@);
    proof {
        if presence@.len() <= 32 {
            assert(head@ =~= presence@);
        }
        assert(pw.len() <= 8);
        assert(append_words(Seq::new(DATA_BUFFER_DWORDS as nat, |i: int| 0u32), 0, pw).1 == pw.len());
    }
    let mut k: usize = 0;
    let ghost w7 = words@;
    let c = tmp.cursor();
    while k < c
        invariant
            k <= c,
            c == pw.len(),
            c <= 8,
            tmp.wf(),
            tmp.words() == append_words(Seq::new(DATA_BUFFER_DWORDS as nat, |i: int| 0u32), 0, pw).0,
            words@ == w7 + pw.subrange(0, k as int),
        decreases c - k,
    {
        let w = tmp.word(k);
        proof {
            assert(w == pw[k as int]);
        }
        words.push(w);
        proof {
            assert(pw.subrange(0, k + 1) =~= pw.subrange(0, k as int).push(pw[k as int]));
        }
        k = k + 1;
    }
    proof {
        assert(pw.subrange(0, c as int) =~= pw);
        assert(words@ =~= process_words(
            pid,
            tid,
            parent_pid,
            exe@,
            cmdline@,
            kmod_loaded,
            match kernel_proc_count {
                Some(n) => Some(n as nat),
                Option::None => Option::None,
            },
            presence@,
        ));
    }
    write_module(buf, &words, 96);
}

// ---------------------------------------------------------------------------
// Module 2: libraries
// ---------------------------------------------------------------------------

/// The view of a library record.
pub open spec fn library_view(l: LibraryInfo) -> (Seq<char>, Seq<char>, u64, u64) {
    (l.name@, l.path@, l.base_address, l.size)
}

/// The six words of one library: name and path hashes, base address and
/// size as low and high halves.
pub open spec fn library_words(l: (Seq<char>, Seq<char>, u64, u64)) -> Seq<u32> {
    seq![
        spec_vac_hash(encode_utf8(l.0)),
        spec_vac_hash(encode_utf8(l.1)),
        l.2 as u32,
        (l.2 >> 32u64) as u32,
        l.3 as u32,
        (l.3 >> 32u64) as u32,
    ]
}

/// The words of a list of libraries.
pub open spec fn libraries_words_of(libs: Seq<(Seq<char>, Seq<char>, u64, u64)>) -> Seq<u32>
    decreases libs.len(),
{
    if libs.len() == 0 {
        Seq::empty()
    } else {
        libraries_words_of(libs.drop_last()) + library_words(libs.last())
    }
}

/// The words of the libraries module: the count, then six words for each
/// of the first 256 libraries.
pub open spec fn libraries_words(libs: Seq<(Seq<char>, Seq<char>, u64, u64)>) -> Seq<u32> {
    seq![libs.len() as u32] + libraries_words_of(
        if libs.len() <= 256 {
            libs
        } else {
            libs.subrange(0, 256)
        },
    )
}

/// Writes the libraries module's report, padded to 512 words.
pub fn libraries_report(buf: &mut DataBuffer, libs: &[LibraryInfo])
    requires
        old(buf).wf(),
    ensures
        final(buf).wf(),
        (final(buf).words(), final(buf).pos()) == module_write(
            (old(buf).words(), old(buf).pos()),
            libraries_words(libs@.map_values(|l: LibraryInfo| library_view(l))),
            512,
        ),
{
    let ghost lv = libs@.map_values(|l: LibraryInfo| library_view(l));
    let mut words: Vec<u32> = Vec::new();
    words.push(libs.len() as u32);
    let n = if libs.len() <= 256 {
        libs.len()
    } else {
        256
    };
    let mut i: usize = 0;
    while i < n
        invariant
            i <= n <= libs@.len(),
            n == (if libs@.len() <= 256 { libs@.len() } else { 256 }),
            lv == libs@.map_values(|l: LibraryInfo| library_view(l)),
            words@ == seq![libs@.len() as u32] + libraries_words_of(lv.subrange(0, i as int)),
        decreases n - i,
    {
        let l = &libs[i];
        proof {
            assert(lv[i as int] == library_view(*l));
            assert(lv.subrange(0, i + 1).drop_last() =~= lv.subrange(0, i as int));
        }
        words.push(vac_hash_str(l.name.as_str()));
        words.push(vac_hash_str(l.path.as_str()));
        words.push(l.base_address as u32);
        words.push((l.base_address >> 32u64) as u32);
        words.push(l.size as u32);
        words.push((l.size >> 32u64) as u32);
        proof {
            assert(words@ =~= seq![libs@.len() as u32] + libraries_words_of(lv.subrange(0, i + 1)));
        }
        i = i + 1;
    }
    proof {
        if libs@.len() <= 256 {
            assert(lv.subrange(0, n as int) =~= lv);
        }
    }
    write_module(buf, &words, 512);
}

// ---------------------------------------------------------------------------
// Module 3: debugger detection
// ---------------------------------------------------------------------------

/// Whether text `s` contains text `t`.
pub open spec fn has_text(s: Seq<char>, t: Seq<char>) -> bool {
    bytes_contain(encode_utf8(s), encode_utf8(t))
}

/// The tracer pid a status file reports (0 when absent or unreadable).
pub open spec fn spec_tracer_pid(status: Seq<char>) -> u32 {
    match status_value_u32(status, "TracerPid:"@) {
        Some(t) => t,
        Option::None => 0,
    }
}

/// The parent pid a status file reports (0 when absent or unreadable).
pub open spec fn spec_status_ppid(status: Seq<char>) -> u32 {
    match status_value_u32(status, "PPid:"@) {
        Some(t) => t,
        Option::None => 0,
    }
}

/// The Yama ptrace scope (1 when unreadable).
pub open spec fn spec_ptrace_scope(scope: Seq<char>) -> u32 {
    match spec_parse_u32(trim_ws(scope)) {
        Some(v) => v,
        Option::None => 1,
    }
}

/// A parent command line names a debugger or tracer (NULs read as spaces,
/// case folded).
pub open spec fn names_debugger(cmdline: Seq<char>) -> bool {
    let n = unicode_lowercase(join_spaces(split_char_spec(cmdline, '\0')));
    has_text(n, "gdb"@) || has_text(n, "lldb"@) || has_text(n, "strace"@) || has_text(n, "ltrace"@)
}

/// A maps line that looks suspicious: RWX or backed by a deleted file.
pub open spec fn suspicious_line(l: Seq<char>) -> bool {
    has_text(l, "rwx"@) || has_text(l, "(deleted)"@)
}

/// Number of suspicious lines.
pub open spec fn count_suspicious(lines: Seq<Seq<char>>) -> nat
    decreases lines.len(),
{
    if lines.len() == 0 {
        0
    } else {
        count_suspicious(lines.drop_last()) + if suspicious_line(lines.last()) {
            1nat
        } else {
            0nat
        }
    }
}

/// The debugger state: flags (1 traced, 2 ptrace unrestricted, 4 parent is
/// a debugger, 8 more than five suspicious mappings, 16 no vDSO), the
/// tracer pid, and the number of suspicious mappings.
pub open spec fn spec_debugger_state(
    status: Seq<char>,
    ptrace_scope: Seq<char>,
    parent_cmdline: Option<Seq<char>>,
    maps: Seq<char>,
) -> (u32, u32, u32) {
    let tracer = spec_tracer_pid(status);
    let susp = count_suspicious(split_lines_spec(maps));
    let flags = (if tracer != 0 {
        1u32
    } else {
        0u32
    }) | (if spec_ptrace_scope(ptrace_scope) == 0 {
        2u32
    } else {
        0u32
    }) | (match parent_cmdline {
        Some(c) => if names_debugger(c) {
            4u32
        } else {
            0u32
        },
        Option::None => 0u32,
    }) | (if susp > 5 {
        8u32
    } else {
        0u32
    }) | (if !has_text(maps, "[vdso]"@) {
        16u32
    } else {
        0u32
    });
    (flags, tracer, susp as u32)
}

/// A parent command line as the debugger check reads it: NULs as spaces,
/// case folded.
pub open spec fn folded_parent(cmdline: Seq<char>) -> Seq<char> {
    unicode_lowercase(join_spaces(split_char_spec(cmdline, '\0')))
}

/// Law: flag 4 of the debugger state says whether the parent's command line
/// (NULs read as spaces, case folded) mentions one of the tracers `gdb`,
/// `lldb`, `strace` or `ltrace`; it is set whenever one is mentioned and
/// clear otherwise, or when no parent command line could be read, whatever
/// the status, ptrace scope and maps say.
pub proof fn lemma_debugger_parent_flag(
    status: Seq<char>,
    ptrace_scope: Seq<char>,
    parent_cmdline: Option<Seq<char>>,
    maps: Seq<char>,
)
    ensures
        ({
            let flags = spec_debugger_state(status, ptrace_scope, parent_cmdline, maps).0;
            let tracer_named = match parent_cmdline {
                Some(c) => {
                    let n = folded_parent(c);
                    has_text(n, "gdb"@) || has_text(n, "lldb"@) || has_text(n, "strace"@) || has_text(
                        n,
                        "ltrace"@,
                    )
                },
                Option::None => false,
            };
            &&& tracer_named ==> flags & 4 == 4
            &&& !tracer_named ==> flags & 4 == 0
        }),
{
    let tracer = spec_tracer_pid(status);
    let susp = count_suspicious(split_lines_spec(maps));
    let a: u32 = if tracer != 0 {
        1u32
    } else {
        0u32
    };
    let b: u32 = if spec_ptrace_scope(ptrace_scope) == 0 {
        2u32
    } else {
        0u32
    };
    let c: u32 = match parent_cmdline {
        Some(x) => if names_debugger(x) {
            4u32
        } else {
            0u32
        },
        Option::None => 0u32,
    };
    let d: u32 = if susp > 5 {
        8u32
    } else {
        0u32
    };
    let e: u32 = if !has_text(maps, "[vdso]"@) {
        16u32
    } else {
        0u32
    };
    let flags = spec_debugger_state(status, ptrace_scope, parent_cmdline, maps).0;
    assert(flags == a | b | c | d | e);
    assert(c == 4u32 ==> (a | b | c | d | e) & 4u32 == 4u32) by (bit_vector);
    assert((a == 0u32 || a == 1u32) && (b == 0u32 || b == 2u32) && c == 0u32 && (d == 0u32 || d
        == 8u32) && (e == 0u32 || e == 16u32) ==> (a | b | c | d | e) & 4u32 == 0u32) by (bit_vector);
}

/// The parent pid from the process's own status file.
pub fn status_ppid(status: &str) -> (pp: u32)
    ensures
        pp == spec_status_ppid(status@),
{
    match crate::procfs::status_field_u32(status, "PPid:") {
        Some(v) => v,
        Option::None => 0,
    }
}

fn names_debugger_exec(cmdline: &str) -> (r: bool)
    ensures
        r == names_debugger(cmdline@),
{
    let parts = split_char(cmdline, '\0');
    let joined = crate::procfs::join_with_spaces(&parts);
    let n = to_lowercase(joined.as_str());
    let s = n.as_str();
    str_contains(s, "gdb") || str_contains(s, "lldb") || str_contains(s, "strace") || str_contains(s, "ltrace")
}

fn count_suspicious_lines(maps: &str) -> (n: usize)
    ensures
        n == count_suspicious(split_lines_spec(maps@)),
{
    let lines = split_lines(maps);
    let ghost lv = strings_view(lines@);
    let mut n: usize = 0;
    let mut i: usize = 0;
    while i < lines.len()
        invariant
            i <= lines@.len(),
            lv == strings_view(lines@),
            n == count_suspicious(lv.subrange(0, i as int)),
            n <= i,
        decreases lines@.len() - i,
    {
        proof {
            assert(lv.subrange(0, i + 1).drop_last() =~= lv.subrange(0, i as int));
            assert(lv[i as int] == lines@[i as int]@);
        }
        let l = lines[i].as_str();
        if str_contains(l, "rwx") || str_contains(l, "(deleted)") {
            n = n + 1;
        }
        i = i + 1;
    }
    proof {
        assert(lv.subrange(0, lines@.len() as int) =~= lv);
    }
    n
}

/// Works out the debugger state from the status file, the ptrace scope
/// setting, the parent's command line (when it was read) and the maps file.
pub fn debugger_state(status: &str, ptrace_scope: &str, parent_cmdline: Option<&str>, maps: &str) -> (r:
    (u32, u32, u32))
    ensures
        r == spec_debugger_state(
            status@,
            ptrace_scope@,
            match parent_cmdline {
                Some(c) => Some(c@),
                Option::None => Option::None,
            },
            maps@,
        ),
{
    let tracer = match crate::procfs::status_field_u32(status, "TracerPid:") {
        Some(t) => t,
        Option::None => 0,
    };
    let scope_text = crate::procfs::trim_str(ptrace_scope);
    let scope = match crate::procfs::parse_u32_str(scope_text.as_str()) {
        Some(v) => v,
        Option::None => 1,
    };
    let parent_bad = match parent_cmdline {
        Some(c) => names_debugger_exec(c),
        Option::None => false,
    };
    let susp = count_suspicious_lines(maps);
    let vdso = str_contains(maps, "[vdso]");
    let traced: u32 = if tracer != 0 {
        1
    } else {
        0
    };
    let scope_open: u32 = if scope == 0 {
        2
    } else {
        0
    };
    let parent_flag: u32 = if parent_bad {
        4
    } else {
        0
    };
    let maps_flag: u32 = if susp > 5 {
        8
    } else {
        0
    };
    let vdso_flag: u32 = if !vdso {
        16
    } else {
        0
    };
    (traced | scope_open | parent_flag | maps_flag | vdso_flag, tracer, susp as u32)
}

/// Writes the debugger module's report (flags, tracer, suspicious count),
/// padded to 32 words.
pub fn debugger_report(buf: &mut DataBuffer, flags: u32, tracer: u32, suspicious: u32)
    requires
        old(buf).wf(),
    ensures
        final(buf).wf(),
        (final(buf).words(), final(buf).pos()) == module_write(
            (old(buf).words(), old(buf).pos()),
            seq![flags, tracer, suspicious],
            32,
        ),
{
    let mut words: Vec<u32> = Vec::new();
    words.push(flags);
    words.push(tracer);
    words.push(suspicious);
    proof {
        assert(words@ =~= seq![flags, tracer, suspicious]);
    }
    write_module(buf, &words, 32);
}


// ---------------------------------------------------------------------------
// Module 4: game assemblies
// ---------------------------------------------------------------------------

/// Number of game assemblies that must be loaded.
pub const GAME_ASSEMBLIES_LEN: usize = 7;

/// Game assembly `i` (lowercase file name).
pub open spec fn spec_game_assembly(i: int) -> Seq<char> {
    if i == 0 { "assembly-csharp.dll"@ }
    else if i == 1 { "assembly-csharp-firstpass.dll"@ }
    else if i == 2 { "facepunch.console.dll"@ }
    else if i == 3 { "facepunch.network.dll"@ }
    else if i == 4 { "facepunch.unity.dll"@ }
    else if i == 5 { "unityengine.dll"@ }
    else { "unityengine.coremodule.dll"@ }
}

/// Game assembly `i`.
pub fn game_assembly(i: usize) -> (s: &'static str)
    requires
        i < GAME_ASSEMBLIES_LEN,
    ensures
        s@ == spec_game_assembly(i as int),
{
    if i == 0 { "assembly-csharp.dll" }
    else if i == 1 { "assembly-csharp-firstpass.dll" }
    else if i == 2 { "facepunch.console.dll" }
    else if i == 3 { "facepunch.network.dll" }
    else if i == 4 { "facepunch.unity.dll" }
    else if i == 5 { "unityengine.dll" }
    else { "unityengine.coremodule.dll" }
}

/// Number of words that mark a tampering assembly.
pub const BAD_ASSEMBLY_WORDS_LEN: usize = 4;

/// Word `i` that marks a tampering assembly.
pub open spec fn spec_bad_assembly_word(i: int) -> Seq<char> {
    if i == 0 { "harmony"@ }
    else if i == 1 { "inject"@ }
    else if i == 2 { "loader"@ }
    else { "cheat"@ }
}

/// Word `i` that marks a tampering assembly.
pub fn bad_assembly_word(i: usize) -> (s: &'static str)
    requires
        i < BAD_ASSEMBLY_WORDS_LEN,
    ensures
        s@ == spec_bad_assembly_word(i as int),
{
    if i == 0 { "harmony" }
    else if i == 1 { "inject" }
    else if i == 2 { "loader" }
    else { "cheat" }
}

/// Number of known cheat and tool names the client looks for.
pub const CLIENT_CHEATS_LEN: usize = 30;

/// Known cheat or tool name `i` (lowercase).
pub open spec fn spec_client_cheat(i: int) -> Seq<char> {
    if i == 0 { "cheatengine"@ }
    else if i == 1 { "cheat engine"@ }
    else if i == 2 { "artmoney"@ }
    else if i == 3 { "gameguardian"@ }
    else if i == 4 { "wemod"@ }
    else if i == 5 { "trainer"@ }
    else if i == 6 { "injector"@ }
    else if i == 7 { "reclass"@ }
    else if i == 8 { "x64dbg"@ }
    else if i == 9 { "x32dbg"@ }
    else if i == 10 { "ollydbg"@ }
    else if i == 11 { "dnspy"@ }
    else if i == 12 { "de4dot"@ }
    else if i == 13 { "confuser"@ }
    else if i == 14 { "processhacker"@ }
    else if i == 15 { "process explorer"@ }
    else if i == 16 { "pchunter"@ }
    else if i == 17 { "frida"@ }
    else if i == 18 { "gdb"@ }
    else if i == 19 { "lldb"@ }
    else if i == 20 { "strace"@ }
    else if i == 21 { "ltrace"@ }
    else if i == 22 { "httrack"@ }
    else if i == 23 { "wireshark"@ }
    else if i == 24 { "tcpdump"@ }
    else if i == 25 { "mitmproxy"@ }
    else if i == 26 { "burpsuite"@ }
    else if i == 27 { "fiddler"@ }
    else if i == 28 { "proxifier"@ }
    else { "sockscap"@ }
}

/// Known cheat or tool name `i`.
pub fn client_cheat(i: usize) -> (s: &'static str)
    requires
        i < CLIENT_CHEATS_LEN,
    ensures
        s@ == spec_client_cheat(i as int),
{
    if i == 0 { "cheatengine" }
    else if i == 1 { "cheat engine" }
    else if i == 2 { "artmoney" }
    else if i == 3 { "gameguardian" }
    else if i == 4 { "wemod" }
    else if i == 5 { "trainer" }
    else if i == 6 { "injector" }
    else if i == 7 { "reclass" }
    else if i == 8 { "x64dbg" }
    else if i == 9 { "x32dbg" }
    else if i == 10 { "ollydbg" }
    else if i == 11 { "dnspy" }
    else if i == 12 { "de4dot" }
    else if i == 13 { "confuser" }
    else if i == 14 { "processhacker" }
    else if i == 15 { "process explorer" }
    else if i == 16 { "pchunter" }
    else if i == 17 { "frida" }
    else if i == 18 { "gdb" }
    else if i == 19 { "lldb" }
    else if i == 20 { "strace" }
    else if i == 21 { "ltrace" }
    else if i == 22 { "httrack" }
    else if i == 23 { "wireshark" }
    else if i == 24 { "tcpdump" }
    else if i == 25 { "mitmproxy" }
    else if i == 26 { "burpsuite" }
    else if i == 27 { "fiddler" }
    else if i == 28 { "proxifier" }
    else { "sockscap" }
}

/// The lowercase names of a list.
pub open spec fn lowered(names: Seq<String>) -> Seq<Seq<char>> {
    names.map_values(|n: String| unicode_lowercase(n@))
}

/// Some name contains `t`.
pub open spec fn any_contains(names: Seq<Seq<char>>, t: Seq<char>) -> bool {
    exists|i: int| 0 <= i < names.len() && has_text(#[trigger] names[i], t)
}

/// Some game assembly is missing from the (lowercase) library names.
pub open spec fn assembly_missing(names: Seq<Seq<char>>) -> bool {
    exists|t: int| 0 <= t < GAME_ASSEMBLIES_LEN && !any_contains(names, #[trigger] spec_game_assembly(t))
}

/// A (lowercase) library name marks a tampering assembly.
pub open spec fn is_bad_assembly(n: Seq<char>) -> bool {
    exists|w: int| 0 <= w < BAD_ASSEMBLY_WORDS_LEN && has_text(n, #[trigger] spec_bad_assembly_word(w))
}

/// Number of tampering assemblies.
pub open spec fn count_bad_assemblies(names: Seq<Seq<char>>) -> nat
    decreases names.len(),
{
    if names.len() == 0 {
        0
    } else {
        count_bad_assemblies(names.drop_last()) + if is_bad_assembly(names.last()) {
            1nat
        } else {
            0nat
        }
    }
}

fn lower_all(names: &Vec<String>) -> (v: Vec<String>)
    ensures
        strings_view(v@) == lowered(names@),
{
    let mut v: Vec<String> = Vec::new();
    let mut i: usize = 0;
    while i < names.len()
        invariant
            i <= names@.len(),
            strings_view(v@) == lowered(names@).subrange(0, i as int),
        decreases names@.len() - i,
    {
        let l = to_lowercase(names[i].as_str());
        let ghost before = strings_view(v@);
        v.push(l);
        proof {
            assert(strings_view(v@) =~= before.push(l@));
            assert(lowered(names@).subrange(0, i + 1) =~= lowered(names@).subrange(0, i as int).push(
                unicode_lowercase(names@[i as int]@),
            ));
        }
        i = i + 1;
    }
    proof {
        assert(lowered(names@).subrange(0, names@.len() as int) =~= lowered(names@));
    }
    v
}

fn contains_in_any(names: &Vec<String>, t: &str) -> (r: bool)
    ensures
        r == any_contains(strings_view(names@), t@),
{
    let mut i: usize = 0;
    while i < names.len()
        invariant
            i <= names@.len(),
            forall|q: int| 0 <= q < i ==> !has_text(strings_view(names@)[q], t@),
        decreases names@.len() - i,
    {
        if str_contains(names[i].as_str(), t) {
            proof {
                assert(has_text(strings_view(names@)[i as int], t@));
            }
            return true;
        }
        i = i + 1;
    }
    false
}

fn bad_assembly(n: &str) -> (r: bool)
    ensures
        r == is_bad_assembly(n@),
{
    let mut w: usize = 0;
    while w < BAD_ASSEMBLY_WORDS_LEN
        invariant
            w <= BAD_ASSEMBLY_WORDS_LEN,
            forall|q: int| 0 <= q < w ==> !has_text(n@, #[trigger] spec_bad_assembly_word(q)),
        decreases BAD_ASSEMBLY_WORDS_LEN - w,
    {
        if str_contains(n, bad_assembly_word(w)) {
            return true;
        }
        w = w + 1;
    }
    false
}

/// The assemblies module's words: 1 when a game assembly is missing (else
/// 0), then the number of tampering assemblies.
pub open spec fn assemblies_words(names: Seq<String>) -> Seq<u32> {
    let l = lowered(names);
    seq![
        if assembly_missing(l) {
            1u32
        } else {
            0u32
        },
        count_bad_assemblies(l) as u32,
    ]
}

/// Writes the assemblies module's report from the loaded libraries' names,
/// padded to 32 words.
pub fn assemblies_report(buf: &mut DataBuffer, names: &Vec<String>)
    requires
        old(buf).wf(),
        names@.len() <= u32::MAX,
    ensures
        final(buf).wf(),
        (final(buf).words(), final(buf).pos()) == module_write(
            (old(buf).words(), old(buf).pos()),
            assemblies_words(names@),
            32,
        ),
{
    let lower = lower_all(names);
    let ghost lv = strings_view(lower@);
    proof {
        assert(lv.len() == lower@.len());
        assert(lowered(names@).len() == names@.len());
    }
    let mut missing = false;
    let mut t: usize = 0;
    while t < GAME_ASSEMBLIES_LEN
        invariant
            t <= GAME_ASSEMBLIES_LEN,
            lv == strings_view(lower@),
            missing == (exists|q: int| 0 <= q < t && !any_contains(lv, #[trigger] spec_game_assembly(q))),
        decreases GAME_ASSEMBLIES_LEN - t,
    {
        if !contains_in_any(&lower, game_assembly(t)) {
            missing = true;
        }
        t = t + 1;
    }
    let mut bad: u32 = 0;
    let mut i: usize = 0;
    while i < lower.len()
        invariant
            i <= lower@.len(),
            lv == strings_view(lower@),
            bad == count_bad_assemblies(lv.subrange(0, i as int)),
            bad <= i,
            lower@.len() == names@.len(),
            names@.len() <= u32::MAX,
        decreases lower@.len() - i,
    {
        proof {
            assert(lv.subrange(0, i + 1).drop_last() =~= lv.subrange(0, i as int));
            assert(lv[i as int] == lower@[i as int]@);
        }
        if bad_assembly(lower[i].as_str()) {
            bad = bad + 1;
        }
        i = i + 1;
    }
    proof {
        assert(lv.subrange(0, lower@.len() as int) =~= lv);
    }
    let mut words: Vec<u32> = Vec::new();
    words.push(if missing { 1 } else { 0 });
    words.push(bad);
    proof {
        assert(words@ =~= assemblies_words(names@));
    }
    write_module(buf, &words, 32);
}

// ---------------------------------------------------------------------------
// Module 5: environment
// ---------------------------------------------------------------------------

/// The flag one (lowercase) environment variable raises.
pub open spec fn env_flag(k: Seq<char>, v: Seq<char>) -> u32 {
    if k == "ld_preload"@ {
        if v.len() > 0 { 1 } else { 0 }
    } else if k == "ld_library_path"@ {
        if has_text(v, "."@) || has_text(v, ".."@) || has_text(v, "tmp"@) { 2 } else { 0 }
    } else if k == "ld_audit"@ {
        if v.len() > 0 { 4 } else { 0 }
    } else if k == "ld_debug"@ {
        if v.len() > 0 { 8 } else { 0 }
    } else if k == "mono_debug"@ {
        if v.len() > 0 { 16 } else { 0 }
    } else if k == "mono_env_options"@ {
        if v.len() > 0 { 32 } else { 0 }
    } else if k == "winedlloverages"@ {
        if v.len() > 0 { 64 } else { 0 }
    } else {
        0
    }
}

/// The flags of a list of environment variables (names and values case
/// folded).
pub open spec fn env_flags(vars: Seq<(String, String)>) -> u32
    decreases vars.len(),
{
    if vars.len() == 0 {
        0
    } else {
        env_flags(vars.drop_last()) | env_flag(
            unicode_lowercase(vars.last().0@),
            unicode_lowercase(vars.last().1@),
        )
    }
}

fn env_flag_exec(k: &str, v: &str) -> (f: u32)
    ensures
        f == env_flag(k@, v@),
{
    let nonempty = !v.is_empty();
    if text_eq(k, "ld_preload") {
        if nonempty { 1 } else { 0 }
    } else if text_eq(k, "ld_library_path") {
        if str_contains(v, ".") || str_contains(v, "..") || str_contains(v, "tmp") { 2 } else { 0 }
    } else if text_eq(k, "ld_audit") {
        if nonempty { 4 } else { 0 }
    } else if text_eq(k, "ld_debug") {
        if nonempty { 8 } else { 0 }
    } else if text_eq(k, "mono_debug") {
        if nonempty { 16 } else { 0 }
    } else if text_eq(k, "mono_env_options") {
        if nonempty { 32 } else { 0 }
    } else if text_eq(k, "winedlloverages") {
        if nonempty { 64 } else { 0 }
    } else {
        0
    }
}

/// Writes the environment module's report from the process environment,
/// padded to 16 words.
pub fn environment_report(buf: &mut DataBuffer, vars: &Vec<(String, String)>)
    requires
        old(buf).wf(),
    ensures
        final(buf).wf(),
        (final(buf).words(), final(buf).pos()) == module_write(
            (old(buf).words(), old(buf).pos()),
            seq![env_flags(vars@)],
            16,
        ),
{
    let mut flags: u32 = 0;
    let mut i: usize = 0;
    while i < vars.len()
        invariant
            i <= vars@.len(),
            flags == env_flags(vars@.subrange(0, i as int)),
        decreases vars@.len() - i,
    {
        proof {
            assert(vars@.subrange(0, i + 1).drop_last() =~= vars@.subrange(0, i as int));
        }
        let k = to_lowercase(vars[i].0.as_str());
        let v = to_lowercase(vars[i].1.as_str());
        flags = flags | env_flag_exec(k.as_str(), v.as_str());
        i = i + 1;
    }
    proof {
        assert(vars@.subrange(0, vars@.len() as int) =~= vars@);
    }
    let mut words: Vec<u32> = Vec::new();
    words.push(flags);
    proof {
        assert(words@ =~= seq![env_flags(vars@)]);
    }
    write_module(buf, &words, 16);
}

// ---------------------------------------------------------------------------
// Module 6: known cheat processes
// ---------------------------------------------------------------------------

/// A (lowercase) process name contains a known cheat name.
pub open spec fn is_client_cheat(n: Seq<char>) -> bool {
    exists|c: int| 0 <= c < CLIENT_CHEATS_LEN && has_text(n, #[trigger] spec_client_cheat(c))
}

/// The pids of the processes whose names contain a known cheat name.
pub open spec fn cheat_pids(procs: Seq<(u32, u32, String)>) -> Seq<u32>
    decreases procs.len(),
{
    if procs.len() == 0 {
        Seq::empty()
    } else {
        let rest = cheat_pids(procs.drop_last());
        if is_client_cheat(unicode_lowercase(procs.last().2@)) {
            rest.push(procs.last().0)
        } else {
            rest
        }
    }
}

/// The cheats module's words: the number of cheat processes, then the first
/// 32 of their pids.
pub open spec fn cheats_words(procs: Seq<(u32, u32, String)>) -> Seq<u32> {
    let found = cheat_pids(procs);
    seq![found.len() as u32] + if found.len() <= 32 {
        found
    } else {
        found.subrange(0, 32)
    }
}

fn client_cheat_name(n: &str) -> (r: bool)
    ensures
        r == is_client_cheat(n@),
{
    let mut c: usize = 0;
    while c < CLIENT_CHEATS_LEN
        invariant
            c <= CLIENT_CHEATS_LEN,
            forall|q: int| 0 <= q < c ==> !has_text(n@, #[trigger] spec_client_cheat(q)),
        decreases CLIENT_CHEATS_LEN - c,
    {
        if str_contains(n, client_cheat(c)) {
            return true;
        }
        c = c + 1;
    }
    false
}

/// Writes the cheats module's report from the kernel's process list,
/// padded to 64 words.
pub fn cheats_report(buf: &mut DataBuffer, procs: &[(u32, u32, String)])
    requires
        old(buf).wf(),
    ensures
        final(buf).wf(),
        (final(buf).words(), final(buf).pos()) == module_write(
            (old(buf).words(), old(buf).pos()),
            cheats_words(procs@),
            64,
        ),
{
    let mut found: Vec<u32> = Vec::new();
    let mut i: usize = 0;
    while i < procs.len()
        invariant
            i <= procs@.len(),
            found@ == cheat_pids(procs@.subrange(0, i as int)),
        decreases procs@.len() - i,
    {
        proof {
            assert(procs@.subrange(0, i + 1).drop_last() =~= procs@.subrange(0, i as int));
        }
        let lower = to_lowercase(procs[i].2.as_str());
        if client_cheat_name(lower.as_str()) {
            found.push(procs[i].0);
        }
        i = i + 1;
    }
    proof {
        assert(procs@.subrange(0, procs@.len() as int) =~= procs@);
    }
    let mut words: Vec<u32> = Vec::new();
    words.push(found.len() as u32);
    let n = if found.len() <= 32 {
        found.len()
    } else {
        32
    };
    let mut k: usize = 0;
    while k < n
        invariant
            k <= n <= found@.len(),
            words@ == seq![found@.len() as u32] + found@.subrange(0, k as int),
        decreases n - k,
    {
        words.push(found[k]);
        proof {
            assert(found@.subrange(0, k + 1) =~= found@.subrange(0, k as int).push(found@[k as int]));
        }
        k = k + 1;
    }
    proof {
        if found@.len() <= 32 {
            assert(found@.subrange(0, n as int) =~= found@);
        }
        assert(words@ =~= cheats_words(procs@));
    }
    write_module(buf, &words, 64);
}

// ---------------------------------------------------------------------------
// Module 10: the game process
// ---------------------------------------------------------------------------

/// A (lowercase) process name is the game's.
pub open spec fn is_game_name(lower: Seq<char>) -> bool {
    has_prefix(lower, "rustclient"@)
}

/// Index of the first game process, or the length.
pub open spec fn first_game_index(procs: Seq<(u32, u32, String)>, i: int) -> int
    decreases procs.len() - i,
{
    if i < 0 || i >= procs.len() {
        procs.len() as int
    } else if is_game_name(unicode_lowercase(procs[i].2@)) {
        i
    } else {
        first_game_index(procs, i + 1)
    }
}

/// The pid of the first game process in a process list, if any.
pub open spec fn spec_game_pid(procs: Option<Seq<(u32, u32, String)>>) -> Option<u32> {
    match procs {
        Option::None => Option::None,
        Some(p) => {
            let i = first_game_index(p, 0);
            if i < p.len() {
                Some(p[i].0)
            } else {
                Option::None
            }
        },
    }
}

/// Finds the game process in the user-mode process list.
pub fn find_game_pid(procs: Option<&[(u32, u32, String)]>) -> (r: Option<u32>)
    ensures
        r == spec_game_pid(
            match procs {
                Some(p) => Some(p@),
                Option::None => Option::None,
            },
        ),
{
    match procs {
        Option::None => Option::None,
        Some(p) => {
            let mut i: usize = 0;
            while i < p.len()
                invariant
                    i <= p@.len(),
                    procs == Some(p),
                    first_game_index(p@, 0) == first_game_index(p@, i as int),
                decreases p@.len() - i,
            {
                let lower = to_lowercase(p[i].2.as_str());
                if crate::procfs::strip_prefix_str(lower.as_str(), "rustclient").is_some() {
                    proof {
                        assert(first_game_index(p@, i as int) == i);
                    }
                    return Some(p[i].0);
                }
                i = i + 1;
            }
            Option::None
        },
    }
}

/// Whether a maps line of the game counts as RWX, and as private
/// executable (anonymous, deleted or memfd backing), when executable.
pub open spec fn game_line_counts(line: Seq<char>) -> (nat, nat) {
    let w = split_ws(line);
    if w.len() < 5 {
        (0, 0)
    } else {
        let perms = w[1];
        let path = if w.len() > 5 {
            w[5]
        } else {
            Seq::empty()
        };
        if has_text(perms, "x"@) {
            (
                if has_text(perms, "rwx"@) {
                    1nat
                } else {
                    0nat
                },
                if path.len() == 0 || has_text(path, "(deleted)"@) || has_prefix(path, "/memfd:"@) {
                    1nat
                } else {
                    0nat
                },
            )
        } else {
            (0, 0)
        }
    }
}

/// RWX and private executable counts over the game's maps lines.
pub open spec fn game_counts(lines: Seq<Seq<char>>) -> (nat, nat)
    decreases lines.len(),
{
    if lines.len() == 0 {
        (0, 0)
    } else {
        let prev = game_counts(lines.drop_last());
        let c = game_line_counts(lines.last());
        (prev.0 + c.0, prev.1 + c.1)
    }
}

proof fn lemma_game_counts_bounded(lines: Seq<Seq<char>>)
    ensures
        game_counts(lines).0 <= lines.len(),
        game_counts(lines).1 <= lines.len(),
    decreases lines.len(),
{
    if lines.len() > 0 {
        lemma_game_counts_bounded(lines.drop_last());
    }
}

/// The game scan's result `(rwx, private exec, status, header mismatches)`
/// from the game's maps file: status 3 when it could not be read, else 2.
pub open spec fn spec_game_scan(maps: Option<Seq<char>>) -> (u32, u32, u32, u32) {
    match maps {
        Option::None => (0, 0, 3, 0),
        Some(m) => {
            let c = game_counts(split_lines_spec(m));
            (c.0 as u32, c.1 as u32, 2, 0)
        },
    }
}

/// Scans the game's maps file (when it could be read).
pub fn game_scan_maps(maps: Option<&str>) -> (r: (u32, u32, u32, u32))
    ensures
        r == spec_game_scan(
            match maps {
                Some(m) => Some(m@),
                Option::None => Option::None,
            },
        ),
{
    let m = match maps {
        Option::None => {
            return (0, 0, 3, 0);
        },
        Some(m) => m,
    };
    let lines = split_lines(m);
    let ghost lv = strings_view(lines@);
    let mut rwx: u64 = 0;
    let mut priv_exec: u64 = 0;
    let mut i: usize = 0;
    while i < lines.len()
        invariant
            i <= lines@.len(),
            lv == strings_view(lines@),
            (rwx as nat, priv_exec as nat) == game_counts(lv.subrange(0, i as int)),
            rwx <= i,
            priv_exec <= i,
        decreases lines@.len() - i,
    {
        proof {
            assert(lv.subrange(0, i + 1).drop_last() =~= lv.subrange(0, i as int));
            assert(lv[i as int] == lines@[i as int]@);
        }
        let w = split_whitespace(lines[i].as_str());
        let ghost wv = strings_view(w@);
        if w.len() >= 5 {
            proof {
                assert(wv[1] == w@[1]@);
            }
            let perms = w[1].as_str();
            let empty = String::new();
            let path: &str = if w.len() > 5 {
                proof {
                    assert(wv[5] == w@[5]@);
                }
                w[5].as_str()
            } else {
                empty.as_str()
            };
            if str_contains(perms, "x") {
                if str_contains(perms, "rwx") {
                    rwx = rwx + 1;
                }
                if path.is_empty() || str_contains(path, "(deleted)")
                    || crate::procfs::strip_prefix_str(path, "/memfd:").is_some() {
                    priv_exec = priv_exec + 1;
                }
            }
        }
        i = i + 1;
    }
    proof {
        assert(lv.subrange(0, lines@.len() as int) =~= lv);
    }
    (rwx as u32, priv_exec as u32, 2, 0)
}

/// The game module's words: found, pid, status, rwx, private exec, header
/// mismatches; a missing game is `0, 0, 1, 0, 0, 0`.
pub open spec fn game_words(pid: Option<u32>, scan: (u32, u32, u32, u32)) -> Seq<u32> {
    match pid {
        Some(p) => seq![1u32, p, scan.2, scan.0, scan.1, scan.3],
        Option::None => seq![0u32, 0u32, 1u32, 0u32, 0u32, 0u32],
    }
}

/// Writes the game module's report, padded to 8 words.
pub fn game_report(buf: &mut DataBuffer, pid: Option<u32>, scan: (u32, u32, u32, u32))
    requires
        old(buf).wf(),
    ensures
        final(buf).wf(),
        (final(buf).words(), final(buf).pos()) == module_write(
            (old(buf).words(), old(buf).pos()),
            game_words(pid, scan),
            8,
        ),
{
    let mut words: Vec<u32> = Vec::new();
    match pid {
        Some(p) => {
            words.push(1);
            words.push(p);
            words.push(scan.2);
            words.push(scan.0);
            words.push(scan.1);
            words.push(scan.3);
        },
        Option::None => {
            words.push(0);
            words.push(0);
            words.push(1);
            words.push(0);
            words.push(0);
            words.push(0);
        },
    }
    proof {
        assert(words@ =~= game_words(pid, scan));
    }
    write_module(buf, &words, 8);
}

/// Whether a Windows page protection allows execution (any
/// `PAGE_EXECUTE*` bit).
pub fn is_exec_protect(prot: u32) -> (r: bool)
    ensures
        r == (prot & 0xF0 != 0),
{
    prot & 0xF0 != 0
}


/// A committed region.
pub const MEM_COMMIT: u32 = 0x1000;
/// A region mapped from an executable image.
pub const MEM_IMAGE: u32 = 0x100_0000;
/// A private region.
pub const MEM_PRIVATE: u32 = 0x20000;
/// The guard-page bit of a protection.
pub const PAGE_GUARD: u32 = 0x100;

/// One region of a game process as the scan sees it: state, type,
/// protection, and for executable image regions the two header bytes when
/// both could be read.
pub open spec fn game_region_step(c: (nat, nat, nat), r: (u32, u32, u32, Option<(u8, u8)>)) -> (nat, nat, nat) {
    let (state, kind, protect, header) = r;
    let prot = protect & !PAGE_GUARD;
    let exec = prot & 0xF0u32 != 0;
    if state != MEM_COMMIT {
        c
    } else if kind == MEM_PRIVATE && exec {
        (
            c.0 + if prot == 0x40u32 || prot == 0x80u32 {
                1nat
            } else {
                0nat
            },
            c.1 + 1,
            c.2,
        )
    } else if kind == MEM_IMAGE && exec {
        match header {
            Some((a, b)) => if !(a == 0x4du8 && b == 0x5au8) {
                (c.0, c.1, c.2 + 1)
            } else {
                c
            },
            Option::None => c,
        }
    } else {
        c
    }
}

/// The counts of a game process's regions: writable-executable private
/// regions, private executable regions, and executable images whose header
/// is not `MZ`.
pub open spec fn game_region_counts(r: Seq<(u32, u32, u32, Option<(u8, u8)>)>) -> (nat, nat, nat)
    decreases r.len(),
{
    if r.len() == 0 {
        (0, 0, 0)
    } else {
        game_region_step(game_region_counts(r.drop_last()), r.last())
    }
}

proof fn lemma_game_region_counts_bounded(r: Seq<(u32, u32, u32, Option<(u8, u8)>)>)
    ensures
        game_region_counts(r).0 <= r.len(),
        game_region_counts(r).1 <= r.len(),
        game_region_counts(r).2 <= r.len(),
    decreases r.len(),
{
    if r.len() > 0 {
        lemma_game_region_counts_bounded(r.drop_last());
    }
}

/// Counts a game process's regions for the game-process scan: the result
/// is `[rwx, private executable, 2 (scanned), header mismatches]`.
pub fn game_region_scan(regions: &[(u32, u32, u32, Option<(u8, u8)>)]) -> (r: (u32, u32, u32, u32))
    requires
        regions@.len() <= u32::MAX,
    ensures
        r.0 == game_region_counts(regions@).0,
        r.1 == game_region_counts(regions@).1,
        r.2 == 2,
        r.3 == game_region_counts(regions@).2,
{
    let mut rwx: u32 = 0;
    let mut private_exec: u32 = 0;
    let mut mismatch: u32 = 0;
    let mut i: usize = 0;
    while i < regions.len()
        invariant
            i <= regions@.len() <= u32::MAX,
            game_region_counts(regions@.subrange(0, i as int)) == (
                rwx as nat,
                private_exec as nat,
                mismatch as nat,
            ),
        decreases regions@.len() - i,
    {
        proof {
            assert(regions@.subrange(0, i + 1).drop_last() =~= regions@.subrange(0, i as int));
            lemma_game_region_counts_bounded(regions@.subrange(0, i as int));
        }
        let (state, kind, protect, header) = regions[i];
        if state == MEM_COMMIT {
            let prot = protect & !PAGE_GUARD;
            let exec = is_exec_protect(prot);
            if kind == MEM_PRIVATE && exec {
                private_exec = private_exec + 1;
                if prot == 0x40 || prot == 0x80 {
                    rwx = rwx + 1;
                }
            } else if kind == MEM_IMAGE && exec {
                match header {
                    Some((a, b)) => {
                        if !(a == 0x4d && b == 0x5a) {
                            mismatch = mismatch + 1;
                        }
                    },
                    Option::None => {},
                }
            }
        }
        i = i + 1;
    }
    proof {
        assert(regions@.subrange(0, regions@.len() as int) =~= regions@);
    }
    (rwx, private_exec, 2, mismatch)
}

/// Counts the committed private executable regions (the debugger check's
/// region count on Windows).
pub fn private_exec_regions(regions: &[(u32, u32, u32, Option<(u8, u8)>)]) -> (n: u32)
    requires
        regions@.len() <= u32::MAX,
    ensures
        n == game_region_counts(regions@).1,
{
    game_region_scan(regions).1
}

} // verus!
