//! The Windows daemon's own logic: its `key = value` configuration file,
//! the Steam ID found in Steam's `loginusers.vdf`, and the memory region
//! summary it reports.
use vstd::prelude::*;
use vstd::string::{StringSliceAdditionalSpecFns, StringExecFns, StrSliceExecFns};
use crate::procfs::{parse_u64_str, text_eq, trim_str};
use crate::text::{
    ascii_chars, collect_chars, find_char, first_index_of, occurs_at, split_lines, split_lines_spec,
    strings_view, to_lowercase, trim_ws, unicode_lowercase,
};
use crate::tokens::{parse_u64_chars, spec_parse_u64};

verus! {

// ---------------------------------------------------------------------------
// The configuration file
// ---------------------------------------------------------------------------

/// The daemon's settings: the server address and the player's Steam ID.
pub struct DaemonConfig {
    pub server: String,
    pub steam_id: Option<u64>,
}

/// The settings after one more line: blank lines and lines starting with
/// `#` or `;` are skipped; otherwise the text before the first `=` is the
/// key (trimmed, lowercased) and the trimmed text after it the value.  Key
/// `server` sets the address; key `steam_id` sets the Steam ID, or clears it
/// when the value does not parse.
pub open spec fn config_step(cfg: (Seq<char>, Option<u64>), raw: Seq<char>) -> (Seq<char>, Option<u64>) {
    let line = trim_ws(raw);
    if line.len() == 0 || line[0] == '#' || line[0] == ';' {
        cfg
    } else {
        let eq = first_index_of(line, '=', 0);
        if eq >= line.len() {
            cfg
        } else {
            let key = unicode_lowercase(trim_ws(line.subrange(0, eq)));
            let val = trim_ws(line.subrange(eq + 1, line.len() as int));
            if key == "server"@ {
                (val, cfg.1)
            } else if key == "steam_id"@ {
                (cfg.0, spec_parse_u64(val))
            } else {
                cfg
            }
        }
    }
}

/// The settings of a list of lines, read in order from empty settings.
pub open spec fn config_of(lines: Seq<Seq<char>>) -> (Seq<char>, Option<u64>)
    decreases lines.len(),
{
    if lines.len() == 0 {
        (Seq::empty(), Option::None)
    } else {
        config_step(config_of(lines.drop_last()), lines.last())
    }
}

/// Reads the configuration file's text.
pub fn parse_daemon_config(content: &str) -> (c: DaemonConfig)
    ensures
        (c.server@, c.steam_id) == config_of(split_lines_spec(content@)),
{
    let lines = split_lines(content);
    let ghost lv = strings_view(lines@);
    let mut server = String::new();
    let mut steam_id: Option<u64> = Option::None;
    let mut i: usize = 0;
    proof {
        assert(lv.subrange(0, 0) =~= Seq::<Seq<char>>::empty());
    }
    while i < lines.len()
        invariant
            i <= lines@.len(),
            lv == strings_view(lines@),
            lv == split_lines_spec(content@),
            (server@, steam_id) == config_of(lv.subrange(0, i as int)),
        decreases lines@.len() - i,
    {
        proof {
            assert(lv.subrange(0, i + 1).drop_last() =~= lv.subrange(0, i as int));
            assert(lv.subrange(0, i + 1).last() == lines@[i as int]@);
        }
        let line = trim_str(lines[i].as_str());
        let cs = collect_chars(line.as_str());
        if cs.len() > 0 && cs[0] != '#' && cs[0] != ';' {
            let eq = find_char(&cs, '=', 0);
            if eq < cs.len() {
                let key_raw = trim_str(line.as_str().substring_char(0, eq));
                let key = to_lowercase(key_raw.as_str());
                let val = trim_str(line.as_str().substring_char(eq + 1, cs.len()));
                if text_eq(key.as_str(), "server") {
                    server = val;
                } else if text_eq(key.as_str(), "steam_id") {
                    steam_id = parse_u64_str(val.as_str());
                }
            }
        }
        i = i + 1;
    }
    proof {
        assert(lv.subrange(0, lines@.len() as int) =~= lv);
    }
    DaemonConfig { server, steam_id }
}

// ---------------------------------------------------------------------------
// loginusers.vdf
// ---------------------------------------------------------------------------

/// The first index at or after `from` where `needle` occurs in `hay`.
pub open spec fn find_bytes_from(hay: Seq<u8>, needle: Seq<u8>, from: int) -> Option<int>
    decreases hay.len() + 1 - from,
{
    if from < 0 || from + needle.len() > hay.len() {
        Option::None
    } else if occurs_at(hay, needle, from) {
        Some(from)
    } else {
        find_bytes_from(hay, needle, from + 1)
    }
}

/// The first Steam ID in the `"users"` block: after the first `"users"`,
/// the block opened by the next `{` is scanned for a quoted key at the top
/// level of the block that parses as a number.
pub open spec fn spec_steam_id(content: Seq<u8>) -> Option<u64> {
    match find_bytes_from(content, "\"users\""@.map_values(|c: char| c as u8), 0) {
        Some(start) => match find_bytes_from(content, seq![123u8], start) {
            Some(brace) => vdf_scan(content.subrange(brace + 1, content.len() as int), 0, 1),
            Option::None => Option::None,
        },
        Option::None => Option::None,
    }
}

/// Scans the text of a block from `i` at nesting depth `depth`: `{` and
/// `}` change the depth, and at depth 1 a quoted key that parses as a
/// number is the answer; the scan ends when the block closes, the text
/// ends, or a quote is left open.
pub open spec fn vdf_scan(rest: Seq<u8>, i: int, depth: int) -> Option<u64>
    decreases rest.len() - i,
{
    if i < 0 || i >= rest.len() || depth <= 0 {
        Option::None
    } else if rest[i] == 123u8 {
        vdf_scan(rest, i + 1, depth + 1)
    } else if rest[i] == 125u8 {
        vdf_scan(rest, i + 1, depth - 1)
    } else if rest[i] == 34u8 && depth == 1 {
        proof {
            lemma_find_bytes_bounds(rest, seq![34u8], i + 1);
        }
        match find_bytes_from(rest, seq![34u8], i + 1) {
            Some(e) => match spec_parse_u64(ascii_chars(rest.subrange(i + 1, e))) {
                Some(sid) => Some(sid),
                Option::None => vdf_scan(rest, e + 1, depth),
            },
            Option::None => Option::None,
        }
    } else {
        vdf_scan(rest, i + 1, depth)
    }
}

/// A found needle lies within the text, at or after where the search began.
pub proof fn lemma_find_bytes_bounds(hay: Seq<u8>, needle: Seq<u8>, from: int)
    requires
        0 <= from,
    ensures
        find_bytes_from(hay, needle, from) matches Some(k) ==> from <= k && k + needle.len() <= hay.len()
            && occurs_at(hay, needle, k),
    decreases hay.len() + 1 - from,
{
    if from + needle.len() <= hay.len() && !occurs_at(hay, needle, from) {
        lemma_find_bytes_bounds(hay, needle, from + 1);
    }
}

fn find_bytes(hay: &[u8], needle: &[u8], from: usize) -> (r: Option<usize>)
    ensures
        match r {
            Some(k) => find_bytes_from(hay@, needle@, from as int) == Some(k as int),
            Option::None => find_bytes_from(hay@, needle@, from as int) is None,
        },
{
    let n = hay.len();
    let m = needle.len();
    if m > n || from > n - m {
        return Option::None;
    }
    let mut i = from;
    loop
        invariant
            from <= i <= n - m,
            m <= n,
            n == hay@.len(),
            m == needle@.len(),
            find_bytes_from(hay@, needle@, from as int) == find_bytes_from(hay@, needle@, i as int),
        decreases n - m - i,
    {
        let mut j: usize = 0;
        let mut same = true;
        proof {
            assert(hay@.subrange(i as int, i as int) =~= needle@.subrange(0, 0));
        }
        while j < m
            invariant
                j <= m,
                i + m <= n,
                n == hay@.len(),
                m == needle@.len(),
                same == (hay@.subrange(i as int, i + j) == needle@.subrange(0, j as int)),
            decreases m - j,
        {
            if hay[i + j] != needle[j] {
                proof {
                    assert(hay@.subrange(i as int, i + j + 1)[j as int] != needle@.subrange(
                        0,
                        j + 1,
                    )[j as int]);
                }
                same = false;
            }
            proof {
                if same {
                    assert(hay@.subrange(i as int, i + j + 1) =~= needle@.subrange(0, j + 1));
                } else if hay@[i + j] == needle@[j as int] {
                    assert(hay@.subrange(i as int, i + j + 1).subrange(0, j as int) =~= hay@.subrange(
                        i as int,
                        i + j,
                    ));
                    assert(needle@.subrange(0, j + 1).subrange(0, j as int) =~= needle@.subrange(
                        0,
                        j as int,
                    ));
                }
            }
            j = j + 1;
        }
        proof {
            assert(needle@.subrange(0, m as int) =~= needle@);
        }
        if same {
            return Some(i);
        }
        if i == n - m {
            proof {
                assert(!occurs_at(hay@, needle@, i as int));
                assert(find_bytes_from(hay@, needle@, i + 1) is None);
            }
            return Option::None;
        }
        i = i + 1;
    }
}

fn parse_ascii_u64(b: &[u8]) -> (r: Option<u64>)
    ensures
        r == spec_parse_u64(ascii_chars(b@)),
{
    let mut v: Vec<char> = Vec::new();
    let mut i: usize = 0;
    while i < b.len()
        invariant
            i <= b@.len(),
            v@ == ascii_chars(b@.subrange(0, i as int)),
        decreases b@.len() - i,
    {
        v.push(b[i] as char);
        proof {
            assert(v@ =~= ascii_chars(b@.subrange(0, i + 1)));
        }
        i = i + 1;
    }
    proof {
        assert(b@.subrange(0, b@.len() as int) =~= b@);
        assert(v@.subrange(0, v@.len() as int) =~= v@);
    }
    parse_u64_chars(&v, 0, v.len())
}

/// Finds the Steam ID in the text of Steam's `loginusers.vdf`.
pub fn parse_loginusers_vdf(content: &[u8]) -> (r: Option<u64>)
    ensures
        r == spec_steam_id(content@),
{
    let users: [u8; 7] = [34, 117, 115, 101, 114, 115, 34];
    proof {
        reveal_strlit("\"users\"");
        assert(users@ =~= "\"users\""@.map_values(|c: char| c as u8));
    }
    let start = match find_bytes(content, users.as_slice(), 0) {
        Some(s) => s,
        Option::None => {
            return Option::None;
        },
    };
    proof {
        lemma_find_bytes_bounds(content@, users@, 0);
    }
    let open: [u8; 1] = [123];
    proof {
        assert(open@ =~= seq![123u8]);
    }
    let brace = match find_bytes(content, open.as_slice(), start) {
        Some(b) => b,
        Option::None => {
            return Option::None;
        },
    };
    proof {
        lemma_find_bytes_bounds(content@, open@, start as int);
        assert(brace + 1 <= content@.len());
    }
    let total = content.len();
    let rest = vstd::slice::slice_subrange(content, brace + 1, total);
    let n = rest.len();
    assert(n < usize::MAX);
    assert(spec_steam_id(content@) == vdf_scan(rest@, 0, 1));
    let quote: [u8; 1] = [34];
    proof {
        assert(quote@ =~= seq![34u8]);
    }
    let mut depth: usize = 1;
    let mut i: usize = 0;
    while i < n && depth > 0
        invariant
            i <= n,
            n == rest@.len(),
            n < usize::MAX,
            depth <= i + 1,
            spec_steam_id(content@) == vdf_scan(rest@, 0, 1),
            quote@ == seq![34u8],
            vdf_scan(rest@, 0, 1) == vdf_scan(rest@, i as int, depth as int),
        decreases n - i,
    {
        let c = rest[i];
        if c == 123 {
            depth = depth + 1;
        } else if c == 125 {
            depth = depth - 1;
        } else if c == 34 && depth == 1 {
            match find_bytes(rest, quote.as_slice(), i + 1) {
                Some(e) => {
                    proof {
                        lemma_find_bytes_bounds(rest@, quote@, i + 1);
                    }
                    let key = vstd::slice::slice_subrange(rest, i + 1, e);
                    match parse_ascii_u64(key) {
                        Some(sid) => {
                            return Some(sid);
                        },
                        Option::None => {
                            i = e;
                        },
                    }
                },
                Option::None => {
                    return Option::None;
                },
            }
        }
        i = i + 1;
    }
    Option::None
}


// ---------------------------------------------------------------------------
// Memory regions
// ---------------------------------------------------------------------------

/// The three-letter permissions of a committed region with protection
/// `protect` (the guard bit ignored): executable only with the
/// `PAGE_EXECUTE` bit, writable with `PAGE_EXECUTE_READWRITE` or the
/// read-write bit, readable with the read-only or read-write bit or when
/// executable.
pub open spec fn spec_region_perms(protect: u32) -> Seq<char> {
    let prot = protect & !0x100u32;
    let exec = prot & 0x10u32 != 0;
    let write = prot == 0x40u32 || prot & 0x02u32 != 0;
    let read = prot & 0x04u32 != 0 || prot & 0x02u32 != 0 || exec;
    seq![
        if read {
            'r'
        } else {
            '-'
        },
        if write {
            'w'
        } else {
            '-'
        },
        if exec {
            'x'
        } else {
            '-'
        },
    ]
}

/// The permissions text of a region.
pub fn region_perms(protect: u32) -> (s: String)
    ensures
        s@ == spec_region_perms(protect),
{
    let prot = protect & !0x100u32;
    let exec = prot & 0x10u32 != 0;
    let write = prot == 0x40u32 || prot & 0x02u32 != 0;
    let read = prot & 0x04u32 != 0 || prot & 0x02u32 != 0 || exec;
    let s = if read {
        if write {
            if exec { "rwx" } else { "rw-" }
        } else {
            if exec { "r-x" } else { "r--" }
        }
    } else {
        if write {
            if exec { "-wx" } else { "-w-" }
        } else {
            if exec { "--x" } else { "---" }
        }
    };
    proof {
        reveal_strlit("rwx");
        reveal_strlit("rw-");
        reveal_strlit("r-x");
        reveal_strlit("r--");
        reveal_strlit("-wx");
        reveal_strlit("-w-");
        reveal_strlit("--x");
        reveal_strlit("---");
        assert(s@ =~= spec_region_perms(protect));
    }
    String::from_str(s)
}

/// The name of a Windows service state code (`dwCurrentState`): 1 to 7 are
/// STOPPED, START_PENDING, STOP_PENDING, RUNNING, CONTINUE_PENDING,
/// PAUSE_PENDING and PAUSED; any other code is UNKNOWN.
pub open spec fn spec_service_state(code: u32) -> Seq<char> {
    if code == 1 {
        "STOPPED"@
    } else if code == 2 {
        "START_PENDING"@
    } else if code == 3 {
        "STOP_PENDING"@
    } else if code == 4 {
        "RUNNING"@
    } else if code == 5 {
        "CONTINUE_PENDING"@
    } else if code == 6 {
        "PAUSE_PENDING"@
    } else if code == 7 {
        "PAUSED"@
    } else {
        "UNKNOWN"@
    }
}

/// The state text the service list reports for a state code.
pub fn service_state_text(code: u32) -> (s: String)
    ensures
        s@ == spec_service_state(code),
{
    let t = if code == 1 {
        "STOPPED"
    } else if code == 2 {
        "START_PENDING"
    } else if code == 3 {
        "STOP_PENDING"
    } else if code == 4 {
        "RUNNING"
    } else if code == 5 {
        "CONTINUE_PENDING"
    } else if code == 6 {
        "PAUSE_PENDING"
    } else if code == 7 {
        "PAUSED"
    } else {
        "UNKNOWN"
    };
    String::from_str(t)
}

/// Whether a path names a Windows executable image (`.dll`, `.exe`, `.sys`).
pub open spec fn is_pe_path(path: Seq<char>) -> bool {
    let n = path.len();
    n >= 4 && (path.subrange(n - 4, n as int) == ".dll"@ || path.subrange(n - 4, n as int)
        == ".exe"@ || path.subrange(n - 4, n as int) == ".sys"@)
}

/// Whether the first bytes of an executable image's region contradict it:
/// they do not start with `MZ`.
pub open spec fn spec_pe_mismatch(path: Seq<char>, header: Seq<u8>) -> bool {
    is_pe_path(path) && !(header.len() >= 2 && header[0] == 0x4du8 && header[1] == 0x5au8)
}

/// One region as the daemon sees it: permissions, mapped file (empty when
/// none), and the first bytes read from the kernel side (`None` when not
/// read).
pub open spec fn region_view(r: (String, String, Option<Vec<u8>>)) -> (Seq<char>, Seq<char>, Option<Seq<u8>>) {
    (r.0@, r.1@, match r.2 {
        Some(h) => Some(h@),
        Option::None => Option::None,
    })
}

/// The counts of a list of regions: RWX, executable but not writable and
/// not file-backed, all regions, and executable file-backed images whose
/// header was read and contradicts them.
pub open spec fn win_region_counts(r: Seq<(Seq<char>, Seq<char>, Option<Seq<u8>>)>) -> (nat, nat, nat, nat)
    decreases r.len(),
{
    if r.len() == 0 {
        (0, 0, 0, 0)
    } else {
        let c = win_region_counts(r.drop_last());
        let (perms, path, header) = r.last();
        let exec = perms.contains('x');
        (
            c.0 + if perms == "rwx"@ {
                1nat
            } else {
                0nat
            },
            c.1 + if exec && !perms.contains('w') && path.len() == 0 {
                1nat
            } else {
                0nat
            },
            c.2 + 1,
            c.3 + match header {
                Some(h) => if exec && path.len() > 0 && spec_pe_mismatch(path, h) {
                    1nat
                } else {
                    0nat
                },
                Option::None => 0nat,
            },
        )
    }
}

proof fn lemma_win_counts_bounded(r: Seq<(Seq<char>, Seq<char>, Option<Seq<u8>>)>)
    ensures
        win_region_counts(r).0 <= r.len(),
        win_region_counts(r).1 <= r.len(),
        win_region_counts(r).2 == r.len(),
        win_region_counts(r).3 <= r.len(),
    decreases r.len(),
{
    if r.len() > 0 {
        lemma_win_counts_bounded(r.drop_last());
    }
}

fn ends_with_text(s: &str, suffix: &str) -> (r: bool)
    ensures
        r == (s@.len() >= suffix@.len() && s@.subrange(s@.len() - suffix@.len(), s@.len() as int)
            == suffix@),
{
    let n = s.unicode_len();
    let m = suffix.unicode_len();
    if n < m {
        return false;
    }
    let tail = s.substring_char(n - m, n);
    text_eq(tail, suffix)
}

/// Whether a region's first bytes contradict its executable image.
pub fn pe_mismatch(path: &str, header: &[u8]) -> (r: bool)
    ensures
        r == spec_pe_mismatch(path@, header@),
{
    proof {
        reveal_strlit(".dll");
        reveal_strlit(".exe");
        reveal_strlit(".sys");
    }
    let pe = ends_with_text(path, ".dll") || ends_with_text(path, ".exe") || ends_with_text(path, ".sys");
    pe && !(header.len() >= 2 && header[0] == 0x4d && header[1] == 0x5a)
}

/// Counts the daemon's memory regions: RWX, anonymous executable, all, and
/// contradicted executable images.
pub fn win_memory_counts(regions: &[(String, String, Option<Vec<u8>>)]) -> (c: (u32, u32, u32, u32))
    requires
        regions@.len() <= u32::MAX,
    ensures
        ({
            let w = win_region_counts(regions@.map_values(|r: (String, String, Option<Vec<u8>>)| region_view(r)));
            c.0 == w.0 && c.1 == w.1 && c.2 == w.2 && c.3 == w.3
        }),
{
    let ghost rv = regions@.map_values(|r: (String, String, Option<Vec<u8>>)| region_view(r));
    let mut rwx: u32 = 0;
    let mut anon: u32 = 0;
    let mut checked: u32 = 0;
    let mut bad: u32 = 0;
    let mut i: usize = 0;
    proof {
        reveal_strlit("rwx");
    }
    while i < regions.len()
        invariant
            i <= regions@.len() <= u32::MAX,
            rv == regions@.map_values(|r: (String, String, Option<Vec<u8>>)| region_view(r)),
            "rwx"@ == seq!['r', 'w', 'x'],
            win_region_counts(rv.subrange(0, i as int)) == (rwx as nat, anon as nat, checked as nat, bad as nat),
        decreases regions@.len() - i,
    {
        proof {
            assert(rv.subrange(0, i + 1).drop_last() =~= rv.subrange(0, i as int));
            assert(rv.subrange(0, i + 1).last() == region_view(regions@[i as int]));
            lemma_win_counts_bounded(rv.subrange(0, i as int));
        }
        let perms = regions[i].0.as_str();
        let path = regions[i].1.as_str();
        let exec = crate::machine::has_char(perms, 'x');
        if text_eq(perms, "rwx") {
            rwx = rwx + 1;
        }
        if exec && !crate::machine::has_char(perms, 'w') && path.unicode_len() == 0 {
            anon = anon + 1;
        }
        checked = checked + 1;
        match &regions[i].2 {
            Some(h) => {
                if exec && path.unicode_len() > 0 && pe_mismatch(path, h.as_slice()) {
                    bad = bad + 1;
                }
            },
            Option::None => {},
        }
        i = i + 1;
    }
    proof {
        assert(rv.subrange(0, regions@.len() as int) =~= rv);
    }
    (rwx, anon, checked, bad)
}

} // verus!
