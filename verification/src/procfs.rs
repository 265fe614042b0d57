//! Readers for the text the kernel exposes under `/proc`: process stat
//! lines, the module list, mount information, service listings and command
//! lines.
use vstd::prelude::*;
use vstd::string::{StringSliceAdditionalSpecFns, StringExecFns, StrSliceExecFns};
use vstd::utf8::{encode_utf8, decode_utf8, valid_utf8};
use crate::text::{
    collect_chars, find_char, first_index_of, lemma_first_index_bounds, split_lines, split_lines_spec,
    split_whitespace, split_ws, strings_view, trim_bounds, trim_ws,
};
use crate::tokens::{parse_u64_chars, spec_parse_u64};
use crate::sysinfo::{KernelModuleInfo, MountInfo, ServiceInfo};
use crate::server_modules::{lemma_stable_order_is_stable_sort, pick, sort_indices_by_key, stable_order};

verus! {

// ---------------------------------------------------------------------------
// Searching and numbers
// ---------------------------------------------------------------------------

/// The first index of `c` in `s` (`str::find`).
pub open spec fn find_spec(s: Seq<char>, c: char) -> Option<int> {
    let i = first_index_of(s, c, 0);
    if i < s.len() {
        Some(i)
    } else {
        Option::None
    }
}

/// The last index of `c` in `s[..j]`, or -1.
pub open spec fn last_index_before(s: Seq<char>, c: char, j: int) -> int
    decreases j,
{
    if j <= 0 || j > s.len() {
        -1
    } else if s[j - 1] == c {
        j - 1
    } else {
        last_index_before(s, c, j - 1)
    }
}

/// The last index of `c` in `s` (`str::rfind`).
pub open spec fn rfind_spec(s: Seq<char>, c: char) -> Option<int> {
    let i = last_index_before(s, c, s.len() as int);
    if i >= 0 {
        Some(i)
    } else {
        Option::None
    }
}

/// The first index of `c` in `v`.
pub fn find_first(v: &Vec<char>, c: char) -> (r: Option<usize>)
    ensures
        match r {
            Some(i) => find_spec(v@, c) == Some(i as int),
            Option::None => find_spec(v@, c) is None,
        },
{
    let i = find_char(v, c, 0);
    if i < v.len() {
        Some(i)
    } else {
        Option::None
    }
}

/// The last index of `c` in `v`.
pub fn find_last(v: &Vec<char>, c: char) -> (r: Option<usize>)
    ensures
        match r {
            Some(i) => rfind_spec(v@, c) == Some(i as int) && i < v@.len(),
            Option::None => rfind_spec(v@, c) is None,
        },
{
    let mut j = v.len();
    while j > 0 && v[j - 1] != c
        invariant
            j <= v@.len(),
            last_index_before(v@, c, v@.len() as int) == last_index_before(v@, c, j as int),
        decreases j,
    {
        j = j - 1;
    }
    if j == 0 {
        Option::None
    } else {
        Some(j - 1)
    }
}

/// What `str::parse::<u32>` accepts.
pub open spec fn spec_parse_u32(s: Seq<char>) -> Option<u32> {
    match spec_parse_u64(s) {
        Some(v) => if v <= u32::MAX {
            Some(v as u32)
        } else {
            Option::None
        },
        Option::None => Option::None,
    }
}

/// Parses text as `str::parse::<u32>` does.
pub fn parse_u32_str(s: &str) -> (r: Option<u32>)
    ensures
        r == spec_parse_u32(s@),
{
    let v = collect_chars(s);
    proof {
        assert(v@.subrange(0, v@.len() as int) =~= v@);
    }
    match parse_u64_chars(&v, 0, v.len()) {
        Some(x) => if x <= u32::MAX as u64 {
            Some(x as u32)
        } else {
            Option::None
        },
        Option::None => Option::None,
    }
}

/// Parses text as `str::parse::<u64>` does.
pub fn parse_u64_str(s: &str) -> (r: Option<u64>)
    ensures
        r == spec_parse_u64(s@),
{
    let v = collect_chars(s);
    proof {
        assert(v@.subrange(0, v@.len() as int) =~= v@);
    }
    parse_u64_chars(&v, 0, v.len())
}

/// The text with leading and trailing whitespace removed (`str::trim`).
pub fn trim_str(s: &str) -> (t: String)
    ensures
        t@ == trim_ws(s@),
{
    let v = collect_chars(s);
    let (a, b) = trim_bounds(&v);
    String::from_str(s.substring_char(a, b))
}

// ---------------------------------------------------------------------------
// Process stat lines
// ---------------------------------------------------------------------------

/// The words after the last `)` of a stat line.
pub open spec fn stat_fields(stat: Seq<char>, close: int) -> Seq<Seq<char>> {
    split_ws(trim_ws(stat.subrange(close + 1, stat.len() as int)))
}

/// The parent pid in a `/proc/<pid>/stat` line: the second field after the
/// command name.
pub open spec fn spec_parse_ppid(stat: Seq<char>) -> Option<u32> {
    match rfind_spec(stat, ')') {
        Option::None => Option::None,
        Some(close) => {
            let parts = stat_fields(stat, close);
            if parts.len() >= 2 {
                spec_parse_u32(parts[1])
            } else {
                Option::None
            }
        },
    }
}

fn stat_fields_after(stat: &str, v: &Vec<char>, close: usize) -> (w: Vec<String>)
    requires
        v@ == stat@,
        close < v@.len(),
    ensures
        strings_view(w@) == stat_fields(stat@, close as int),
{
    let n = v.len();
    let rest = stat.substring_char(close + 1, n);
    let t = trim_str(rest);
    split_whitespace(t.as_str())
}

/// Reads the parent pid from a stat line.
pub fn parse_ppid(stat: &str) -> (r: Option<u32>)
    ensures
        r == spec_parse_ppid(stat@),
{
    let v = collect_chars(stat);
    let close = match find_last(&v, ')') {
        Some(c) => c,
        Option::None => {
            return Option::None;
        },
    };
    let parts = stat_fields_after(stat, &v, close);
    if parts.len() >= 2 {
        proof {
            assert(strings_view(parts@)[1] == parts@[1]@);
        }
        parse_u32_str(parts[1].as_str())
    } else {
        Option::None
    }
}

/// Whether a stat line's command name can be cut out: when both parentheses
/// are present, the last `)` does not come before the first `(`.
pub open spec fn comm_bounds_ok(stat: Seq<char>) -> bool {
    match (find_spec(stat, '('), rfind_spec(stat, ')')) {
        (Some(o), Some(c)) => o + 1 <= c,
        _ => true,
    }
}

/// The command name of a stat line: the text between the first `(` and the
/// last `)`.
pub open spec fn spec_parse_comm(stat: Seq<char>) -> Option<Seq<char>> {
    match (find_spec(stat, '('), rfind_spec(stat, ')')) {
        (Some(o), Some(c)) => Some(stat.subrange(o + 1, c)),
        _ => Option::None,
    }
}

/// Whether `parse_comm` can cut out the name of this line.
pub fn comm_bounds_fit(stat: &str) -> (ok: bool)
    ensures
        ok == comm_bounds_ok(stat@),
{
    let v = collect_chars(stat);
    match (find_first(&v, '('), find_last(&v, ')')) {
        (Some(o), Some(c)) => o < c,
        _ => true,
    }
}

/// Reads the command name from a stat line.
pub fn parse_comm(stat: &str) -> (r: Option<String>)
    requires
        comm_bounds_ok(stat@),
    ensures
        match r {
            Some(s) => spec_parse_comm(stat@) == Some(s@),
            Option::None => spec_parse_comm(stat@) is None,
        },
{
    let v = collect_chars(stat);
    let open = match find_first(&v, '(') {
        Some(o) => o,
        Option::None => {
            return Option::None;
        },
    };
    let close = match find_last(&v, ')') {
        Some(c) => c,
        Option::None => {
            return Option::None;
        },
    };
    Some(String::from_str(stat.substring_char(open + 1, close)))
}

/// The daemon's view of one `/proc` entry: the pid (the directory name) and
/// command name of a process, unless the name does not parse, the stat line
/// has no well-ordered parentheses, or it is a kernel thread (pid 2 or a
/// child of pid 2).
pub open spec fn spec_user_proc_entry(dir: Seq<char>, stat: Seq<char>) -> Option<(u32, Seq<char>)> {
    match spec_parse_u32(dir) {
        Option::None => Option::None,
        Some(pid) => match (rfind_spec(stat, ')'), find_spec(stat, '(')) {
            (Some(close), Some(open)) => if open + 1 >= close {
                Option::None
            } else {
                let parts = stat_fields(stat, close);
                let ppid = if parts.len() >= 2 {
                    match spec_parse_u32(parts[1]) {
                        Some(v) => v,
                        Option::None => 0,
                    }
                } else {
                    0
                };
                if pid == 2 || ppid == 2 {
                    Option::None
                } else {
                    Some((pid, stat.subrange(open + 1, close)))
                }
            },
            _ => Option::None,
        },
    }
}

/// Reads one `/proc/<dir>/stat` line for the user-mode process list.
pub fn user_proc_entry(dir: &str, stat: &str) -> (r: Option<(u32, String)>)
    ensures
        match r {
            Some((pid, comm)) => spec_user_proc_entry(dir@, stat@) == Some((pid, comm@)),
            Option::None => spec_user_proc_entry(dir@, stat@) is None,
        },
{
    let pid = match parse_u32_str(dir) {
        Some(p) => p,
        Option::None => {
            return Option::None;
        },
    };
    let v = collect_chars(stat);
    let close = match find_last(&v, ')') {
        Some(c) => c,
        Option::None => {
            return Option::None;
        },
    };
    let open = match find_first(&v, '(') {
        Some(o) => o,
        Option::None => {
            return Option::None;
        },
    };
    if open + 1 >= close {
        return Option::None;
    }
    let parts = stat_fields_after(stat, &v, close);
    let ppid = if parts.len() >= 2 {
        proof {
            assert(strings_view(parts@)[1] == parts@[1]@);
        }
        match parse_u32_str(parts[1].as_str()) {
            Some(x) => x,
            Option::None => 0,
        }
    } else {
        0
    };
    if pid == 2 || ppid == 2 {
        return Option::None;
    }
    Some((pid, String::from_str(stat.substring_char(open + 1, close))))
}

// ---------------------------------------------------------------------------
// Pieces of text
// ---------------------------------------------------------------------------

/// `s[i..]` split at every `c` (`str::split` with a character), keeping
/// empty pieces.
pub open spec fn pieces_from(s: Seq<char>, c: char, i: int) -> Seq<Seq<char>>
    decreases s.len() + 1 - i,
{
    if i < 0 || i > s.len() {
        Seq::empty()
    } else {
        let e = first_index_of(s, c, i);
        proof {
            if i < s.len() {
                lemma_first_index_bounds(s, c, i);
            }
        }
        if e >= s.len() {
            seq![s.subrange(i, s.len() as int)]
        } else {
            seq![s.subrange(i, e)] + pieces_from(s, c, e + 1)
        }
    }
}

/// `s` split at every `c`.
pub open spec fn split_char_spec(s: Seq<char>, c: char) -> Seq<Seq<char>> {
    pieces_from(s, c, 0)
}

/// Splits text at every `c`, keeping empty pieces.
pub fn split_char(s: &str, c: char) -> (v: Vec<String>)
    ensures
        strings_view(v@) == split_char_spec(s@, c),
{
    let cs = collect_chars(s);
    let n = cs.len();
    let mut v: Vec<String> = Vec::new();
    let mut i: usize = 0;
    proof {
        assert(strings_view(v@) =~= Seq::<Seq<char>>::empty());
    }
    loop
        invariant
            cs@ == s@,
            n == cs@.len(),
            i <= n,
            split_char_spec(s@, c) == strings_view(v@) + pieces_from(s@, c, i as int),
        decreases n + 1 - i,
    {
        let e = find_char(&cs, c, i);
        let piece = s.substring_char(i, e);
        let ghost before = strings_view(v@);
        v.push(String::from_str(piece));
        proof {
            assert(strings_view(v@) =~= before.push(piece@));
        }
        if e >= n {
            proof {
                assert(strings_view(v@) =~= before + pieces_from(s@, c, i as int));
            }
            return v;
        }
        proof {
            assert(strings_view(v@) + pieces_from(s@, c, e + 1) =~= before + pieces_from(s@, c, i as int));
        }
        i = e + 1;
    }
}

/// Whether `s` starts with `p`.
pub open spec fn has_prefix(s: Seq<char>, p: Seq<char>) -> bool {
    p.len() <= s.len() && s.subrange(0, p.len() as int) == p
}

/// `s` without the prefix `p`, if it has it (`str::strip_prefix`).
pub open spec fn strip_prefix_spec(s: Seq<char>, p: Seq<char>) -> Option<Seq<char>> {
    if has_prefix(s, p) {
        Some(s.subrange(p.len() as int, s.len() as int))
    } else {
        Option::None
    }
}

/// Removes the prefix `p` from `s`, if it has it.
pub fn strip_prefix_str(s: &str, p: &str) -> (r: Option<String>)
    ensures
        match r {
            Some(t) => strip_prefix_spec(s@, p@) == Some(t@),
            Option::None => strip_prefix_spec(s@, p@) is None,
        },
{
    let sv = collect_chars(s);
    let pv = collect_chars(p);
    if pv.len() > sv.len() {
        return Option::None;
    }
    let mut k: usize = 0;
    while k < pv.len()
        invariant
            sv@ == s@,
            pv@ == p@,
            pv@.len() <= sv@.len(),
            k <= pv@.len(),
            forall|q: int| 0 <= q < k ==> sv@[q] == pv@[q],
        decreases pv@.len() - k,
    {
        if sv[k] != pv[k] {
            proof {
                assert(sv@.subrange(0, pv@.len() as int)[k as int] != pv@[k as int]);
            }
            return Option::None;
        }
        k = k + 1;
    }
    proof {
        assert(sv@.subrange(0, pv@.len() as int) =~= pv@);
    }
    Some(String::from_str(s.substring_char(pv.len(), sv.len())))
}

/// `s` with every trailing `c` removed (`str::trim_end_matches` with a
/// character).
pub open spec fn trim_end_char(s: Seq<char>, c: char) -> Seq<char>
    decreases s.len(),
{
    if s.len() > 0 && s.last() == c {
        trim_end_char(s.drop_last(), c)
    } else {
        s
    }
}

/// Removes every trailing `c`.
pub fn trim_end_char_str(s: &str, c: char) -> (t: String)
    ensures
        t@ == trim_end_char(s@, c),
{
    let v = collect_chars(s);
    let mut j = v.len();
    proof {
        assert(v@.subrange(0, v@.len() as int) =~= v@);
    }
    while j > 0 && v[j - 1] == c
        invariant
            v@ == s@,
            j <= v@.len(),
            trim_end_char(v@, c) == trim_end_char(v@.subrange(0, j as int), c),
        decreases j,
    {
        proof {
            assert(v@.subrange(0, j as int).drop_last() =~= v@.subrange(0, j - 1));
        }
        j = j - 1;
    }
    proof {
        assert(v@.subrange(0, v@.len() as int) =~= v@);
    }
    String::from_str(s.substring_char(0, j))
}

/// `s` with every trailing copy of `suffix` removed (`str::trim_end_matches`
/// with a string).
pub open spec fn trim_end_str(s: Seq<char>, suffix: Seq<char>) -> Seq<char>
    decreases s.len(),
{
    if suffix.len() > 0 && suffix.len() <= s.len() && s.subrange(s.len() - suffix.len(), s.len() as int)
        == suffix {
        trim_end_str(s.subrange(0, s.len() - suffix.len()), suffix)
    } else {
        s
    }
}

/// Removes every trailing copy of `suffix`.
pub fn trim_end_str_str(s: &str, suffix: &str) -> (t: String)
    ensures
        t@ == trim_end_str(s@, suffix@),
{
    let v = collect_chars(s);
    let sv = collect_chars(suffix);
    let m = sv.len();
    let mut j = v.len();
    if m == 0 {
        return String::from_str(s);
    }
    proof {
        assert(v@.subrange(0, v@.len() as int) =~= v@);
    }
    loop
        invariant
            v@ == s@,
            sv@ == suffix@,
            j <= v@.len(),
            m == sv@.len(),
            m > 0,
            trim_end_str(v@, sv@) == trim_end_str(v@.subrange(0, j as int), sv@),
        ensures
            j <= v@.len(),
            trim_end_str(v@, sv@) == v@.subrange(0, j as int),
        decreases j,
    {
        if m > j {
            return String::from_str(s.substring_char(0, j));
        }
        let mut k: usize = 0;
        let mut same = true;
        while k < m
            invariant
                m <= j <= v@.len(),
                m == sv@.len(),
                k <= m,
                same == (forall|q: int| 0 <= q < k ==> v@[j - m + q] == sv@[q]),
            decreases m - k,
        {
            if v[j - m + k] != sv[k] {
                same = false;
            }
            k = k + 1;
        }
        proof {
            let t = v@.subrange(0, j as int);
            if same {
                assert(t.subrange(t.len() - m, t.len() as int) =~= sv@);
                assert(t.subrange(0, t.len() - m) =~= v@.subrange(0, j - m));
            } else {
                assert(t.subrange(t.len() - m, t.len() as int) != sv@) by {
                    let q = choose|q: int| 0 <= q < m && v@[j - m + q] != sv@[q];
                    assert(t.subrange(t.len() - m, t.len() as int)[q] != sv@[q]);
                }
            }
        }
        if !same {
            break;
        }
        j = j - m;
    }
    proof {
        assert(v@.subrange(0, v@.len() as int) =~= v@);
    }
    String::from_str(s.substring_char(0, j))
}

// ---------------------------------------------------------------------------
// Line-oriented files
// ---------------------------------------------------------------------------

/// The rest of the first line that starts with `prefix`, if any.
pub open spec fn first_with_prefix(lines: Seq<Seq<char>>, prefix: Seq<char>) -> Option<Seq<char>>
    decreases lines.len(),
{
    if lines.len() == 0 {
        Option::None
    } else {
        match strip_prefix_spec(lines[0], prefix) {
            Some(rest) => Some(rest),
            Option::None => first_with_prefix(lines.drop_first(), prefix),
        }
    }
}

/// The rest of the first line of `content` that starts with `prefix`.
pub fn line_after_prefix(content: &str, prefix: &str) -> (r: Option<String>)
    ensures
        match r {
            Some(t) => first_with_prefix(split_lines_spec(content@), prefix@) == Some(t@),
            Option::None => first_with_prefix(split_lines_spec(content@), prefix@) is None,
        },
{
    let lines = split_lines(content);
    let ghost lv = strings_view(lines@);
    let mut i: usize = 0;
    proof {
        assert(lv.subrange(0, lv.len() as int) =~= lv);
    }
    while i < lines.len()
        invariant
            i <= lines@.len(),
            lv == strings_view(lines@),
            lv == split_lines_spec(content@),
            first_with_prefix(lv, prefix@) == first_with_prefix(lv.subrange(i as int, lv.len() as int), prefix@),
        decreases lines@.len() - i,
    {
        proof {
            let t = lv.subrange(i as int, lv.len() as int);
            assert(t[0] == lines@[i as int]@);
            assert(t.drop_first() =~= lv.subrange(i + 1, lv.len() as int));
        }
        match strip_prefix_str(lines[i].as_str(), prefix) {
            Some(rest) => {
                return Some(rest);
            },
            Option::None => {},
        }
        i = i + 1;
    }
    Option::None
}

/// The kernel module described by one line of `/proc/modules`: at least
/// six words `name size refcount deps state address`.
pub open spec fn module_line_entry(line: Seq<char>) -> Option<(Seq<char>, u64, u32, Seq<Seq<char>>, u64)> {
    let p = split_ws(line);
    if p.len() < 6 {
        Option::None
    } else {
        let deps = if p[3] == seq!['-'] {
            Seq::empty()
        } else {
            split_char_spec(p[3], ',')
        };
        Some(
            (
                p[0],
                match spec_parse_u64(p[1]) {
                    Some(v) => v,
                    Option::None => 0,
                },
                match spec_parse_u32(p[2]) {
                    Some(v) => v,
                    Option::None => 0,
                },
                deps,
                match crate::text::spec_parse_hex_u64(trim_end_char(p[5], ']')) {
                    Some(v) => v,
                    Option::None => 0,
                },
            ),
        )
    }
}

/// The view of a kernel module record.
pub open spec fn module_view(m: KernelModuleInfo) -> (Seq<char>, u64, u32, Seq<Seq<char>>, u64) {
    (m.name@, m.size, m.refcount, strings_view(m.dependencies@), m.address)
}

/// The modules of the lines of `/proc/modules`.
pub open spec fn modules_of(lines: Seq<Seq<char>>) -> Seq<(Seq<char>, u64, u32, Seq<Seq<char>>, u64)>
    decreases lines.len(),
{
    if lines.len() == 0 {
        Seq::empty()
    } else {
        let rest = modules_of(lines.drop_last());
        match module_line_entry(lines.last()) {
            Some(m) => rest.push(m),
            Option::None => rest,
        }
    }
}

fn parse_module_line(line: &str) -> (r: Option<KernelModuleInfo>)
    ensures
        match r {
            Some(m) => module_line_entry(line@) == Some(module_view(m)),
            Option::None => module_line_entry(line@) is None,
        },
{
    let p = split_whitespace(line);
    let ghost pv = strings_view(p@);
    if p.len() < 6 {
        return Option::None;
    }
    proof {
        assert(pv[0] == p@[0]@);
        assert(pv[1] == p@[1]@);
        assert(pv[2] == p@[2]@);
        assert(pv[3] == p@[3]@);
        assert(pv[5] == p@[5]@);
    }
    let dv = collect_chars(p[3].as_str());
    let dependencies = if dv.len() == 1 && dv[0] == '-' {
        proof {
            assert(dv@ =~= seq!['-']);
        }
        let e: Vec<String> = Vec::new();
        proof {
            assert(strings_view(e@) =~= Seq::<Seq<char>>::empty());
        }
        e
    } else {
        proof {
            if pv[3] == seq!['-'] {
                assert(dv@.len() == 1 && dv@[0] == '-');
            }
        }
        split_char(p[3].as_str(), ',')
    };
    let size = match parse_u64_str(p[1].as_str()) {
        Some(v) => v,
        Option::None => 0,
    };
    let refcount = match parse_u32_str(p[2].as_str()) {
        Some(v) => v,
        Option::None => 0,
    };
    let addr_text = trim_end_char_str(p[5].as_str(), ']');
    let address = match crate::text::parse_hex_u64(addr_text.as_str()) {
        Some(v) => v,
        Option::None => 0,
    };
    Some(KernelModuleInfo { name: p[0].clone(), size, refcount, dependencies, address })
}

/// Parses `/proc/modules`.
pub fn parse_kernel_modules(content: &str) -> (mods: Vec<KernelModuleInfo>)
    ensures
        mods@.map_values(|m: KernelModuleInfo| module_view(m)) == modules_of(split_lines_spec(content@)),
{
    let lines = split_lines(content);
    let ghost lv = strings_view(lines@);
    let mut mods: Vec<KernelModuleInfo> = Vec::new();
    let mut i: usize = 0;
    proof {
        assert(mods@.map_values(|m: KernelModuleInfo| module_view(m)) =~= modules_of(lv.subrange(0, 0)));
    }
    while i < lines.len()
        invariant
            i <= lines@.len(),
            lv == strings_view(lines@),
            mods@.map_values(|m: KernelModuleInfo| module_view(m)) == modules_of(lv.subrange(0, i as int)),
        decreases lines@.len() - i,
    {
        let ghost before = mods@;
        proof {
            assert(lv.subrange(0, i + 1).drop_last() =~= lv.subrange(0, i as int));
            assert(lv[i as int] == lines@[i as int]@);
        }
        match parse_module_line(lines[i].as_str()) {
            Some(m) => {
                mods.push(m);
                proof {
                    assert(mods@.map_values(|m: KernelModuleInfo| module_view(m)) =~= before.map_values(
                        |m: KernelModuleInfo| module_view(m),
                    ).push(module_view(mods@.last())));
                }
            },
            Option::None => {},
        }
        i = i + 1;
    }
    proof {
        assert(lv.subrange(0, lines@.len() as int) =~= lv);
    }
    mods
}

/// The mount described by one line of `/proc/self/mountinfo`: at least ten
/// words; device, mount point, type and options are words 9, 4, 7 and 5.
pub open spec fn mount_line_entry(line: Seq<char>) -> Option<(Seq<char>, Seq<char>, Seq<char>, Seq<char>)> {
    let p = split_ws(line);
    if p.len() >= 10 {
        Some((p[9], p[4], p[7], p[5]))
    } else {
        Option::None
    }
}

/// The view of a mount record.
pub open spec fn mount_view(m: MountInfo) -> (Seq<char>, Seq<char>, Seq<char>, Seq<char>) {
    (m.device@, m.mount_point@, m.fstype@, m.options@)
}

/// The mounts of the lines of a mountinfo file.
pub open spec fn mounts_of(lines: Seq<Seq<char>>) -> Seq<(Seq<char>, Seq<char>, Seq<char>, Seq<char>)>
    decreases lines.len(),
{
    if lines.len() == 0 {
        Seq::empty()
    } else {
        let rest = mounts_of(lines.drop_last());
        match mount_line_entry(lines.last()) {
            Some(m) => rest.push(m),
            Option::None => rest,
        }
    }
}

/// Parses `/proc/self/mountinfo`.
pub fn parse_mountinfo(content: &str) -> (mounts: Vec<MountInfo>)
    ensures
        mounts@.map_values(|m: MountInfo| mount_view(m)) == mounts_of(split_lines_spec(content@)),
{
    let lines = split_lines(content);
    let ghost lv = strings_view(lines@);
    let mut mounts: Vec<MountInfo> = Vec::new();
    let mut i: usize = 0;
    proof {
        assert(mounts@.map_values(|m: MountInfo| mount_view(m)) =~= mounts_of(lv.subrange(0, 0)));
    }
    while i < lines.len()
        invariant
            i <= lines@.len(),
            lv == strings_view(lines@),
            mounts@.map_values(|m: MountInfo| mount_view(m)) == mounts_of(lv.subrange(0, i as int)),
        decreases lines@.len() - i,
    {
        let ghost before = mounts@;
        proof {
            assert(lv.subrange(0, i + 1).drop_last() =~= lv.subrange(0, i as int));
            assert(lv[i as int] == lines@[i as int]@);
        }
        let p = split_whitespace(lines[i].as_str());
        let ghost pv = strings_view(p@);
        if p.len() >= 10 {
            proof {
                assert(pv[9] == p@[9]@ && pv[4] == p@[4]@ && pv[7] == p@[7]@ && pv[5] == p@[5]@);
            }
            mounts.push(
                MountInfo {
                    device: p[9].clone(),
                    mount_point: p[4].clone(),
                    fstype: p[7].clone(),
                    options: p[5].clone(),
                },
            );
            proof {
                assert(mounts@.map_values(|m: MountInfo| mount_view(m)) =~= before.map_values(
                    |m: MountInfo| mount_view(m),
                ).push(mount_view(mounts@.last())));
            }
        }
        i = i + 1;
    }
    proof {
        assert(lv.subrange(0, lines@.len() as int) =~= lv);
    }
    mounts
}

/// The service described by one line of `systemctl list-units` output: at
/// least four words; the unit name without its `.service` suffixes, the
/// third word as state, and whether the fourth is `enabled`.
pub open spec fn service_line_entry(line: Seq<char>) -> Option<(Seq<char>, Seq<char>, bool)> {
    let p = split_ws(line);
    if p.len() >= 4 {
        Some((trim_end_str(p[0], ".service"@), p[2], p[3] == "enabled"@))
    } else {
        Option::None
    }
}

/// The view of a service record.
pub open spec fn service_view(s: ServiceInfo) -> (Seq<char>, Seq<char>, bool) {
    (s.name@, s.state@, s.enabled)
}

/// The services of the lines of a unit listing.
pub open spec fn services_of(lines: Seq<Seq<char>>) -> Seq<(Seq<char>, Seq<char>, bool)>
    decreases lines.len(),
{
    if lines.len() == 0 {
        Seq::empty()
    } else {
        let rest = services_of(lines.drop_last());
        match service_line_entry(lines.last()) {
            Some(x) => rest.push(x),
            Option::None => rest,
        }
    }
}

/// Parses the output of `systemctl list-units --type=service`.
pub fn parse_systemd_units(output: &str) -> (services: Vec<ServiceInfo>)
    ensures
        services@.map_values(|x: ServiceInfo| service_view(x)) == services_of(split_lines_spec(output@)),
{
    let lines = split_lines(output);
    let ghost lv = strings_view(lines@);
    let mut services: Vec<ServiceInfo> = Vec::new();
    let mut i: usize = 0;
    proof {
        assert(services@.map_values(|x: ServiceInfo| service_view(x)) =~= services_of(lv.subrange(0, 0)));
    }
    while i < lines.len()
        invariant
            i <= lines@.len(),
            lv == strings_view(lines@),
            services@.map_values(|x: ServiceInfo| service_view(x)) == services_of(lv.subrange(0, i as int)),
        decreases lines@.len() - i,
    {
        let ghost before = services@;
        proof {
            assert(lv.subrange(0, i + 1).drop_last() =~= lv.subrange(0, i as int));
            assert(lv[i as int] == lines@[i as int]@);
        }
        let p = split_whitespace(lines[i].as_str());
        let ghost pv = strings_view(p@);
        if p.len() >= 4 {
            proof {
                assert(pv[0] == p@[0]@ && pv[2] == p@[2]@ && pv[3] == p@[3]@);
            }
            let name = trim_end_str_str(p[0].as_str(), ".service");
            let enabled = text_eq(p[3].as_str(), "enabled");
            services.push(ServiceInfo { name, state: p[2].clone(), enabled });
            proof {
                assert(services@.map_values(|x: ServiceInfo| service_view(x)) =~= before.map_values(
                    |x: ServiceInfo| service_view(x),
                ).push(service_view(services@.last())));
            }
        }
        i = i + 1;
    }
    proof {
        assert(lv.subrange(0, lines@.len() as int) =~= lv);
    }
    services
}

/// Whether two texts are equal.
pub fn text_eq(a: &str, b: &str) -> (r: bool)
    ensures
        r == (a@ == b@),
{
    let r = crate::protocol::constant_time_eq(a.as_bytes(), b.as_bytes());
    proof {
        vstd::utf8::encode_utf8_decode_utf8(a@);
        vstd::utf8::encode_utf8_decode_utf8(b@);
    }
    r
}

/// Texts joined with single spaces.
pub open spec fn join_spaces(parts: Seq<Seq<char>>) -> Seq<char>
    decreases parts.len(),
{
    if parts.len() == 0 {
        Seq::empty()
    } else if parts.len() == 1 {
        parts[0]
    } else {
        join_spaces(parts.drop_last()) + seq![' '] + parts.last()
    }
}

/// Joins texts with single spaces.
pub fn join_with_spaces(parts: &Vec<String>) -> (s: String)
    ensures
        s@ == join_spaces(strings_view(parts@)),
{
    let ghost pv = strings_view(parts@);
    let mut s = String::new();
    if parts.len() == 0 {
        return s;
    }
    s.append(parts[0].as_str());
    let mut i: usize = 1;
    proof {
        assert(pv.subrange(0, 1).len() == 1);
        assert(pv[0] == parts@[0]@);
    }
    while i < parts.len()
        invariant
            1 <= i <= parts@.len(),
            pv == strings_view(parts@),
            s@ == join_spaces(pv.subrange(0, i as int)),
        decreases parts@.len() - i,
    {
        s.append(" ");
        s.append(parts[i].as_str());
        proof {
            assert(pv.subrange(0, i + 1).drop_last() =~= pv.subrange(0, i as int));
            assert(pv[i as int] == parts@[i as int]@);
            reveal_strlit(" ");
        }
        i = i + 1;
    }
    proof {
        assert(pv.subrange(0, parts@.len() as int) =~= pv);
    }
    s
}

/// The text before the first `c` (the first piece of `str::split`).
pub open spec fn first_piece(s: Seq<char>, c: char) -> Seq<char> {
    s.subrange(0, first_index_of(s, c, 0))
}

/// The text before the first `c`.
pub fn first_piece_str(s: &str, c: char) -> (t: String)
    ensures
        t@ == first_piece(s@, c),
{
    let v = collect_chars(s);
    let e = find_char(&v, c, 0);
    String::from_str(s.substring_char(0, e))
}

/// The value of the first `key` line of a status file, as a `u32`: the
/// text after the key up to the next `:`, trimmed.
pub open spec fn status_value_u32(status: Seq<char>, key: Seq<char>) -> Option<u32> {
    match first_with_prefix(split_lines_spec(status), key) {
        Some(rest) => spec_parse_u32(trim_ws(first_piece(rest, ':'))),
        Option::None => Option::None,
    }
}

/// Reads the first `key` line of a status file as a `u32`.
pub fn status_field_u32(status: &str, key: &str) -> (r: Option<u32>)
    ensures
        r == status_value_u32(status@, key@),
{
    match line_after_prefix(status, key) {
        Some(rest) => {
            let piece = first_piece_str(rest.as_str(), ':');
            let t = trim_str(piece.as_str());
            parse_u32_str(t.as_str())
        },
        Option::None => Option::None,
    }
}

/// The arguments of a raw command line: the NUL-separated pieces seen so
/// far, and the piece being read.
pub open spec fn cmdline_fold(b: Seq<u8>) -> (Seq<Seq<char>>, Seq<u8>)
    decreases b.len(),
{
    if b.len() == 0 {
        (Seq::empty(), Seq::empty())
    } else {
        let prev = cmdline_fold(b.drop_last());
        if b.last() == 0 {
            (keep_arg(prev.0, prev.1), Seq::empty())
        } else {
            (prev.0, prev.1.push(b.last()))
        }
    }
}

/// Keeps a finished piece when it is non-empty valid UTF-8.
pub open spec fn keep_arg(done: Seq<Seq<char>>, piece: Seq<u8>) -> Seq<Seq<char>> {
    if piece.len() > 0 && valid_utf8(piece) {
        done.push(decode_utf8(piece))
    } else {
        done
    }
}

/// The arguments of a raw `/proc/<pid>/cmdline`: the non-empty, valid
/// UTF-8 pieces between NUL bytes.
pub open spec fn cmdline_args(b: Seq<u8>) -> Seq<Seq<char>> {
    let f = cmdline_fold(b);
    keep_arg(f.0, f.1)
}

/// Turns a raw command line into its arguments joined by spaces.
pub fn join_cmdline(raw: &[u8]) -> (s: String)
    ensures
        s@ == join_spaces(cmdline_args(raw@)),
{
    let mut args: Vec<String> = Vec::new();
    let mut cur: Vec<u8> = Vec::new();
    let mut i: usize = 0;
    proof {
        assert(raw@.subrange(0, 0) =~= Seq::<u8>::empty());
        assert(strings_view(args@) =~= Seq::<Seq<char>>::empty());
    }
    while i < raw.len()
        invariant
            i <= raw@.len(),
            (strings_view(args@), cur@) == cmdline_fold(raw@.subrange(0, i as int)),
        decreases raw@.len() - i,
    {
        proof {
            assert(raw@.subrange(0, i + 1).drop_last() =~= raw@.subrange(0, i as int));
        }
        let b = raw[i];
        if b == 0 {
            push_arg(&mut args, &cur);
            cur = Vec::new();
        } else {
            cur.push(b);
        }
        i = i + 1;
    }
    proof {
        assert(raw@.subrange(0, raw@.len() as int) =~= raw@);
    }
    push_arg(&mut args, &cur);
    join_with_spaces(&args)
}

fn push_arg(args: &mut Vec<String>, piece: &Vec<u8>)
    ensures
        strings_view(final(args)@) == keep_arg(strings_view(old(args)@), piece@),
{
    if piece.len() > 0 {
        match crate::text::utf8_str(piece.as_slice()) {
            Some(t) => {
                let ghost before = strings_view(args@);
                args.push(String::from_str(t));
                proof {
                    vstd::utf8::encode_utf8_decode_utf8(t@);
                    assert(strings_view(args@) =~= before.push(t@));
                }
            },
            Option::None => {},
        }
    }
}


// ---------------------------------------------------------------------------
// Ordering listings
// ---------------------------------------------------------------------------

/// The process ids of a process list, as sort keys.
pub open spec fn pid_keys(p: Seq<(u32, u32, String)>) -> Seq<u64> {
    Seq::new(p.len(), |i: int| p[i].0 as u64)
}

/// The view of a process list.
pub open spec fn procs_triples(p: Seq<(u32, u32, String)>) -> Seq<(u32, u32, Seq<char>)> {
    p.map_values(|x: (u32, u32, String)| (x.0, x.1, x.2@))
}

/// Sorts a process list by process id, keeping the listed order of equal
/// ids.
pub fn sort_processes(procs: &[(u32, u32, String)]) -> (sorted: Vec<(u32, u32, String)>)
    ensures
        procs_triples(sorted@) == pick(procs_triples(procs@), stable_order(pid_keys(procs@))),
{
    let mut keys: Vec<u64> = Vec::new();
    let mut i: usize = 0;
    while i < procs.len()
        invariant
            i <= procs@.len(),
            keys@ == pid_keys(procs@).subrange(0, i as int),
        decreases procs@.len() - i,
    {
        keys.push(procs[i].0 as u64);
        proof {
            assert(keys@ =~= pid_keys(procs@).subrange(0, i + 1));
        }
        i = i + 1;
    }
    proof {
        assert(keys@ =~= pid_keys(procs@));
    }
    let order = sort_indices_by_key(keys.as_slice());
    proof {
        lemma_stable_order_is_stable_sort(keys@);
    }
    let ghost want = pick(procs_triples(procs@), order@);
    let mut sorted: Vec<(u32, u32, String)> = Vec::new();
    let mut k: usize = 0;
    while k < order.len()
        invariant
            k <= order@.len(),
            order@.len() == procs@.len(),
            forall|q: int| 0 <= q < order@.len() ==> #[trigger] order@[q] < procs@.len(),
            want == pick(procs_triples(procs@), order@),
            sorted@.len() == k,
            procs_triples(sorted@) == want.subrange(0, k as int),
        decreases order@.len() - k,
    {
        let idx = order[k];
        let ghost before = sorted@;
        let name = procs[idx].2.clone();
        proof {
            assert(want[k as int] == procs_triples(procs@)[idx as int]);
            assert(procs_triples(procs@)[idx as int] == (procs@[idx as int].0, procs@[idx as int].1, name@));
        }
        sorted.push((procs[idx].0, procs[idx].1, name));
        proof {
            assert(sorted@ == before.push((procs@[idx as int].0, procs@[idx as int].1, name)));
            assert(procs_triples(sorted@)[k as int] == (procs@[idx as int].0, procs@[idx as int].1, name@));
            assert(procs_triples(sorted@)[k as int] == want[k as int]);
            assert(procs_triples(sorted@) =~= want.subrange(0, k + 1));
        }
        k = k + 1;
    }
    proof {
        assert(want.subrange(0, order@.len() as int) =~= want);
    }
    sorted
}

/// The descriptor numbers of a descriptor list, as sort keys.
pub open spec fn fd_keys(f: Seq<(u32, String)>) -> Seq<u64> {
    Seq::new(f.len(), |i: int| f[i].0 as u64)
}

/// The view of a descriptor list.
pub open spec fn fds_view(f: Seq<(u32, String)>) -> Seq<(u32, Seq<char>)> {
    f.map_values(|x: (u32, String)| (x.0, x.1@))
}

/// Sorts a list of open descriptors (number, target) by number, keeping
/// the listed order of equal numbers.
pub fn sort_fds(fds: &[(u32, String)]) -> (sorted: Vec<(u32, String)>)
    ensures
        fds_view(sorted@) == pick(fds_view(fds@), stable_order(fd_keys(fds@))),
{
    let mut keys: Vec<u64> = Vec::new();
    let mut i: usize = 0;
    while i < fds.len()
        invariant
            i <= fds@.len(),
            keys@ == fd_keys(fds@).subrange(0, i as int),
        decreases fds@.len() - i,
    {
        keys.push(fds[i].0 as u64);
        proof {
            assert(keys@ =~= fd_keys(fds@).subrange(0, i + 1));
        }
        i = i + 1;
    }
    proof {
        assert(keys@ =~= fd_keys(fds@));
    }
    let order = sort_indices_by_key(keys.as_slice());
    proof {
        lemma_stable_order_is_stable_sort(keys@);
    }
    let ghost want = pick(fds_view(fds@), order@);
    let mut sorted: Vec<(u32, String)> = Vec::new();
    let mut k: usize = 0;
    while k < order.len()
        invariant
            k <= order@.len(),
            order@.len() == fds@.len(),
            forall|q: int| 0 <= q < order@.len() ==> #[trigger] order@[q] < fds@.len(),
            want == pick(fds_view(fds@), order@),
            sorted@.len() == k,
            fds_view(sorted@) == want.subrange(0, k as int),
        decreases order@.len() - k,
    {
        let idx = order[k];
        let ghost before = sorted@;
        let target = fds[idx].1.clone();
        proof {
            assert(want[k as int] == fds_view(fds@)[idx as int]);
            assert(fds_view(fds@)[idx as int] == (fds@[idx as int].0, target@));
        }
        sorted.push((fds[idx].0, target));
        proof {
            assert(sorted@ == before.push((fds@[idx as int].0, target)));
            assert(fds_view(sorted@)[k as int] == (fds@[idx as int].0, target@));
            assert(fds_view(sorted@)[k as int] == want[k as int]);
            assert(fds_view(sorted@) =~= want.subrange(0, k + 1));
        }
        k = k + 1;
    }
    proof {
        assert(want.subrange(0, order@.len() as int) =~= want);
    }
    sorted
}

} // verus!
