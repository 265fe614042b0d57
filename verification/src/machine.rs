//! Facts about the machine read from kernel text files: the CPU model,
//! memory size, boot time, kernel symbol range, ptrace capability, the
//! libraries mapped into a process, and device attributes.  The files are
//! read by the caller; these functions only interpret their text.
use vstd::prelude::*;
use vstd::string::{StringSliceAdditionalSpecFns, StringExecFns, StrSliceExecFns};
use crate::procfs::{
    first_piece, first_piece_str, first_with_prefix, has_prefix, line_after_prefix, parse_u64_str,
    split_char, split_char_spec, text_eq, trim_end_str, trim_end_str_str, trim_str,
};
use crate::sysinfo::{BlockDeviceInfo, PciDeviceInfo};
use crate::text::{
    collect_chars, find_char, first_index_of, parse_hex_u64, spec_parse_hex_u64, split_lines,
    split_lines_spec, split_whitespace, split_ws, strings_view, trim_ws,
};
use crate::tokens::spec_parse_u64;

verus! {

// ---------------------------------------------------------------------------
// Characters
// ---------------------------------------------------------------------------

proof fn lemma_first_index_found(s: Seq<char>, c: char, from: int)
    requires
        0 <= from <= s.len(),
    ensures
        (first_index_of(s, c, from) < s.len()) == (exists|i: int| from <= i < s.len() && s[i] == c),
    decreases s.len() - from,
{
    if from < s.len() && s[from] != c {
        lemma_first_index_found(s, c, from + 1);
        if exists|i: int| from <= i < s.len() && s[i] == c {
            let i = choose|i: int| from <= i < s.len() && s[i] == c;
            assert(from + 1 <= i);
        }
    }
}

/// Whether the text contains the character `c`.
pub fn has_char(s: &str, c: char) -> (r: bool)
    ensures
        r == s@.contains(c),
{
    let v = collect_chars(s);
    let e = find_char(&v, c, 0);
    proof {
        lemma_first_index_found(v@, c, 0);
    }
    e < v.len()
}

// ---------------------------------------------------------------------------
// /proc/cpuinfo, /proc/meminfo, /proc/stat
// ---------------------------------------------------------------------------

/// The CPU model: the rest of the first `model name\t: ` line, trimmed.
pub open spec fn spec_cpu_model(cpuinfo: Seq<char>) -> Option<Seq<char>> {
    match first_with_prefix(split_lines_spec(cpuinfo), "model name\t: "@) {
        Some(v) => Some(trim_ws(v)),
        Option::None => Option::None,
    }
}

/// Reads the CPU model from the text of `/proc/cpuinfo`.
pub fn cpu_model(cpuinfo: &str) -> (r: Option<String>)
    ensures
        match r {
            Some(t) => spec_cpu_model(cpuinfo@) == Some(t@),
            Option::None => spec_cpu_model(cpuinfo@) is None,
        },
{
    match line_after_prefix(cpuinfo, "model name\t: ") {
        Some(v) => Some(trim_str(v.as_str())),
        Option::None => Option::None,
    }
}

/// The total memory in KiB: the first `MemTotal:` line's value, without
/// its ` kB` unit; `None` when there is no such line or it does not parse.
pub open spec fn spec_mem_total_kb(meminfo: Seq<char>) -> Option<u64> {
    match first_with_prefix(split_lines_spec(meminfo), "MemTotal:"@) {
        Some(v) => spec_parse_u64(trim_ws(trim_end_str(trim_ws(v), " kB"@))),
        Option::None => Option::None,
    }
}

/// Reads the total memory from the text of `/proc/meminfo`.
pub fn mem_total_kb(meminfo: &str) -> (r: Option<u64>)
    ensures
        r == spec_mem_total_kb(meminfo@),
{
    match line_after_prefix(meminfo, "MemTotal:") {
        Some(v) => {
            let a = trim_str(v.as_str());
            let b = trim_end_str_str(a.as_str(), " kB");
            let c = trim_str(b.as_str());
            parse_u64_str(c.as_str())
        },
        Option::None => Option::None,
    }
}

/// Why a field could not be read.
#[derive(Debug, Clone, Copy, PartialEq, Eq)]
pub enum FieldError {
    /// The field is not in the file.
    Missing,
    /// The field is there but its value does not parse.
    Invalid,
}

/// The boot time: the value of the first `btime ` line.
pub open spec fn spec_boot_time(stat: Seq<char>) -> Result<u64, FieldError> {
    match first_with_prefix(split_lines_spec(stat), "btime "@) {
        Some(v) => match spec_parse_u64(trim_ws(v)) {
            Some(t) => Ok(t),
            Option::None => Err(FieldError::Invalid),
        },
        Option::None => Err(FieldError::Missing),
    }
}

/// Reads the boot time (seconds since the epoch) from the text of
/// `/proc/stat`.
pub fn boot_time(stat: &str) -> (r: Result<u64, FieldError>)
    ensures
        r == spec_boot_time(stat@),
{
    match line_after_prefix(stat, "btime ") {
        Some(v) => {
            let t = trim_str(v.as_str());
            match parse_u64_str(t.as_str()) {
                Some(x) => Ok(x),
                Option::None => Err(FieldError::Invalid),
            }
        },
        Option::None => Err(FieldError::Missing),
    }
}

// ---------------------------------------------------------------------------
// /proc/kallsyms
// ---------------------------------------------------------------------------

/// The address of a symbol line: its first word in hexadecimal, when the
/// line has at least two words and the address is neither zero nor all
/// ones.
pub open spec fn symbol_addr(line: Seq<char>) -> Option<u64> {
    let p = split_ws(line);
    if p.len() >= 2 {
        match spec_parse_hex_u64(p[0]) {
            Some(a) => if 0 < a && a < u64::MAX {
                Some(a)
            } else {
                Option::None
            },
            Option::None => Option::None,
        }
    } else {
        Option::None
    }
}

/// The symbol addresses of a list of lines, in order.
pub open spec fn symbol_addrs(lines: Seq<Seq<char>>) -> Seq<u64>
    decreases lines.len(),
{
    if lines.len() == 0 {
        Seq::empty()
    } else {
        let prev = symbol_addrs(lines.drop_last());
        match symbol_addr(lines.last()) {
            Some(a) => prev.push(a),
            Option::None => prev,
        }
    }
}

/// `(lo, hi)` are the least and greatest of `addrs`.
pub open spec fn is_range_of(addrs: Seq<u64>, lo: u64, hi: u64) -> bool {
    &&& addrs.contains(lo)
    &&& addrs.contains(hi)
    &&& forall|i: int| 0 <= i < addrs.len() ==> lo <= #[trigger] addrs[i] <= hi
}

/// Reads the kernel's address range from the text of `/proc/kallsyms`: the
/// least and greatest symbol address, or `None` when there is none.
pub fn kernel_range(kallsyms: &str) -> (r: Option<(u64, u64)>)
    ensures
        match r {
            Some((lo, hi)) => is_range_of(symbol_addrs(split_lines_spec(kallsyms@)), lo, hi),
            Option::None => symbol_addrs(split_lines_spec(kallsyms@)).len() == 0,
        },
{
    let lines = split_lines(kallsyms);
    let ghost lv = strings_view(lines@);
    let mut start: u64 = u64::MAX;
    let mut end: u64 = 0;
    let mut i: usize = 0;
    while i < lines.len()
        invariant
            i <= lines@.len(),
            lv == strings_view(lines@),
            lv == split_lines_spec(kallsyms@),
            symbol_addrs(lv.subrange(0, i as int)).len() == 0 ==> start == u64::MAX && end == 0,
            symbol_addrs(lv.subrange(0, i as int)).len() > 0 ==> is_range_of(
                symbol_addrs(lv.subrange(0, i as int)),
                start,
                end,
            ),
            forall|k: int|
                0 <= k < symbol_addrs(lv.subrange(0, i as int)).len() ==> #[trigger] symbol_addrs(
                    lv.subrange(0, i as int),
                )[k] < u64::MAX,
        decreases lines@.len() - i,
    {
        let ghost prev = symbol_addrs(lv.subrange(0, i as int));
        proof {
            assert(lv.subrange(0, i + 1).drop_last() =~= lv.subrange(0, i as int));
            assert(lv.subrange(0, i + 1).last() == lines@[i as int]@);
        }
        let parts = split_whitespace(lines[i].as_str());
        let mut found: Option<u64> = Option::None;
        if parts.len() >= 2 {
            proof {
                assert(strings_view(parts@)[0] == parts@[0]@);
            }
            match parse_hex_u64(parts[0].as_str()) {
                Some(a) => {
                    if a > 0 && a < u64::MAX {
                        found = Some(a);
                    }
                },
                Option::None => {},
            }
        }
        assert(found == symbol_addr(lines@[i as int]@));
        match found {
            Some(a) => {
                let ghost now = prev.push(a);
                proof {
                    assert(now.contains(a)) by {
                        assert(now[now.len() - 1] == a);
                    }
                }
                proof {
                    if prev.len() > 0 {
                        let q = choose|q: int| 0 <= q < prev.len() && prev[q] == start;
                        assert(prev[q] < u64::MAX);
                    }
                }
                if start == u64::MAX {
                    start = a;
                    end = a;
                    proof {
                        assert forall|k: int| 0 <= k < now.len() implies start <= #[trigger] now[k]
                            <= end by {
                            assert(k == 0);
                        }
                    }
                } else {
                    let old_start = start;
                    let old_end = end;
                    if a < start {
                        start = a;
                    }
                    if a > end {
                        end = a;
                    }
                    proof {
                        assert(now.contains(start)) by {
                            if start == a {
                            } else {
                                let q = choose|q: int| 0 <= q < prev.len() && prev[q] == old_start;
                                assert(now[q] == start);
                            }
                        }
                        assert(now.contains(end)) by {
                            if end == a {
                            } else {
                                let q = choose|q: int| 0 <= q < prev.len() && prev[q] == old_end;
                                assert(now[q] == end);
                            }
                        }
                        assert forall|k: int| 0 <= k < now.len() implies start <= #[trigger] now[k]
                            <= end by {
                            if k < prev.len() {
                                assert(now[k] == prev[k]);
                            }
                        }
                    }
                }
                proof {
                    assert forall|k: int| 0 <= k < now.len() implies #[trigger] now[k] < u64::MAX by {
                        if k < prev.len() {
                            assert(now[k] == prev[k]);
                        }
                    }
                }
            },
            Option::None => {},
        }
        i = i + 1;
    }
    proof {
        assert(lv.subrange(0, lines@.len() as int) =~= lv);
    }
    if start == u64::MAX {
        proof {
            let all = symbol_addrs(lv);
            if all.len() > 0 {
                assert(all.contains(start));
                let q = choose|q: int| 0 <= q < all.len() && all[q] == start;
                assert(all[q] < u64::MAX);
            }
        }
        Option::None
    } else {
        Some((start, end))
    }
}

// ---------------------------------------------------------------------------
// /proc/self/status: the ptrace capability
// ---------------------------------------------------------------------------

/// The capability mask of a `CapPrm:` or `CapEff:` line: the hexadecimal
/// text after the first `:` up to the next one, trimmed.
pub open spec fn cap_mask(line: Seq<char>) -> Option<u64> {
    if has_prefix(line, "CapPrm:"@) || has_prefix(line, "CapEff:"@) {
        spec_parse_hex_u64(trim_ws(first_piece(line.subrange(7, line.len() as int), ':')))
    } else {
        Option::None
    }
}

/// The first capability mask of a list of lines that parses.
pub open spec fn first_cap_mask(lines: Seq<Seq<char>>) -> Option<u64>
    decreases lines.len(),
{
    if lines.len() == 0 {
        Option::None
    } else {
        match cap_mask(lines[0]) {
            Some(m) => Some(m),
            Option::None => first_cap_mask(lines.drop_first()),
        }
    }
}

/// Whether the status grants `CAP_SYS_PTRACE` (bit 19 of the first
/// capability mask that parses).
pub open spec fn spec_has_ptrace(status: Seq<char>) -> bool {
    match first_cap_mask(split_lines_spec(status)) {
        Some(m) => m & 0x80000u64 != 0,
        Option::None => false,
    }
}

fn line_cap_mask(line: &str) -> (r: Option<u64>)
    ensures
        r == cap_mask(line@),
{
    let prm = crate::procfs::strip_prefix_str(line, "CapPrm:");
    let eff = crate::procfs::strip_prefix_str(line, "CapEff:");
    proof {
        reveal_strlit("CapPrm:");
        reveal_strlit("CapEff:");
    }
    let rest = match prm {
        Some(r) => r,
        Option::None => match eff {
            Some(r) => r,
            Option::None => {
                return Option::None;
            },
        },
    };
    let piece = first_piece_str(rest.as_str(), ':');
    let t = trim_str(piece.as_str());
    parse_hex_u64(t.as_str())
}

/// Reads from the text of `/proc/self/status` whether the process may trace
/// others.
pub fn has_ptrace_capability(status: &str) -> (r: bool)
    ensures
        r == spec_has_ptrace(status@),
{
    let lines = split_lines(status);
    let ghost lv = strings_view(lines@);
    let mut i: usize = 0;
    proof {
        assert(lv.subrange(0, lv.len() as int) =~= lv);
    }
    while i < lines.len()
        invariant
            i <= lines@.len(),
            lv == strings_view(lines@),
            lv == split_lines_spec(status@),
            first_cap_mask(lv) == first_cap_mask(lv.subrange(i as int, lv.len() as int)),
        decreases lines@.len() - i,
    {
        proof {
            let t = lv.subrange(i as int, lv.len() as int);
            assert(t[0] == lines@[i as int]@);
            assert(t.drop_first() =~= lv.subrange(i + 1, lv.len() as int));
        }
        match line_cap_mask(lines[i].as_str()) {
            Some(m) => {
                return m & 0x80000u64 != 0;
            },
            Option::None => {},
        }
        i = i + 1;
    }
    false
}

// ---------------------------------------------------------------------------
// Hardware trust anchor
// ---------------------------------------------------------------------------

/// The 32-byte presence record: its first byte is 3 with the kernel module
/// loaded, else 2 with a TPM, else 1; the rest are zero.
pub open spec fn spec_presence(kmod_loaded: bool, tpm_present: bool) -> Seq<u8> {
    Seq::new(
        32,
        |i: int|
            if i == 0 {
                if kmod_loaded {
                    3u8
                } else if tpm_present {
                    2u8
                } else {
                    1u8
                }
            } else {
                0u8
            },
    )
}

/// Builds the hardware presence record.
pub fn hardware_presence(kmod_loaded: bool, tpm_present: bool) -> (r: Vec<u8>)
    ensures
        r@ == spec_presence(kmod_loaded, tpm_present),
{
    let mut r: Vec<u8> = Vec::new();
    let first: u8 = if kmod_loaded {
        3
    } else if tpm_present {
        2
    } else {
        1
    };
    r.push(first);
    let mut i: usize = 1;
    while i < 32
        invariant
            1 <= i <= 32,
            r@.len() == i,
            r@[0] == first,
            forall|k: int| 1 <= k < i ==> r@[k] == 0u8,
        decreases 32 - i,
    {
        r.push(0);
        i = i + 1;
    }
    proof {
        assert(r@ =~= spec_presence(kmod_loaded, tpm_present));
    }
    r
}

// ---------------------------------------------------------------------------
// /proc/<pid>/maps: executable library mappings
// ---------------------------------------------------------------------------

/// The library of a maps line: at least six words, an address range
/// `start-end`, permissions with `r` and `x`, and a non-empty path; the
/// base is the start address in hexadecimal (0 when it does not parse).
pub open spec fn maps_library(line: Seq<char>) -> Option<(Seq<char>, u64)> {
    let p = split_ws(line);
    if p.len() >= 6 {
        let range = split_char_spec(p[0], '-');
        if range.len() == 2 && p[1].contains('r') && p[1].contains('x') && p[5].len() > 0 {
            let base = match spec_parse_hex_u64(range[0]) {
                Some(b) => b,
                Option::None => 0u64,
            };
            Some((p[5], base))
        } else {
            Option::None
        }
    } else {
        Option::None
    }
}

/// The executable mappings of a maps file: the first mapping of each path,
/// in order.
pub open spec fn library_candidates(lines: Seq<Seq<char>>) -> Seq<(Seq<char>, u64)>
    decreases lines.len(),
{
    if lines.len() == 0 {
        Seq::empty()
    } else {
        let prev = library_candidates(lines.drop_last());
        match maps_library(lines.last()) {
            Some(l) => if exists|k: int| 0 <= k < prev.len() && (#[trigger] prev[k]).0 == l.0 {
                prev
            } else {
                prev.push(l)
            },
            Option::None => prev,
        }
    }
}

/// The view of a list of (path, base) pairs.
pub open spec fn candidates_view(v: Seq<(String, u64)>) -> Seq<(Seq<char>, u64)> {
    v.map_values(|x: (String, u64)| (x.0@, x.1))
}

fn maps_line_library(line: &str) -> (r: Option<(String, u64)>)
    ensures
        match r {
            Some(x) => maps_library(line@) == Some((x.0@, x.1)),
            Option::None => maps_library(line@) is None,
        },
{
    let parts = split_whitespace(line);
    if parts.len() < 6 {
        return Option::None;
    }
    let ghost pv = strings_view(parts@);
    proof {
        assert(pv[0] == parts@[0]@ && pv[1] == parts@[1]@ && pv[5] == parts@[5]@);
    }
    let range = split_char(parts[0].as_str(), '-');
    if range.len() != 2 {
        return Option::None;
    }
    proof {
        assert(strings_view(range@)[0] == range@[0]@);
    }
    let perms = parts[1].as_str();
    if !(has_char(perms, 'r') && has_char(perms, 'x')) {
        return Option::None;
    }
    let name = parts[5].as_str();
    if name.unicode_len() == 0 {
        return Option::None;
    }
    let base = match parse_hex_u64(range[0].as_str()) {
        Some(b) => b,
        Option::None => 0,
    };
    Some((String::from_str(name), base))
}

/// Lists the executable mappings of a maps file (`/proc/<pid>/maps`): for
/// each path its first mapping's start address, in order of appearance.
pub fn maps_libraries(maps: &str) -> (v: Vec<(String, u64)>)
    ensures
        candidates_view(v@) == library_candidates(split_lines_spec(maps@)),
{
    let lines = split_lines(maps);
    let ghost lv = strings_view(lines@);
    let mut v: Vec<(String, u64)> = Vec::new();
    let mut i: usize = 0;
    proof {
        assert(candidates_view(v@) =~= library_candidates(lv.subrange(0, 0)));
    }
    while i < lines.len()
        invariant
            i <= lines@.len(),
            lv == strings_view(lines@),
            lv == split_lines_spec(maps@),
            candidates_view(v@) == library_candidates(lv.subrange(0, i as int)),
        decreases lines@.len() - i,
    {
        let ghost prev = candidates_view(v@);
        proof {
            assert(lv.subrange(0, i + 1).drop_last() =~= lv.subrange(0, i as int));
            assert(lv.subrange(0, i + 1).last() == lines@[i as int]@);
        }
        match maps_line_library(lines[i].as_str()) {
            Some((name, base)) => {
                let mut seen = false;
                let mut k: usize = 0;
                while k < v.len()
                    invariant
                        k <= v@.len(),
                        prev == candidates_view(v@),
                        seen == exists|q: int| 0 <= q < k && (#[trigger] prev[q]).0 == name@,
                    decreases v@.len() - k,
                {
                    proof {
                        assert(prev[k as int] == (v@[k as int].0@, v@[k as int].1));
                    }
                    if text_eq(v[k].0.as_str(), name.as_str()) {
                        seen = true;
                    }
                    proof {
                        if seen {
                            if !(exists|q: int| 0 <= q < k && (#[trigger] prev[q]).0 == name@) {
                                assert(prev[k as int].0 == name@);
                            }
                        }
                    }
                    k = k + 1;
                }
                if !seen {
                    let ghost nm = name@;
                    v.push((name, base));
                    proof {
                        assert(candidates_view(v@) =~= prev.push((nm, base)));
                    }
                }
            },
            Option::None => {},
        }
        i = i + 1;
    }
    proof {
        assert(lv.subrange(0, lines@.len() as int) =~= lv);
    }
    v
}

// ---------------------------------------------------------------------------
// /sys/block and /sys/bus/pci attributes
// ---------------------------------------------------------------------------

/// The view of a block device.
pub open spec fn block_device_view(d: BlockDeviceInfo) -> (Seq<char>, u64, bool) {
    (d.name@, d.size_sectors, d.removable)
}

/// The block device with this name and the texts of its `size` and
/// `removable` attributes (`None` when unreadable): the size parses after
/// trimming (0 otherwise), and the device is removable when the attribute
/// is `1`.
pub open spec fn spec_block_device(
    name: Seq<char>,
    size_text: Option<Seq<char>>,
    removable_text: Option<Seq<char>>,
) -> (Seq<char>, u64, bool) {
    (
        name,
        match size_text {
            Some(t) => match spec_parse_u64(trim_ws(t)) {
                Some(n) => n,
                Option::None => 0,
            },
            Option::None => 0,
        },
        match removable_text {
            Some(t) => trim_ws(t) == "1"@,
            Option::None => false,
        },
    )
}

/// Builds a block device from its attribute texts.
pub fn block_device(name: String, size_text: Option<&str>, removable_text: Option<&str>) -> (d:
    BlockDeviceInfo)
    ensures
        block_device_view(d) == spec_block_device(
            name@,
            match size_text {
                Some(t) => Some(t@),
                Option::None => Option::None,
            },
            match removable_text {
                Some(t) => Some(t@),
                Option::None => Option::None,
            },
        ),
{
    let size = match size_text {
        Some(t) => {
            let tt = trim_str(t);
            match parse_u64_str(tt.as_str()) {
                Some(n) => n,
                Option::None => 0,
            }
        },
        Option::None => 0,
    };
    let removable = match removable_text {
        Some(t) => {
            let tt = trim_str(t);
            text_eq(tt.as_str(), "1")
        },
        Option::None => false,
    };
    BlockDeviceInfo { name, size_sectors: size, removable }
}

/// The view of a PCI device.
pub open spec fn pci_device_view(d: PciDeviceInfo) -> (Seq<char>, Seq<char>, Seq<char>, Seq<char>) {
    (d.slot@, d.vendor@, d.device@, d.driver@)
}

/// An attribute's trimmed text, or empty when it could not be read.
pub open spec fn attr_text(t: Option<Seq<char>>) -> Seq<char> {
    match t {
        Some(s) => trim_ws(s),
        Option::None => Seq::empty(),
    }
}

fn attr(t: Option<&str>) -> (s: String)
    ensures
        s@ == attr_text(
            match t {
                Some(x) => Some(x@),
                Option::None => Option::None,
            },
        ),
{
    match t {
        Some(x) => trim_str(x),
        Option::None => String::new(),
    }
}

/// Builds a PCI device from its slot, the texts of its `vendor` and
/// `device` attributes and the name of its driver (each `None` when
/// unreadable, which leaves the field empty).
pub fn pci_device(slot: String, vendor_text: Option<&str>, device_text: Option<&str>, driver: Option<
    String,
>) -> (d: PciDeviceInfo)
    ensures
        pci_device_view(d) == (
            slot@,
            attr_text(
                match vendor_text {
                    Some(x) => Some(x@),
                    Option::None => Option::None,
                },
            ),
            attr_text(
                match device_text {
                    Some(x) => Some(x@),
                    Option::None => Option::None,
                },
            ),
            match driver {
                Some(x) => x@,
                Option::None => Seq::<char>::empty(),
            },
        ),
{
    let vendor = attr(vendor_text);
    let device = attr(device_text);
    let driver = match driver {
        Some(x) => x,
        Option::None => String::new(),
    };
    PciDeviceInfo { slot, vendor, device, driver }
}

} // verus!
