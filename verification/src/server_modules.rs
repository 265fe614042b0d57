//! The server-side scan modules' reports (modules 1 to 6).  Each report
//! starts with four zero words and the module id; what the module learned
//! about the machine is handed in as plain values.
use vstd::prelude::*;
use sha2::Digest;
use vstd::string::StringSliceAdditionalSpecFns;
use vstd::utf8::encode_utf8;
use crate::buffer::{append_words, byte_chunk_words, le_chunk_word, DataBuffer, DATA_BUFFER_DWORDS};
use crate::client_scan::{has_text, lowered};
use crate::crc32::{crc32, spec_crc32};
use crate::hash::{spec_vac_hash, vac_hash_str, VAC_HASH_SEED};
use crate::module::{ScanError, ScanReport};
use crate::sysinfo::{
    BlockDeviceInfo, DeviceList, KernelModuleInfo, LibraryInfo, PciDeviceInfo, SystemInfoData,
};
use crate::text::{str_contains, to_lowercase, unicode_lowercase};

verus! {

/// The five header words of module `id`.
pub open spec fn header_words(id: u32) -> Seq<u32> {
    seq![0u32, 0u32, 0u32, 0u32, id]
}

/// The buffer state of a report.
pub open spec fn report_state(r: ScanReport) -> (Seq<u32>, nat) {
    (r.data.words(), r.data.pos())
}

/// Appends `words` to a buffer state.
pub open spec fn then_words(state: (Seq<u32>, nat), words: Seq<u32>) -> (Seq<u32>, nat) {
    append_words(state.0, state.1, words)
}

fn append(report: &mut ScanReport, words: &Vec<u32>)
    requires
        old(report).data.wf(),
    ensures
        final(report).data.wf(),
        report_state(*final(report)) == then_words(report_state(*old(report)), words@),
        final(report).error == old(report).error,
        final(report).module_id == old(report).module_id,
{
    report.data.write_slice(words.as_slice());
}

fn header(id: u32) -> (w: Vec<u32>)
    ensures
        w@ == header_words(id),
{
    let mut w: Vec<u32> = Vec::new();
    w.push(0);
    w.push(0);
    w.push(0);
    w.push(0);
    w.push(id);
    proof {
        assert(w@ =~= header_words(id));
    }
    w
}

// ---------------------------------------------------------------------------
// Module 1: system information
// ---------------------------------------------------------------------------

/// The words of the system information module before the executable path.
pub open spec fn system_info_words(
    cpu_count: u32,
    total_memory_kb: u64,
    uptime_seconds: u64,
    cpu_model: Seq<char>,
    architecture: Seq<char>,
    kernel_release: Seq<char>,
    hostname: Seq<char>,
    boot_time: u64,
    now_secs: u64,
    pid: u32,
    tid: u32,
) -> Seq<u32> {
    header_words(1) + seq![
        0u32,
        boot_time as u32,
        (boot_time as u32) >> 16u32,
        now_secs as u32,
        0x0A000001u32,
        cpu_count,
        0u32,
        (total_memory_kb / 1024) as u32,
        uptime_seconds as u32,
        spec_vac_hash(encode_utf8(cpu_model)),
        spec_vac_hash(encode_utf8(architecture)),
        spec_vac_hash(encode_utf8(kernel_release)),
        spec_vac_hash(encode_utf8(hostname)),
        cpu_count,
        pid,
        tid,
    ]
}

/// The last 36 bytes of the executable path (all of it when shorter).
pub open spec fn exe_tail(exe: Seq<char>) -> Seq<u8> {
    let b = encode_utf8(exe);
    if b.len() <= 36 {
        b
    } else {
        b.subrange(b.len() - 36, b.len() as int)
    }
}

/// Writes the system information module's report.
pub fn system_info_scan(
    report: &mut ScanReport,
    info: &SystemInfoData,
    boot_time: u64,
    now_secs: u64,
    pid: u32,
    tid: u32,
    exe: Option<&str>,
    mount_count: usize,
    proc_count: usize,
    lib_count: usize,
    debug_privilege: bool,
)
    requires
        old(report).data.wf(),
    ensures
        final(report).data.wf(),
        final(report).error == ScanError::NoError,
        final(report).module_id == old(report).module_id,
        ({
            let s1 = then_words(
                report_state(*old(report)),
                system_info_words(
                    info.cpu_count,
                    info.total_memory_kb,
                    info.uptime_seconds,
                    info.cpu_model@,
                    info.architecture@,
                    info.kernel_release@,
                    info.hostname@,
                    boot_time,
                    now_secs,
                    pid,
                    tid,
                ),
            );
            let s2 = match exe {
                Some(e) => then_words(s1, byte_chunk_words(exe_tail(e@))),
                Option::None => s1,
            };
            report_state(*final(report)) == then_words(
                s2,
                seq![
                    mount_count as u32,
                    proc_count as u32,
                    lib_count as u32,
                    if debug_privilege {
                        1u32
                    } else {
                        0u32
                    },
                ],
            )
        }),
{
    let mut w = header(1);
    w.push(0);
    w.push(boot_time as u32);
    w.push((boot_time as u32) >> 16u32);
    w.push(now_secs as u32);
    w.push(0x0A000001);
    w.push(info.cpu_count);
    w.push(0);
    w.push((info.total_memory_kb / 1024) as u32);
    w.push(info.uptime_seconds as u32);
    w.push(vac_hash_str(info.cpu_model.as_str()));
    w.push(vac_hash_str(info.architecture.as_str()));
    w.push(vac_hash_str(info.kernel_release.as_str()));
    w.push(vac_hash_str(info.hostname.as_str()));
    w.push(info.cpu_count);
    w.push(pid);
    w.push(tid);
    proof {
        assert(w@ =~= system_info_words(
            info.cpu_count,
            info.total_memory_kb,
            info.uptime_seconds,
            info.cpu_model@,
            info.architecture@,
            info.kernel_release@,
            info.hostname@,
            boot_time,
            now_secs,
            pid,
            tid,
        ));
    }
    append(report, &w);
    match exe {
        Some(e) => {
            let bytes = e.as_bytes();
            let n = if bytes.len() < 36 {
                bytes.len()
            } else {
                36
            };
            let tail = vstd::slice::slice_subrange(bytes, bytes.len() - n, bytes.len());
            proof {
                if bytes@.len() <= 36 {
                    assert(tail@ =~= bytes@);
                }
            }
            report.data.write_bytes(tail);
        },
        Option::None => {},
    }
    let mut t: Vec<u32> = Vec::new();
    t.push(mount_count as u32);
    t.push(proc_count as u32);
    t.push(lib_count as u32);
    t.push(if debug_privilege { 1 } else { 0 });
    proof {
        assert(t@ =~= seq![
            mount_count as u32,
            proc_count as u32,
            lib_count as u32,
            if debug_privilege {
                1u32
            } else {
                0u32
            },
        ]);
    }
    append(report, &t);
    report.error = ScanError::NoError;
}


// ---------------------------------------------------------------------------
// Module 2: the process list
// ---------------------------------------------------------------------------

/// Number of known cheat process names of the process list module.
pub const HANDLE_CHEATS_LEN: usize = 18;

/// Known cheat process name `i` (lowercase) for the process list module.
pub open spec fn spec_handle_cheat(i: int) -> Seq<char> {
    if i == 0 { "cheatengine"@ }
    else if i == 1 { "cheatengine64"@ }
    else if i == 2 { "injector"@ }
    else if i == 3 { "extreme_injector"@ }
    else if i == 4 { "process_hacker"@ }
    else if i == 5 { "processhacker"@ }
    else if i == 6 { "x96dbg"@ }
    else if i == 7 { "x64dbg"@ }
    else if i == 8 { "x32dbg"@ }
    else if i == 9 { "ollydbg"@ }
    else if i == 10 { "ida64"@ }
    else if i == 11 { "ida"@ }
    else if i == 12 { "windbg"@ }
    else if i == 13 { "reclass"@ }
    else if i == 14 { "reclass64"@ }
    else if i == 15 { "httpproxy"@ }
    else if i == 16 { "fiddler"@ }
    else { "wireshark"@ }
}

/// Known cheat process name `i`.
pub fn handle_cheat(i: usize) -> (s: &'static str)
    requires
        i < HANDLE_CHEATS_LEN,
    ensures
        s@ == spec_handle_cheat(i as int),
{
    if i == 0 { "cheatengine" }
    else if i == 1 { "cheatengine64" }
    else if i == 2 { "injector" }
    else if i == 3 { "extreme_injector" }
    else if i == 4 { "process_hacker" }
    else if i == 5 { "processhacker" }
    else if i == 6 { "x96dbg" }
    else if i == 7 { "x64dbg" }
    else if i == 8 { "x32dbg" }
    else if i == 9 { "ollydbg" }
    else if i == 10 { "ida64" }
    else if i == 11 { "ida" }
    else if i == 12 { "windbg" }
    else if i == 13 { "reclass" }
    else if i == 14 { "reclass64" }
    else if i == 15 { "httpproxy" }
    else if i == 16 { "fiddler" }
    else { "wireshark" }
}

/// A (lowercase) process name contains a known cheat name.
pub open spec fn is_handle_cheat(n: Seq<char>) -> bool {
    exists|c: int| 0 <= c < HANDLE_CHEATS_LEN && has_text(n, #[trigger] spec_handle_cheat(c))
}

/// The four words of one process: pid, parent pid, flagged, name hash (0
/// when not flagged).
pub open spec fn handle_entry_words(p: (u32, u32, String)) -> Seq<u32> {
    if is_handle_cheat(unicode_lowercase(p.2@)) {
        seq![p.0, p.1, 1u32, spec_vac_hash(encode_utf8(p.2@))]
    } else {
        seq![p.0, p.1, 0u32, 0u32]
    }
}

/// The words of a list of processes.
pub open spec fn handle_entries_words(p: Seq<(u32, u32, String)>) -> Seq<u32>
    decreases p.len(),
{
    if p.len() == 0 {
        Seq::empty()
    } else {
        handle_entries_words(p.drop_last()) + handle_entry_words(p.last())
    }
}

/// Number of flagged processes.
pub open spec fn handle_flagged(p: Seq<(u32, u32, String)>) -> nat
    decreases p.len(),
{
    if p.len() == 0 {
        0
    } else {
        handle_flagged(p.drop_last()) + if is_handle_cheat(unicode_lowercase(p.last().2@)) {
            1nat
        } else {
            0nat
        }
    }
}

/// The first `n` elements (all when fewer).
pub open spec fn first_n<A>(s: Seq<A>, n: int) -> Seq<A> {
    if s.len() <= n {
        s
    } else {
        s.subrange(0, n)
    }
}

fn handle_cheat_name(n: &str) -> (r: bool)
    ensures
        r == is_handle_cheat(n@),
{
    let mut c: usize = 0;
    while c < HANDLE_CHEATS_LEN
        invariant
            c <= HANDLE_CHEATS_LEN,
            forall|q: int| 0 <= q < c ==> !has_text(n@, #[trigger] spec_handle_cheat(q)),
        decreases HANDLE_CHEATS_LEN - c,
    {
        if str_contains(n, handle_cheat(c)) {
            return true;
        }
        c = c + 1;
    }
    false
}

/// Writes the process list module's report: the process count, then for
/// the first 400 processes their pid, parent pid, flag and flagged name
/// hash; the number flagged is then written at word 6.  Without a process
/// list the report stops after the header with a failed system call.
pub fn process_handle_scan(report: &mut ScanReport, procs: Option<&[(u32, u32, String)]>)
    requires
        old(report).data.wf(),
    ensures
        final(report).data.wf(),
        final(report).module_id == old(report).module_id,
        match procs {
            Option::None => report_state(*final(report)) == then_words(report_state(*old(report)), header_words(2))
                && final(report).error == ScanError::SystemCallFailed,
            Some(p) => {
                let s1 = then_words(
                    report_state(*old(report)),
                    header_words(2) + seq![p@.len() as u32] + handle_entries_words(first_n(p@, 400)),
                );
                &&& report_state(*final(report)) == then_words(
                    (s1.0, 6),
                    seq![handle_flagged(first_n(p@, 400)) as u32],
                )
                &&& final(report).error == ScanError::NoError
            },
        },
{
    let h = header(2);
    let p = match procs {
        Option::None => {
            append(report, &h);
            report.error = ScanError::SystemCallFailed;
            return;
        },
        Some(p) => p,
    };
    let mut w = h;
    w.push(p.len() as u32);
    let ghost head = w@;
    let n = if p.len() <= 400 {
        p.len()
    } else {
        400
    };
    let mut flagged: u32 = 0;
    let mut i: usize = 0;
    while i < n
        invariant
            i <= n <= p@.len(),
            n <= 400,
            w@ == head + handle_entries_words(p@.subrange(0, i as int)),
            flagged == handle_flagged(p@.subrange(0, i as int)),
            flagged <= i,
        decreases n - i,
    {
        let (pid, ppid, comm) = &p[i];
        proof {
            assert(p@.subrange(0, i + 1).drop_last() =~= p@.subrange(0, i as int));
        }
        let lower = to_lowercase(comm.as_str());
        if handle_cheat_name(lower.as_str()) {
            w.push(*pid);
            w.push(*ppid);
            w.push(1);
            w.push(vac_hash_str(comm.as_str()));
            flagged = flagged + 1;
        } else {
            w.push(*pid);
            w.push(*ppid);
            w.push(0);
            w.push(0);
        }
        proof {
            assert(w@ =~= head + handle_entries_words(p@.subrange(0, i + 1)));
        }
        i = i + 1;
    }
    proof {
        if p@.len() <= 400 {
            assert(p@.subrange(0, n as int) =~= p@);
        }
        assert(first_n(p@, 400) == p@.subrange(0, n as int));
    }
    append(report, &w);
    report.data.set_cursor(6);
    let mut t: Vec<u32> = Vec::new();
    t.push(flagged);
    proof {
        assert(t@ =~= seq![flagged]);
    }
    append(report, &t);
    report.error = ScanError::NoError;
}

// ---------------------------------------------------------------------------
// Module 3: process integrity
// ---------------------------------------------------------------------------

/// The hash of an executable's first 64 KiB (CRC-32 seeded like the name
/// hash), or the seed when the file is empty or unreadable.
pub open spec fn spec_text_hash(data: Seq<u8>) -> u32 {
    if data.len() == 0 {
        VAC_HASH_SEED
    } else {
        spec_crc32(first_n(data, 65536), VAC_HASH_SEED)
    }
}

/// Hashes the start of the executable.
pub fn text_section_hash(data: &[u8]) -> (h: u32)
    ensures
        h == spec_text_hash(data@),
{
    let max = if data.len() < 65536 {
        data.len()
    } else {
        65536
    };
    if max == 0 {
        return VAC_HASH_SEED;
    }
    let head = vstd::slice::slice_subrange(data, 0, max);
    proof {
        if data@.len() <= 65536 {
            assert(head@ =~= data@);
        }
    }
    crc32(head, VAC_HASH_SEED)
}

/// A library loaded from a temporary or shared-memory directory.
pub open spec fn odd_library_path(path: Seq<char>) -> bool {
    has_text(path, "/tmp/"@) || has_text(path, "/dev/shm/"@) || has_text(path, "/var/tmp/"@)
}

/// The words of the libraries loaded from odd places: `1, name hash` each.
pub open spec fn odd_library_words(libs: Seq<LibraryInfo>) -> Seq<u32>
    decreases libs.len(),
{
    if libs.len() == 0 {
        Seq::empty()
    } else {
        odd_library_words(libs.drop_last()) + if odd_library_path(libs.last().path@) {
            seq![1u32, spec_vac_hash(encode_utf8(libs.last().name@))]
        } else {
            Seq::empty()
        }
    }
}

/// Number of libraries loaded from odd places.
pub open spec fn odd_library_count(libs: Seq<LibraryInfo>) -> nat
    decreases libs.len(),
{
    if libs.len() == 0 {
        0
    } else {
        odd_library_count(libs.drop_last()) + if odd_library_path(libs.last().path@) {
            1nat
        } else {
            0nat
        }
    }
}

/// Writes the process integrity module's report: the executable's hash,
/// the library count, `1, name hash` for each library loaded from a
/// temporary directory, and their number at word 7.  Without the
/// executable path the report stops after the header with a failed system
/// call; without the libraries it ends with a zero.
pub fn process_monitor_scan(report: &mut ScanReport, text_hash: Option<u32>, libs: Option<&[LibraryInfo]>)
    requires
        old(report).data.wf(),
        libs matches Some(l) ==> l@.len() <= u32::MAX,
    ensures
        final(report).data.wf(),
        final(report).module_id == old(report).module_id,
        match text_hash {
            Option::None => report_state(*final(report)) == then_words(report_state(*old(report)), header_words(3))
                && final(report).error == ScanError::SystemCallFailed,
            Some(h) => match libs {
                Option::None => report_state(*final(report)) == then_words(
                    report_state(*old(report)),
                    header_words(3) + seq![h, 0u32],
                ) && final(report).error == old(report).error,
                Some(l) => {
                    let s1 = then_words(
                        report_state(*old(report)),
                        header_words(3) + seq![h, l@.len() as u32] + odd_library_words(l@),
                    );
                    &&& report_state(*final(report)) == then_words(
                        (s1.0, 7),
                        seq![odd_library_count(l@) as u32],
                    )
                    &&& final(report).error == ScanError::NoError
                },
            },
        },
{
    let mut w = header(3);
    let h = match text_hash {
        Option::None => {
            append(report, &w);
            report.error = ScanError::SystemCallFailed;
            return;
        },
        Some(h) => h,
    };
    w.push(h);
    let l = match libs {
        Option::None => {
            w.push(0);
            proof {
                assert(w@ =~= header_words(3) + seq![h, 0u32]);
            }
            append(report, &w);
            return;
        },
        Some(l) => l,
    };
    w.push(l.len() as u32);
    let ghost head = w@;
    let mut count: u32 = 0;
    let mut i: usize = 0;
    while i < l.len()
        invariant
            i <= l@.len() <= u32::MAX,
            w@ == head + odd_library_words(l@.subrange(0, i as int)),
            count == odd_library_count(l@.subrange(0, i as int)),
            count <= i,
        decreases l@.len() - i,
    {
        proof {
            assert(l@.subrange(0, i + 1).drop_last() =~= l@.subrange(0, i as int));
        }
        let path = l[i].path.as_str();
        if str_contains(path, "/tmp/") || str_contains(path, "/dev/shm/") || str_contains(path, "/var/tmp/") {
            w.push(1);
            w.push(vac_hash_str(l[i].name.as_str()));
            count = count + 1;
        }
        proof {
            assert(w@ =~= head + odd_library_words(l@.subrange(0, i + 1)));
        }
        i = i + 1;
    }
    proof {
        assert(l@.subrange(0, l@.len() as int) =~= l@);
    }
    append(report, &w);
    report.data.set_cursor(7);
    let mut t: Vec<u32> = Vec::new();
    t.push(count);
    proof {
        assert(t@ =~= seq![count]);
    }
    append(report, &t);
    report.error = ScanError::NoError;
}


// ---------------------------------------------------------------------------
// Shared: words of a list of items
// ---------------------------------------------------------------------------

/// The words of each item of `s`, in order.
pub open spec fn concat_words<A>(s: Seq<A>, f: spec_fn(A) -> Seq<u32>) -> Seq<u32>
    decreases s.len(),
{
    if s.len() == 0 {
        Seq::empty()
    } else {
        concat_words(s.drop_last(), f) + f(s.last())
    }
}

proof fn lemma_concat_words_step<A>(s: Seq<A>, i: int, f: spec_fn(A) -> Seq<u32>)
    requires
        0 <= i < s.len(),
    ensures
        concat_words(s.subrange(0, i + 1), f) == concat_words(s.subrange(0, i), f) + f(s[i]),
{
    assert(s.subrange(0, i + 1).drop_last() =~= s.subrange(0, i));
}

/// The hash of a string's UTF-8 bytes.
pub open spec fn str_hash(s: Seq<char>) -> u32 {
    spec_vac_hash(encode_utf8(s))
}

// ---------------------------------------------------------------------------
// Module 4: devices
// ---------------------------------------------------------------------------

/// The three words of a block device: name hash, size in sectors, removable.
pub open spec fn block_device_words(d: BlockDeviceInfo) -> Seq<u32> {
    seq![
        str_hash(d.name@),
        d.size_sectors as u32,
        if d.removable {
            1u32
        } else {
            0u32
        },
    ]
}

/// The four words of a PCI device: hashes of slot, vendor, device, driver.
pub open spec fn pci_device_words(d: PciDeviceInfo) -> Seq<u32> {
    seq![str_hash(d.slot@), str_hash(d.vendor@), str_hash(d.device@), str_hash(d.driver@)]
}

/// The words of all block devices.
pub open spec fn block_devices_words(s: Seq<BlockDeviceInfo>) -> Seq<u32> {
    concat_words(s, |d: BlockDeviceInfo| block_device_words(d))
}

/// The words of all PCI devices.
pub open spec fn pci_devices_words(s: Seq<PciDeviceInfo>) -> Seq<u32> {
    concat_words(s, |d: PciDeviceInfo| pci_device_words(d))
}

/// The words of the device module after its header.
pub open spec fn device_info_words(d: DeviceList) -> Seq<u32> {
    seq![d.block_devices@.len() as u32, d.pci_devices@.len() as u32] + block_devices_words(
        d.block_devices@,
    ) + pci_devices_words(d.pci_devices@)
}

/// Writes the device module's report: the block and PCI device counts, then
/// each block device and each PCI device.  Without a device list the report
/// stops after the header with a failed system call.
pub fn device_info_scan(report: &mut ScanReport, devices: Option<&DeviceList>)
    requires
        old(report).data.wf(),
    ensures
        final(report).data.wf(),
        final(report).module_id == old(report).module_id,
        match devices {
            Option::None => report_state(*final(report)) == then_words(
                report_state(*old(report)),
                header_words(4),
            ) && final(report).error == ScanError::SystemCallFailed,
            Some(d) => report_state(*final(report)) == then_words(
                report_state(*old(report)),
                header_words(4) + device_info_words(*d),
            ) && final(report).error == ScanError::NoError,
        },
{
    let mut w = header(4);
    let d = match devices {
        Option::None => {
            append(report, &w);
            report.error = ScanError::SystemCallFailed;
            return;
        },
        Some(d) => d,
    };
    w.push(d.block_devices.len() as u32);
    w.push(d.pci_devices.len() as u32);
    let ghost head = w@;
    let mut i: usize = 0;
    while i < d.block_devices.len()
        invariant
            i <= d.block_devices@.len(),
            w@ == head + block_devices_words(d.block_devices@.subrange(0, i as int)),
        decreases d.block_devices@.len() - i,
    {
        let dev = &d.block_devices[i];
        proof {
            lemma_concat_words_step(
                d.block_devices@,
                i as int,
                |d: BlockDeviceInfo| block_device_words(d),
            );
        }
        w.push(vac_hash_str(dev.name.as_str()));
        w.push(dev.size_sectors as u32);
        w.push(if dev.removable { 1 } else { 0 });
        proof {
            assert(w@ =~= head + block_devices_words(d.block_devices@.subrange(0, i + 1)));
        }
        i = i + 1;
    }
    proof {
        assert(d.block_devices@.subrange(0, d.block_devices@.len() as int) =~= d.block_devices@);
    }
    let ghost mid = w@;
    let mut k: usize = 0;
    while k < d.pci_devices.len()
        invariant
            k <= d.pci_devices@.len(),
            w@ == mid + pci_devices_words(d.pci_devices@.subrange(0, k as int)),
        decreases d.pci_devices@.len() - k,
    {
        let dev = &d.pci_devices[k];
        proof {
            lemma_concat_words_step(
                d.pci_devices@,
                k as int,
                |d: PciDeviceInfo| pci_device_words(d),
            );
        }
        w.push(vac_hash_str(dev.slot.as_str()));
        w.push(vac_hash_str(dev.vendor.as_str()));
        w.push(vac_hash_str(dev.device.as_str()));
        w.push(vac_hash_str(dev.driver.as_str()));
        proof {
            assert(w@ =~= mid + pci_devices_words(d.pci_devices@.subrange(0, k + 1)));
        }
        k = k + 1;
    }
    proof {
        assert(d.pci_devices@.subrange(0, d.pci_devices@.len() as int) =~= d.pci_devices@);
        assert(w@ =~= header_words(4) + device_info_words(*d));
    }
    append(report, &w);
    report.error = ScanError::NoError;
}

// ---------------------------------------------------------------------------
// Module 5: kernel modules
// ---------------------------------------------------------------------------

/// The four words of a kernel module: name hash, size, reference count,
/// number of dependencies.
pub open spec fn kernel_module_words(m: KernelModuleInfo) -> Seq<u32> {
    seq![str_hash(m.name@), m.size as u32, m.refcount, m.dependencies@.len() as u32]
}

/// The words of a list of kernel modules.
pub open spec fn kernel_modules_words(s: Seq<KernelModuleInfo>) -> Seq<u32> {
    concat_words(s, |m: KernelModuleInfo| kernel_module_words(m))
}

/// Writes the kernel module report: the module count, then the first 256
/// modules.  Without a module list the report stops after the header with a
/// failed system call.
pub fn driver_info_scan(report: &mut ScanReport, modules: Option<&[KernelModuleInfo]>)
    requires
        old(report).data.wf(),
    ensures
        final(report).data.wf(),
        final(report).module_id == old(report).module_id,
        match modules {
            Option::None => report_state(*final(report)) == then_words(
                report_state(*old(report)),
                header_words(5),
            ) && final(report).error == ScanError::SystemCallFailed,
            Some(m) => report_state(*final(report)) == then_words(
                report_state(*old(report)),
                header_words(5) + seq![m@.len() as u32] + kernel_modules_words(first_n(m@, 256)),
            ) && final(report).error == ScanError::NoError,
        },
{
    let mut w = header(5);
    let m = match modules {
        Option::None => {
            append(report, &w);
            report.error = ScanError::SystemCallFailed;
            return;
        },
        Some(m) => m,
    };
    w.push(m.len() as u32);
    let ghost head = w@;
    let n = if m.len() <= 256 {
        m.len()
    } else {
        256
    };
    let mut i: usize = 0;
    while i < n
        invariant
            i <= n <= m@.len(),
            w@ == head + kernel_modules_words(m@.subrange(0, i as int)),
        decreases n - i,
    {
        let km = &m[i];
        proof {
            lemma_concat_words_step(m@, i as int, |m: KernelModuleInfo| kernel_module_words(m));
        }
        w.push(vac_hash_str(km.name.as_str()));
        w.push(km.size as u32);
        w.push(km.refcount);
        w.push(km.dependencies.len() as u32);
        proof {
            assert(w@ =~= head + kernel_modules_words(m@.subrange(0, i + 1)));
        }
        i = i + 1;
    }
    proof {
        if m@.len() <= 256 {
            assert(m@.subrange(0, n as int) =~= m@);
        }
        assert(first_n(m@, 256) == m@.subrange(0, n as int));
    }
    append(report, &w);
    report.error = ScanError::NoError;
}


// ---------------------------------------------------------------------------
// Module 6: loaded libraries and their file digests
// ---------------------------------------------------------------------------

/// The SHA-256 digest of `data`.
pub uninterp spec fn sha256_digest(data: Seq<u8>) -> Seq<u8>;

/// Computes the SHA-256 digest of `data` (32 bytes).
///
/// Trusted: calls `sha2::Sha256::digest`; the contract claims only that the
/// result is the digest of the bytes handed in and that it is 32 bytes long.
#[verifier::external_body]
fn sha256(data: &[u8]) -> (d: Vec<u8>)
    ensures
        d@ == sha256_digest(data@),
        d@.len() == 32,
{
    sha2::Sha256::digest(data).to_vec()
}

/// `s` with index `x` inserted after every entry whose key is not larger
/// (one step of a stable insertion sort).
pub open spec fn insert_by_key(keys: Seq<u64>, s: Seq<usize>, x: usize) -> Seq<usize>
    decreases s.len(),
{
    if s.len() == 0 {
        seq![x]
    } else if keys[s.last() as int] <= keys[x as int] {
        s.push(x)
    } else {
        insert_by_key(keys, s.drop_last(), x).push(s.last())
    }
}

/// The first `n` indices stably sorted by key.
pub open spec fn sorted_prefix(keys: Seq<u64>, n: nat) -> Seq<usize>
    decreases n,
{
    if n == 0 {
        Seq::empty()
    } else {
        insert_by_key(keys, sorted_prefix(keys, (n - 1) as nat), (n - 1) as usize)
    }
}

/// The indices of `keys` in the order of a stable sort by key.
pub open spec fn stable_order(keys: Seq<u64>) -> Seq<usize> {
    sorted_prefix(keys, keys.len())
}

proof fn lemma_insert_by_key_at(keys: Seq<u64>, s: Seq<usize>, x: usize, j: int)
    requires
        0 <= j <= s.len(),
        forall|k: int| j <= k < s.len() ==> keys[#[trigger] s[k] as int] > keys[x as int],
        j == 0 || keys[s[j - 1] as int] <= keys[x as int],
    ensures
        insert_by_key(keys, s, x) == s.insert(j, x),
    decreases s.len(),
{
    if s.len() == 0 {
        assert(s.insert(j, x) =~= seq![x]);
    } else if keys[s.last() as int] <= keys[x as int] {
        if j < s.len() {
            assert(keys[s[s.len() - 1] as int] > keys[x as int]);
        }
        assert(s.insert(j, x) =~= s.push(x));
    } else {
        lemma_insert_by_key_at(keys, s.drop_last(), x, j);
        assert(s.insert(j, x) =~= s.drop_last().insert(j, x).push(s.last()));
    }
}

/// The library base addresses.
pub open spec fn base_keys(libs: Seq<(LibraryInfo, Option<Vec<u8>>)>) -> Seq<u64> {
    Seq::new(libs.len(), |i: int| libs[i].0.base_address)
}

/// The indices of `keys` in the order of a stable sort by key.
pub fn sort_indices_by_key(keys: &[u64]) -> (order: Vec<usize>)
    ensures
        order@ == stable_order(keys@),
{
    let mut order: Vec<usize> = Vec::new();
    let mut i: usize = 0;
    while i < keys.len()
        invariant
            i <= keys@.len(),
            order@ == sorted_prefix(keys@, i as nat),
            order@.len() == i,
            forall|k: int| 0 <= k < order@.len() ==> order@[k] < i,
        decreases keys@.len() - i,
    {
        let key = keys[i];
        let mut j: usize = order.len();
        while j > 0 && keys[order[j - 1]] > key
            invariant
                j <= order@.len(),
                order@.len() == i,
                i < keys@.len(),
                key == keys@[i as int],
                forall|k: int| 0 <= k < order@.len() ==> order@[k] < i,
                forall|k: int| j <= k < order@.len() ==> keys@[#[trigger] order@[k] as int] > key,
            decreases j,
        {
            j = j - 1;
        }
        proof {
            lemma_insert_by_key_at(keys@, order@, i, j as int);
        }
        order.insert(j, i);
        i = i + 1;
    }
    order
}

/// Sorts the library indices by base address, keeping the listed order of
/// libraries at the same address.
pub fn libraries_by_base(libs: &[(LibraryInfo, Option<Vec<u8>>)]) -> (order: Vec<usize>)
    ensures
        order@ == stable_order(base_keys(libs@)),
{
    let mut keys: Vec<u64> = Vec::new();
    let mut i: usize = 0;
    while i < libs.len()
        invariant
            i <= libs@.len(),
            keys@ == base_keys(libs@).subrange(0, i as int),
        decreases libs@.len() - i,
    {
        keys.push(libs[i].0.base_address);
        proof {
            assert(keys@ =~= base_keys(libs@).subrange(0, i + 1));
        }
        i = i + 1;
    }
    proof {
        assert(keys@ =~= base_keys(libs@));
    }
    sort_indices_by_key(keys.as_slice())
}

/// The two words of a library's digest: its first 8 bytes as little-endian
/// words, or two zeros when the file could not be read.
pub open spec fn digest_words(content: Option<Vec<u8>>) -> Seq<u32> {
    match content {
        Some(c) => byte_chunk_words(sha256_digest(c@).subrange(0, 8)),
        Option::None => seq![0u32, 0u32],
    }
}

/// The six words of a library: name hash, path hash, base address, size,
/// digest.
pub open spec fn library_words(l: (LibraryInfo, Option<Vec<u8>>)) -> Seq<u32> {
    seq![str_hash(l.0.name@), str_hash(l.0.path@), l.0.base_address as u32, l.0.size as u32]
        + digest_words(l.1)
}

/// The libraries at the given indices.
pub open spec fn pick<A>(s: Seq<A>, idx: Seq<usize>) -> Seq<A> {
    Seq::new(idx.len(), |k: int| s[idx[k] as int])
}

/// The words of the libraries at the given indices.
pub open spec fn libraries_words(libs: Seq<(LibraryInfo, Option<Vec<u8>>)>, idx: Seq<usize>) -> Seq<u32> {
    concat_words(pick(libs, idx), |l: (LibraryInfo, Option<Vec<u8>>)| library_words(l))
}

/// Writes the loaded-library module's report: the library count, then the
/// first 200 libraries in order of base address, each with the first bytes
/// of its file's SHA-256 digest (each library comes with its file's content,
/// or `None` when the file could not be read).  Without a library list the
/// report stops after the header with a failed system call.
pub fn read_modules_scan(report: &mut ScanReport, libs: Option<&[(LibraryInfo, Option<Vec<u8>>)]>)
    requires
        old(report).data.wf(),
    ensures
        final(report).data.wf(),
        final(report).module_id == old(report).module_id,
        match libs {
            Option::None => report_state(*final(report)) == then_words(
                report_state(*old(report)),
                header_words(6),
            ) && final(report).error == ScanError::SystemCallFailed,
            Some(l) => report_state(*final(report)) == then_words(
                report_state(*old(report)),
                header_words(6) + seq![l@.len() as u32] + libraries_words(
                    l@,
                    first_n(stable_order(base_keys(l@)), 200),
                ),
            ) && final(report).error == ScanError::NoError,
        },
{
    let mut w = header(6);
    let l = match libs {
        Option::None => {
            append(report, &w);
            report.error = ScanError::SystemCallFailed;
            return;
        },
        Some(l) => l,
    };
    w.push(l.len() as u32);
    let order = libraries_by_base(l);
    proof {
        lemma_sorted_prefix_indices(base_keys(l@), l@.len());
    }
    let ghost head = w@;
    let ghost f = |x: (LibraryInfo, Option<Vec<u8>>)| library_words(x);
    let n = if order.len() <= 200 {
        order.len()
    } else {
        200
    };
    let mut i: usize = 0;
    while i < n
        invariant
            i <= n <= order@.len(),
            order@.len() == l@.len(),
            forall|k: int| 0 <= k < order@.len() ==> order@[k] < l@.len(),
            f == (|x: (LibraryInfo, Option<Vec<u8>>)| library_words(x)),
            w@ == head + concat_words(pick(l@, order@.subrange(0, i as int)), f),
        decreases n - i,
    {
        let idx = order[i];
        let lib = &l[idx].0;
        proof {
            assert(pick(l@, order@.subrange(0, i + 1)).subrange(0, i as int) =~= pick(
                l@,
                order@.subrange(0, i as int),
            ));
            lemma_concat_words_step(pick(l@, order@.subrange(0, i + 1)), i as int, f);
            assert(pick(l@, order@.subrange(0, i + 1)).subrange(0, i + 1) =~= pick(
                l@,
                order@.subrange(0, i + 1),
            ));
        }
        w.push(vac_hash_str(lib.name.as_str()));
        w.push(vac_hash_str(lib.path.as_str()));
        w.push(lib.base_address as u32);
        w.push(lib.size as u32);
        match &l[idx].1 {
            Some(content) => {
                let d = sha256(content.as_slice());
                let first = vstd::slice::slice_subrange(d.as_slice(), 0, 8);
                let a: u32 = (first[0] as u32) | ((first[1] as u32) << 8u32) | ((first[2] as u32)
                    << 16u32) | ((first[3] as u32) << 24u32);
                let b: u32 = (first[4] as u32) | ((first[5] as u32) << 8u32) | ((first[6] as u32)
                    << 16u32) | ((first[7] as u32) << 24u32);
                proof {
                    assert(byte_chunk_words(first@) =~= seq![
                        le_chunk_word(first@, 0),
                        le_chunk_word(first@, 4),
                    ]);
                }
                w.push(a);
                w.push(b);
            },
            Option::None => {
                w.push(0);
                w.push(0);
            },
        }
        proof {
            assert(w@ =~= head + concat_words(pick(l@, order@.subrange(0, i + 1)), f));
        }
        i = i + 1;
    }
    proof {
        if order@.len() <= 200 {
            assert(order@.subrange(0, n as int) =~= order@);
        }
        assert(first_n(order@, 200) == order@.subrange(0, n as int));
    }
    append(report, &w);
    report.error = ScanError::NoError;
}

/// The sorted prefix holds `n` indices, each below `n`.
proof fn lemma_sorted_prefix_indices(keys: Seq<u64>, n: nat)
    ensures
        sorted_prefix(keys, n).len() == n,
        forall|k: int| 0 <= k < n ==> #[trigger] sorted_prefix(keys, n)[k] < n,
    decreases n,
{
    if n > 0 {
        lemma_sorted_prefix_indices(keys, (n - 1) as nat);
        lemma_insert_by_key_members(keys, sorted_prefix(keys, (n - 1) as nat), (n - 1) as usize);
    }
}

proof fn lemma_insert_by_key_members(keys: Seq<u64>, s: Seq<usize>, x: usize)
    ensures
        insert_by_key(keys, s, x).len() == s.len() + 1,
        forall|k: int|
            0 <= k < s.len() + 1 ==> #[trigger] insert_by_key(keys, s, x)[k] == x || s.contains(
                insert_by_key(keys, s, x)[k],
            ),
    decreases s.len(),
{
    if s.len() > 0 && keys[s.last() as int] > keys[x as int] {
        lemma_insert_by_key_members(keys, s.drop_last(), x);
        let r = insert_by_key(keys, s.drop_last(), x);
        assert forall|k: int| 0 <= k < s.len() + 1 implies #[trigger] insert_by_key(keys, s, x)[k]
            == x || s.contains(insert_by_key(keys, s, x)[k]) by {
            if k < s.len() {
                let e = r[k];
                if e != x {
                    let q = choose|q: int| 0 <= q < s.drop_last().len() && s.drop_last()[q] == e;
                    assert(s[q] == e);
                }
            } else {
                assert(s[s.len() - 1] == s.last());
            }
        }
    }
}


/// The keys of the indices in `s` never decrease.
pub open spec fn sorted_by_key(keys: Seq<u64>, s: Seq<usize>) -> bool {
    forall|i: int, j: int|
        0 <= i < j < s.len() ==> keys[#[trigger] s[i] as int] <= keys[#[trigger] s[j] as int]
}

/// Indices with equal keys stay in increasing order.
pub open spec fn stable_by_key(keys: Seq<u64>, s: Seq<usize>) -> bool {
    forall|i: int, j: int|
        0 <= i < j < s.len() && keys[#[trigger] s[i] as int] == keys[#[trigger] s[j] as int]
            ==> s[i] < s[j]
}

proof fn lemma_insert_by_key_contains(keys: Seq<u64>, s: Seq<usize>, x: usize)
    ensures
        insert_by_key(keys, s, x).contains(x),
        forall|e: usize| s.contains(e) ==> #[trigger] insert_by_key(keys, s, x).contains(e),
    decreases s.len(),
{
    let r = insert_by_key(keys, s, x);
    if s.len() == 0 {
        assert(r[0] == x);
    } else if keys[s.last() as int] <= keys[x as int] {
        assert(r[s.len() as int] == x);
        assert forall|e: usize| s.contains(e) implies #[trigger] r.contains(e) by {
            let q = choose|q: int| 0 <= q < s.len() && s[q] == e;
            assert(r[q] == e);
        }
    } else {
        let t = insert_by_key(keys, s.drop_last(), x);
        lemma_insert_by_key_contains(keys, s.drop_last(), x);
        let qx = choose|q: int| 0 <= q < t.len() && t[q] == x;
        assert(r[qx] == x);
        assert forall|e: usize| s.contains(e) implies #[trigger] r.contains(e) by {
            let q = choose|q: int| 0 <= q < s.len() && s[q] == e;
            if q == s.len() - 1 {
                assert(r[t.len() as int] == e);
            } else {
                assert(s.drop_last()[q] == e);
                assert(s.drop_last().contains(e));
                assert(t.contains(e));
                let q2 = choose|q2: int| 0 <= q2 < t.len() && t[q2] == e;
                assert(r[q2] == e);
            }
        }
    }
}

proof fn lemma_insert_by_key_sorted_stable(keys: Seq<u64>, s: Seq<usize>, x: usize)
    requires
        sorted_by_key(keys, s),
        stable_by_key(keys, s),
        forall|k: int| 0 <= k < s.len() ==> #[trigger] s[k] < x,
    ensures
        sorted_by_key(keys, insert_by_key(keys, s, x)),
        stable_by_key(keys, insert_by_key(keys, s, x)),
    decreases s.len(),
{
    let r = insert_by_key(keys, s, x);
    if s.len() == 0 {
    } else if keys[s.last() as int] <= keys[x as int] {
        assert forall|i: int, j: int| 0 <= i < j < r.len() implies keys[#[trigger] r[i] as int]
            <= keys[#[trigger] r[j] as int] by {
            if j == s.len() {
                if i < s.len() - 1 {
                    assert(keys[s[i] as int] <= keys[s[s.len() - 1] as int]);
                }
            }
        }
    } else {
        let d = s.drop_last();
        lemma_insert_by_key_sorted_stable(keys, d, x);
        lemma_insert_by_key_members(keys, d, x);
        let t = insert_by_key(keys, d, x);
        assert forall|i: int, j: int| 0 <= i < j < r.len() implies keys[#[trigger] r[i] as int]
            <= keys[#[trigger] r[j] as int] by {
            if j == t.len() {
                let e = t[i];
                if e != x {
                    let q = choose|q: int| 0 <= q < d.len() && d[q] == e;
                    assert(s[q] == e);
                    assert(keys[s[q] as int] <= keys[s[s.len() - 1] as int]);
                }
            } else {
                assert(r[i] == t[i] && r[j] == t[j]);
            }
        }
        assert forall|i: int, j: int|
            0 <= i < j < r.len() && keys[#[trigger] r[i] as int] == keys[#[trigger] r[j] as int]
                implies r[i] < r[j] by {
            if j == t.len() {
                let e = t[i];
                if e != x {
                    let q = choose|q: int| 0 <= q < d.len() && d[q] == e;
                    assert(s[q] == e);
                    assert(s[q] < s[s.len() - 1]);
                }
            } else {
                assert(r[i] == t[i] && r[j] == t[j]);
            }
        }
    }
}

/// Law: `stable_order` is a stable sort of the indices by key: it lists
/// every index of `keys` once, in non-decreasing order of key, and indices
/// with equal keys keep their original order.
pub proof fn lemma_stable_order_is_stable_sort(keys: Seq<u64>)
    requires
        keys.len() <= usize::MAX,
    ensures
        stable_order(keys).len() == keys.len(),
        forall|k: int| 0 <= k < keys.len() ==> #[trigger] stable_order(keys)[k] < keys.len(),
        forall|i: usize| i < keys.len() ==> #[trigger] stable_order(keys).contains(i),
        sorted_by_key(keys, stable_order(keys)),
        stable_by_key(keys, stable_order(keys)),
{
    lemma_sorted_prefix_sort(keys, keys.len());
    lemma_sorted_prefix_indices(keys, keys.len());
}

proof fn lemma_sorted_prefix_sort(keys: Seq<u64>, n: nat)
    requires
        n <= usize::MAX,
    ensures
        forall|i: usize| i < n ==> #[trigger] sorted_prefix(keys, n).contains(i),
        sorted_by_key(keys, sorted_prefix(keys, n)),
        stable_by_key(keys, sorted_prefix(keys, n)),
    decreases n,
{
    if n > 0 {
        let m = (n - 1) as nat;
        lemma_sorted_prefix_sort(keys, m);
        lemma_sorted_prefix_indices(keys, m);
        let s = sorted_prefix(keys, m);
        lemma_insert_by_key_sorted_stable(keys, s, m as usize);
        lemma_insert_by_key_contains(keys, s, m as usize);
        assert forall|i: usize| i < n implies #[trigger] sorted_prefix(keys, n).contains(i) by {
            if i < m {
                assert(s.contains(i));
            }
        }
    }
}

} // verus!
