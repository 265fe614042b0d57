use vac_integrity::buffer::DataBuffer;
use vac_integrity::client_scan::{
    assemblies_report, debugger_state, environment_report, find_game_pid, game_region_scan,
    game_report, game_scan_maps, is_exec_protect, libraries_report, parent_pid_of, private_exec_regions,
    process_report, status_ppid,
};
use vac_integrity::daemon::{
    count_text_mismatches, daemon_request, hidden_proc_report, memory_report, memory_scan_counts,
    parse_maps, proc_list_diff, ring0_proc_payload, text_mismatch, DaemonRequest,
};
use vac_integrity::hash::vac_hash_str;
use vac_integrity::kmod::{
    comm_string, ctl_code, decode_proc_list, VacProcEntry, VacProcList, VAC_IOCTL_FILL,
    VAC_IOCTL_PROC_LIST, VAC_IOCTL_PROC_NAME, VAC_IOCTL_READ_MEM, _io, _ior, _iowr,
};
use vac_integrity::machine::{
    block_device, boot_time, cpu_model, hardware_presence, has_char, has_ptrace_capability,
    kernel_range, maps_libraries, mem_total_kb, pci_device, FieldError,
};
use vac_integrity::module::{ScanError, ScanReport};
use vac_integrity::policy::parse_ring0_payload;
use vac_integrity::procfs::{
    join_cmdline, parse_kernel_modules, parse_mountinfo, parse_ppid, parse_systemd_units,
    sort_fds, sort_processes, status_field_u32, user_proc_entry,
};
use vac_integrity::protocol::build_scan_cmd;
use vac_integrity::server_modules::{
    device_info_scan, driver_info_scan, process_handle_scan, process_monitor_scan, read_modules_scan,
    text_section_hash,
};
use vac_integrity::sysinfo::{BlockDeviceInfo, DeviceList, KernelModuleInfo, LibraryInfo, PciDeviceInfo};
use vac_integrity::win_daemon::{
    parse_daemon_config, parse_loginusers_vdf, pe_mismatch, region_perms, service_state_text,
    win_memory_counts,
};

fn lib(name: &str, path: &str, base: u64, size: u64) -> LibraryInfo {
    LibraryInfo { name: name.to_string(), path: path.to_string(), base_address: base, size }
}

#[test]
fn proc_text_parsers() {
    assert_eq!(parse_ppid("123 (my (odd) proc) S 77 123 123"), Some(77));
    assert_eq!(parse_ppid("no parens"), None);
    assert_eq!(user_proc_entry("123", "123 (bash) S 1 123"), Some((123, "bash".to_string())));
    assert_eq!(user_proc_entry("self", "1 (x) S 0"), None);
    assert_eq!(status_field_u32("Name:\tx\nPPid:\t 42\n", "PPid:"), Some(42));
    assert_eq!(status_ppid("Name:\tx\nPPid:\t42\n"), 42);
    assert_eq!(status_ppid("Name:\tx\n"), 0);
    assert_eq!(join_cmdline(b"gdb\0--args\0\0./game\0"), "gdb --args ./game");

    let mods = parse_kernel_modules("vac 16384 0 - Live 0xffffffffc0a00000\nnvidia 100 2 drm,i2c Live ffff0010]\nshort line\n");
    assert_eq!(mods.len(), 2);
    assert_eq!(mods[0].name, "vac");
    assert_eq!(mods[0].size, 16384);
    assert!(mods[0].dependencies.is_empty());
    // The address is read as bare hexadecimal: a `0x` prefix does not parse.
    assert_eq!(mods[0].address, 0);
    assert_eq!(mods[1].address, 0xffff0010);
    assert_eq!(mods[1].refcount, 2);
    assert_eq!(mods[1].dependencies, vec!["drm".to_string(), "i2c".to_string()]);

    let mounts = parse_mountinfo("22 1 8:1 / / rw,relatime shared:1 - ext4 /dev/sda1 rw\nshort\n");
    assert_eq!(mounts.len(), 1);
    assert_eq!(mounts[0].device, "/dev/sda1");
    assert_eq!(mounts[0].mount_point, "/");
    // Fields are taken by position: with one optional field the eighth word
    // is the separator.
    assert_eq!(mounts[0].fstype, "-");
    assert_eq!(mounts[0].options, "rw,relatime");

    let units = parse_systemd_units("ssh.service loaded active running OpenSSH\nbad\ncron.service loaded inactive enabled cron\n");
    assert_eq!(units.len(), 2);
    assert_eq!(units[0].name, "ssh");
    assert_eq!(units[0].state, "active");
    assert!(!units[0].enabled);
    assert_eq!(units[1].state, "inactive");
    assert!(units[1].enabled);
}

#[test]
fn listings_sort_stably() {
    let procs = vec![(30u32, 1u32, "c".to_string()), (10, 1, "a".to_string()), (20, 1, "b".to_string()), (10, 2, "a2".to_string())];
    let s = sort_processes(&procs);
    let pids: Vec<(u32, u32)> = s.iter().map(|p| (p.0, p.1)).collect();
    assert_eq!(pids, vec![(10, 1), (10, 2), (20, 1), (30, 1)]);
    let fds = vec![(5u32, "x".to_string()), (0, "/dev/null".to_string())];
    let f = sort_fds(&fds);
    assert_eq!(f[0].0, 0);
    assert_eq!(f[1].1, "x");
}

#[test]
fn machine_facts() {
    assert_eq!(cpu_model("processor\t: 0\nmodel name\t: AMD Ryzen  \nmodel name\t: other\n").as_deref(), Some("AMD Ryzen"));
    assert_eq!(cpu_model("nothing\n"), None);
    assert_eq!(mem_total_kb("MemFree: 1 kB\nMemTotal:       16384 kB\n"), Some(16384));
    assert_eq!(mem_total_kb("MemTotal: lots\n"), None);
    assert_eq!(boot_time("cpu 1 2\nbtime 1700000000\n"), Ok(1_700_000_000));
    assert_eq!(boot_time("btime x\n"), Err(FieldError::Invalid));
    assert_eq!(boot_time("cpu\n"), Err(FieldError::Missing));
    assert_eq!(
        kernel_range("ffffffff81000000 T _text\n0000000000000000 A zero\nffffffff82000000 T _etext\nffffffff80500000 t early\nbad\n"),
        Some((0xffffffff80500000, 0xffffffff82000000))
    );
    assert_eq!(kernel_range("0000000000000000 T x\n"), None);
    assert!(has_ptrace_capability("CapInh:\t0\nCapPrm:\t00000000a80c25fb\nCapEff:\t0\n"));
    assert!(!has_ptrace_capability("CapPrm:\t0000000000000000\n"));
    assert!(has_ptrace_capability("CapPrm:\tzz\nCapEff:\t0000000000080000\n"));
    assert!(!has_ptrace_capability(""));
    let hp = hardware_presence(false, true);
    assert_eq!(hp.len(), 32);
    assert_eq!(hp[0], 2);
    assert_eq!(hardware_presence(true, true)[0], 3);
    assert_eq!(hardware_presence(false, false)[0], 1);
    assert!(has_char("r-xp", 'x'));
    assert!(!has_char("r--p", 'x'));

    let maps = "7f00-7f10 r-xp 0 08:01 1 /usr/lib/libc.so.6\n7f10-7f20 r--p 0 08:01 1 /usr/lib/libc.so.6\n7f20-7f30 r-xp 0 08:01 1 /usr/lib/libc.so.6\n8000-9000 r-xp 0 00:00 0\nzz-1 r-xp 0 0 0 /lib/x.so\n";
    let libs = maps_libraries(maps);
    assert_eq!(libs, vec![("/usr/lib/libc.so.6".to_string(), 0x7f00), ("/lib/x.so".to_string(), 0)]);

    let d = block_device("sda".to_string(), Some(" 1024\n"), Some("1\n"));
    assert_eq!(d.size_sectors, 1024);
    assert!(d.removable);
    let d = block_device("sdb".to_string(), Some("x"), None);
    assert_eq!(d.size_sectors, 0);
    assert!(!d.removable);
    let p = pci_device("0000:00:02.0".to_string(), Some("0x8086\n"), None, Some("i915".to_string()));
    assert_eq!(p.vendor, "0x8086");
    assert_eq!(p.device, "");
    assert_eq!(p.driver, "i915");
}

#[test]
fn windows_daemon_settings() {
    let cfg = parse_daemon_config("# comment\n; other\n SERVER = 10.0.0.5:28084 \nsteam_id=76561198000000001\nunknown=1\nnoequals\n");
    assert_eq!(cfg.server, "10.0.0.5:28084");
    assert_eq!(cfg.steam_id, Some(76561198000000001));
    let cfg = parse_daemon_config("steam_id=12\nsteam_id=oops\n");
    assert_eq!(cfg.steam_id, None);
    assert_eq!(cfg.server, "");

    let vdf = br#""users"
{
    "notanumber"
    {
        "AccountName" "x"
    }
    "76561198000000002"
    {
        "AccountName" "y"
    }
}"#;
    assert_eq!(parse_loginusers_vdf(vdf), Some(76561198000000002));
    assert_eq!(parse_loginusers_vdf(b"\"users\" { }"), None);
    assert_eq!(parse_loginusers_vdf(b"no users here"), None);
    assert_eq!(parse_loginusers_vdf(b"\"users\" { \"unterminated"), None);

    assert_eq!(region_perms(0x40), "-w-");
    assert_eq!(region_perms(0x12), "rwx");
    assert_eq!(service_state_text(1), "STOPPED");
    assert_eq!(service_state_text(4), "RUNNING");
    assert_eq!(service_state_text(7), "PAUSED");
    assert_eq!(service_state_text(0), "UNKNOWN");
    assert_eq!(service_state_text(8), "UNKNOWN");
    assert_eq!(region_perms(0x10), "r-x");
    assert_eq!(region_perms(0x04), "r--");
    assert_eq!(region_perms(0x110), "r-x");
    assert_eq!(region_perms(0x01), "---");
    assert!(pe_mismatch("C:\\x\\evil.dll", &[0, 0]));
    assert!(!pe_mismatch("C:\\x\\good.DLL", &[0, 0]));
    assert!(!pe_mismatch("C:\\x\\ok.exe", &[b'M', b'Z', 0]));
    let regions = vec![
        ("rwx".to_string(), String::new(), None),
        ("r-x".to_string(), String::new(), None),
        ("r-x".to_string(), "\\Device\\x.dll".to_string(), Some(vec![0u8; 16])),
        ("r--".to_string(), "\\Device\\y.dll".to_string(), Some(vec![0u8; 16])),
    ];
    assert_eq!(win_memory_counts(&regions), (1, 1, 4, 1));
}

#[test]
fn daemon_payloads() {
    let procs = vec![(1u32, 0u32, "systemd".to_string()), (42, 1, "a-very-long-process-name".to_string())];
    let p = ring0_proc_payload(&procs);
    assert_eq!(p.len(), 4 + 2 * 24);
    let back = parse_ring0_payload(&p);
    assert_eq!(back.len(), 2);
    assert_eq!(back[0].comm, "systemd");
    assert_eq!(back[1].comm, "a-very-long-pro");
    assert_eq!(back[1].ppid, 1);

    let ring0 = vec![(1u32, 0u32, "init".to_string()), (66, 1, "hidden".to_string())];
    let user = vec![(1u32, "init".to_string()), (77, "ghost".to_string())];
    assert_eq!(hidden_proc_report(&ring0, &user, 999), vec![0u8; 8], "own pid missing: no comparison");
    let report = hidden_proc_report(&ring0, &user, 1);
    let mut expect = Vec::new();
    expect.extend_from_slice(&1u32.to_le_bytes());
    expect.extend_from_slice(&1u32.to_le_bytes());
    expect.extend_from_slice(&66u32.to_le_bytes());
    expect.extend_from_slice(&6u32.to_le_bytes());
    expect.extend_from_slice(b"hidden");
    expect.extend_from_slice(&77u32.to_le_bytes());
    expect.extend_from_slice(&5u32.to_le_bytes());
    expect.extend_from_slice(b"ghost");
    assert_eq!(report, expect);
    assert_eq!(proc_list_diff(&ring0, &user), expect, "no namespace check on Windows");
    assert_eq!(proc_list_diff(&ring0[1..], &user[1..]), {
        let mut e = Vec::new();
        e.extend_from_slice(&1u32.to_le_bytes());
        e.extend_from_slice(&1u32.to_le_bytes());
        e.extend_from_slice(&66u32.to_le_bytes());
        e.extend_from_slice(&6u32.to_le_bytes());
        e.extend_from_slice(b"hidden");
        e.extend_from_slice(&77u32.to_le_bytes());
        e.extend_from_slice(&5u32.to_le_bytes());
        e.extend_from_slice(b"ghost");
        e
    });

    let entries = parse_maps("1000-3000 rwxp 0 00:00 0\n4000-5000 r-xp 0 00:00 0\n6000-7000 r-xp 0 08:01 1 /lib/a.so\n");
    assert_eq!(entries.len(), 3);
    assert_eq!(entries[0], (0x1000, 0x3000, "rwxp".to_string(), String::new()));
    assert_eq!(memory_scan_counts(&entries), (1, 1, 3));
    assert!(text_mismatch("/lib/a.so", &[0, 0, 0, 0]));
    assert!(!text_mismatch("/lib/a.so", &[0x7f, b'E', b'L', b'F']));
    assert!(!text_mismatch("/bin/tool", &[0, 0, 0, 0]));
    let headers = vec![None, None, Some(vec![0u8; 16])];
    assert_eq!(count_text_mismatches(&entries, &headers), 1);
    let m = memory_report(1, 2, 3, 4);
    assert_eq!(m, vec![1, 0, 0, 0, 2, 0, 0, 0, 3, 0, 0, 0, 4, 0, 0, 0]);

    assert!(matches!(daemon_request(0x05, &[]), DaemonRequest::Ping));
    assert!(matches!(daemon_request(0x03, &[1, 2, 3]), DaemonRequest::Ignored));
    let cmd = build_scan_cmd(7, &[1u8; 20], &[2u8; 8]);
    match daemon_request(0x03, &cmd) {
        DaemonRequest::Scan(c) => {
            assert_eq!(c.module_id, 7);
            assert_eq!(c.public_key, vec![1u8; 20]);
        },
        _ => panic!("SCAN_CMD must be read"),
    }
    assert!(matches!(daemon_request(0x09, &cmd), DaemonRequest::Ignored));
}

#[test]
fn kernel_module_interface() {
    assert_eq!(_io(0x56, 1), 0x5601);
    assert_eq!(VAC_IOCTL_PROC_LIST, 0x5601);
    assert_eq!(_ior(0x56, 0, 4), VAC_IOCTL_FILL);
    assert_eq!(_iowr(0x56, 2, 276), VAC_IOCTL_READ_MEM);
    assert_eq!(_iowr(0x56, 3, 20), VAC_IOCTL_PROC_NAME);
    assert_eq!(ctl_code(0x800), 0x0022_2000);
    let mut comm = [0u8; 16];
    comm[..4].copy_from_slice(b"bash");
    assert_eq!(comm_string(&comm), "bash");
    let list = VacProcList {
        count: 5,
        entries: vec![VacProcEntry { pid: 3, ppid: 1, comm }, VacProcEntry { pid: 4, ppid: 3, comm: [0u8; 16] }],
    };
    let procs = decode_proc_list(&list);
    assert_eq!(procs, vec![(3, 1, "bash".to_string()), (4, 3, String::new())]);
}

#[test]
fn client_module_reports() {
    let mut buf = DataBuffer::new();
    let presence = hardware_presence(false, false);
    process_report(&mut buf, 100, 101, 50, "/game/RustClient", "RustClient -noeac", false, None, &presence);
    assert_eq!(buf.cursor(), 96);
    assert_eq!(buf.word(0), 100);
    assert_eq!(buf.word(1), 101);
    assert_eq!(buf.word(2), 50);
    assert_eq!(buf.word(3), vac_hash_str("/game/RustClient"));
    assert_eq!(buf.word(4), vac_hash_str("RustClient -noeac"));
    assert_eq!(buf.word(5), 0);
    assert_eq!(buf.word(6), 0);
    assert_eq!(buf.word(7), 1);
    assert_eq!(buf.word(8), 0);

    let procs = vec![(5u32, 1u32, "a".to_string()), (6, 5, "RustClient.exe".to_string())];
    assert_eq!(parent_pid_of(Some(&procs), 6), 5);
    assert_eq!(parent_pid_of(Some(&procs), 9), 0);
    assert_eq!(parent_pid_of(None, 6), 0);
    assert_eq!(find_game_pid(Some(&procs)), Some(6));
    assert_eq!(find_game_pid(None), None);

    let mut libs_buf = DataBuffer::new();
    libraries_report(&mut libs_buf, &[lib("libc.so", "/usr/lib/libc.so", 0x1_0000_2000, 0x3000)]);
    assert_eq!(libs_buf.word(0), 1);
    assert_eq!(libs_buf.word(3), 0x2000);
    assert_eq!(libs_buf.word(4), 1);
    assert_eq!(libs_buf.cursor(), 512);

    let (flags, tracer, suspicious) = debugger_state("TracerPid:\t321\n", "0\n", Some("/usr/bin/gdb\0-p\0"), "a rwxp\nb [vdso]\n");
    assert_eq!(flags, 1 | 2 | 4);
    assert_eq!(tracer, 321);
    assert_eq!(suspicious, 1);
    let (flags, _, _) = debugger_state("TracerPid:\t0\n", "x", None, "");
    assert_eq!(flags, 16);

    let mut assemblies = DataBuffer::new();
    assemblies_report(&mut assemblies, &vec!["assembly-csharp.dll".to_string(), "0harmony.dll".to_string()]);
    assert_eq!(assemblies.word(0), 1);
    assert_eq!(assemblies.word(1), 1);
    assert_eq!(assemblies.cursor(), 32);

    let mut env = DataBuffer::new();
    environment_report(&mut env, &vec![
        ("LD_PRELOAD".to_string(), "/tmp/hook.so".to_string()),
        ("LD_LIBRARY_PATH".to_string(), "/opt/tmp/lib".to_string()),
        ("WINEDLLOVERRIDES".to_string(), "x".to_string()),
        ("MONO_DEBUG".to_string(), String::new()),
    ]);
    assert_eq!(env.word(0), 1 | 2);
    assert_eq!(env.cursor(), 16);

    assert_eq!(game_scan_maps(None), (0, 0, 3, 0));
    let g = game_scan_maps(Some("1-2 rwxp 0 0 0\n3-4 r-xp 0 0 0 /memfd:x (deleted)\n5-6 r-xp 0 0 0 /lib/ok.so\n7-8 r--p 0 0 0\n"));
    assert_eq!(g, (1, 2, 2, 0));
    let mut game = DataBuffer::new();
    game_report(&mut game, Some(6), g);
    assert_eq!((game.word(0), game.word(1), game.word(2), game.word(3), game.word(4), game.word(5)), (1, 6, 2, 1, 2, 0));
    let mut none = DataBuffer::new();
    game_report(&mut none, None, (9, 9, 9, 9));
    assert_eq!(none.word(2), 1);
    assert_eq!(none.cursor(), 8);

    assert!(is_exec_protect(0x20));
    assert!(!is_exec_protect(0x04));
    let regions = vec![
        (0x1000u32, 0x20000u32, 0x40u32, None),
        (0x1000, 0x20000, 0x20, None),
        (0x1000, 0x100_0000, 0x20, Some((0u8, 0u8))),
        (0x1000, 0x100_0000, 0x20, Some((b'M', b'Z'))),
        (0x2000, 0x20000, 0x40, None),
    ];
    assert_eq!(game_region_scan(&regions), (1, 2, 2, 1));
    assert_eq!(private_exec_regions(&regions), 2);
}

#[test]
fn server_module_reports() {
    let devices = DeviceList {
        block_devices: vec![BlockDeviceInfo { name: "sda".to_string(), size_sectors: 0x1_0000_0005, removable: true }],
        pci_devices: vec![PciDeviceInfo {
            slot: "s".to_string(),
            vendor: "v".to_string(),
            device: "d".to_string(),
            driver: "r".to_string(),
        }],
    };
    let mut r = ScanReport::new(4);
    device_info_scan(&mut r, Some(&devices));
    assert_eq!(r.error, ScanError::NoError);
    assert_eq!(r.data.cursor(), 5 + 2 + 3 + 4);
    assert_eq!(r.data.word(4), 4);
    assert_eq!(r.data.word(5), 1);
    assert_eq!(r.data.word(6), 1);
    assert_eq!(r.data.word(7), vac_hash_str("sda"));
    assert_eq!(r.data.word(8), 5);
    assert_eq!(r.data.word(9), 1);
    assert_eq!(r.data.word(13), vac_hash_str("r"));
    let mut failed = ScanReport::new(4);
    device_info_scan(&mut failed, None);
    assert_eq!(failed.error, ScanError::SystemCallFailed);
    assert_eq!(failed.data.cursor(), 5);

    let mods: Vec<KernelModuleInfo> = (0..300)
        .map(|i| KernelModuleInfo { name: format!("m{}", i), size: 10, refcount: 1, dependencies: vec![], address: 0 })
        .collect();
    let mut r = ScanReport::new(5);
    driver_info_scan(&mut r, Some(&mods));
    assert_eq!(r.data.word(5), 300);
    assert_eq!(r.data.cursor(), 6 + 256 * 4);

    let libs = vec![
        (lib("b.so", "/b.so", 0x3000, 1), None),
        (lib("a.so", "/a.so", 0x1000, 2), Some(b"abc".to_vec())),
        (lib("c.so", "/c.so", 0x1000, 3), None),
    ];
    let mut r = ScanReport::new(6);
    read_modules_scan(&mut r, Some(&libs));
    assert_eq!(r.data.word(5), 3);
    // Sorted by base address, ties kept in order: a.so, c.so, b.so.
    assert_eq!(r.data.word(6), vac_hash_str("a.so"));
    assert_eq!(r.data.word(8), 0x1000);
    // SHA-256("abc") starts ba 78 16 bf 8f 01 cf ea.
    assert_eq!(r.data.word(10), 0xbf16_78ba);
    assert_eq!(r.data.word(11), 0xeacf_018f);
    assert_eq!(r.data.word(12), vac_hash_str("c.so"));
    assert_eq!(r.data.word(16), 0);
    assert_eq!(r.data.word(17), 0);
    assert_eq!(r.data.word(18), vac_hash_str("b.so"));
    assert_eq!(r.data.cursor(), 6 + 3 * 6);

    let procs = vec![(10u32, 1u32, "bash".to_string()), (11, 1, "Cheat Engine x64".to_string()), (12, 1, "x64dbg".to_string())];
    let mut r = ScanReport::new(2);
    process_handle_scan(&mut r, Some(&procs));
    assert_eq!(r.data.word(5), 3);
    assert_eq!(r.data.word(6), 1, "flagged count overwrites word 6");
    assert_eq!(r.data.word(10), 11);
    assert_eq!(r.data.word(12), 0, "spaced name is not flagged");
    assert_eq!(r.data.word(14), 12);
    assert_eq!(r.data.word(16), 1);
    assert_eq!(r.data.word(17), vac_hash_str("x64dbg"));

    let libs = vec![lib("evil.so", "/tmp/evil.so", 0, 0), lib("libc.so", "/usr/lib/libc.so", 0, 0)];
    let mut r = ScanReport::new(3);
    process_monitor_scan(&mut r, Some(text_section_hash(b"\x7fELF")), Some(&libs));
    assert_eq!(r.data.word(6), 2);
    assert_eq!(r.data.word(7), 1, "odd library count overwrites word 7");
    assert_eq!(r.data.word(8), vac_hash_str("evil.so"));
    assert_eq!(text_section_hash(b""), 0x45D7_1892);
}
