use vac_integrity::analysis::{enforcement, latency_finding, module_findings, record_findings, Enforcement};
use vac_integrity::policy::{
    analyze_hidden_procs, analyze_memory_map, analyze_ring0_procs, findings_summary,
    parse_ring0_payload, Action, Finding, FindingKind, Ring0ProcEntry, ScoreState,
};
use vac_integrity::protocol::{
    build_auth_payload, build_scan_cmd, build_scan_result, constant_time_eq, frame_body_len,
    frame_message, parse_auth, parse_scan_cmd, parse_scan_result, seal_module_id, split_frame_body,
    AuthRequest, MSG_AUTH, MSG_SCAN_RESULT,
};

fn ring0_payload(entries: &[(u32, u32, &str)]) -> Vec<u8> {
    let mut p = Vec::new();
    p.extend_from_slice(&(entries.len() as u32).to_le_bytes());
    for (pid, ppid, comm) in entries {
        p.extend_from_slice(&pid.to_le_bytes());
        p.extend_from_slice(&ppid.to_le_bytes());
        let mut c = [0u8; 16];
        c[..comm.len()].copy_from_slice(comm.as_bytes());
        p.extend_from_slice(&c);
    }
    p
}

#[test]
fn frame_round_trip() {
    let f = frame_message(0x05, &[]);
    assert_eq!(f, vec![1, 0, 0, 0, 5]);
    let f = frame_message(0x03, &[9, 8, 7]);
    assert_eq!(frame_body_len(&f[0..4]), 4);
    let (t, payload) = split_frame_body(&f[4..]);
    assert_eq!(t, 0x03);
    assert_eq!(payload, vec![9, 8, 7]);
}

#[test]
fn auth_round_trip_and_rejections() {
    let p = build_auth_payload(76561198000000001, Some("abcd"));
    let mut body = vec![MSG_AUTH];
    body.extend_from_slice(&p);
    match parse_auth(&body) {
        AuthRequest::Auth { steam_id, token } => {
            assert_eq!(steam_id, 76561198000000001);
            assert_eq!(token.as_deref(), Some("abcd"));
        },
        AuthRequest::Rejected => panic!("well-formed AUTH rejected"),
    }
    let p = build_auth_payload(5, None);
    assert_eq!(p.len(), 8);
    let mut body = vec![MSG_AUTH];
    body.extend_from_slice(&p);
    assert!(matches!(parse_auth(&body), AuthRequest::Auth { steam_id: 5, token: None }));

    // Wrong type, too short, token longer than the frame.
    assert!(matches!(parse_auth(&[0x02, 0, 0, 0, 0, 0, 0, 0, 0]), AuthRequest::Rejected));
    assert!(matches!(parse_auth(&[MSG_AUTH, 1, 2]), AuthRequest::Rejected));
    let mut long = vec![MSG_AUTH];
    long.extend_from_slice(&7u64.to_le_bytes());
    long.extend_from_slice(&50u16.to_le_bytes());
    long.extend_from_slice(b"short");
    assert!(matches!(parse_auth(&long), AuthRequest::Rejected));
}

#[test]
fn scan_cmd_and_result_round_trip() {
    let key = vec![0xAAu8; 40];
    let nonce = [1u8, 2, 3, 4, 5, 6, 7, 8];
    let cmd = build_scan_cmd(9, &key, &nonce);
    assert_eq!(cmd.len(), 4 + 4 + 40 + 8);
    let parsed = parse_scan_cmd(&cmd).expect("parses");
    assert_eq!(parsed.module_id, 9);
    assert_eq!(parsed.public_key, key);
    assert_eq!(parsed.nonce, nonce.to_vec());
    assert!(parse_scan_cmd(&cmd[..19]).is_none());
    assert!(parse_scan_cmd(&cmd[..cmd.len() - 1]).is_none());

    let res = build_scan_result(202, &[5, 6, 7]);
    let mut body = vec![MSG_SCAN_RESULT];
    body.extend_from_slice(&res);
    let (mid, sealed) = parse_scan_result(&body).expect("parses");
    assert_eq!(mid, 202);
    assert_eq!(sealed, vec![5, 6, 7]);
    assert!(parse_scan_result(&body[..8]).is_none());
    body[0] = 0x01;
    assert!(parse_scan_result(&body).is_none());
}

#[test]
fn seal_ids_and_constant_time_compare() {
    assert_eq!(seal_module_id(7), 200);
    assert_eq!(seal_module_id(8), 201);
    assert_eq!(seal_module_id(9), 202);
    assert_eq!(seal_module_id(10), 203);
    assert_eq!(seal_module_id(1), 101);
    assert!(constant_time_eq(b"abc", b"abc"));
    assert!(!constant_time_eq(b"abc", b"abd"));
    assert!(!constant_time_eq(b"abc", b"ab"));
}

#[test]
fn ring0_payload_parsing_and_cheat_scoring() {
    let p = ring0_payload(&[(1, 0, "systemd"), (42, 1, "CheatEngine"), (43, 1, "cheatengine-x"), (44, 1, "gdb")]);
    let entries = parse_ring0_payload(&p);
    assert_eq!(entries.len(), 4);
    assert_eq!(entries[1].pid, 42);
    assert_eq!(entries[1].comm, "CheatEngine");

    let mut state = ScoreState::new();
    analyze_ring0_procs(&entries, &mut state);
    // One finding per known cheat name: "cheatengine" once, "gdb" once.
    assert_eq!(state.findings.len(), 2);
    assert_eq!(state.total, 100);
    assert_eq!(state.action(), Action::Ban);
    assert_eq!(findings_summary(&state.findings), "cheat[CheatEngine](pid=42); cheat[gdb](pid=44)");

    // A declared count larger than the data is cut to whole records.
    let mut short = ring0_payload(&[(7, 1, "a")]);
    short[0] = 9;
    assert_eq!(parse_ring0_payload(&short).len(), 1);
    assert!(parse_ring0_payload(&[1, 2]).is_empty());
}

#[test]
fn hidden_and_memory_analysis() {
    let user = vec![(1u32, "init".to_string()), (5, "evil".to_string())];
    let ring0 = vec![(1u32, "init".to_string()), (9, "rootkit".to_string())];
    let mut state = ScoreState::new();
    analyze_hidden_procs(&user, &ring0, &mut state);
    assert_eq!(state.total, 30 + 40);
    assert_eq!(
        findings_summary(&state.findings),
        "user-hides-ring0[evil](pid=5); hidden[rootkit](pid=9)"
    );

    let same = ScoreState::new();
    let mut s2 = same;
    analyze_hidden_procs(&user, &user, &mut s2);
    assert_eq!(s2.total, 0);
    assert_eq!(findings_summary(&s2.findings), "clean");

    let maps = vec![
        (0x1000u64, 0x3000u64, "rwxp".to_string(), String::new()),
        (0x4000u64, 0x5000u64, "r-xp".to_string(), String::new()),
        (0x6000u64, 0x7000u64, "r-xp".to_string(), "/usr/lib/libc.so".to_string()),
    ];
    let mut s3 = ScoreState::new();
    analyze_memory_map(&maps, &mut s3);
    assert_eq!(s3.total, 35 + 30);
    assert_eq!(findings_summary(&s3.findings), "rwx@0x1000+8192; anon-exec@0x4000+4096");
}

#[test]
fn score_actions_and_reset() {
    let mut s = ScoreState::new();
    assert_eq!(s.action(), Action::NoAction);
    s.add_finding(FindingKind::TracerAttached { tracer_pid: 3 }, 30);
    assert_eq!(s.action(), Action::Warn);
    s.add_finding(FindingKind::SuspiciousEnv { flags: 1 }, 20);
    assert_eq!(s.action(), Action::Kick);
    assert_eq!(findings_summary(&s.findings), "tracer(pid=3); env-flags(1)");
    s.reset();
    assert_eq!(s.total, 0);
    assert!(s.findings.is_empty());
    assert_eq!(s.clean_scan_count, 0);
    s.reset();
    assert_eq!(s.clean_scan_count, 1);
    assert_eq!(s.action(), Action::NoAction);
}

#[test]
fn module_findings_and_latency() {
    // Memory scan words: rwx=1, anon=2, checked=10, text=0.
    let mut d = Vec::new();
    for w in [1u32, 2, 10, 0] {
        d.extend_from_slice(&w.to_le_bytes());
    }
    let f = module_findings(202, &d);
    assert_eq!(f.len(), 2);
    assert_eq!(f[0].points, 35);
    assert_eq!(f[1].points, 60);
    assert_eq!(findings_summary(&f), "rwx@0x0+1; anon-exec@0x0+2");

    // Zero data never scores.
    for mid in [1u32, 2, 101, 102, 103, 104, 105, 106, 200, 201, 202, 203] {
        assert!(module_findings(mid, &[0u8; 128]).is_empty(), "module {}", mid);
    }

    assert!(latency_finding(100_000_000).is_none());
    let l = latency_finding(250_000_000).expect("slow");
    assert_eq!(l.points, 15);
    assert_eq!(findings_summary(&[l]), "latency(250ms)");
}

#[test]
fn record_and_enforce() {
    let mut s = ScoreState::new();
    let found = vec![Finding { kind: FindingKind::DebuggerFlags { flags: 4 }, points: 85 }];
    assert!(record_findings(&mut s, found));
    assert_eq!(s.total, 85);
    match enforcement(&s) {
        Enforcement::Ban { reason } => assert_eq!(reason, "SCORE_BAN: dbg-flags(4)"),
        _ => panic!("85 points must ban"),
    }
    let clean = ScoreState::new();
    assert!(matches!(enforcement(&clean), Enforcement::Nothing));
    let mut warn = ScoreState::new();
    warn.add_finding(FindingKind::InjectedAssembly { name: "x".to_string() }, 30);
    match enforcement(&warn) {
        Enforcement::Warn { summary } => assert_eq!(summary, "injected(x)"),
        _ => panic!("30 points must warn"),
    }
    let mut full = ScoreState::new();
    full.add_finding(FindingKind::SuspiciousEnv { flags: 1 }, u32::MAX);
    let more = vec![Finding { kind: FindingKind::SuspiciousEnv { flags: 2 }, points: 1 }];
    assert!(!record_findings(&mut full, more));
    assert_eq!(full.total, u32::MAX);
    assert_eq!(full.findings.len(), 1);
}
