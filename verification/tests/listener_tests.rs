use std::collections::HashMap;
use vac_integrity::listener::{
    authorize, client_token, ensure_client_token, is_connected, mark_connected, mark_disconnected,
    register_client, scan_challenge, store_session, tokens_set_db_path, unregister_client,
    ListenerRegistry,
};
use vac_integrity::policy::FindingKind;
use vac_integrity::protocol::{build_auth_payload, parse_scan_cmd, MSG_AUTH};
use vac_integrity::tokens::{
    generate, hex_encode, parse_token_db, set_db_path, store_record, TokenDbConfig,
};

fn auth_body(steam_id: u64, token: Option<&str>) -> Vec<u8> {
    let mut body = vec![MSG_AUTH];
    body.extend_from_slice(&build_auth_payload(steam_id, token));
    body
}

fn is_lower_hex(s: &str) -> bool {
    s.bytes().all(|b| b.is_ascii_digit() || (b'a'..=b'f').contains(&b))
}

#[test]
fn test_token_flow() {
    let sid = 76561198000000001u64;
    let mut reg = ListenerRegistry::new();
    let mut db_text = String::new();
    let stored = parse_token_db(&db_text);

    // Unregistered players have no tokens.
    assert!(ensure_client_token(&mut reg, sid, &stored).is_none(), "ensure on unregistered must fail");
    assert!(client_token(&reg, sid).is_none(), "no token for unregistered");

    // Register, then enroll: 32-hex token, to be written to the store.
    register_client(&mut reg, sid, "tok_player", None);
    let e1 = ensure_client_token(&mut reg, sid, &stored).expect("enrollment must produce a token");
    assert_eq!(e1.token.len(), 32, "token is 32 hex chars");
    assert!(is_lower_hex(&e1.token));
    assert!(e1.minted);
    db_text = store_record(&db_text, sid, &e1.token);
    let t1 = e1.token;

    // Stable across repeated calls and re-registration (player relog).
    let again = ensure_client_token(&mut reg, sid, &stored).unwrap();
    assert_eq!(again.token, t1, "repeated ensure must be stable");
    assert!(!again.minted);
    register_client(&mut reg, sid, "tok_player_relog", None);
    assert_eq!(client_token(&reg, sid).as_deref(), Some(t1.as_str()), "relog must preserve the token");

    // Persistence: a fresh registry reuses the stored token.
    let mut reg2 = ListenerRegistry::new();
    let stored2 = parse_token_db(&db_text);
    assert_eq!(stored2.get(&sid), Some(&t1));
    register_client(&mut reg2, sid, "tok_player_after_restart", None);
    let e2 = ensure_client_token(&mut reg2, sid, &stored2).expect("token after restart");
    assert_eq!(e2.token, t1, "enrollment token must survive a restart via the store");
    assert!(!e2.minted);
}

#[test]
fn token_store_reads_back_what_was_written() {
    let text = store_record("", 1, "aaaa");
    assert_eq!(text, "1\taaaa\n");
    let text = store_record(&text, 2, "bbbb");
    let text = store_record(&text, 1, "cccc");
    let db = parse_token_db(&text);
    assert_eq!(db.len(), 2);
    assert_eq!(db.get(&1).map(String::as_str), Some("cccc"));
    assert_eq!(db.get(&2).map(String::as_str), Some("bbbb"));
    // The store keeps one line per id.
    assert_eq!(text.lines().count(), 2);
}

#[test]
fn token_store_parsing_rules() {
    let content = "12\t  tok1  \r\nbad line\nx\tnope\n13\t\n14\ttok2\n12\ttok3";
    let db = parse_token_db(content);
    assert_eq!(db.get(&12).map(String::as_str), Some("tok3"));
    assert_eq!(db.get(&14).map(String::as_str), Some("tok2"));
    assert!(db.get(&13).is_none(), "empty token is skipped");
    assert_eq!(db.len(), 2);
    let long = format!("5\t{}\n", "a".repeat(129));
    assert!(parse_token_db(&long).is_empty(), "tokens over 128 bytes are skipped");
    let ok = format!("5\t{}\n", "a".repeat(128));
    assert_eq!(parse_token_db(&ok).len(), 1);
    assert!(parse_token_db("+7\tabc").get(&7).is_some(), "ids parse as u64 does");
}

#[test]
fn token_generation_is_hex() {
    let t = generate();
    assert_eq!(t.len(), 32);
    assert!(is_lower_hex(&t));
    assert_ne!(generate(), t);
    assert_eq!(hex_encode(&[0x00, 0xab, 0x7f]), "00ab7f");
}

#[test]
fn db_path_precedence() {
    let mut cfg = TokenDbConfig::new();
    assert_eq!(cfg.db_path(None), "vac-tokens.db");
    assert_eq!(cfg.db_path(Some("")), "vac-tokens.db");
    assert_eq!(cfg.db_path(Some("/env/path.db")), "/env/path.db");
    set_db_path(&mut cfg, "/explicit.db");
    assert_eq!(cfg.db_path(Some("/env/path.db")), "/explicit.db");
    tokens_set_db_path(&mut cfg, "/other.db");
    assert_eq!(cfg.db_path(None), "/other.db");
}

#[test]
fn authorization_and_sessions() {
    let mut reg = ListenerRegistry::new();
    let sid = 42u64;
    // Unregistered: refused.
    assert!(authorize(&reg, &auth_body(sid, None)).is_none());

    register_client(&mut reg, sid, "alice", None);
    // No token enrolled: any well-formed request for the id is admitted.
    let s = authorize(&reg, &auth_body(sid, Some("whatever"))).expect("admitted");
    assert_eq!(s.steam_id, sid);
    assert_eq!(s.name, "alice");

    register_client(&mut reg, sid, "alice", Some("secret-token".to_string()));
    assert!(authorize(&reg, &auth_body(sid, None)).is_none(), "token required");
    assert!(authorize(&reg, &auth_body(sid, Some("wrong"))).is_none(), "wrong token refused");
    let mut s = authorize(&reg, &auth_body(sid, Some("secret-token"))).expect("right token");
    assert_eq!(s.token.as_deref(), Some("secret-token"));

    // A round's findings are stored back.
    s.state.add_finding(FindingKind::TracerAttached { tracer_pid: 9 }, 25);
    store_session(&mut reg, &s);
    let s2 = authorize(&reg, &auth_body(sid, Some("secret-token"))).unwrap();
    assert_eq!(s2.state.total, 25);

    // Connection tracking.
    assert!(!is_connected(&reg, sid));
    mark_connected(&mut reg, sid);
    assert!(is_connected(&reg, sid));
    mark_disconnected(&mut reg, sid);
    assert!(!is_connected(&reg, sid));

    unregister_client(&mut reg, sid);
    assert!(client_token(&reg, sid).is_none());
    assert!(authorize(&reg, &auth_body(sid, Some("secret-token"))).is_none());

    let stored: HashMap<u64, String> = HashMap::new();
    assert!(ensure_client_token(&mut reg, sid, &stored).is_none());
}

#[test]
fn scan_challenge_carries_module_key_and_nonce() {
    let key: Vec<u8> = (0u8..40).collect();
    let (nonce, cmd) = scan_challenge(5, &key);
    let parsed = parse_scan_cmd(&cmd).expect("a daemon reads the challenge back");
    assert_eq!(parsed.module_id, 5);
    assert_eq!(parsed.public_key, key);
    assert_eq!(parsed.nonce, nonce.to_vec());
    let (nonce2, _) = scan_challenge(5, &key);
    assert_ne!(nonce, nonce2, "each challenge draws a fresh nonce");
}
