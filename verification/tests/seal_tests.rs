use pqcrypto_traits::kem::{PublicKey as KemPk, SecretKey as KemSk};
use pqcrypto_traits::sign::{PublicKey as SignPk, SecretKey as SignSk};
use vac_integrity::analysis::decrypt_result;
use vac_integrity::buffer::DataBuffer;
use vac_integrity::client_scan::{cheats_report, debugger_report, environment_report};
use vac_integrity::daemon::{result_plaintext, seal_scan_reply};
use vac_integrity::host::{
    client_scan_check, decrypt_with_attestation, get_keys, get_open_key, presence_payload,
    seal_client_scan, seal_scan_data, vac_init_rs, vac_scan_check, vac_shutdown_rs,
    verify_attestation, ScanScheduler, MIN_CLIENT_CAPACITY,
};
use vac_integrity::module::ScanReport;
use vac_integrity::policy::FindingKind;
use vac_integrity::protocol::{parse_scan_result, seal_module_id, MSG_SCAN_RESULT};
use vac_integrity::seal::{open, seal, OpenKey, SealError, SealKey, UNSIGNED_FLAG};
use vac_integrity::server_modules::system_info_scan;
use vac_integrity::sysinfo::SystemInfoData;

struct Keys {
    kyber_pk: Vec<u8>,
    kyber_sk: Vec<u8>,
    dsa_pk: Vec<u8>,
    dsa_sk: Vec<u8>,
}

fn keys() -> Keys {
    let (pk, sk) = pqcrypto_kyber::kyber768::keypair();
    let (dsa_pk, dsa_sk) = pqcrypto_dilithium::dilithium3::keypair();
    Keys {
        kyber_pk: pk.as_bytes().to_vec(),
        kyber_sk: sk.as_bytes().to_vec(),
        dsa_pk: dsa_pk.as_bytes().to_vec(),
        dsa_sk: dsa_sk.as_bytes().to_vec(),
    }
}

fn open_key(k: &Keys) -> OpenKey {
    OpenKey { kyber_secret_key: k.kyber_sk.clone(), mldsa65_public_key: k.dsa_pk.clone() }
}

#[test]
fn test_seal() {
    let k = keys();
    let seal_key = SealKey {
        kyber_public_key: k.kyber_pk.clone(),
        mldsa65_secret_key: Some(k.dsa_sk.clone()),
    };
    let plaintext = b"Hello VAC integrity check payload!";
    let sealed = seal(plaintext, 42, &seal_key).expect("seal failed");
    assert!(sealed.raw.len() > plaintext.len(), "sealed data must be larger");
    assert_eq!(sealed.raw.len(), 16 + 1088 + 12 + 16 + plaintext.len() + 3293);
    assert_eq!(&sealed.raw[0..4], &0x5641_4349u32.to_le_bytes());
    assert_eq!(&sealed.raw[4..8], &42u32.to_le_bytes());

    let (opened, module_id, _ts) = open(&sealed.raw, &open_key(&k)).expect("open failed");
    assert_eq!(module_id, 42, "module_id round-trips");
    assert_eq!(&opened[..], &plaintext[..], "seal round-trip must restore plaintext");
}

#[test]
fn test_seal_unsigned() {
    let k = keys();
    let seal_key = SealKey { kyber_public_key: k.kyber_pk.clone(), mldsa65_secret_key: None };
    let plaintext = vec![0xABu8; 1024];
    let sealed = seal(&plaintext, 203, &seal_key).expect("unsigned seal failed");
    assert_eq!(
        sealed.raw.len(),
        16 + 1088 + 12 + 16 + plaintext.len(),
        "unsigned payload has header+ct+nonce+tag+data only"
    );
    assert_eq!(&sealed.raw[4..8], &(203u32 | UNSIGNED_FLAG).to_le_bytes());

    let (opened, module_id, _ts) = open(&sealed.raw, &open_key(&k)).expect("unsigned open failed");
    assert_eq!(module_id, 203, "unsigned flag stripped from returned mid");
    assert_eq!(opened, plaintext, "unsigned round-trip must restore plaintext");

    let mut tampered = sealed.raw.clone();
    let last = tampered.len() - 1;
    tampered[last] ^= 0xFF;
    assert!(open(&tampered, &open_key(&k)).is_err(), "tampered unsigned payload must fail to open");
}

#[test]
fn seal_rejects_bad_keys_and_open_rejects_bad_payloads() {
    let k = keys();
    let short_pk = SealKey { kyber_public_key: vec![0u8; 10], mldsa65_secret_key: None };
    let err = seal(b"x", 1, &short_pk).err().expect("short key must fail");
    assert_eq!(err, SealError::BadKyberPublicKey { actual: 10 });
    assert_eq!(
        err.message(),
        "bad kyber pk: BadLength { name: \"PublicKey\", actual: 10, expected: 1184 }"
    );

    let bad_dsa = SealKey { kyber_public_key: k.kyber_pk.clone(), mldsa65_secret_key: Some(vec![1u8; 5]) };
    assert_eq!(seal(b"x", 1, &bad_dsa).err(), Some(SealError::BadDsaSecretKey { actual: 5 }));

    let ok = open_key(&k);
    assert_eq!(open(&[0u8; 20], &ok).err(), Some(SealError::TooShort));
    assert_eq!(SealError::TooShort.message(), "payload too short");

    let mut sealed = seal(b"abcd", 7, &SealKey {
        kyber_public_key: k.kyber_pk.clone(),
        mldsa65_secret_key: Some(k.dsa_sk.clone()),
    })
    .unwrap()
    .raw;
    let mut bad_magic = sealed.clone();
    bad_magic[0] ^= 1;
    assert_eq!(open(&bad_magic, &ok).err(), Some(SealError::BadMagic));

    // Without the unsigned flag a payload needs room for a signature; that
    // is checked before the magic.
    let mut short_signed = vec![0u8; 2000];
    short_signed[4..8].copy_from_slice(&7u32.to_le_bytes());
    assert_eq!(open(&short_signed, &ok).err(), Some(SealError::TooShort));
    short_signed[4..8].copy_from_slice(&(7u32 | UNSIGNED_FLAG).to_le_bytes());
    assert_eq!(open(&short_signed, &ok).err(), Some(SealError::BadMagic));

    // A flipped byte in the signed part breaks the signature.
    sealed[20] ^= 1;
    assert_eq!(open(&sealed, &ok).err(), Some(SealError::SignatureInvalid));
    assert_eq!(SealError::SignatureInvalid.message(), "ML-DSA-65 signature invalid");
}

#[test]
fn test_via_host() {
    let k = keys();
    let mut sched: Option<ScanScheduler> = None;
    assert!(get_keys(&sched).is_none());
    vac_init_rs(&mut sched, &k.kyber_pk, &k.dsa_sk, &k.kyber_sk, &k.dsa_pk);
    let (kpk, dsk) = get_keys(&sched).expect("keys installed");
    assert_eq!(kpk, k.kyber_pk);
    assert_eq!(dsk, k.dsa_sk);
    let okey = get_open_key(&sched).expect("open key");
    assert_eq!(okey.kyber_secret_key, k.kyber_sk);

    let capacity = vac_scan_check(true, 65536, 1).expect("checks pass");
    assert_eq!(capacity, 65536);
    assert_eq!(vac_scan_check(true, 12617, 1), Ok(12617), "the documented minimum is accepted");
    assert_eq!(vac_scan_check(true, 12616, 1), Err(-6));

    let mut report = ScanReport::new(1);
    let info = SystemInfoData {
        cpu_count: 8,
        total_memory_kb: 16 * 1024 * 1024,
        uptime_seconds: 3600,
        cpu_model: "Test CPU".to_string(),
        architecture: "x86_64".to_string(),
        ..SystemInfoData::default()
    };
    system_info_scan(&mut report, &info, 1_700_000_000, 1_700_003_600, 1234, 1235, Some("/usr/bin/server"), 3, 4, 5, false);
    assert!(report.data.cursor() > 0);

    let out = seal_scan_data(&report.data, 1, &kpk, &dsk, capacity).expect("seal");
    assert_eq!(out.len(), 16 + 1088 + 12 + 16 + 8192 + 32 + 3293);
    assert_eq!(&out[0..4], &0x5641_4349u32.to_le_bytes());
    let small = seal_scan_data(&report.data, 1, &kpk, &dsk, 12617).expect("seal into the minimum");
    assert_eq!(small.len(), 12617);
    let (words, attestation) =
        decrypt_with_attestation(&out, Some(&k.kyber_sk), Some(&k.dsa_pk)).expect("decrypt");
    assert_eq!(words.len(), 2048);
    assert_eq!(words[4], 1, "module id word");
    assert_eq!(words[10], 8, "cpu count word");
    assert_eq!(attestation.len(), 32);
    assert_eq!(attestation[0], 1, "presence flag should be 1");
    assert!(attestation.iter().skip(1).all(|&b| b == 0), "bytes 1-31 should be zero");
    assert!(verify_attestation(&attestation));

    assert_eq!(decrypt_with_attestation(&out, None, Some(&k.dsa_pk)).err(), Some(-2));

    vac_shutdown_rs(&mut sched);
    assert!(sched.is_none());
    assert!(get_open_key(&sched).is_none());
}

#[test]
fn host_scan_checks_and_truncation() {
    assert_eq!(vac_scan_check(false, 65536, 1), Err(-4));
    assert_eq!(vac_scan_check(true, 10, 1), Err(-6));
    assert_eq!(vac_scan_check(true, 70000, 1), Err(-6));
    assert_eq!(vac_scan_check(true, -1, 1), Err(-6));
    assert_eq!(vac_scan_check(true, 65536, 7), Err(-7));
    assert_eq!(vac_scan_check(true, 65536, 0), Err(-7));

    let buf = DataBuffer::new();
    let p = presence_payload(&buf);
    assert_eq!(p.len(), 8192 + 32);
    assert_eq!(p[8192], 1);
    assert!(!verify_attestation(&[0u8; 32]));

    let k = keys();
    assert_eq!(seal_scan_data(&buf, 1, &[1u8; 3], &k.dsa_sk, 65536).err(), Some(-8));
    let cut = seal_scan_data(&buf, 1, &k.kyber_pk, &k.dsa_sk, 100).expect("seal");
    assert_eq!(cut.len(), 100);
}

#[test]
fn test_client_scan() {
    let k = keys();
    let okey = open_key(&k);
    let mut buf = DataBuffer::new();
    debugger_report(&mut buf, 5, 77, 2);
    assert_eq!(buf.cursor(), 32);
    let sealed = seal_client_scan(&buf, 3, &k.kyber_pk, 65536).expect("client seal");
    assert_eq!(sealed.len(), 16 + 1088 + 12 + 16 + 8192);
    let (opened, mid, _ts) = open(&sealed, &okey).expect("client open");
    assert_eq!(mid, 103);
    assert_eq!(opened, buf.as_bytes());
    assert_eq!(&opened[0..12], &[5, 0, 0, 0, 77, 0, 0, 0, 2, 0, 0, 0]);

    let mut game = DataBuffer::new();
    environment_report(&mut game, &vec![("LD_PRELOAD".to_string(), "/tmp/x.so".to_string())]);
    let sealed = seal_client_scan(&game, 10, &k.kyber_pk, 65536).expect("game seal");
    let (_opened, mid, _ts) = open(&sealed, &okey).expect("game open");
    assert_eq!(mid, 203);

    assert_eq!(seal_client_scan(&buf, 1, &[0u8; 4], 65536).err(), Some(-5));
}

#[test]
fn client_scan_checks() {
    assert_eq!(client_scan_check(false, true, 1, 100000), Err(-1));
    assert_eq!(client_scan_check(true, false, 1, 100000), Err(-2));
    assert_eq!(client_scan_check(true, true, 7, 100000), Err(-3));
    assert_eq!(client_scan_check(true, true, 0, 100000), Err(-3));
    assert_eq!(client_scan_check(true, true, 10, 100), Err(-4));
    assert_eq!(client_scan_check(true, true, 6, MIN_CLIENT_CAPACITY as i32), Ok(MIN_CLIENT_CAPACITY));
    assert_eq!(MIN_CLIENT_CAPACITY, 16 + 1088 + 12 + 16 + 8192);
}

fn reply_sealed(module_id: u32, plain: &[u8], kyber_pk: &[u8]) -> Vec<u8> {
    let payload = seal_scan_reply(module_id, plain, kyber_pk).expect("reply");
    let mut body = vec![MSG_SCAN_RESULT];
    body.extend_from_slice(&payload);
    let (mid, sealed) = parse_scan_result(&body).expect("SCAN_RESULT parses");
    assert_eq!(mid, module_id);
    sealed
}

#[test]
fn daemon_reply_opens_and_scores() {
    let k = keys();
    let okey = open_key(&k);
    let nonce = [9u8; 8];

    // A clean cheat-process report: nothing found.
    let mut buf = DataBuffer::new();
    cheats_report(&mut buf, &[(10, 1, "bash".to_string())]);
    let plain = result_plaintext(&nonce, &buf.as_bytes());
    assert_eq!(plain.len(), 8 + 8192);
    assert_eq!(seal_scan_reply(6, &plain, &k.kyber_pk).unwrap().len(), 8 + 1132 + 8 + 8192);
    assert_eq!(seal_module_id(6), 106);
    let sealed = reply_sealed(6, &plain, &k.kyber_pk);
    let (_, opened_mid, _) = open(&sealed, &okey).expect("opens");
    assert_eq!(opened_mid, 106);
    assert!(decrypt_result(&sealed, Some(&okey), &nonce).is_empty());

    // The same reply against another challenge: a 50-point nonce anomaly.
    let found = decrypt_result(&sealed, Some(&okey), &[1u8; 8]);
    assert_eq!(found.len(), 1);
    assert_eq!(found[0].points, 50);
    assert!(matches!(found[0].kind, FindingKind::LatencyAnomaly { duration_ms: 0 }));

    // A report naming a cheat process scores 20 per process.
    let mut bad = DataBuffer::new();
    cheats_report(&mut bad, &[(10, 1, "CheatEngine-x86_64".to_string()), (11, 1, "gdb".to_string())]);
    assert_eq!(bad.word(0), 2);
    assert_eq!(bad.word(1), 10);
    assert_eq!(bad.word(2), 11);
    let sealed = reply_sealed(6, &result_plaintext(&nonce, &bad.as_bytes()), &k.kyber_pk);
    let found = decrypt_result(&sealed, Some(&okey), &nonce);
    assert_eq!(found.len(), 1);
    assert_eq!(found[0].points, 40);

    // No key: nothing is decided.
    assert!(decrypt_result(&sealed, None, &nonce).is_empty());
    // Garbage: a 10-point anomaly.
    let found = decrypt_result(&[0u8; 100], Some(&okey), &nonce);
    assert_eq!(found.len(), 1);
    assert_eq!(found[0].points, 10);
}

#[test]
fn generated_keys_seal_and_open() {
    let k = vac_integrity::seal::generate_key_material();
    assert_eq!(k.kyber_public.len(), 1184);
    assert_eq!(k.kyber_secret.len(), 2400);
    assert_eq!(&k.kyber_secret[1152..2336], &k.kyber_public[..], "the secret key carries the public key");
    assert_eq!(k.mldsa65_public.len(), 1952);
    assert_eq!(k.mldsa65_secret.len(), 4000);
    let sealed = seal(b"payload", 5, &SealKey {
        kyber_public_key: k.kyber_public.clone(),
        mldsa65_secret_key: Some(k.mldsa65_secret.clone()),
    })
    .unwrap();
    let okey = OpenKey { kyber_secret_key: k.kyber_secret, mldsa65_public_key: k.mldsa65_public };
    let (pt, mid, _) = open(&sealed.raw, &okey).unwrap();
    assert_eq!(pt, b"payload".to_vec());
    assert_eq!(mid, 5);
}
