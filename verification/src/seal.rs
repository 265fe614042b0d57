//! Sealed scan payloads.
//!
//! A sealed payload is `header | kyber ciphertext | AES nonce | AES tag |
//! AES ciphertext [| ML-DSA signature]`.  The header is
//! `magic: u32 LE | module id: u32 LE | timestamp (ns): u64 LE`.  The data is
//! encrypted with AES-256-GCM under a fresh Kyber-768 shared secret; when the
//! sealing key carries a signing key, everything before the signature is
//! signed with Dilithium3.  A payload sealed without a signing key carries
//! `UNSIGNED_FLAG` in its wire module id, which `open` strips again.
use vstd::prelude::*;
use vstd::string::StringExecFns;
use pqcrypto_traits::kem::{
    Ciphertext as KemCiphertext, PublicKey as KemPublicKey, SecretKey as KemSecretKey,
    SharedSecret as KemSharedSecret,
};
use pqcrypto_traits::sign::{
    DetachedSignature as SignDetachedSignature, PublicKey as SignPublicKey,
    SecretKey as SignSecretKey,
};
use aes_gcm::aead::{AeadInPlace, KeyInit};
use crate::policy::le_u32_at;
use crate::protocol::{le32, le64, le_u64_at, lemma_le32_roundtrip, lemma_le64_roundtrip, push_all, push_le32, push_le64, read_u32_le, read_u64_le};
use crate::text::{decimal_chars, u64_to_decimal};
use crate::entropy::{os_random_bytes, unix_time_nanos};

verus! {

pub const MAGIC: u32 = 0x56414349;
pub const KYBER_CT_LEN: usize = 1088;
pub const AES_NONCE_LEN: usize = 12;
pub const AES_TAG_LEN: usize = 16;
pub const MLDSA_65_SIG_LEN: usize = 3293;
pub const HEADER_LEN: usize = 16;

/// Set in the wire module id of a payload that carries no signature.
pub const UNSIGNED_FLAG: u32 = 0x8000_0000;

pub const KYBER_PK_LEN: usize = 1184;
pub const KYBER_SK_LEN: usize = 2400;
pub const SHARED_SECRET_LEN: usize = 32;
pub const DSA_PK_LEN: usize = 1952;
pub const DSA_SK_LEN: usize = 4000;

/// Longest plaintext AES-GCM encrypts (2^36 bytes).
pub const AES_P_MAX: u64 = 68719476736;

/// Offset of the AES ciphertext: header, Kyber ciphertext, nonce and tag.
pub const CIPHERTEXT_OFFSET: usize = 1132;

/// A sealed payload.
pub struct SealedPayload {
    pub raw: Vec<u8>,
}

/// What sealing needs: the receiver's Kyber public key and, optionally, the
/// sender's Dilithium3 secret key.
pub struct SealKey {
    pub kyber_public_key: Vec<u8>,
    pub mldsa65_secret_key: Option<Vec<u8>>,
}

/// What opening needs: the Kyber secret key and the Dilithium3 public key.
pub struct OpenKey {
    pub kyber_secret_key: Vec<u8>,
    pub mldsa65_public_key: Vec<u8>,
}

/// Why a payload could not be sealed or opened.
#[derive(Clone, Copy, Debug, PartialEq, Eq, Structural)]
pub enum SealError {
    TooShort,
    BadMagic,
    BadKyberPublicKey { actual: usize },
    EncryptFailed,
    BadDsaSecretKey { actual: usize },
    BadDsaPublicKey { actual: usize },
    SignatureInvalid,
    BadKyberSecretKey { actual: usize },
    DecryptFailed,
}

/// The text of a key length error, as `Debug` prints the outside error.
pub open spec fn bad_length_text(what: Seq<char>, name: Seq<char>, actual: usize, expected: usize) -> Seq<char> {
    what + ": BadLength { name: \""@ + name + "\", actual: "@ + decimal_chars(actual as nat)
        + ", expected: "@ + decimal_chars(expected as nat) + " }"@
}

/// The message of each error.
pub open spec fn seal_error_message(e: SealError) -> Seq<char> {
    match e {
        SealError::TooShort => "payload too short"@,
        SealError::BadMagic => "bad magic"@,
        SealError::BadKyberPublicKey { actual } => bad_length_text(
            "bad kyber pk"@,
            "PublicKey"@,
            actual,
            KYBER_PK_LEN,
        ),
        SealError::EncryptFailed => "aes encrypt failed: Error"@,
        SealError::BadDsaSecretKey { actual } => bad_length_text(
            "bad dsa sk"@,
            "SecretKey"@,
            actual,
            DSA_SK_LEN,
        ),
        SealError::BadDsaPublicKey { actual } => bad_length_text(
            "bad dsa pk"@,
            "PublicKey"@,
            actual,
            DSA_PK_LEN,
        ),
        SealError::SignatureInvalid => "ML-DSA-65 signature invalid"@,
        SealError::BadKyberSecretKey { actual } => bad_length_text(
            "bad kyber sk"@,
            "SecretKey"@,
            actual,
            KYBER_SK_LEN,
        ),
        SealError::DecryptFailed => "AES-GCM decryption failed"@,
    }
}

fn bad_length_string(what: &str, name: &str, actual: usize, expected: usize) -> (s: String)
    ensures
        s@ == bad_length_text(what@, name@, actual, expected),
{
    let mut s = String::from_str(what);
    s.append(": BadLength { name: \"");
    s.append(name);
    s.append("\", actual: ");
    let a = u64_to_decimal(actual as u64);
    s.append(a.as_str());
    s.append(", expected: ");
    let e = u64_to_decimal(expected as u64);
    s.append(e.as_str());
    s.append(" }");
    s
}

impl SealError {
    /// The error's message.
    pub fn message(&self) -> (s: String)
        ensures
            s@ == seal_error_message(*self),
    {
        match self {
            SealError::TooShort => String::from_str("payload too short"),
            SealError::BadMagic => String::from_str("bad magic"),
            SealError::BadKyberPublicKey { actual } => bad_length_string(
                "bad kyber pk",
                "PublicKey",
                *actual,
                KYBER_PK_LEN,
            ),
            SealError::EncryptFailed => String::from_str("aes encrypt failed: Error"),
            SealError::BadDsaSecretKey { actual } => bad_length_string(
                "bad dsa sk",
                "SecretKey",
                *actual,
                DSA_SK_LEN,
            ),
            SealError::BadDsaPublicKey { actual } => bad_length_string(
                "bad dsa pk",
                "PublicKey",
                *actual,
                DSA_PK_LEN,
            ),
            SealError::SignatureInvalid => String::from_str("ML-DSA-65 signature invalid"),
            SealError::BadKyberSecretKey { actual } => bad_length_string(
                "bad kyber sk",
                "SecretKey",
                *actual,
                KYBER_SK_LEN,
            ),
            SealError::DecryptFailed => String::from_str("AES-GCM decryption failed"),
        }
    }
}

// ---------------------------------------------------------------------------
// The outside primitives
// ---------------------------------------------------------------------------

/// What `kyber768::decapsulate` yields for a ciphertext and a secret key.
pub uninterp spec fn kyber768_decapsulate(ciphertext: Seq<u8>, secret_key: Seq<u8>) -> Seq<u8>;

/// Whether a shared secret and a ciphertext are an outcome of
/// `kyber768::encapsulate` to `public_key` (encapsulation draws fresh
/// randomness, so this is a relation, not a function of the key).
pub uninterp spec fn kyber768_encapsulation(public_key: Seq<u8>, shared_secret: Seq<u8>, ciphertext: Seq<
    u8,
>) -> bool;

/// The detached Dilithium3 signature `dilithium3::detached_sign` makes
/// (deterministic signing).
pub uninterp spec fn dilithium3_sign(message: Seq<u8>, secret_key: Seq<u8>) -> Seq<u8>;

/// Whether `dilithium3::verify_detached_signature` accepts a signature.
pub uninterp spec fn dilithium3_verify(signature: Seq<u8>, message: Seq<u8>, public_key: Seq<u8>) -> bool;

/// The ciphertext and tag of AES-256-GCM (empty associated data).
pub uninterp spec fn aes256gcm_encrypt(key: Seq<u8>, nonce: Seq<u8>, plaintext: Seq<u8>) -> (
    Seq<u8>,
    Seq<u8>,
);

/// AES-256-GCM decryption (empty associated data): the plaintext, or nothing
/// when the tag does not authenticate the ciphertext.
pub uninterp spec fn aes256gcm_decrypt(
    key: Seq<u8>,
    nonce: Seq<u8>,
    ciphertext: Seq<u8>,
    tag: Seq<u8>,
) -> Option<Seq<u8>>;

/// Parses a Kyber-768 public key (`PublicKey::from_bytes`, which refuses any
/// length but 1184) and encapsulates to it (`kyber768::encapsulate`).  The
/// shared secret and ciphertext are random: the contract states their
/// lengths and that they are an encapsulation to the key handed in.
#[verifier::external_body]
fn kyber768_encapsulate(public_key: &[u8]) -> (r: Option<(Vec<u8>, Vec<u8>)>)
    ensures
        r is None <==> public_key@.len() != KYBER_PK_LEN,
        r matches Some((ss, ct)) ==> ss@.len() == SHARED_SECRET_LEN && ct@.len() == KYBER_CT_LEN,
        r matches Some((ss, ct)) ==> kyber768_encapsulation(public_key@, ss@, ct@),
{
    let pk = pqcrypto_kyber::kyber768::PublicKey::from_bytes(public_key).ok()?;
    let (ss, ct) = pqcrypto_kyber::kyber768::encapsulate(&pk);
    Some((ss.as_bytes().to_vec(), ct.as_bytes().to_vec()))
}

/// Parses the ciphertext and the secret key (`from_bytes`, which refuses any
/// length but 1088 and 2400) and decapsulates (`kyber768::decapsulate`);
/// the shared secret is 32 bytes long.
#[verifier::external_body]
fn kyber768_decapsulate_bytes(ciphertext: &[u8], secret_key: &[u8]) -> (r: Option<Vec<u8>>)
    requires
        ciphertext@.len() == KYBER_CT_LEN,
    ensures
        r is None <==> secret_key@.len() != KYBER_SK_LEN,
        r matches Some(ss) ==> ss@ == kyber768_decapsulate(ciphertext@, secret_key@) && ss@.len()
            == SHARED_SECRET_LEN,
{
    let ct = pqcrypto_kyber::kyber768::Ciphertext::from_bytes(ciphertext).ok()?;
    let sk = pqcrypto_kyber::kyber768::SecretKey::from_bytes(secret_key).ok()?;
    Some(pqcrypto_kyber::kyber768::decapsulate(&ct, &sk).as_bytes().to_vec())
}

/// Parses a Dilithium3 secret key (`SecretKey::from_bytes`, which refuses any
/// length but 4000) and signs (`dilithium3::detached_sign`); the signature is
/// always 3293 bytes long.
#[verifier::external_body]
fn dilithium3_detached_sign(message: &[u8], secret_key: &[u8]) -> (r: Option<Vec<u8>>)
    ensures
        r is None <==> secret_key@.len() != DSA_SK_LEN,
        r matches Some(sig) ==> sig@ == dilithium3_sign(message@, secret_key@) && sig@.len()
            == MLDSA_65_SIG_LEN,
{
    let sk = pqcrypto_dilithium::dilithium3::SecretKey::from_bytes(secret_key).ok()?;
    let sig = pqcrypto_dilithium::dilithium3::detached_sign(message, &sk);
    Some(sig.as_bytes().to_vec())
}

/// Parses a Dilithium3 public key (`PublicKey::from_bytes`, which refuses any
/// length but 1952) and the signature (`DetachedSignature::from_bytes`, which
/// takes up to 3293 bytes), then calls
/// `dilithium3::verify_detached_signature`.
#[verifier::external_body]
fn dilithium3_verify_detached(signature: &[u8], message: &[u8], public_key: &[u8]) -> (r: Option<
    bool,
>)
    requires
        signature@.len() == MLDSA_65_SIG_LEN,
    ensures
        r is None <==> public_key@.len() != DSA_PK_LEN,
        r matches Some(ok) ==> ok == dilithium3_verify(signature@, message@, public_key@),
{
    let pk = pqcrypto_dilithium::dilithium3::PublicKey::from_bytes(public_key).ok()?;
    let sig = pqcrypto_dilithium::dilithium3::DetachedSignature::from_bytes(signature).ok()?;
    Some(pqcrypto_dilithium::dilithium3::verify_detached_signature(&sig, message, &pk).is_ok())
}

/// `Aes256Gcm::encrypt_in_place_detached` with empty associated data.  It
/// refuses plaintexts over 2^36 bytes; otherwise the ciphertext is as long as
/// the plaintext, the tag is 16 bytes, and decryption gives the plaintext back.
#[verifier::external_body]
fn aes256gcm_encrypt_detached(key: &[u8], nonce: &[u8], plaintext: &[u8]) -> (r: Option<
    (Vec<u8>, Vec<u8>),
>)
    requires
        key@.len() == SHARED_SECRET_LEN,
        nonce@.len() == AES_NONCE_LEN,
    ensures
        r is None <==> plaintext@.len() > AES_P_MAX,
        r matches Some((ct, tag)) ==> {
            &&& (ct@, tag@) == aes256gcm_encrypt(key@, nonce@, plaintext@)
            &&& ct@.len() == plaintext@.len()
            &&& tag@.len() == AES_TAG_LEN
            &&& aes256gcm_decrypt(key@, nonce@, ct@, tag@) == Some(plaintext@)
        },
{
    let cipher = aes_gcm::Aes256Gcm::new(aes_gcm::Key::<aes_gcm::Aes256Gcm>::from_slice(key));
    let mut buf = plaintext.to_vec();
    let nonce = aes_gcm::Nonce::from_slice(nonce);
    let tag = cipher.encrypt_in_place_detached(nonce, b"", &mut buf).ok()?;
    Some((buf, tag.to_vec()))
}

/// `Aes256Gcm::decrypt_in_place_detached` with empty associated data.
#[verifier::external_body]
fn aes256gcm_decrypt_detached(key: &[u8], nonce: &[u8], ciphertext: &[u8], tag: &[u8]) -> (r:
    Option<Vec<u8>>)
    requires
        key@.len() == SHARED_SECRET_LEN,
        nonce@.len() == AES_NONCE_LEN,
        tag@.len() == AES_TAG_LEN,
    ensures
        match r {
            Some(pt) => aes256gcm_decrypt(key@, nonce@, ciphertext@, tag@) == Some(pt@),
            None => aes256gcm_decrypt(key@, nonce@, ciphertext@, tag@) is None,
        },
{
    let cipher = aes_gcm::Aes256Gcm::new(aes_gcm::Key::<aes_gcm::Aes256Gcm>::from_slice(key));
    let mut buf = ciphertext.to_vec();
    let tag = aes_gcm::Tag::from_slice(tag);
    cipher.decrypt_in_place_detached(aes_gcm::Nonce::from_slice(nonce), b"", &mut buf, tag).ok()?;
    Some(buf)
}

// ---------------------------------------------------------------------------
// Layout
// ---------------------------------------------------------------------------

/// Header | Kyber ciphertext | nonce | tag | AES ciphertext.
pub open spec fn sealed_body(
    wire_module_id: u32,
    timestamp: u64,
    kyber_ct: Seq<u8>,
    nonce: Seq<u8>,
    tag: Seq<u8>,
    aes_ct: Seq<u8>,
) -> Seq<u8> {
    le32(MAGIC) + le32(wire_module_id) + le64(timestamp) + kyber_ct + nonce + tag + aes_ct
}

/// What sealing produces once the shared secret, Kyber ciphertext, nonce and
/// timestamp are fixed.
pub open spec fn spec_seal_with(
    data: Seq<u8>,
    module_id: u32,
    dsa_sk: Option<Seq<u8>>,
    timestamp: u64,
    shared_secret: Seq<u8>,
    kyber_ct: Seq<u8>,
    nonce: Seq<u8>,
) -> Result<Seq<u8>, SealError> {
    if data.len() > AES_P_MAX {
        Err(SealError::EncryptFailed)
    } else {
        let enc = aes256gcm_encrypt(shared_secret, nonce, data);
        match dsa_sk {
            Option::None => Ok(
                sealed_body(module_id | UNSIGNED_FLAG, timestamp, kyber_ct, nonce, enc.1, enc.0),
            ),
            Some(sk) => if sk.len() != DSA_SK_LEN {
                Err(SealError::BadDsaSecretKey { actual: sk.len() as usize })
            } else {
                let body = sealed_body(module_id, timestamp, kyber_ct, nonce, enc.1, enc.0);
                Ok(body + dilithium3_sign(body, sk))
            },
        }
    }
}

/// The length of a sealed payload of `data_len` bytes of data: the header,
/// Kyber ciphertext, nonce and tag (1132 bytes), the AES ciphertext, and the
/// 3293-byte signature when signed.
pub open spec fn sealed_len(data_len: int, signed: bool) -> int {
    CIPHERTEXT_OFFSET + data_len + if signed {
        MLDSA_65_SIG_LEN as int
    } else {
        0int
    }
}

/// The bytes of a sealing outcome.
pub open spec fn sealed_view(r: Result<SealedPayload, SealError>) -> Result<Seq<u8>, SealError> {
    match r {
        Ok(p) => Ok(p.raw@),
        Err(e) => Err(e),
    }
}

/// The view of an optional key.
pub open spec fn opt_bytes(k: Option<Vec<u8>>) -> Option<Seq<u8>> {
    match k {
        Some(v) => Some(v@),
        Option::None => Option::None,
    }
}

/// Seals `data` with an already encapsulated shared secret, a nonce and a
/// timestamp.
pub fn seal_with(
    data: &[u8],
    module_id: u32,
    dsa_sk: Option<&[u8]>,
    timestamp: u64,
    shared_secret: &[u8],
    kyber_ct: &[u8],
    nonce: &[u8],
) -> (r: Result<SealedPayload, SealError>)
    requires
        shared_secret@.len() == SHARED_SECRET_LEN,
        kyber_ct@.len() == KYBER_CT_LEN,
        nonce@.len() == AES_NONCE_LEN,
    ensures
        sealed_view(r) == spec_seal_with(
            data@,
            module_id,
            match dsa_sk {
                Some(s) => Some(s@),
                Option::None => Option::None,
            },
            timestamp,
            shared_secret@,
            kyber_ct@,
            nonce@,
        ),
        r matches Ok(p) ==> p.raw@.len() == sealed_len(data@.len() as int, dsa_sk is Some),
{
    let (aes_ct, tag) = match aes256gcm_encrypt_detached(shared_secret, nonce, data) {
        Some(x) => x,
        Option::None => return Err(SealError::EncryptFailed),
    };
    let wire_id = match dsa_sk {
        Some(_) => module_id,
        Option::None => module_id | UNSIGNED_FLAG,
    };
    let mut raw: Vec<u8> = Vec::new();
    push_le32(&mut raw, MAGIC);
    push_le32(&mut raw, wire_id);
    push_le64(&mut raw, timestamp);
    push_all(&mut raw, kyber_ct);
    push_all(&mut raw, nonce);
    push_all(&mut raw, tag.as_slice());
    push_all(&mut raw, aes_ct.as_slice());
    proof {
        assert(raw@ =~= sealed_body(wire_id, timestamp, kyber_ct@, nonce@, tag@, aes_ct@));
    }
    match dsa_sk {
        Option::None => Ok(SealedPayload { raw }),
        Some(sk) => {
            let sig = match dilithium3_detached_sign(raw.as_slice(), sk) {
                Some(s) => s,
                Option::None => return Err(SealError::BadDsaSecretKey { actual: sk.len() }),
            };
            push_all(&mut raw, sig.as_slice());
            Ok(SealedPayload { raw })
        },
    }
}

/// Seals `data` for `module_id`: encapsulates a fresh shared secret to the
/// Kyber public key, draws a random nonce and reads the clock.  A Kyber key
/// of the wrong length is refused; otherwise the result is `seal_with` for
/// some shared secret, ciphertext, nonce and timestamp of the right lengths.
pub fn seal(data: &[u8], module_id: u32, key: &SealKey) -> (r: Result<SealedPayload, SealError>)
    ensures
        key.kyber_public_key@.len() != KYBER_PK_LEN ==> r == Err::<SealedPayload, SealError>(
            SealError::BadKyberPublicKey { actual: key.kyber_public_key@.len() as usize },
        ),
        key.kyber_public_key@.len() == KYBER_PK_LEN ==> exists|
            ts: u64,
            ss: Seq<u8>,
            ct: Seq<u8>,
            nonce: Seq<u8>,
        |
            #![trigger spec_seal_with(data@, module_id, opt_bytes(key.mldsa65_secret_key), ts, ss, ct, nonce)]
            {
                &&& ss.len() == SHARED_SECRET_LEN
                &&& ct.len() == KYBER_CT_LEN
                &&& kyber768_encapsulation(key.kyber_public_key@, ss, ct)
                &&& nonce.len() == AES_NONCE_LEN
                &&& sealed_view(r) == spec_seal_with(
                    data@,
                    module_id,
                    opt_bytes(key.mldsa65_secret_key),
                    ts,
                    ss,
                    ct,
                    nonce,
                )
            },
        r matches Ok(p) ==> p.raw@.len() == sealed_len(
            data@.len() as int,
            key.mldsa65_secret_key is Some,
        ),
{
    let ts = unix_time_nanos();
    let (ss, ct) = match kyber768_encapsulate(key.kyber_public_key.as_slice()) {
        Some(x) => x,
        Option::None => {
            return Err(SealError::BadKyberPublicKey { actual: key.kyber_public_key.len() });
        },
    };
    let nonce = os_random_bytes(AES_NONCE_LEN);
    let sk = match &key.mldsa65_secret_key {
        Some(v) => Some(v.as_slice()),
        Option::None => Option::None,
    };
    let r = seal_with(data, module_id, sk, ts, ss.as_slice(), ct.as_slice(), nonce.as_slice());
    proof {
        assert(opt_bytes(key.mldsa65_secret_key) == match sk {
            Some(s) => Some(s@),
            Option::None => Option::None::<Seq<u8>>,
        });
    }
    r
}

// ---------------------------------------------------------------------------
// Opening
// ---------------------------------------------------------------------------

/// Whether the wire module id marks an unsigned payload.
pub open spec fn is_unsigned(wire_module_id: u32) -> bool {
    wire_module_id & UNSIGNED_FLAG != 0
}

/// Where the signature starts (the end of the payload when there is none).
pub open spec fn signature_start(p: Seq<u8>) -> int {
    if is_unsigned(le_u32_at(p, 4)) {
        p.len() as int
    } else {
        p.len() - MLDSA_65_SIG_LEN
    }
}

/// What opening a payload gives: the plaintext, the module id (unsigned flag
/// cleared) and the timestamp, or the first check that fails.
pub open spec fn spec_open(p: Seq<u8>, kyber_sk: Seq<u8>, dsa_pk: Seq<u8>) -> Result<
    (Seq<u8>, u32, u64),
    SealError,
> {
    if p.len() < CIPHERTEXT_OFFSET {
        Err(SealError::TooShort)
    } else if !is_unsigned(le_u32_at(p, 4)) && p.len() < CIPHERTEXT_OFFSET + MLDSA_65_SIG_LEN {
        Err(SealError::TooShort)
    } else if le_u32_at(p, 0) != MAGIC {
        Err(SealError::BadMagic)
    } else {
        let wire = le_u32_at(p, 4);
        let unsigned = is_unsigned(wire);
        let sig_start = signature_start(p);
        if !unsigned && dsa_pk.len() != DSA_PK_LEN {
            Err(SealError::BadDsaPublicKey { actual: dsa_pk.len() as usize })
        } else if !unsigned && !dilithium3_verify(
            p.subrange(sig_start, p.len() as int),
            p.subrange(0, sig_start),
            dsa_pk,
        ) {
            Err(SealError::SignatureInvalid)
        } else if kyber_sk.len() != KYBER_SK_LEN {
            Err(SealError::BadKyberSecretKey { actual: kyber_sk.len() as usize })
        } else {
            let ss = kyber768_decapsulate(p.subrange(16, 1104), kyber_sk);
            match aes256gcm_decrypt(
                ss,
                p.subrange(1104, 1116),
                p.subrange(CIPHERTEXT_OFFSET as int, sig_start),
                p.subrange(1116, 1132),
            ) {
                Option::None => Err(SealError::DecryptFailed),
                Some(pt) => Ok((pt, wire & !UNSIGNED_FLAG, le_u64_at(p, 8))),
            }
        }
    }
}

/// Opens a sealed payload.
pub fn open(payload: &[u8], key: &OpenKey) -> (r: Result<(Vec<u8>, u32, u64), SealError>)
    ensures
        match r {
            Ok((pt, mid, ts)) => spec_open(payload@, key.kyber_secret_key@, key.mldsa65_public_key@)
                == Ok::<(Seq<u8>, u32, u64), SealError>((pt@, mid, ts)),
            Err(e) => spec_open(payload@, key.kyber_secret_key@, key.mldsa65_public_key@) == Err::<
                (Seq<u8>, u32, u64),
                SealError,
            >(e),
        },
{
    let n = payload.len();
    if n < CIPHERTEXT_OFFSET {
        return Err(SealError::TooShort);
    }
    let wire = read_u32_le(payload, 4);
    let unsigned = wire & UNSIGNED_FLAG != 0;
    if !unsigned && n < CIPHERTEXT_OFFSET + MLDSA_65_SIG_LEN {
        return Err(SealError::TooShort);
    }
    let magic = read_u32_le(payload, 0);
    if magic != MAGIC {
        return Err(SealError::BadMagic);
    }
    let ts = read_u64_le(payload, 8);
    let sig_start = if unsigned {
        n
    } else {
        n - MLDSA_65_SIG_LEN
    };
    if !unsigned {
        let sig = vstd::slice::slice_subrange(payload, sig_start, n);
        let signed = vstd::slice::slice_subrange(payload, 0, sig_start);
        match dilithium3_verify_detached(sig, signed, key.mldsa65_public_key.as_slice()) {
            Option::None => {
                return Err(
                    SealError::BadDsaPublicKey { actual: key.mldsa65_public_key.len() },
                );
            },
            Some(ok) => {
                if !ok {
                    return Err(SealError::SignatureInvalid);
                }
            },
        }
    }
    let ct = vstd::slice::slice_subrange(payload, 16, 1104);
    let ss = match kyber768_decapsulate_bytes(ct, key.kyber_secret_key.as_slice()) {
        Some(s) => s,
        Option::None => {
            return Err(SealError::BadKyberSecretKey { actual: key.kyber_secret_key.len() });
        },
    };
    let nonce = vstd::slice::slice_subrange(payload, 1104, 1116);
    let tag = vstd::slice::slice_subrange(payload, 1116, CIPHERTEXT_OFFSET);
    let aes_ct = vstd::slice::slice_subrange(payload, CIPHERTEXT_OFFSET, sig_start);
    match aes256gcm_decrypt_detached(ss.as_slice(), nonce, aes_ct, tag) {
        Option::None => Err(SealError::DecryptFailed),
        Some(pt) => Ok((pt, wire & !UNSIGNED_FLAG, ts)),
    }
}

/// The part of a sealed payload that the signature covers.
pub open spec fn signed_part(
    wire_module_id: u32,
    timestamp: u64,
    shared_secret: Seq<u8>,
    kyber_ct: Seq<u8>,
    nonce: Seq<u8>,
    data: Seq<u8>,
) -> Seq<u8> {
    let enc = aes256gcm_encrypt(shared_secret, nonce, data);
    sealed_body(wire_module_id, timestamp, kyber_ct, nonce, enc.1, enc.0)
}

/// Law: opening gives back what sealing wrote (the data, the module id and
/// the timestamp), for any module id without the unsigned flag, whenever the
/// primitives do their part: the Kyber secret key decapsulates the ciphertext
/// to the shared secret it was sealed under, AES-GCM decrypts its own output
/// (which `aes256gcm_encrypt_detached` guarantees), and for a signed payload
/// the public key accepts the 3293-byte signature.
pub proof fn lemma_seal_open_roundtrip(
    data: Seq<u8>,
    module_id: u32,
    dsa_sk: Option<Seq<u8>>,
    timestamp: u64,
    shared_secret: Seq<u8>,
    kyber_ct: Seq<u8>,
    nonce: Seq<u8>,
    kyber_sk: Seq<u8>,
    dsa_pk: Seq<u8>,
)
    requires
        data.len() <= AES_P_MAX,
        module_id & UNSIGNED_FLAG == 0,
        shared_secret.len() == SHARED_SECRET_LEN,
        kyber_ct.len() == KYBER_CT_LEN,
        nonce.len() == AES_NONCE_LEN,
        kyber_sk.len() == KYBER_SK_LEN,
        kyber768_decapsulate(kyber_ct, kyber_sk) == shared_secret,
        ({
            let enc = aes256gcm_encrypt(shared_secret, nonce, data);
            &&& enc.0.len() == data.len()
            &&& enc.1.len() == AES_TAG_LEN
            &&& aes256gcm_decrypt(shared_secret, nonce, enc.0, enc.1) == Some(data)
        }),
        dsa_sk matches Some(sk) ==> {
            let body = signed_part(module_id, timestamp, shared_secret, kyber_ct, nonce, data);
            &&& sk.len() == DSA_SK_LEN
            &&& dsa_pk.len() == DSA_PK_LEN
            &&& dilithium3_sign(body, sk).len() == MLDSA_65_SIG_LEN
            &&& dilithium3_verify(dilithium3_sign(body, sk), body, dsa_pk)
        },
    ensures
        spec_seal_with(data, module_id, dsa_sk, timestamp, shared_secret, kyber_ct, nonce) matches Ok(
            p,
        ) && spec_open(p, kyber_sk, dsa_pk) == Ok::<(Seq<u8>, u32, u64), SealError>(
            (data, module_id, timestamp),
        ),
{
    let enc = aes256gcm_encrypt(shared_secret, nonce, data);
    let wire = match dsa_sk {
        Some(_) => module_id,
        Option::None => module_id | UNSIGNED_FLAG,
    };
    let body = sealed_body(wire, timestamp, kyber_ct, nonce, enc.1, enc.0);
    assert(body.len() == CIPHERTEXT_OFFSET + data.len());
    lemma_le32_roundtrip(MAGIC);
    lemma_le32_roundtrip(wire);
    lemma_le64_roundtrip(timestamp);
    assert(body.subrange(0, 4) =~= le32(MAGIC));
    assert(body.subrange(4, 8) =~= le32(wire));
    assert(body.subrange(8, 16) =~= le64(timestamp));
    assert(body.subrange(16, 1104) =~= kyber_ct);
    assert(body.subrange(1104, 1116) =~= nonce);
    assert(body.subrange(1116, 1132) =~= enc.1);
    assert(body.subrange(1132, body.len() as int) =~= enc.0);
    assert((module_id | UNSIGNED_FLAG) & UNSIGNED_FLAG != 0) by (bit_vector);
    assert(module_id & UNSIGNED_FLAG == 0 ==> (module_id | UNSIGNED_FLAG) & !UNSIGNED_FLAG
        == module_id) by (bit_vector);
    assert(module_id & UNSIGNED_FLAG == 0 ==> module_id & !UNSIGNED_FLAG == module_id)
        by (bit_vector);
    match dsa_sk {
        Option::None => {
            let p = body;
            assert(le_u32_at(p, 0) == le_u32_at(p.subrange(0, 4), 0));
            assert(le_u32_at(p, 4) == le_u32_at(p.subrange(4, 8), 0));
            assert(le_u64_at(p, 8) == le_u64_at(p.subrange(8, 16), 0));
            assert(p.subrange(CIPHERTEXT_OFFSET as int, p.len() as int) =~= enc.0);
        },
        Some(sk) => {
            let sig = dilithium3_sign(body, sk);
            let p = body + sig;
            assert(p.subrange(0, body.len() as int) =~= body);
            assert(p.subrange(body.len() as int, p.len() as int) =~= sig);
            assert(p.subrange(0, 4) =~= le32(MAGIC));
            assert(p.subrange(4, 8) =~= le32(wire));
            assert(p.subrange(8, 16) =~= le64(timestamp));
            assert(le_u32_at(p, 0) == le_u32_at(p.subrange(0, 4), 0));
            assert(le_u32_at(p, 4) == le_u32_at(p.subrange(4, 8), 0));
            assert(le_u64_at(p, 8) == le_u64_at(p.subrange(8, 16), 0));
            assert(p.subrange(16, 1104) =~= kyber_ct);
            assert(p.subrange(1104, 1116) =~= nonce);
            assert(p.subrange(1116, 1132) =~= enc.1);
            assert(p.subrange(CIPHERTEXT_OFFSET as int, body.len() as int) =~= enc.0);
        },
    }
}


// ---------------------------------------------------------------------------
// Key material
// ---------------------------------------------------------------------------

/// Fresh key pairs for sealing: Kyber-768 for encryption, Dilithium3 for
/// signatures.
pub struct KeyMaterial {
    pub kyber_public: Vec<u8>,
    pub kyber_secret: Vec<u8>,
    pub mldsa65_public: Vec<u8>,
    pub mldsa65_secret: Vec<u8>,
}

/// Calls `kyber768::keypair`: a random key pair whose public key is 1184
/// bytes and secret key 2400 bytes long; the secret key carries a copy of
/// the public key at bytes 1152..2336.  Nothing more is claimed of how the
/// two keys relate.
#[verifier::external_body]
fn kyber768_keypair() -> (r: (Vec<u8>, Vec<u8>))
    ensures
        r.0@.len() == KYBER_PK_LEN,
        r.1@.len() == KYBER_SK_LEN,
        r.1@.subrange(1152, 2336) == r.0@,
{
    let (pk, sk) = pqcrypto_kyber::kyber768::keypair();
    (pk.as_bytes().to_vec(), sk.as_bytes().to_vec())
}

/// Calls `dilithium3::keypair`: a random key pair whose public key is 1952
/// bytes and secret key 4000 bytes long.  Nothing is claimed of how the two
/// keys relate.
#[verifier::external_body]
fn dilithium3_keypair() -> (r: (Vec<u8>, Vec<u8>))
    ensures
        r.0@.len() == DSA_PK_LEN,
        r.1@.len() == DSA_SK_LEN,
{
    let (pk, sk) = pqcrypto_dilithium::dilithium3::keypair();
    (pk.as_bytes().to_vec(), sk.as_bytes().to_vec())
}

/// Generates the key material a server deploys; each key has the length
/// its algorithm uses, so sealing and opening with it passes the key
/// checks.
pub fn generate_key_material() -> (k: KeyMaterial)
    ensures
        k.kyber_public@.len() == KYBER_PK_LEN,
        k.kyber_secret@.len() == KYBER_SK_LEN,
        k.kyber_secret@.subrange(1152, 2336) == k.kyber_public@,
        k.mldsa65_public@.len() == DSA_PK_LEN,
        k.mldsa65_secret@.len() == DSA_SK_LEN,
{
    let (kyber_public, kyber_secret) = kyber768_keypair();
    let (mldsa65_public, mldsa65_secret) = dilithium3_keypair();
    KeyMaterial { kyber_public, kyber_secret, mldsa65_public, mldsa65_secret }
}

} // verus!
