//! The server host: the sealing keys it holds, the sealed output of a local
//! scan, and the decryption of scan results with their attestation block.
use vstd::prelude::*;
use vstd::string::StringSliceAdditionalSpecFns;
use vstd::utf8::encode_utf8;
use crate::buffer::{DataBuffer, DATA_BUFFER_DWORDS, words_le_bytes};
use crate::policy::le_u32_at;
use crate::protocol::{push_all, read_u32_le, seal_module_id, spec_seal_module_id};
use crate::seal::{
    kyber768_encapsulation, open, seal, seal_error_message, spec_open, spec_seal_with, OpenKey, SealError, SealKey,
    sealed_len, sealed_view, AES_NONCE_LEN, AES_TAG_LEN, HEADER_LEN, KYBER_CT_LEN, KYBER_PK_LEN,
    MLDSA_65_SIG_LEN, SHARED_SECRET_LEN,
};
use crate::text::{bytes_contain, str_contains};

verus! {

/// The key material the host was initialised with.
pub struct ScanScheduler {
    pub kyber_pk: Vec<u8>,
    pub mldsa65_sk: Vec<u8>,
    pub kyber_sk: Vec<u8>,
    pub mldsa65_pk: Vec<u8>,
}

/// A copy of `src`.
pub fn copy_bytes(src: &[u8]) -> (v: Vec<u8>)
    ensures
        v@ == src@,
{
    let mut v: Vec<u8> = Vec::new();
    push_all(&mut v, src);
    v
}

impl ScanScheduler {
    pub fn new(kyber_pk: Vec<u8>, mldsa65_sk: Vec<u8>, kyber_sk: Vec<u8>, mldsa65_pk: Vec<u8>) -> (s:
        Self)
        ensures
            s.kyber_pk@ == kyber_pk@,
            s.mldsa65_sk@ == mldsa65_sk@,
            s.kyber_sk@ == kyber_sk@,
            s.mldsa65_pk@ == mldsa65_pk@,
    {
        ScanScheduler { kyber_pk, mldsa65_sk, kyber_sk, mldsa65_pk }
    }

    /// The key that opens what clients seal to this host.
    pub fn open_key(&self) -> (k: OpenKey)
        ensures
            k.kyber_secret_key@ == self.kyber_sk@,
            k.mldsa65_public_key@ == self.mldsa65_pk@,
    {
        OpenKey {
            kyber_secret_key: copy_bytes(self.kyber_sk.as_slice()),
            mldsa65_public_key: copy_bytes(self.mldsa65_pk.as_slice()),
        }
    }
}

/// The sealing keys (Kyber public key, Dilithium3 secret key) of an
/// initialised host.
pub fn get_keys(scheduler: &Option<ScanScheduler>) -> (r: Option<(Vec<u8>, Vec<u8>)>)
    ensures
        match scheduler {
            Option::None => r is None,
            Some(s) => r matches Some((pk, sk)) && pk@ == s.kyber_pk@ && sk@ == s.mldsa65_sk@,
        },
{
    match scheduler {
        Some(s) => Some((copy_bytes(s.kyber_pk.as_slice()), copy_bytes(s.mldsa65_sk.as_slice()))),
        Option::None => Option::None,
    }
}

/// The opening key of an initialised host.
pub fn get_open_key(scheduler: &Option<ScanScheduler>) -> (r: Option<OpenKey>)
    ensures
        match scheduler {
            Option::None => r is None,
            Some(s) => r matches Some(k) && k.kyber_secret_key@ == s.kyber_sk@
                && k.mldsa65_public_key@ == s.mldsa65_pk@,
        },
{
    match scheduler {
        Some(s) => Some(s.open_key()),
        Option::None => Option::None,
    }
}

/// Installs the host's keys, replacing any earlier ones.
pub fn vac_init_rs(
    scheduler: &mut Option<ScanScheduler>,
    kyber_pk: &[u8],
    mldsa65_sk: &[u8],
    kyber_sk: &[u8],
    mldsa65_pk: &[u8],
)
    ensures
        *final(scheduler) matches Some(s) && s.kyber_pk@ == kyber_pk@ && s.mldsa65_sk@
            == mldsa65_sk@ && s.kyber_sk@ == kyber_sk@ && s.mldsa65_pk@ == mldsa65_pk@,
{
    *scheduler = Some(
        ScanScheduler::new(
            copy_bytes(kyber_pk),
            copy_bytes(mldsa65_sk),
            copy_bytes(kyber_sk),
            copy_bytes(mldsa65_pk),
        ),
    );
}

/// Forgets the host's keys.
pub fn vac_shutdown_rs(scheduler: &mut Option<ScanScheduler>)
    ensures
        *final(scheduler) is None,
{
    *scheduler = Option::None;
}

// ---------------------------------------------------------------------------
// Local scans
// ---------------------------------------------------------------------------

/// Length of the presence block appended to scan data.
pub const PRESENCE_LEN: usize = 32;

/// Largest output buffer a local scan accepts.
pub const MAX_SCAN_OUTPUT: usize = 65536;

/// Smallest output buffer a local scan accepts, 12617 bytes: room for the
/// header, the Kyber ciphertext, the nonce, the tag, a full buffer of scan
/// data and the signature.  The presence block makes the sealed payload 32
/// bytes longer; a buffer too small for all of it receives its first bytes.
pub const MIN_SCAN_CAPACITY: usize = HEADER_LEN + KYBER_CT_LEN + AES_NONCE_LEN + AES_TAG_LEN
    + DATA_BUFFER_DWORDS * 4 + MLDSA_65_SIG_LEN;

/// The checks a local scan makes before running a module: keys installed
/// (else -4), output capacity within bounds (else -6), a server module id
/// 1..=6 (else -7).  On success, the capacity in bytes.
pub fn vac_scan_check(keys_loaded: bool, capacity: i32, module_id: u32) -> (r: Result<usize, i32>)
    ensures
        !keys_loaded ==> r == Err::<usize, i32>(-4i32),
        keys_loaded && (capacity < MIN_SCAN_CAPACITY || capacity > MAX_SCAN_OUTPUT) ==> r == Err::<
            usize,
            i32,
        >(-6i32),
        keys_loaded && MIN_SCAN_CAPACITY <= capacity <= MAX_SCAN_OUTPUT && !(1 <= module_id <= 6)
            ==> r == Err::<usize, i32>(-7i32),
        keys_loaded && MIN_SCAN_CAPACITY <= capacity <= MAX_SCAN_OUTPUT && 1 <= module_id <= 6
            ==> r == Ok::<usize, i32>(capacity as usize),
{
    if !keys_loaded {
        return Err(-4);
    }
    if capacity < 0 {
        return Err(-6);
    }
    let cap = capacity as usize;
    if cap < MIN_SCAN_CAPACITY || cap > MAX_SCAN_OUTPUT {
        return Err(-6);
    }
    if module_id < 1 || module_id > 6 {
        return Err(-7);
    }
    Ok(cap)
}

/// The presence block: a 1 (no kernel module on the host) and 31 zeros.
pub open spec fn presence_bytes() -> Seq<u8> {
    seq![1u8] + Seq::new(31, |i: int| 0u8)
}

/// The bytes a local scan seals: the buffer's words, then the presence
/// block.
pub fn presence_payload(data: &DataBuffer) -> (p: Vec<u8>)
    requires
        data.wf(),
    ensures
        p@ == words_le_bytes(data.words()) + presence_bytes(),
        p@.len() == DATA_BUFFER_DWORDS * 4 + PRESENCE_LEN,
{
    let mut p = data.as_bytes();
    let ghost start = p@;
    p.push(1u8);
    let mut i: usize = 1;
    while i < PRESENCE_LEN
        invariant
            1 <= i <= PRESENCE_LEN,
            p@ == start + presence_bytes().subrange(0, i as int),
        decreases PRESENCE_LEN - i,
    {
        p.push(0u8);
        proof {
            assert(presence_bytes().subrange(0, i + 1) =~= presence_bytes().subrange(0, i as int).push(
                0u8,
            ));
        }
        i = i + 1;
    }
    proof {
        assert(presence_bytes().subrange(0, PRESENCE_LEN as int) =~= presence_bytes());
    }
    p
}

/// The smaller of two lengths.
pub open spec fn min_len(a: int, b: int) -> int {
    if a <= b {
        a
    } else {
        b
    }
}

/// The first `n` bytes of `b`, or all of them when there are fewer.
pub open spec fn truncated(b: Seq<u8>, n: int) -> Seq<u8> {
    if b.len() <= n {
        b
    } else {
        b.subrange(0, n)
    }
}

/// Seals the scan data with the host's keys and cuts the result to the
/// output capacity; a failure to seal is -8.
pub fn seal_scan_data(
    data: &DataBuffer,
    module_id: u32,
    kyber_pk: &[u8],
    mldsa65_sk: &[u8],
    capacity: usize,
) -> (r: Result<Vec<u8>, i32>)
    requires
        data.wf(),
    ensures
        kyber_pk@.len() != KYBER_PK_LEN ==> r == Err::<Vec<u8>, i32>(-8i32),
        kyber_pk@.len() == KYBER_PK_LEN ==> exists|ts: u64, ss: Seq<u8>, ct: Seq<u8>, nonce: Seq<u8>|
            #![trigger spec_seal_with(words_le_bytes(data.words()) + presence_bytes(), module_id, Some(mldsa65_sk@), ts, ss, ct, nonce)]
            {
                &&& ss.len() == SHARED_SECRET_LEN
                &&& ct.len() == KYBER_CT_LEN
                &&& kyber768_encapsulation(kyber_pk@, ss, ct)
                &&& nonce.len() == AES_NONCE_LEN
                &&& match spec_seal_with(
                    words_le_bytes(data.words()) + presence_bytes(),
                    module_id,
                    Some(mldsa65_sk@),
                    ts,
                    ss,
                    ct,
                    nonce,
                ) {
                    Ok(p) => r matches Ok(out) && out@ == truncated(p, capacity as int),
                    Err(_) => r == Err::<Vec<u8>, i32>(-8i32),
                }
            },
        r matches Ok(out) ==> out@.len() == min_len(
            sealed_len((DATA_BUFFER_DWORDS * 4 + PRESENCE_LEN) as int, true),
            capacity as int,
        ),
{
    let payload = presence_payload(data);
    let key = SealKey {
        kyber_public_key: copy_bytes(kyber_pk),
        mldsa65_secret_key: Some(copy_bytes(mldsa65_sk)),
    };
    let sealed = seal(payload.as_slice(), module_id, &key);
    match sealed {
        Ok(p) => {
            if p.raw.len() <= capacity {
                Ok(p.raw)
            } else {
                let mut out: Vec<u8> = Vec::new();
                push_all(&mut out, vstd::slice::slice_subrange(p.raw.as_slice(), 0, capacity));
                Ok(out)
            }
        },
        Err(_) => Err(-8),
    }
}

// ---------------------------------------------------------------------------
// Decryption with attestation
// ---------------------------------------------------------------------------

/// Largest amount of scan data a result carries (2048 words).
pub const MAX_RESULT_DATA: usize = 8192;

/// Whether an attestation block is acceptable: not all zeros.
pub fn verify_attestation(attestation: &[u8]) -> (ok: bool)
    ensures
        ok == exists|i: int| 0 <= i < attestation@.len() && attestation@[i] != 0,
{
    let mut i: usize = 0;
    while i < attestation.len()
        invariant
            i <= attestation@.len(),
            forall|q: int| 0 <= q < i ==> attestation@[q] == 0,
        decreases attestation@.len() - i,
    {
        if attestation[i] != 0 {
            return true;
        }
        i = i + 1;
    }
    false
}

/// How much of a plaintext counts as scan data.
pub open spec fn data_len(pt: Seq<u8>) -> int {
    if pt.len() <= MAX_RESULT_DATA {
        pt.len() as int
    } else {
        MAX_RESULT_DATA as int
    }
}

/// The attestation block after the scan data, or zeros when the plaintext
/// is too short to hold one.
pub open spec fn attestation_of(pt: Seq<u8>) -> Seq<u8> {
    if pt.len() >= data_len(pt) + PRESENCE_LEN {
        pt.subrange(data_len(pt), data_len(pt) + PRESENCE_LEN)
    } else {
        Seq::new(PRESENCE_LEN as nat, |i: int| 0u8)
    }
}

/// The whole little-endian words of the scan data.
pub open spec fn data_words(pt: Seq<u8>) -> Seq<u32> {
    Seq::new((data_len(pt) / 4) as nat, |i: int| le_u32_at(pt, 4 * i))
}

/// The error code of a failed opening: 1 when its message mentions the
/// signature, 2 otherwise.
pub open spec fn open_error_code(e: SealError) -> i32 {
    if bytes_contain(encode_utf8(seal_error_message(e)), encode_utf8("signature"@)) {
        1
    } else {
        2
    }
}

/// The attestation block of the plaintext is not all zeros.
pub open spec fn attestation_ok(pt: Seq<u8>) -> bool {
    exists|i: int| 0 <= i < PRESENCE_LEN && attestation_of(pt)[i] != 0
}

/// What a decryption yields: the scan data words and the attestation block,
/// or an error code (3 when the attestation is all zeros).
pub open spec fn spec_attested(opened: Result<(Seq<u8>, u32, u64), SealError>) -> Result<
    (Seq<u32>, Seq<u8>),
    i32,
> {
    match opened {
        Err(e) => Err(open_error_code(e)),
        Ok((pt, _, _)) => if attestation_ok(pt) {
            Ok((data_words(pt), attestation_of(pt)))
        } else {
            Err(3)
        },
    }
}

/// The view of an opening outcome.
pub open spec fn opened_view(r: Result<(Vec<u8>, u32, u64), SealError>) -> Result<
    (Seq<u8>, u32, u64),
    SealError,
> {
    match r {
        Ok((pt, mid, ts)) => Ok((pt@, mid, ts)),
        Err(e) => Err(e),
    }
}

/// The view of a decryption outcome.
pub open spec fn attested_view(r: Result<(Vec<u32>, Vec<u8>), i32>) -> Result<
    (Seq<u32>, Seq<u8>),
    i32,
> {
    match r {
        Ok((w, a)) => Ok((w@, a@)),
        Err(c) => Err(c),
    }
}

/// Turns the outcome of opening a scan result into the data words and the
/// attestation block, or the error code.
pub fn attested_output(opened: &Result<(Vec<u8>, u32, u64), SealError>) -> (r: Result<
    (Vec<u32>, Vec<u8>),
    i32,
>)
    ensures
        attested_view(r) == spec_attested(opened_view(*opened)),
{
    match opened {
        Err(e) => {
            let msg = e.message();
            if str_contains(msg.as_str(), "signature") {
                Err(1)
            } else {
                Err(2)
            }
        },
        Ok((pt, _, _)) => {
            let n = pt.len();
            let dl = if n <= MAX_RESULT_DATA {
                n
            } else {
                MAX_RESULT_DATA
            };
            let mut att: Vec<u8> = Vec::new();
            if n >= dl + PRESENCE_LEN {
                push_all(&mut att, vstd::slice::slice_subrange(pt.as_slice(), dl, dl + PRESENCE_LEN));
            } else {
                let mut k: usize = 0;
                while k < PRESENCE_LEN
                    invariant
                        k <= PRESENCE_LEN,
                        att@ == Seq::new(k as nat, |i: int| 0u8),
                    decreases PRESENCE_LEN - k,
                {
                    att.push(0u8);
                    proof {
                        assert(att@ =~= Seq::new((k + 1) as nat, |i: int| 0u8));
                    }
                    k = k + 1;
                }
            }
            proof {
                assert(att@ =~= attestation_of(pt@));
            }
            if !verify_attestation(att.as_slice()) {
                return Err(3);
            }
            let dwords = dl / 4;
            let mut words: Vec<u32> = Vec::new();
            let mut i: usize = 0;
            while i < dwords
                invariant
                    dwords == data_len(pt@) / 4,
                    dl == data_len(pt@),
                    dl <= pt@.len(),
                    i <= dwords,
                    words@ == data_words(pt@).subrange(0, i as int),
                decreases dwords - i,
            {
                let w = read_u32_le(pt.as_slice(), 4 * i);
                proof {
                    assert(data_words(pt@).subrange(0, i + 1) =~= data_words(pt@).subrange(
                        0,
                        i as int,
                    ).push(w));
                }
                words.push(w);
                i = i + 1;
            }
            proof {
                assert(data_words(pt@).subrange(0, dwords as int) =~= data_words(pt@));
            }
            Ok((words, att))
        },
    }
}

/// Opens a client's sealed scan result with the given keys and extracts the
/// data words and the attestation block.  A missing key is -2.
pub fn decrypt_with_attestation(
    encrypted: &[u8],
    kyber_sk: Option<&[u8]>,
    mldsa65_pk: Option<&[u8]>,
) -> (r: Result<(Vec<u32>, Vec<u8>), i32>)
    ensures
        (kyber_sk is None || mldsa65_pk is None) ==> r == Err::<(Vec<u32>, Vec<u8>), i32>(-2i32),
        kyber_sk matches Some(ksk) ==> mldsa65_pk matches Some(mpk) ==> attested_view(r)
            == spec_attested(spec_open(encrypted@, ksk@, mpk@)),
{
    let (ksk, mpk) = match (kyber_sk, mldsa65_pk) {
        (Some(k), Some(m)) => (k, m),
        _ => return Err(-2),
    };
    let key = OpenKey { kyber_secret_key: copy_bytes(ksk), mldsa65_public_key: copy_bytes(mpk) };
    let opened = open(encrypted, &key);
    attested_output(&opened)
}

proof fn lemma_word_bytes_roundtrip(w: Seq<u32>, i: int)
    requires
        0 <= i < w.len(),
    ensures
        le_u32_at(words_le_bytes(w), 4 * i) == w[i],
{
    let b = words_le_bytes(w);
    let x = w[i];
    assert((4 * i) / 4 == i && (4 * i) % 4 == 0);
    assert((4 * i + 1) / 4 == i && (4 * i + 1) % 4 == 1);
    assert((4 * i + 2) / 4 == i && (4 * i + 2) % 4 == 2);
    assert((4 * i + 3) / 4 == i && (4 * i + 3) % 4 == 3);
    assert(b[4 * i] == (x >> 0u32) as u8);
    assert(b[4 * i + 1] == (x >> 8u32) as u8);
    assert(b[4 * i + 2] == (x >> 16u32) as u8);
    assert(b[4 * i + 3] == (x >> 24u32) as u8);
    assert((((x >> 0u32) as u8) as u32) | ((((x >> 8u32) as u8) as u32) << 8u32) | ((((x
        >> 16u32) as u8) as u32) << 16u32) | ((((x >> 24u32) as u8) as u32) << 24u32) == x)
        by (bit_vector);
}

/// Law: what a local scan seals decrypts to the buffer's words and the
/// presence block, whose first byte is 1, so the attestation check passes.
pub proof fn lemma_presence_payload_attested(words: Seq<u32>, module_id: u32, timestamp: u64)
    requires
        words.len() == DATA_BUFFER_DWORDS,
    ensures
        spec_attested(Ok((words_le_bytes(words) + presence_bytes(), module_id, timestamp)))
            == Ok::<(Seq<u32>, Seq<u8>), i32>((words, presence_bytes())),
        presence_bytes()[0] == 1,
{
    let pt = words_le_bytes(words) + presence_bytes();
    assert(data_len(pt) == MAX_RESULT_DATA);
    assert(attestation_of(pt) =~= presence_bytes());
    assert(attestation_of(pt)[0] != 0);
    assert(attestation_ok(pt));
    assert forall|i: int| 0 <= i < words.len() implies #[trigger] data_words(pt)[i] == words[i] by {
        lemma_word_bytes_roundtrip(words, i);
        assert(pt.subrange(0, 8192) =~= words_le_bytes(words));
        assert(pt[4 * i] == words_le_bytes(words)[4 * i]);
        assert(pt[4 * i + 1] == words_le_bytes(words)[4 * i + 1]);
        assert(pt[4 * i + 2] == words_le_bytes(words)[4 * i + 2]);
        assert(pt[4 * i + 3] == words_le_bytes(words)[4 * i + 3]);
    }
    assert(data_words(pt) =~= words);
    assert(spec_attested(Ok((pt, module_id, timestamp))) == Ok::<(Seq<u32>, Seq<u8>), i32>(
        (data_words(pt), attestation_of(pt)),
    ));
}


// ---------------------------------------------------------------------------
// A player's client scan
// ---------------------------------------------------------------------------

/// Smallest output buffer a client scan accepts: room for an unsigned
/// payload of a full buffer.
pub const MIN_CLIENT_CAPACITY: usize = 9324;

/// The checks a client scan makes before running a module: an output
/// buffer (else -1), a public key (else -2), a client module id 1..=6 or 10
/// (else -3), and an output capacity of at least `MIN_CLIENT_CAPACITY`
/// bytes (else -4).  The capacity is read as the caller's signed length
/// taken as an unsigned size.  On success, that size.
pub fn client_scan_check(has_output: bool, has_key: bool, module_id: u32, capacity: i32) -> (r: Result<
    usize,
    i32,
>)
    ensures
        !has_output ==> r == Err::<usize, i32>(-1i32),
        has_output && !has_key ==> r == Err::<usize, i32>(-2i32),
        has_output && has_key && !((1 <= module_id <= 6) || module_id == 10) ==> r == Err::<
            usize,
            i32,
        >(-3i32),
        has_output && has_key && ((1 <= module_id <= 6) || module_id == 10) && (capacity as usize)
            < MIN_CLIENT_CAPACITY ==> r == Err::<usize, i32>(-4i32),
        has_output && has_key && ((1 <= module_id <= 6) || module_id == 10) && (capacity as usize)
            >= MIN_CLIENT_CAPACITY ==> r == Ok::<usize, i32>(capacity as usize),
{
    assert(MIN_CLIENT_CAPACITY == HEADER_LEN + KYBER_CT_LEN + AES_NONCE_LEN + AES_TAG_LEN + DATA_BUFFER_DWORDS
        * 4);
    if !has_output {
        return Err(-1);
    }
    if !has_key {
        return Err(-2);
    }
    if (module_id < 1 || module_id > 6) && module_id != 10 {
        return Err(-3);
    }
    let cap = capacity as usize;
    if cap < MIN_CLIENT_CAPACITY {
        return Err(-4);
    }
    Ok(cap)
}

/// Seals a client scan's buffer without a signature, under the module's
/// sealing id (the game scan as 203, the others offset by 100), and cuts
/// the result to the output capacity; a failure to seal is -5.
pub fn seal_client_scan(data: &DataBuffer, module_id: u32, kyber_pk: &[u8], capacity: usize) -> (r:
    Result<Vec<u8>, i32>)
    requires
        data.wf(),
        (1 <= module_id <= 6) || module_id == 10,
    ensures
        kyber_pk@.len() != KYBER_PK_LEN ==> r == Err::<Vec<u8>, i32>(-5i32),
        kyber_pk@.len() == KYBER_PK_LEN ==> exists|ts: u64, ss: Seq<u8>, ct: Seq<u8>, nonce: Seq<u8>|
            #![trigger spec_seal_with(words_le_bytes(data.words()), spec_seal_module_id(module_id), Option::<Seq<u8>>::None, ts, ss, ct, nonce)]
            {
                &&& ss.len() == SHARED_SECRET_LEN
                &&& ct.len() == KYBER_CT_LEN
                &&& kyber768_encapsulation(kyber_pk@, ss, ct)
                &&& nonce.len() == AES_NONCE_LEN
                &&& match spec_seal_with(
                    words_le_bytes(data.words()),
                    spec_seal_module_id(module_id),
                    Option::<Seq<u8>>::None,
                    ts,
                    ss,
                    ct,
                    nonce,
                ) {
                    Ok(p) => r matches Ok(out) && out@ == truncated(p, capacity as int),
                    Err(_) => r == Err::<Vec<u8>, i32>(-5i32),
                }
            },
        r matches Ok(out) ==> out@.len() == min_len(
            sealed_len((DATA_BUFFER_DWORDS * 4) as int, false),
            capacity as int,
        ),
{
    let bytes = data.as_bytes();
    let mid = seal_module_id(module_id);
    let key = SealKey { kyber_public_key: copy_bytes(kyber_pk), mldsa65_secret_key: Option::None };
    let sealed = seal(bytes.as_slice(), mid, &key);
    match sealed {
        Ok(p) => {
            if p.raw.len() <= capacity {
                Ok(p.raw)
            } else {
                let mut out: Vec<u8> = Vec::new();
                push_all(&mut out, vstd::slice::slice_subrange(p.raw.as_slice(), 0, capacity));
                Ok(out)
            }
        },
        Err(_) => Err(-5),
    }
}

} // verus!
