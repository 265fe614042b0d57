//! The daemon wire protocol between the server listener and client daemons.
//!
//! Every message is a frame `len: u32 LE | type: u8 | payload`, where `len`
//! counts the type byte and the payload.  Message types: AUTH (1), AUTH_OK
//! (2), SCAN_CMD (3), SCAN_RESULT (4), PING (5), PONG (6).
use vstd::prelude::*;
use vstd::string::StringSliceAdditionalSpecFns;
use vstd::utf8::{valid_utf8, decode_utf8};
use crate::text::{lossy_text, utf8_lossy_string};
use crate::policy::le_u32_at;

verus! {

pub const MSG_AUTH: u8 = 0x01;
pub const MSG_AUTH_OK: u8 = 0x02;
pub const MSG_SCAN_CMD: u8 = 0x03;
pub const MSG_SCAN_RESULT: u8 = 0x04;
pub const MSG_PING: u8 = 0x05;
pub const MSG_PONG: u8 = 0x06;

/// Length of the challenge nonce.
pub const NONCE_LEN: usize = 8;

/// Largest frame body either side accepts.
pub const MAX_FRAME_LEN: usize = 65536;

/// Longest access token the listener accepts.
pub const MAX_TOKEN_LEN: usize = 128;

// ---------------------------------------------------------------------------
// Little-endian helpers
// ---------------------------------------------------------------------------

/// Little-endian bytes of a 32-bit value.
pub open spec fn le32(x: u32) -> Seq<u8> {
    seq![x as u8, (x >> 8u32) as u8, (x >> 16u32) as u8, (x >> 24u32) as u8]
}

/// Little-endian bytes of a 16-bit value.
pub open spec fn le16(x: u16) -> Seq<u8> {
    seq![x as u8, (x >> 8u16) as u8]
}

/// Little-endian bytes of a 64-bit value.
pub open spec fn le64(x: u64) -> Seq<u8> {
    seq![
        x as u8,
        (x >> 8u64) as u8,
        (x >> 16u64) as u8,
        (x >> 24u64) as u8,
        (x >> 32u64) as u8,
        (x >> 40u64) as u8,
        (x >> 48u64) as u8,
        (x >> 56u64) as u8,
    ]
}

/// Little-endian `u16` at `off`.
pub open spec fn le_u16_at(data: Seq<u8>, off: int) -> u16 {
    ((data[off] as u16) | ((data[off + 1] as u16) << 8u16)) as u16
}

/// Little-endian `u64` at `off`.
pub open spec fn le_u64_at(data: Seq<u8>, off: int) -> u64 {
    (data[off] as u64) | ((data[off + 1] as u64) << 8u64) | ((data[off + 2] as u64) << 16u64) | ((
    data[off + 3] as u64) << 24u64) | ((data[off + 4] as u64) << 32u64) | ((data[off + 5] as u64)
        << 40u64) | ((data[off + 6] as u64) << 48u64) | ((data[off + 7] as u64) << 56u64)
}

pub(crate) proof fn lemma_le32_roundtrip(x: u32)
    ensures
        le_u32_at(le32(x), 0) == x,
{
    let b0 = x as u8;
    let b1 = (x >> 8u32) as u8;
    let b2 = (x >> 16u32) as u8;
    let b3 = (x >> 24u32) as u8;
    assert((b0 as u32) | ((b1 as u32) << 8u32) | ((b2 as u32) << 16u32) | ((b3 as u32) << 24u32)
        == x) by (bit_vector)
        requires
            b0 == x as u8,
            b1 == (x >> 8u32) as u8,
            b2 == (x >> 16u32) as u8,
            b3 == (x >> 24u32) as u8,
    ;
}

pub(crate) proof fn lemma_le16_roundtrip(x: u16)
    ensures
        le_u16_at(le16(x), 0) == x,
{
    let b0 = x as u8;
    let b1 = (x >> 8u16) as u8;
    assert(((b0 as u16) | ((b1 as u16) << 8u16)) as u16 == x) by (bit_vector)
        requires
            b0 == x as u8,
            b1 == (x >> 8u16) as u8,
    ;
}

pub(crate) proof fn lemma_le64_roundtrip(x: u64)
    ensures
        le_u64_at(le64(x), 0) == x,
{
    let b0 = x as u8;
    let b1 = (x >> 8u64) as u8;
    let b2 = (x >> 16u64) as u8;
    let b3 = (x >> 24u64) as u8;
    let b4 = (x >> 32u64) as u8;
    let b5 = (x >> 40u64) as u8;
    let b6 = (x >> 48u64) as u8;
    let b7 = (x >> 56u64) as u8;
    assert((b0 as u64) | ((b1 as u64) << 8u64) | ((b2 as u64) << 16u64) | ((b3 as u64) << 24u64) | (
    (b4 as u64) << 32u64) | ((b5 as u64) << 40u64) | ((b6 as u64) << 48u64) | ((b7 as u64) << 56u64)
        == x) by (bit_vector)
        requires
            b0 == x as u8,
            b1 == (x >> 8u64) as u8,
            b2 == (x >> 16u64) as u8,
            b3 == (x >> 24u64) as u8,
            b4 == (x >> 32u64) as u8,
            b5 == (x >> 40u64) as u8,
            b6 == (x >> 48u64) as u8,
            b7 == (x >> 56u64) as u8,
    ;
}

/// Appends the little-endian bytes of `x`.
pub fn push_le32(out: &mut Vec<u8>, x: u32)
    ensures
        final(out)@ == old(out)@ + le32(x),
{
    out.push(x as u8);
    out.push((x >> 8u32) as u8);
    out.push((x >> 16u32) as u8);
    out.push((x >> 24u32) as u8);
    proof {
        assert(final(out)@ =~= old(out)@ + le32(x));
    }
}

pub fn push_le16(out: &mut Vec<u8>, x: u16)
    ensures
        final(out)@ == old(out)@ + le16(x),
{
    out.push(x as u8);
    out.push((x >> 8u16) as u8);
    proof {
        assert(final(out)@ =~= old(out)@ + le16(x));
    }
}

pub fn push_le64(out: &mut Vec<u8>, x: u64)
    ensures
        final(out)@ == old(out)@ + le64(x),
{
    out.push(x as u8);
    out.push((x >> 8u64) as u8);
    out.push((x >> 16u64) as u8);
    out.push((x >> 24u64) as u8);
    out.push((x >> 32u64) as u8);
    out.push((x >> 40u64) as u8);
    out.push((x >> 48u64) as u8);
    out.push((x >> 56u64) as u8);
    proof {
        assert(final(out)@ =~= old(out)@ + le64(x));
    }
}

/// Appends all of `src`.
pub fn push_all(out: &mut Vec<u8>, src: &[u8])
    ensures
        final(out)@ == old(out)@ + src@,
{
    let ghost start = out@;
    let mut i: usize = 0;
    while i < src.len()
        invariant
            i <= src@.len(),
            out@ == start + src@.subrange(0, i as int),
        decreases src@.len() - i,
    {
        out.push(src[i]);
        proof {
            assert(src@.subrange(0, i + 1) =~= src@.subrange(0, i as int).push(src@[i as int]));
        }
        i = i + 1;
    }
    proof {
        assert(src@.subrange(0, src@.len() as int) =~= src@);
    }
}

pub fn read_u16_le(data: &[u8], off: usize) -> (v: u16)
    requires
        off + 2 <= data@.len(),
    ensures
        v == le_u16_at(data@, off as int),
{
    (data[off] as u16) | ((data[off + 1] as u16) << 8u16)
}

pub fn read_u32_le(data: &[u8], off: usize) -> (v: u32)
    requires
        off + 4 <= data@.len(),
    ensures
        v == le_u32_at(data@, off as int),
{
    (data[off] as u32) | ((data[off + 1] as u32) << 8u32) | ((data[off + 2] as u32) << 16u32) | ((
    data[off + 3] as u32) << 24u32)
}

pub fn read_u64_le(data: &[u8], off: usize) -> (v: u64)
    requires
        off + 8 <= data@.len(),
    ensures
        v == le_u64_at(data@, off as int),
{
    (data[off] as u64) | ((data[off + 1] as u64) << 8u64) | ((data[off + 2] as u64) << 16u64) | ((
    data[off + 3] as u64) << 24u64) | ((data[off + 4] as u64) << 32u64) | ((data[off + 5] as u64)
        << 40u64) | ((data[off + 6] as u64) << 48u64) | ((data[off + 7] as u64) << 56u64)
}

// ---------------------------------------------------------------------------
// Frames
// ---------------------------------------------------------------------------

/// The frame carrying `payload` as a message of type `msg_type`.
pub open spec fn spec_frame(msg_type: u8, payload: Seq<u8>) -> Seq<u8> {
    le32((1 + payload.len()) as u32) + seq![msg_type] + payload
}

/// Builds the frame for a message.
pub fn frame_message(msg_type: u8, payload: &[u8]) -> (buf: Vec<u8>)
    requires
        payload@.len() < usize::MAX,
    ensures
        buf@ == spec_frame(msg_type, payload@),
{
    let len = 1 + payload.len();
    let mut buf: Vec<u8> = Vec::new();
    push_le32(&mut buf, len as u32);
    buf.push(msg_type);
    push_all(&mut buf, payload);
    proof {
        assert(buf@ =~= spec_frame(msg_type, payload@));
    }
    buf
}

/// The body length announced by a frame's 4-byte header.
pub fn frame_body_len(header: &[u8]) -> (n: u32)
    requires
        header@.len() == 4,
    ensures
        n == le_u32_at(header@, 0),
{
    read_u32_le(header, 0)
}

/// Splits a frame body into its type byte and payload.
pub fn split_frame_body(body: &[u8]) -> (r: (u8, Vec<u8>))
    requires
        body@.len() >= 1,
    ensures
        r.0 == body@[0],
        r.1@ == body@.subrange(1, body@.len() as int),
{
    let mut payload: Vec<u8> = Vec::new();
    push_all(&mut payload, vstd::slice::slice_subrange(body, 1, body.len()));
    (body[0], payload)
}

/// Law: the body of a frame splits back into the type and payload it was
/// built from.
pub proof fn lemma_frame_roundtrip(msg_type: u8, payload: Seq<u8>)
    requires
        payload.len() < u32::MAX,
    ensures
        le_u32_at(spec_frame(msg_type, payload), 0) == 1 + payload.len(),
        spec_frame(msg_type, payload).subrange(4, spec_frame(msg_type, payload).len() as int)[0]
            == msg_type,
        spec_frame(msg_type, payload).subrange(5, spec_frame(msg_type, payload).len() as int)
            == payload,
{
    let f = spec_frame(msg_type, payload);
    lemma_le32_roundtrip((1 + payload.len()) as u32);
    assert(f.subrange(0, 4) =~= le32((1 + payload.len()) as u32));
    assert(f.subrange(5, f.len() as int) =~= payload);
}

// ---------------------------------------------------------------------------
// Authentication
// ---------------------------------------------------------------------------

/// The AUTH payload a daemon sends: its steam id, then optionally the token
/// length (`u16`) and the token bytes.
pub open spec fn spec_auth_payload(steam_id: u64, token: Option<Seq<u8>>) -> Seq<u8> {
    match token {
        Some(t) => le64(steam_id) + le16(t.len() as u16) + t,
        Option::None => le64(steam_id),
    }
}

/// Builds the AUTH payload.
pub fn build_auth_payload(steam_id: u64, token: Option<&str>) -> (p: Vec<u8>)
    ensures
        p@ == spec_auth_payload(
            steam_id,
            match token {
                Some(t) => Some(t.spec_bytes()),
                Option::None => Option::None,
            },
        ),
{
    let mut p: Vec<u8> = Vec::new();
    push_le64(&mut p, steam_id);
    match token {
        Some(t) => {
            let b = t.as_bytes();
            push_le16(&mut p, b.len() as u16);
            push_all(&mut p, b);
        },
        Option::None => {},
    }
    proof {
        assert(p@ =~= spec_auth_payload(
            steam_id,
            match token {
                Some(t) => Some(t.spec_bytes()),
                Option::None => Option::None,
            },
        ));
    }
    p
}

/// How the listener reads an AUTH frame body.
pub enum AuthRequest {
    /// Not an AUTH message, or a token length that does not fit the frame.
    Rejected,
    /// A well-formed request.
    Auth { steam_id: u64, token: Option<String> },
}

/// The token length field, when the body carries one.
pub open spec fn auth_token_len(body: Seq<u8>) -> int {
    le_u16_at(body, 9) as int
}

/// The listener accepts the AUTH body: type 1, and when a token length is
/// present and nonzero, the token fits the frame and is at most 128 bytes.
pub open spec fn auth_accepted(body: Seq<u8>) -> bool {
    &&& body.len() >= 9
    &&& body[0] == MSG_AUTH
    &&& body.len() >= 11 && auth_token_len(body) > 0 ==> (body.len() >= 11 + auth_token_len(body)
        && auth_token_len(body) <= MAX_TOKEN_LEN)
}

/// The token text of an accepted AUTH body, if it carries a nonzero length.
pub open spec fn auth_token(body: Seq<u8>) -> Option<Seq<char>> {
    if body.len() >= 11 && auth_token_len(body) > 0 {
        Some(lossy_text(body.subrange(11, 11 + auth_token_len(body))))
    } else {
        Option::None
    }
}

/// Parses an AUTH frame body (type byte first).
pub fn parse_auth(body: &[u8]) -> (r: AuthRequest)
    ensures
        match r {
            AuthRequest::Rejected => !auth_accepted(body@),
            AuthRequest::Auth { steam_id, token } => {
                &&& auth_accepted(body@)
                &&& steam_id == le_u64_at(body@, 1)
                &&& match token {
                    Some(t) => auth_token(body@) == Some(t@),
                    Option::None => auth_token(body@) is None,
                }
            },
        },
{
    if body.len() < 9 || body[0] != MSG_AUTH {
        return AuthRequest::Rejected;
    }
    let steam_id = read_u64_le(body, 1);
    if body.len() >= 11 {
        let tlen = read_u16_le(body, 9) as usize;
        if tlen > 0 && body.len() - 11 >= tlen && tlen <= MAX_TOKEN_LEN {
            let t = utf8_lossy_string(vstd::slice::slice_subrange(body, 11, 11 + tlen));
            return AuthRequest::Auth { steam_id, token: Some(t) };
        } else if tlen > 0 {
            return AuthRequest::Rejected;
        }
    }
    AuthRequest::Auth { steam_id, token: Option::None }
}

/// Law: the listener reads back what a daemon sends: the steam id and the
/// token text, for any nonempty token of at most 128 bytes.
pub proof fn lemma_auth_roundtrip(steam_id: u64, token: Seq<char>)
    requires
        0 < vstd::utf8::encode_utf8(token).len() <= MAX_TOKEN_LEN,
    ensures
        ({
            let t = vstd::utf8::encode_utf8(token);
            let body = seq![MSG_AUTH] + spec_auth_payload(steam_id, Some(t));
            &&& auth_accepted(body)
            &&& le_u64_at(body, 1) == steam_id
            &&& auth_token(body) == Some(token)
        }),
{
    let t = vstd::utf8::encode_utf8(token);
    let body = seq![MSG_AUTH] + spec_auth_payload(steam_id, Some(t));
    lemma_le64_roundtrip(steam_id);
    lemma_le16_roundtrip(t.len() as u16);
    assert(body.subrange(1, 9) =~= le64(steam_id));
    assert(body.subrange(9, 11) =~= le16(t.len() as u16));
    assert(le_u64_at(body, 1) == le_u64_at(body.subrange(1, 9), 0));
    assert(le_u16_at(body, 9) == le_u16_at(body.subrange(9, 11), 0));
    assert(body.subrange(11, 11 + t.len() as int) =~= t);
    vstd::utf8::encode_utf8_valid_utf8(token);
    vstd::utf8::encode_utf8_decode_utf8(token);
}

/// Compares two byte strings touching every byte pair regardless of where
/// they differ.
pub fn constant_time_eq(a: &[u8], b: &[u8]) -> (r: bool)
    ensures
        r == (a@ == b@),
{
    if a.len() != b.len() {
        return false;
    }
    let mut diff: u8 = 0;
    let mut i: usize = 0;
    while i < a.len()
        invariant
            i <= a@.len(),
            a@.len() == b@.len(),
            (diff == 0) <==> (forall|q: int| 0 <= q < i ==> a@[q] == b@[q]),
        decreases a@.len() - i,
    {
        let x = a[i];
        let y = b[i];
        let ghost d0 = diff;
        diff = diff | (x ^ y);
        proof {
            assert((d0 | (x ^ y)) == 0 <==> (d0 == 0 && x == y)) by (bit_vector);
        }
        i = i + 1;
    }
    proof {
        if diff == 0 {
            assert(a@ =~= b@);
        }
    }
    diff == 0
}

// ---------------------------------------------------------------------------
// Scan commands and results
// ---------------------------------------------------------------------------

/// SCAN_CMD payload: module id, the length of the sealing public key as an
/// `i32`, the key, then the 8-byte nonce.
pub open spec fn spec_scan_cmd(module_id: u32, public_key: Seq<u8>, nonce: Seq<u8>) -> Seq<u8> {
    le32(module_id) + le32(public_key.len() as i32 as u32) + public_key + nonce
}

/// Builds a SCAN_CMD payload.
pub fn build_scan_cmd(module_id: u32, public_key: &[u8], nonce: &[u8]) -> (cmd: Vec<u8>)
    requires
        nonce@.len() == NONCE_LEN,
    ensures
        cmd@ == spec_scan_cmd(module_id, public_key@, nonce@),
{
    let mut cmd: Vec<u8> = Vec::new();
    push_le32(&mut cmd, module_id);
    push_le32(&mut cmd, public_key.len() as i32 as u32);
    push_all(&mut cmd, public_key);
    push_all(&mut cmd, nonce);
    proof {
        assert(cmd@ =~= spec_scan_cmd(module_id, public_key@, nonce@));
    }
    cmd
}

/// A SCAN_CMD as a daemon reads it.
pub struct ScanCommand {
    pub module_id: u32,
    pub public_key: Vec<u8>,
    pub nonce: Vec<u8>,
}

/// The key length field of a SCAN_CMD payload, as the daemon widens it.
pub open spec fn scan_cmd_key_len(p: Seq<u8>) -> int {
    le_u32_at(p, 4) as i32 as usize as int
}

/// The daemon can evaluate the bounds check on this payload without
/// overflowing.
pub open spec fn scan_cmd_len_ok(p: Seq<u8>) -> bool {
    p.len() >= 20 ==> 8 + scan_cmd_key_len(p) + NONCE_LEN <= usize::MAX
}

/// Parses a SCAN_CMD payload; payloads shorter than 20 bytes or whose key
/// and nonce would run past the end are ignored.
pub fn parse_scan_cmd(p: &[u8]) -> (r: Option<ScanCommand>)
    requires
        scan_cmd_len_ok(p@),
    ensures
        match r {
            Option::None => p@.len() < 20 || 8 + scan_cmd_key_len(p@) + NONCE_LEN > p@.len(),
            Some(c) => {
                let k = scan_cmd_key_len(p@);
                &&& p@.len() >= 20
                &&& 8 + k + NONCE_LEN <= p@.len()
                &&& c.module_id == le_u32_at(p@, 0)
                &&& c.public_key@ == p@.subrange(8, 8 + k)
                &&& c.nonce@ == p@.subrange(8 + k, 8 + k + NONCE_LEN)
            },
        },
{
    if p.len() < 20 {
        return Option::None;
    }
    let module_id = read_u32_le(p, 0);
    let kpk_len = read_u32_le(p, 4) as i32 as usize;
    if 8 + kpk_len + NONCE_LEN > p.len() {
        return Option::None;
    }
    let mut public_key: Vec<u8> = Vec::new();
    push_all(&mut public_key, vstd::slice::slice_subrange(p, 8, 8 + kpk_len));
    let mut nonce: Vec<u8> = Vec::new();
    push_all(&mut nonce, vstd::slice::slice_subrange(p, 8 + kpk_len, 8 + kpk_len + NONCE_LEN));
    Some(ScanCommand { module_id, public_key, nonce })
}

/// Law: a daemon reads back the command the listener built, for any key of
/// at least 4 bytes (shorter commands fall under the 20-byte minimum) whose
/// length fits an `i32`.
pub proof fn lemma_scan_cmd_roundtrip(module_id: u32, public_key: Seq<u8>, nonce: Seq<u8>)
    requires
        4 <= public_key.len() <= i32::MAX,
        nonce.len() == NONCE_LEN,
    ensures
        ({
            let p = spec_scan_cmd(module_id, public_key, nonce);
            &&& scan_cmd_len_ok(p)
            &&& p.len() >= 20
            &&& le_u32_at(p, 0) == module_id
            &&& scan_cmd_key_len(p) == public_key.len()
            &&& p.subrange(8, 8 + public_key.len() as int) == public_key
            &&& p.subrange(8 + public_key.len() as int, 8 + public_key.len() + NONCE_LEN) == nonce
        }),
{
    let p = spec_scan_cmd(module_id, public_key, nonce);
    let kl = public_key.len() as i32 as u32;
    lemma_le32_roundtrip(module_id);
    lemma_le32_roundtrip(kl);
    assert(p.subrange(0, 4) =~= le32(module_id));
    assert(p.subrange(4, 8) =~= le32(kl));
    assert(le_u32_at(p, 0) == le_u32_at(p.subrange(0, 4), 0));
    assert(le_u32_at(p, 4) == le_u32_at(p.subrange(4, 8), 0));
    assert(kl as i32 as usize as int == public_key.len());
    assert(p.subrange(8, 8 + public_key.len() as int) =~= public_key);
    assert(p.subrange(8 + public_key.len() as int, 8 + public_key.len() + NONCE_LEN) =~= nonce);
}

/// SCAN_RESULT payload: the module id that was asked for, the sealed length
/// as an `i32`, then the sealed bytes.
pub open spec fn spec_scan_result(module_id: u32, sealed: Seq<u8>) -> Seq<u8> {
    le32(module_id) + le32(sealed.len() as i32 as u32) + sealed
}

/// Builds a SCAN_RESULT payload.
pub fn build_scan_result(module_id: u32, sealed: &[u8]) -> (r: Vec<u8>)
    ensures
        r@ == spec_scan_result(module_id, sealed@),
{
    let mut r: Vec<u8> = Vec::new();
    push_le32(&mut r, module_id);
    push_le32(&mut r, sealed.len() as i32 as u32);
    push_all(&mut r, sealed);
    proof {
        assert(r@ =~= spec_scan_result(module_id, sealed@));
    }
    r
}

/// The sealed bytes the listener takes from a SCAN_RESULT body: the declared
/// length, cut short by the end of the body.
pub open spec fn result_sealed(body: Seq<u8>) -> Seq<u8> {
    let declared = le_u32_at(body, 5) as i32 as usize as int;
    let avail = body.len() - 9;
    let n = if declared <= avail {
        declared
    } else {
        avail
    };
    body.subrange(9, 9 + n)
}

/// Parses a SCAN_RESULT frame body: `None` unless it is type 4 and at least
/// 9 bytes long; otherwise the module id and the sealed bytes.
pub fn parse_scan_result(body: &[u8]) -> (r: Option<(u32, Vec<u8>)>)
    ensures
        match r {
            Option::None => body@.len() < 9 || body@[0] != MSG_SCAN_RESULT,
            Some((mid, sealed)) => {
                &&& body@.len() >= 9
                &&& body@[0] == MSG_SCAN_RESULT
                &&& mid == le_u32_at(body@, 1)
                &&& sealed@ == result_sealed(body@)
            },
        },
{
    if body.len() < 9 || body[0] != MSG_SCAN_RESULT {
        return Option::None;
    }
    let mid = read_u32_le(body, 1);
    let declared = read_u32_le(body, 5) as i32 as usize;
    let avail = body.len() - 9;
    let n = if declared <= avail {
        declared
    } else {
        avail
    };
    let mut sealed: Vec<u8> = Vec::new();
    push_all(&mut sealed, vstd::slice::slice_subrange(body, 9, 9 + n));
    Some((mid, sealed))
}

/// Law: the listener reads back the module id and sealed bytes a daemon sent.
pub proof fn lemma_scan_result_roundtrip(module_id: u32, sealed: Seq<u8>)
    requires
        sealed.len() <= i32::MAX,
    ensures
        ({
            let body = seq![MSG_SCAN_RESULT] + spec_scan_result(module_id, sealed);
            &&& le_u32_at(body, 1) == module_id
            &&& result_sealed(body) == sealed
        }),
{
    let body = seq![MSG_SCAN_RESULT] + spec_scan_result(module_id, sealed);
    let sl = sealed.len() as i32 as u32;
    lemma_le32_roundtrip(module_id);
    lemma_le32_roundtrip(sl);
    assert(body.subrange(1, 5) =~= le32(module_id));
    assert(body.subrange(5, 9) =~= le32(sl));
    assert(le_u32_at(body, 1) == le_u32_at(body.subrange(1, 5), 0));
    assert(le_u32_at(body, 5) == le_u32_at(body.subrange(5, 9), 0));
    assert(sl as i32 as usize as int == sealed.len());
    assert(body.subrange(9, 9 + sealed.len() as int) =~= sealed);
}

/// The module id a daemon seals its result under: ring-0 process list (7),
/// hidden-process check (8), memory scan (9) and game scan (10) map to
/// 200..203; client modules are offset by 100.
pub open spec fn spec_seal_module_id(module_id: u32) -> u32 {
    if module_id == 7 {
        200
    } else if module_id == 8 {
        201
    } else if module_id == 9 {
        202
    } else if module_id == 10 {
        203
    } else {
        (module_id + 100) as u32
    }
}

/// The module id a daemon seals its result under.
pub fn seal_module_id(module_id: u32) -> (m: u32)
    requires
        module_id <= u32::MAX - 100,
    ensures
        m == spec_seal_module_id(module_id),
{
    if module_id == 7 {
        200
    } else if module_id == 8 {
        201
    } else if module_id == 9 {
        202
    } else if module_id == 10 {
        203
    } else {
        module_id + 100
    }
}

} // verus!
