//! MD5 digest (RFC 1321), computed over the whole message at once.
use vstd::prelude::*;

verus! {

/// Additive constant of step `j`.
pub open spec fn spec_md5_k(j: int) -> u32 {
    if j == 0 { 0xd76aa478 }
    else if j == 1 { 0xe8c7b756 }
    else if j == 2 { 0x242070db }
    else if j == 3 { 0xc1bdceee }
    else if j == 4 { 0xf57c0faf }
    else if j == 5 { 0x4787c62a }
    else if j == 6 { 0xa8304613 }
    else if j == 7 { 0xfd469501 }
    else if j == 8 { 0x698098d8 }
    else if j == 9 { 0x8b44f7af }
    else if j == 10 { 0xffff5bb1 }
    else if j == 11 { 0x895cd7be }
    else if j == 12 { 0x6b901122 }
    else if j == 13 { 0xfd987193 }
    else if j == 14 { 0xa679438e }
    else if j == 15 { 0x49b40821 }
    else if j == 16 { 0xf61e2562 }
    else if j == 17 { 0xc040b340 }
    else if j == 18 { 0x265e5a51 }
    else if j == 19 { 0xe9b6c7aa }
    else if j == 20 { 0xd62f105d }
    else if j == 21 { 0x02441453 }
    else if j == 22 { 0xd8a1e681 }
    else if j == 23 { 0xe7d3fbc8 }
    else if j == 24 { 0x21e1cde6 }
    else if j == 25 { 0xc33707d6 }
    else if j == 26 { 0xf4d50d87 }
    else if j == 27 { 0x455a14ed }
    else if j == 28 { 0xa9e3e905 }
    else if j == 29 { 0xfcefa3f8 }
    else if j == 30 { 0x676f02d9 }
    else if j == 31 { 0x8d2a4c8a }
    else if j == 32 { 0xfffa3942 }
    else if j == 33 { 0x8771f681 }
    else if j == 34 { 0x6d9d6122 }
    else if j == 35 { 0xfde5380c }
    else if j == 36 { 0xa4beea44 }
    else if j == 37 { 0x4bdecfa9 }
    else if j == 38 { 0xf6bb4b60 }
    else if j == 39 { 0xbebfbc70 }
    else if j == 40 { 0x289b7ec6 }
    else if j == 41 { 0xeaa127fa }
    else if j == 42 { 0xd4ef3085 }
    else if j == 43 { 0x04881d05 }
    else if j == 44 { 0xd9d4d039 }
    else if j == 45 { 0xe6db99e5 }
    else if j == 46 { 0x1fa27cf8 }
    else if j == 47 { 0xc4ac5665 }
    else if j == 48 { 0xf4292244 }
    else if j == 49 { 0x432aff97 }
    else if j == 50 { 0xab9423a7 }
    else if j == 51 { 0xfc93a039 }
    else if j == 52 { 0x655b59c3 }
    else if j == 53 { 0x8f0ccc92 }
    else if j == 54 { 0xffeff47d }
    else if j == 55 { 0x85845dd1 }
    else if j == 56 { 0x6fa87e4f }
    else if j == 57 { 0xfe2ce6e0 }
    else if j == 58 { 0xa3014314 }
    else if j == 59 { 0x4e0811a1 }
    else if j == 60 { 0xf7537e82 }
    else if j == 61 { 0xbd3af235 }
    else if j == 62 { 0x2ad7d2bb }
    else { 0xeb86d391 }
}

fn md5_k(j: usize) -> (r: u32)
    requires
        j < 64,
    ensures
        r == spec_md5_k(j as int),
{
    if j == 0 { 0xd76aa478 }
    else if j == 1 { 0xe8c7b756 }
    else if j == 2 { 0x242070db }
    else if j == 3 { 0xc1bdceee }
    else if j == 4 { 0xf57c0faf }
    else if j == 5 { 0x4787c62a }
    else if j == 6 { 0xa8304613 }
    else if j == 7 { 0xfd469501 }
    else if j == 8 { 0x698098d8 }
    else if j == 9 { 0x8b44f7af }
    else if j == 10 { 0xffff5bb1 }
    else if j == 11 { 0x895cd7be }
    else if j == 12 { 0x6b901122 }
    else if j == 13 { 0xfd987193 }
    else if j == 14 { 0xa679438e }
    else if j == 15 { 0x49b40821 }
    else if j == 16 { 0xf61e2562 }
    else if j == 17 { 0xc040b340 }
    else if j == 18 { 0x265e5a51 }
    else if j == 19 { 0xe9b6c7aa }
    else if j == 20 { 0xd62f105d }
    else if j == 21 { 0x02441453 }
    else if j == 22 { 0xd8a1e681 }
    else if j == 23 { 0xe7d3fbc8 }
    else if j == 24 { 0x21e1cde6 }
    else if j == 25 { 0xc33707d6 }
    else if j == 26 { 0xf4d50d87 }
    else if j == 27 { 0x455a14ed }
    else if j == 28 { 0xa9e3e905 }
    else if j == 29 { 0xfcefa3f8 }
    else if j == 30 { 0x676f02d9 }
    else if j == 31 { 0x8d2a4c8a }
    else if j == 32 { 0xfffa3942 }
    else if j == 33 { 0x8771f681 }
    else if j == 34 { 0x6d9d6122 }
    else if j == 35 { 0xfde5380c }
    else if j == 36 { 0xa4beea44 }
    else if j == 37 { 0x4bdecfa9 }
    else if j == 38 { 0xf6bb4b60 }
    else if j == 39 { 0xbebfbc70 }
    else if j == 40 { 0x289b7ec6 }
    else if j == 41 { 0xeaa127fa }
    else if j == 42 { 0xd4ef3085 }
    else if j == 43 { 0x04881d05 }
    else if j == 44 { 0xd9d4d039 }
    else if j == 45 { 0xe6db99e5 }
    else if j == 46 { 0x1fa27cf8 }
    else if j == 47 { 0xc4ac5665 }
    else if j == 48 { 0xf4292244 }
    else if j == 49 { 0x432aff97 }
    else if j == 50 { 0xab9423a7 }
    else if j == 51 { 0xfc93a039 }
    else if j == 52 { 0x655b59c3 }
    else if j == 53 { 0x8f0ccc92 }
    else if j == 54 { 0xffeff47d }
    else if j == 55 { 0x85845dd1 }
    else if j == 56 { 0x6fa87e4f }
    else if j == 57 { 0xfe2ce6e0 }
    else if j == 58 { 0xa3014314 }
    else if j == 59 { 0x4e0811a1 }
    else if j == 60 { 0xf7537e82 }
    else if j == 61 { 0xbd3af235 }
    else if j == 62 { 0x2ad7d2bb }
    else { 0xeb86d391 }
}

/// Rotation amount of step `j`.
pub open spec fn spec_md5_s(j: int) -> u32 {
    if j == 0 { 7 }
    else if j == 1 { 12 }
    else if j == 2 { 17 }
    else if j == 3 { 22 }
    else if j == 4 { 7 }
    else if j == 5 { 12 }
    else if j == 6 { 17 }
    else if j == 7 { 22 }
    else if j == 8 { 7 }
    else if j == 9 { 12 }
    else if j == 10 { 17 }
    else if j == 11 { 22 }
    else if j == 12 { 7 }
    else if j == 13 { 12 }
    else if j == 14 { 17 }
    else if j == 15 { 22 }
    else if j == 16 { 5 }
    else if j == 17 { 9 }
    else if j == 18 { 14 }
    else if j == 19 { 20 }
    else if j == 20 { 5 }
    else if j == 21 { 9 }
    else if j == 22 { 14 }
    else if j == 23 { 20 }
    else if j == 24 { 5 }
    else if j == 25 { 9 }
    else if j == 26 { 14 }
    else if j == 27 { 20 }
    else if j == 28 { 5 }
    else if j == 29 { 9 }
    else if j == 30 { 14 }
    else if j == 31 { 20 }
    else if j == 32 { 4 }
    else if j == 33 { 11 }
    else if j == 34 { 16 }
    else if j == 35 { 23 }
    else if j == 36 { 4 }
    else if j == 37 { 11 }
    else if j == 38 { 16 }
    else if j == 39 { 23 }
    else if j == 40 { 4 }
    else if j == 41 { 11 }
    else if j == 42 { 16 }
    else if j == 43 { 23 }
    else if j == 44 { 4 }
    else if j == 45 { 11 }
    else if j == 46 { 16 }
    else if j == 47 { 23 }
    else if j == 48 { 6 }
    else if j == 49 { 10 }
    else if j == 50 { 15 }
    else if j == 51 { 21 }
    else if j == 52 { 6 }
    else if j == 53 { 10 }
    else if j == 54 { 15 }
    else if j == 55 { 21 }
    else if j == 56 { 6 }
    else if j == 57 { 10 }
    else if j == 58 { 15 }
    else if j == 59 { 21 }
    else if j == 60 { 6 }
    else if j == 61 { 10 }
    else if j == 62 { 15 }
    else { 21 }
}

fn md5_s(j: usize) -> (r: u32)
    requires
        j < 64,
    ensures
        r == spec_md5_s(j as int),
        0 < r < 32,
{
    if j == 0 { 7 }
    else if j == 1 { 12 }
    else if j == 2 { 17 }
    else if j == 3 { 22 }
    else if j == 4 { 7 }
    else if j == 5 { 12 }
    else if j == 6 { 17 }
    else if j == 7 { 22 }
    else if j == 8 { 7 }
    else if j == 9 { 12 }
    else if j == 10 { 17 }
    else if j == 11 { 22 }
    else if j == 12 { 7 }
    else if j == 13 { 12 }
    else if j == 14 { 17 }
    else if j == 15 { 22 }
    else if j == 16 { 5 }
    else if j == 17 { 9 }
    else if j == 18 { 14 }
    else if j == 19 { 20 }
    else if j == 20 { 5 }
    else if j == 21 { 9 }
    else if j == 22 { 14 }
    else if j == 23 { 20 }
    else if j == 24 { 5 }
    else if j == 25 { 9 }
    else if j == 26 { 14 }
    else if j == 27 { 20 }
    else if j == 28 { 5 }
    else if j == 29 { 9 }
    else if j == 30 { 14 }
    else if j == 31 { 20 }
    else if j == 32 { 4 }
    else if j == 33 { 11 }
    else if j == 34 { 16 }
    else if j == 35 { 23 }
    else if j == 36 { 4 }
    else if j == 37 { 11 }
    else if j == 38 { 16 }
    else if j == 39 { 23 }
    else if j == 40 { 4 }
    else if j == 41 { 11 }
    else if j == 42 { 16 }
    else if j == 43 { 23 }
    else if j == 44 { 4 }
    else if j == 45 { 11 }
    else if j == 46 { 16 }
    else if j == 47 { 23 }
    else if j == 48 { 6 }
    else if j == 49 { 10 }
    else if j == 50 { 15 }
    else if j == 51 { 21 }
    else if j == 52 { 6 }
    else if j == 53 { 10 }
    else if j == 54 { 15 }
    else if j == 55 { 21 }
    else if j == 56 { 6 }
    else if j == 57 { 10 }
    else if j == 58 { 15 }
    else if j == 59 { 21 }
    else if j == 60 { 6 }
    else if j == 61 { 10 }
    else if j == 62 { 15 }
    else { 21 }
}

/// Rotates `x` left by `c` bits (`0 < c < 32`).
pub open spec fn spec_left_rotate(x: u32, c: u32) -> u32 {
    (x << c) | (x >> ((32 - c) as u32))
}

fn left_rotate(x: u32, c: u32) -> (r: u32)
    requires
        0 < c < 32,
    ensures
        r == spec_left_rotate(x, c),
{
    (x << c) | (x >> (32 - c))
}

/// Little-endian bytes of a 64-bit value.
pub open spec fn le_bytes_u64(x: u64) -> Seq<u8> {
    Seq::new(8, |k: int| (x >> ((8 * k) as u64)) as u8)
}

/// Number of zero bytes that bring `len + 1` to 56 modulo 64.
pub open spec fn md5_zero_count(len: nat) -> nat {
    ((119 - (len % 64) as int) % 64) as nat
}

/// The padded message: data, a 0x80 byte, zeros up to 56 mod 64, then the
/// bit length as a little-endian 64-bit value.
pub open spec fn spec_md5_pad(data: Seq<u8>) -> Seq<u8> {
    data + seq![0x80u8] + Seq::new(md5_zero_count(data.len()), |k: int| 0u8) + le_bytes_u64(
        (data.len() * 8) as u64,
    )
}

/// Little-endian word of `msg` at byte offset `off`.
pub open spec fn le_word(msg: Seq<u8>, off: int) -> u32 {
    msg[off] as u32 | (msg[off + 1] as u32) << 8u32 | (msg[off + 2] as u32) << 16u32 | (msg[off
        + 3] as u32) << 24u32
}

/// The sixteen message words of the block at byte offset `off`.
pub open spec fn md5_words(msg: Seq<u8>, off: int) -> Seq<u32> {
    Seq::new(16, |j: int| le_word(msg, off + 4 * j))
}

/// Boolean function of step `j`.
pub open spec fn md5_f(j: int, b: u32, c: u32, d: u32) -> u32 {
    if j < 16 {
        (b & c) | (!b & d)
    } else if j < 32 {
        (d & b) | (!d & c)
    } else if j < 48 {
        b ^ c ^ d
    } else {
        c ^ (b | !d)
    }
}

/// Message word used by step `j`.
pub open spec fn md5_g(j: int) -> int {
    if j < 16 {
        j
    } else if j < 32 {
        (5 * j + 1) % 16
    } else if j < 48 {
        (3 * j + 5) % 16
    } else {
        (7 * j) % 16
    }
}

/// Step `j` of the compression function on state `(a, b, c, d)`.
pub open spec fn md5_step(st: (u32, u32, u32, u32), m: Seq<u32>, j: int) -> (u32, u32, u32, u32) {
    let (aa, bb, cc, dd) = st;
    let sum = aa.wrapping_add(md5_f(j, bb, cc, dd)).wrapping_add(spec_md5_k(j)).wrapping_add(
        m[md5_g(j)],
    );
    (dd, bb.wrapping_add(spec_left_rotate(sum, spec_md5_s(j))), bb, cc)
}

/// The first `n` steps.
pub open spec fn md5_steps(st: (u32, u32, u32, u32), m: Seq<u32>, n: nat) -> (u32, u32, u32, u32)
    decreases n,
{
    if n == 0 {
        st
    } else {
        md5_step(md5_steps(st, m, (n - 1) as nat), m, n - 1)
    }
}

/// The chaining state after the block of `msg` at byte offset `off`.
pub open spec fn md5_block(st: (u32, u32, u32, u32), msg: Seq<u8>, off: int) -> (u32, u32, u32, u32) {
    let r = md5_steps(st, md5_words(msg, off), 64);
    (st.0.wrapping_add(r.0), st.1.wrapping_add(r.1), st.2.wrapping_add(r.2), st.3.wrapping_add(r.3))
}

/// The initial chaining state.
pub open spec fn md5_init() -> (u32, u32, u32, u32) {
    (0x67452301u32, 0xefcdab89u32, 0x98badcfeu32, 0x10325476u32)
}

/// The chaining state after the first `nb` blocks of `msg`.
pub open spec fn md5_blocks(msg: Seq<u8>, nb: nat) -> (u32, u32, u32, u32)
    decreases nb,
{
    if nb == 0 {
        md5_init()
    } else {
        md5_block(md5_blocks(msg, (nb - 1) as nat), msg, 64 * (nb - 1))
    }
}

/// Little-endian bytes of the final state `a, b, c, d`.
pub open spec fn md5_output(st: (u32, u32, u32, u32)) -> Seq<u8> {
    Seq::new(
        16,
        |i: int|
            {
                let v = if i / 4 == 0 {
                    st.0
                } else if i / 4 == 1 {
                    st.1
                } else if i / 4 == 2 {
                    st.2
                } else {
                    st.3
                };
                (v >> ((8 * (i % 4)) as u32)) as u8
            },
    )
}

/// The MD5 digest of `data`.
pub open spec fn spec_md5(data: Seq<u8>) -> Seq<u8> {
    let msg = spec_md5_pad(data);
    md5_output(md5_blocks(msg, msg.len() / 64))
}

/// Largest input for which the bit length and the padded length fit.
pub open spec fn md5_input_ok(len: nat) -> bool {
    len + 72 <= usize::MAX / 8
}

fn pad_message(data: &[u8]) -> (msg: Vec<u8>)
    requires
        md5_input_ok(data@.len()),
    ensures
        msg@ == spec_md5_pad(data@),
        msg@.len() % 64 == 0,
{
    let orig_len_bits: u64 = (data.len() as u64) * 8;
    let mut msg = vstd::slice::slice_to_vec(data);
    msg.push(0x80);
    let ghost base = msg@;
    assert(base == data@ + seq![0x80u8]);
    while (msg.len() * 8) % 512 != 448
        invariant
            base == data@ + seq![0x80u8],
            msg@.len() >= base.len(),
            msg@.len() <= base.len() + 63,
            md5_input_ok(data@.len()),
            msg@ == base + Seq::new((msg@.len() - base.len()) as nat, |k: int| 0u8),
            (msg@.len() - base.len()) as nat <= md5_zero_count(data@.len()),
        decreases md5_zero_count(data@.len()) - (msg@.len() - base.len()),
    {
        proof {
            let z = (msg@.len() - base.len()) as nat;
            assert(z != md5_zero_count(data@.len())) by {
                if z == md5_zero_count(data@.len()) {
                    assert(((data@.len() + 1 + z) * 8) % 512 == 448) by (nonlinear_arith)
                        requires
                            z == ((119 - (data@.len() % 64) as int) % 64) as nat,
                    ;
                }
            }
        }
        msg.push(0);
        proof {
            let z = (msg@.len() - base.len()) as nat;
            assert(msg@ =~= base + Seq::new(z, |k: int| 0u8));
        }
    }
    proof {
        let z = (msg@.len() - base.len()) as nat;
        assert(z == md5_zero_count(data@.len())) by {
            assert((data@.len() + 1 + z) % 64 == 56 && z < 64 ==> z == md5_zero_count(
                data@.len(),
            )) by (nonlinear_arith);
            assert((msg@.len() * 8) % 512 == 448 ==> msg@.len() % 64 == 56) by (nonlinear_arith);
        }
    }
    let ghost before_len = msg@;
    let mut k: u64 = 0;
    while k < 8
        invariant
            k <= 8,
            msg@ == before_len + le_bytes_u64(orig_len_bits).subrange(0, k as int),
            orig_len_bits == (data@.len() * 8) as u64,
        decreases 8 - k,
    {
        msg.push((orig_len_bits >> (8 * k)) as u8);
        proof {
            assert(le_bytes_u64(orig_len_bits).subrange(0, k + 1) =~= le_bytes_u64(
                orig_len_bits,
            ).subrange(0, k as int).push((orig_len_bits >> (8 * k)) as u8));
        }
        k = k + 1;
    }
    proof {
        assert(le_bytes_u64(orig_len_bits).subrange(0, 8) =~= le_bytes_u64(orig_len_bits));
        assert(msg@ =~= spec_md5_pad(data@));
        assert(msg@.len() % 64 == 0) by (nonlinear_arith)
            requires
                msg@.len() == data@.len() + 1 + md5_zero_count(data@.len()) + 8,
                md5_zero_count(data@.len()) == ((119 - (data@.len() % 64) as int) % 64) as nat,
        ;
    }
    msg
}

fn md5_compress(st: (u32, u32, u32, u32), msg: &Vec<u8>, off: usize) -> (r: (u32, u32, u32, u32))
    requires
        off + 64 <= msg@.len(),
    ensures
        r == md5_block(st, msg@, off as int),
{
    let total = msg.len();
    let mut m: Vec<u32> = Vec::new();
    let mut j: usize = 0;
    while j < 16
        invariant
            j <= 16,
            total == msg@.len(),
            off + 64 <= msg@.len(),
            m@ == md5_words(msg@, off as int).subrange(0, j as int),
        decreases 16 - j,
    {
        let w = msg[off + j * 4] as u32 | (msg[off + j * 4 + 1] as u32) << 8u32 | (msg[off + j * 4
            + 2] as u32) << 16u32 | (msg[off + j * 4 + 3] as u32) << 24u32;
        m.push(w);
        proof {
            assert(m@ =~= md5_words(msg@, off as int).subrange(0, j + 1));
        }
        j = j + 1;
    }
    assert(m@ =~= md5_words(msg@, off as int));
    let (a, b, c, d) = st;
    let mut aa = a;
    let mut bb = b;
    let mut cc = c;
    let mut dd = d;
    let mut j: usize = 0;
    while j < 64
        invariant
            j <= 64,
            m@ == md5_words(msg@, off as int),
            (aa, bb, cc, dd) == md5_steps(st, m@, j as nat),
        decreases 64 - j,
    {
        let f = if j < 16 {
            (bb & cc) | (!bb & dd)
        } else if j < 32 {
            (dd & bb) | (!dd & cc)
        } else if j < 48 {
            bb ^ cc ^ dd
        } else {
            cc ^ (bb | !dd)
        };
        let g = if j < 16 {
            j
        } else if j < 32 {
            (5 * j + 1) % 16
        } else if j < 48 {
            (3 * j + 5) % 16
        } else {
            (7 * j) % 16
        };
        let temp = dd;
        dd = cc;
        cc = bb;
        bb = bb.wrapping_add(
            left_rotate(
                aa.wrapping_add(f).wrapping_add(md5_k(j)).wrapping_add(m[g]),
                md5_s(j),
            ),
        );
        aa = temp;
        j = j + 1;
    }
    (a.wrapping_add(aa), b.wrapping_add(bb), c.wrapping_add(cc), d.wrapping_add(dd))
}

/// Computes the MD5 digest of `data`.
pub fn md5(data: &[u8]) -> (digest: [u8; 16])
    requires
        md5_input_ok(data@.len()),
    ensures
        digest@ == spec_md5(data@),
{
    let msg = pad_message(data);
    let mut st: (u32, u32, u32, u32) = (0x67452301, 0xefcdab89, 0x98badcfe, 0x10325476);
    let mut i: usize = 0;
    while i < msg.len()
        invariant
            msg@.len() % 64 == 0,
            i % 64 == 0,
            i <= msg@.len(),
            st == md5_blocks(msg@, (i / 64) as nat),
        decreases msg@.len() - i,
    {
        proof {
            assert(i + 64 <= msg@.len()) by (nonlinear_arith)
                requires
                    i % 64 == 0,
                    msg@.len() % 64 == 0,
                    i < msg@.len(),
            ;
            assert((i + 64) / 64 == i / 64 + 1 && 64 * (i / 64) == i) by (nonlinear_arith)
                requires
                    i % 64 == 0,
            ;
        }
        st = md5_compress(st, &msg, i);
        i = i + 64;
    }
    let (a, b, c, d) = st;
    let result: [u8; 16] = [
        a as u8,
        (a >> 8u32) as u8,
        (a >> 16u32) as u8,
        (a >> 24u32) as u8,
        b as u8,
        (b >> 8u32) as u8,
        (b >> 16u32) as u8,
        (b >> 24u32) as u8,
        c as u8,
        (c >> 8u32) as u8,
        (c >> 16u32) as u8,
        (c >> 24u32) as u8,
        d as u8,
        (d >> 8u32) as u8,
        (d >> 16u32) as u8,
        (d >> 24u32) as u8,
    ];
    proof {
        assert(i == msg@.len());
        let out = md5_output(st);
        assert(a >> 0u32 == a && b >> 0u32 == b && c >> 0u32 == c && d >> 0u32 == d) by (bit_vector);
        assert forall|q: int| 0 <= q < 16 implies result@[q] == out[q] by {
            assert(result@[q] == result[q]);
        }
        assert(result@ =~= out);
    }
    result
}

} // verus!
