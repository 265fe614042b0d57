//! The ICE block cipher as used by the scanner: a 16-round Feistel network on
//! 64-bit blocks, with S-boxes built from exponentiation by 7 in GF(2^8) and a
//! 32-bit output permutation.
//!
//! Subkeys are stored flat: subkey `i` is the three words `keys[3 * i ..= 3 * i + 2]`.
use vstd::prelude::*;

verus! {

/// Number of rounds of the cipher.
pub const ICE_ROUNDS: usize = 16;

/// Number of subkey words (three per round).
pub const ICE_KEY_WORDS: usize = 48;

/// Size of one S-box.
pub const ICE_SBOX_SIZE: usize = 1024;

// ---------------------------------------------------------------------------
// Constant tables
// ---------------------------------------------------------------------------

/// Output bit of the permutation for input bit `i`.
pub open spec fn spec_pbox(i: int) -> u32 {
    if i == 0 { 0x00000001 } else if i == 1 { 0x00000080 } else if i == 2 { 0x00000400 }
    else if i == 3 { 0x00002000 } else if i == 4 { 0x00080000 } else if i == 5 { 0x00200000 }
    else if i == 6 { 0x01000000 } else if i == 7 { 0x40000000 } else if i == 8 { 0x00000008 }
    else if i == 9 { 0x00000020 } else if i == 10 { 0x00000100 } else if i == 11 { 0x00004000 }
    else if i == 12 { 0x00010000 } else if i == 13 { 0x00800000 } else if i == 14 { 0x04000000 }
    else if i == 15 { 0x20000000 } else if i == 16 { 0x00000004 } else if i == 17 { 0x00000010 }
    else if i == 18 { 0x00000200 } else if i == 19 { 0x00008000 } else if i == 20 { 0x00020000 }
    else if i == 21 { 0x00400000 } else if i == 22 { 0x08000000 } else if i == 23 { 0x10000000 }
    else if i == 24 { 0x00000002 } else if i == 25 { 0x00000040 } else if i == 26 { 0x00000800 }
    else if i == 27 { 0x00001000 } else if i == 28 { 0x00040000 } else if i == 29 { 0x00100000 }
    else if i == 30 { 0x02000000 } else if i == 31 { 0x80000000 } else { 0 }
}

fn pbox(i: usize) -> (r: u32)
    requires
        i < 32,
    ensures
        r == spec_pbox(i as int),
{
    if i == 0 { 0x00000001 } else if i == 1 { 0x00000080 } else if i == 2 { 0x00000400 }
    else if i == 3 { 0x00002000 } else if i == 4 { 0x00080000 } else if i == 5 { 0x00200000 }
    else if i == 6 { 0x01000000 } else if i == 7 { 0x40000000 } else if i == 8 { 0x00000008 }
    else if i == 9 { 0x00000020 } else if i == 10 { 0x00000100 } else if i == 11 { 0x00004000 }
    else if i == 12 { 0x00010000 } else if i == 13 { 0x00800000 } else if i == 14 { 0x04000000 }
    else if i == 15 { 0x20000000 } else if i == 16 { 0x00000004 } else if i == 17 { 0x00000010 }
    else if i == 18 { 0x00000200 } else if i == 19 { 0x00008000 } else if i == 20 { 0x00020000 }
    else if i == 21 { 0x00400000 } else if i == 22 { 0x08000000 } else if i == 23 { 0x10000000 }
    else if i == 24 { 0x00000002 } else if i == 25 { 0x00000040 } else if i == 26 { 0x00000800 }
    else if i == 27 { 0x00001000 } else if i == 28 { 0x00040000 } else if i == 29 { 0x00100000 }
    else if i == 30 { 0x02000000 } else { 0x80000000 }
}

/// Field modulus of S-box `k` for row `row`.
pub open spec fn spec_smod(k: int, row: int) -> u32 {
    if k == 0 {
        if row == 0 { 333 } else if row == 1 { 313 } else if row == 2 { 505 } else { 369 }
    } else if k == 1 {
        if row == 0 { 379 } else if row == 1 { 375 } else if row == 2 { 319 } else { 391 }
    } else if k == 2 {
        if row == 0 { 361 } else if row == 1 { 445 } else if row == 2 { 451 } else { 397 }
    } else {
        if row == 0 { 397 } else if row == 1 { 425 } else if row == 2 { 395 } else { 505 }
    }
}

fn smod(k: usize, row: usize) -> (r: u32)
    requires
        k < 4,
        row < 4,
    ensures
        r == spec_smod(k as int, row as int),
{
    if k == 0 {
        if row == 0 { 333 } else if row == 1 { 313 } else if row == 2 { 505 } else { 369 }
    } else if k == 1 {
        if row == 0 { 379 } else if row == 1 { 375 } else if row == 2 { 319 } else { 391 }
    } else if k == 2 {
        if row == 0 { 361 } else if row == 1 { 445 } else if row == 2 { 451 } else { 397 }
    } else {
        if row == 0 { 397 } else if row == 1 { 425 } else if row == 2 { 395 } else { 505 }
    }
}

/// Input whitening of S-box `k` for row `row`.
pub open spec fn spec_sxor(k: int, row: int) -> u32 {
    if k == 0 {
        if row == 0 { 0x83 } else if row == 1 { 0x85 } else if row == 2 { 0x9b } else { 0xcd }
    } else if k == 1 {
        if row == 0 { 0xcc } else if row == 1 { 0xa7 } else if row == 2 { 0xad } else { 0x41 }
    } else if k == 2 {
        if row == 0 { 0x4b } else if row == 1 { 0x2e } else if row == 2 { 0xd4 } else { 0x33 }
    } else {
        if row == 0 { 0xea } else if row == 1 { 0xcb } else if row == 2 { 0x2e } else { 0x04 }
    }
}

fn sxor(k: usize, row: usize) -> (r: u32)
    requires
        k < 4,
        row < 4,
    ensures
        r == spec_sxor(k as int, row as int),
{
    if k == 0 {
        if row == 0 { 0x83 } else if row == 1 { 0x85 } else if row == 2 { 0x9b } else { 0xcd }
    } else if k == 1 {
        if row == 0 { 0xcc } else if row == 1 { 0xa7 } else if row == 2 { 0xad } else { 0x41 }
    } else if k == 2 {
        if row == 0 { 0x4b } else if row == 1 { 0x2e } else if row == 2 { 0xd4 } else { 0x33 }
    } else {
        if row == 0 { 0xea } else if row == 1 { 0xcb } else if row == 2 { 0x2e } else { 0x04 }
    }
}

/// Key rotation schedule.
pub open spec fn spec_keyrot(i: int) -> usize {
    if i == 0 { 0 } else if i == 1 { 1 } else if i == 2 { 2 } else if i == 3 { 3 }
    else if i == 4 { 2 } else if i == 5 { 1 } else if i == 6 { 3 } else if i == 7 { 0 }
    else if i == 8 { 1 } else if i == 9 { 3 } else if i == 10 { 2 } else if i == 11 { 0 }
    else if i == 12 { 3 } else if i == 13 { 1 } else if i == 14 { 0 } else { 2 }
}

fn keyrot(i: usize) -> (r: usize)
    requires
        i < 16,
    ensures
        r == spec_keyrot(i as int),
        r < 4,
{
    if i == 0 { 0 } else if i == 1 { 1 } else if i == 2 { 2 } else if i == 3 { 3 }
    else if i == 4 { 2 } else if i == 5 { 1 } else if i == 6 { 3 } else if i == 7 { 0 }
    else if i == 8 { 1 } else if i == 9 { 3 } else if i == 10 { 2 } else if i == 11 { 0 }
    else if i == 12 { 3 } else if i == 13 { 1 } else if i == 14 { 0 } else { 2 }
}

// ---------------------------------------------------------------------------
// Bit permutation
// ---------------------------------------------------------------------------

/// OR of `PBOX[j]` over the set bits `j >= i` of `x`.
pub open spec fn perm_bits(x: u32, i: int) -> u32
    decreases 32 - i,
{
    if i >= 32 || i < 0 {
        0
    } else {
        let here: u32 = if (x >> (i as u32)) & 1 != 0 { spec_pbox(i) } else { 0 };
        here | perm_bits(x, i + 1)
    }
}

/// The 32-bit output permutation: bit `i` of the input moves to `PBOX[i]`.
pub open spec fn spec_perm32(x: u32) -> u32 {
    perm_bits(x, 0)
}

proof fn lemma_or_assoc(a: u32, b: u32, c: u32)
    ensures
        (a | b) | c == a | (b | c),
        a | 0 == a,
        0 | a == a,
{
    assert(0 | a == a) by (bit_vector);
    assert((a | b) | c == a | (b | c)) by (bit_vector);
    assert(a | 0 == a) by (bit_vector);
}

proof fn lemma_xor_facts(a: u32, b: u32, c: u32)
    ensures
        (a ^ b) ^ c == a ^ (b ^ c),
        a ^ 0 == a,
        0 ^ a == a,
        (a ^ b) ^ b == a,
{
    assert(0 ^ a == a) by (bit_vector);
    assert((a ^ b) ^ c == a ^ (b ^ c)) by (bit_vector);
    assert(a ^ 0 == a) by (bit_vector);
    assert((a ^ b) ^ b == a) by (bit_vector);
}

fn perm32(x: u32) -> (result: u32)
    ensures
        result == spec_perm32(x),
{
    let mut result: u32 = 0;
    let mut pidx: usize = 0;
    proof {
        lemma_or_assoc(spec_perm32(x), 0, 0);
    }
    while pidx < 32
        invariant
            pidx <= 32,
            result | perm_bits(x, pidx as int) == spec_perm32(x),
        decreases 32 - pidx,
    {
        let ghost old_result = result;
        let ghost here: u32 = if (x >> (pidx as u32)) & 1 != 0 { spec_pbox(pidx as int) } else { 0 };
        if (x >> (pidx as u32)) & 1 != 0 {
            result = result | pbox(pidx);
        }
        proof {
            lemma_or_assoc(old_result, here, perm_bits(x, pidx + 1));
            assert(result == old_result | here);
        }
        pidx = pidx + 1;
    }
    proof {
        lemma_or_assoc(result, 0, 0);
    }
    result
}

// ---------------------------------------------------------------------------
// GF(2^8) arithmetic
// ---------------------------------------------------------------------------

/// Shift-and-add multiplication of `a` by `b`, reducing by `m` whenever the
/// running multiple of `a` reaches bit 8.
pub open spec fn spec_gf_mul(a: u32, b: u32, m: u32) -> u32
    decreases b,
{
    if b == 0 {
        0
    } else {
        let a2: u32 = a << 1u32;
        let a3: u32 = if a2 >= 256 { a2 ^ m } else { a2 };
        let rest = {
            proof {
                assert(b >> 1u32 < b) by (bit_vector)
                    requires
                        b != 0u32,
                ;
            }
            spec_gf_mul(a3, b >> 1u32, m)
        };
        if b & 1 != 0 {
            a ^ rest
        } else {
            rest
        }
    }
}

/// `b^7` in the field given by `m`.
pub open spec fn spec_gf_exp7(b: u32, m: u32) -> u32 {
    if b == 0 {
        0
    } else {
        let x = spec_gf_mul(b, b, m);
        let x = spec_gf_mul(b, x, m);
        let x = spec_gf_mul(x, x, m);
        spec_gf_mul(b, x, m)
    }
}

fn gf_mul(a: u32, b: u32, m: u32) -> (result: u32)
    ensures
        result == spec_gf_mul(a, b, m),
{
    let mut result: u32 = 0;
    let mut a = a;
    let mut b = b;
    let ghost a0 = a;
    let ghost b0 = b;
    proof {
        lemma_xor_facts(spec_gf_mul(a, b, m), 0, 0);
    }
    while b != 0
        invariant
            result ^ spec_gf_mul(a, b, m) == spec_gf_mul(a0, b0, m),
        decreases b,
    {
        let ghost old_result = result;
        let ghost old_a = a;
        let ghost old_b = b;
        if b & 1 != 0 {
            result = result ^ a;
        }
        a = a << 1u32;
        b = b >> 1u32;
        if a >= 256 {
            a = a ^ m;
        }
        proof {
            assert(old_b >> 1u32 < old_b) by (bit_vector)
                requires
                    old_b != 0u32,
            ;
            let rest = spec_gf_mul(a, b, m);
            lemma_xor_facts(old_result, old_a, rest);
            lemma_xor_facts(old_result, 0, rest);
        }
    }
    proof {
        lemma_xor_facts(result, 0, 0);
    }
    result
}

fn gf_exp7(b: u32, m: u32) -> (result: u32)
    ensures
        result == spec_gf_exp7(b, m),
{
    if b == 0 {
        return 0;
    }
    let x = gf_mul(b, b, m);
    let x = gf_mul(b, x, m);
    let x = gf_mul(x, x, m);
    gf_mul(b, x, m)
}

// ---------------------------------------------------------------------------
// S-boxes and the round function
// ---------------------------------------------------------------------------

/// Row selector of S-box input `i`: bits 0 and 9.
pub open spec fn sbox_row(i: int) -> int {
    ((i % 2) + 2 * ((i / 512) % 2)) as int
}

/// Column selector of S-box input `i`: bits 1..=8.
pub open spec fn sbox_col(i: int) -> u32 {
    ((i / 2) % 256) as u32
}

/// Entry `i` of S-box `k`.
pub open spec fn spec_sbox(k: int, i: int) -> u32 {
    let row = sbox_row(i);
    let e = spec_gf_exp7(sbox_col(i) ^ spec_sxor(k, row), spec_smod(k, row));
    let shifted: u32 = if k == 0 {
        e << 24u32
    } else if k == 1 {
        e << 16u32
    } else if k == 2 {
        e << 8u32
    } else {
        e
    };
    spec_perm32(shifted)
}

/// The four S-boxes laid end to end: entry `j` is entry `j % 1024` of box `j / 1024`.
pub open spec fn sbox_table_ok(t: Seq<u32>) -> bool {
    &&& t.len() == 4 * ICE_SBOX_SIZE
    &&& forall|j: int| 0 <= j < t.len() ==> #[trigger] t[j] == spec_sbox(j / 1024, j % 1024)
}

proof fn lemma_row_col(i: usize)
    requires
        i < 1024,
    ensures
        ((i >> 1usize) & 0xff) as int == sbox_col(i as int) as int,
        ((i & 1) | ((i & 0x200) >> 8usize)) as int == sbox_row(i as int),
        ((i & 1) | ((i & 0x200) >> 8usize)) < 4,
{
    assert(((i >> 1usize) & 0xff) == (i / 2) % 256) by (bit_vector)
        requires
            i < 1024usize,
    ;
    assert((i & 1) | ((i & 0x200) >> 8usize) == (i % 2) + 2 * ((i / 512) % 2)) by (bit_vector)
        requires
            i < 1024usize,
    ;
    assert((i & 1) | ((i & 0x200) >> 8usize) < 4) by (bit_vector)
        requires
            i < 1024usize,
    ;
}

fn sbox_entry(k: usize, i: usize) -> (r: u32)
    requires
        k < 4,
        i < 1024,
    ensures
        r == spec_sbox(k as int, i as int),
{
    proof {
        lemma_row_col(i);
    }
    let col = ((i >> 1) & 0xff) as u32;
    let row = (i & 1) | ((i & 0x200) >> 8);
    let e = gf_exp7(col ^ sxor(k, row), smod(k, row));
    let shifted = if k == 0 {
        e << 24u32
    } else if k == 1 {
        e << 16u32
    } else if k == 2 {
        e << 8u32
    } else {
        e
    };
    perm32(shifted)
}

/// Builds the four S-boxes.
fn init_sboxes() -> (sbox: Vec<u32>)
    ensures
        sbox_table_ok(sbox@),
{
    let mut sbox: Vec<u32> = Vec::new();
    let mut k: usize = 0;
    while k < 4
        invariant
            k <= 4,
            sbox@.len() == k * 1024,
            forall|j: int| 0 <= j < sbox@.len() ==> #[trigger] sbox@[j] == spec_sbox(j / 1024, j % 1024),
        decreases 4 - k,
    {
        let mut i: usize = 0;
        while i < 1024
            invariant
                k < 4,
                i <= 1024,
                sbox@.len() == k * 1024 + i,
                forall|j: int| 0 <= j < sbox@.len() ==> #[trigger] sbox@[j] == spec_sbox(j / 1024, j % 1024),
            decreases 1024 - i,
        {
            let v = sbox_entry(k, i);
            proof {
                let j = (k * 1024 + i) as int;
                assert(j / 1024 == k as int && j % 1024 == i as int) by (nonlinear_arith)
                    requires
                        j == k * 1024 + i,
                        i < 1024,
                ;
            }
            sbox.push(v);
            i = i + 1;
        }
        k = k + 1;
    }
    sbox
}

/// The round function on the right half `p` with subkey `(k0, k1, k2)`.
#[verifier::opaque]
pub open spec fn spec_ice_f(p: u32, k0: u32, k1: u32, k2: u32) -> u32 {
    let tl: u32 = ((p >> 16u32) & 0x3ff) | (((p >> 14u32) | (p << 18u32)) & 0xffc00);
    let tr: u32 = (p & 0x3ff) | ((p << 2u32) & 0xffc00);
    let mix: u32 = k2 & (tl ^ tr);
    let al: u32 = (tr ^ mix) ^ k0;
    let ar: u32 = (tl ^ mix) ^ k1;
    spec_sbox(0, ((al >> 10u32) & 0x3ff) as int) | spec_sbox(1, (al & 0x3ff) as int) | spec_sbox(
        2,
        ((ar >> 10u32) & 0x3ff) as int,
    ) | spec_sbox(3, (ar & 0x3ff) as int)
}

fn ice_f(p: u32, k0: u32, k1: u32, k2: u32, sbox: &Vec<u32>) -> (r: u32)
    requires
        sbox_table_ok(sbox@),
    ensures
        r == spec_ice_f(p, k0, k1, k2),
{
    let tl = ((p >> 16) & 0x3ff) | (((p >> 14) | (p << 18)) & 0xffc00);
    let tr = (p & 0x3ff) | ((p << 2) & 0xffc00);
    let mix = k2 & (tl ^ tr);
    let al = tr ^ mix;
    let ar = tl ^ mix;
    let al = al ^ k0;
    let ar = ar ^ k1;
    let i0 = ((al >> 10) & 0x3ff) as usize;
    let i1 = (al & 0x3ff) as usize;
    let i2 = ((ar >> 10) & 0x3ff) as usize;
    let i3 = (ar & 0x3ff) as usize;
    proof {
        assert((al >> 10u32) & 0x3ff < 1024) by (bit_vector);
        assert(al & 0x3ff < 1024) by (bit_vector);
        assert((ar >> 10u32) & 0x3ff < 1024) by (bit_vector);
        assert(ar & 0x3ff < 1024) by (bit_vector);
        assert(((i1 + 1024) as int) / 1024 == 1 && ((i1 + 1024) as int) % 1024 == i1 as int);
        assert(((i2 + 2048) as int) / 1024 == 2 && ((i2 + 2048) as int) % 1024 == i2 as int);
        assert(((i3 + 3072) as int) / 1024 == 3 && ((i3 + 3072) as int) % 1024 == i3 as int);
        reveal(spec_ice_f);
    }
    sbox[i0] | sbox[1024 + i1] | sbox[2048 + i2] | sbox[3072 + i3]
}

/// The 20-bit expansion of a right half that feeds S-boxes 2 and 3 before
/// keying: bits 16..25 of `p`, then bits 14..23 (rotating).
pub open spec fn ice_expand_high(p: u32) -> u32 {
    ((p >> 16u32) & 0x3ff) | (((p >> 14u32) | (p << 18u32)) & 0xffc00)
}

/// The 20-bit expansion of a right half that feeds S-boxes 0 and 1 before
/// keying: bits 0..9 of `p`, then bits 8..17.
pub open spec fn ice_expand_low(p: u32) -> u32 {
    (p & 0x3ff) | ((p << 2u32) & 0xffc00)
}

/// The unkeyed input of S-boxes 0 and 1: the low expansion with the bits
/// selected by the permutation key word `k2` taken from the high one.
pub open spec fn ice_sbox01_input(p: u32, k2: u32) -> u32 {
    ice_expand_low(p) ^ (k2 & (ice_expand_high(p) ^ ice_expand_low(p)))
}

/// The unkeyed input of S-boxes 2 and 3: the high expansion with the bits
/// selected by `k2` taken from the low one.
pub open spec fn ice_sbox23_input(p: u32, k2: u32) -> u32 {
    ice_expand_high(p) ^ (k2 & (ice_expand_high(p) ^ ice_expand_low(p)))
}

/// Law: the round function uses its first two subkey words only as XOR masks,
/// word 0 on the input of S-boxes 0 and 1 and word 1 on the input of S-boxes
/// 2 and 3.  So a call on another half `q` (with any permutation word `m2`)
/// whose word 0 and word 1 are shifted by the differences of those inputs
/// gives the same output as the call on `p`.
pub proof fn lemma_ice_f_key_masks(p: u32, q: u32, k0: u32, k1: u32, k2: u32, m2: u32)
    ensures
        spec_ice_f(
            q,
            k0 ^ ice_sbox01_input(p, k2) ^ ice_sbox01_input(q, m2),
            k1 ^ ice_sbox23_input(p, k2) ^ ice_sbox23_input(q, m2),
            m2,
        ) == spec_ice_f(p, k0, k1, k2),
{
    reveal(spec_ice_f);
    let a = ice_sbox01_input(p, k2);
    let b = ice_sbox01_input(q, m2);
    let c = ice_sbox23_input(p, k2);
    let d = ice_sbox23_input(q, m2);
    assert(b ^ (k0 ^ a ^ b) == a ^ k0) by (bit_vector);
    assert(d ^ (k1 ^ c ^ d) == c ^ k1) by (bit_vector);
}

// ---------------------------------------------------------------------------
// The Feistel network
// ---------------------------------------------------------------------------

/// Round function with subkey number `i` of the flat key table.
pub open spec fn round_f(keys: Seq<u32>, p: u32, i: int) -> u32 {
    spec_ice_f(p, keys[3 * i], keys[3 * i + 1], keys[3 * i + 2])
}

/// One encryption round pair starting at even round `i`.
pub open spec fn enc_pair(keys: Seq<u32>, s: (u32, u32), i: int) -> (u32, u32) {
    let l = s.0 ^ round_f(keys, s.1, i);
    let r = s.1 ^ round_f(keys, l, i + 1);
    (l, r)
}

/// One decryption round pair undoing rounds `i + 1` then `i`.
pub open spec fn dec_pair(keys: Seq<u32>, s: (u32, u32), i: int) -> (u32, u32) {
    let l = s.0 ^ round_f(keys, s.1, i + 1);
    let r = s.1 ^ round_f(keys, l, i);
    (l, r)
}

/// Applies encryption rounds `0 .. n` (`n` even).
pub open spec fn enc_rounds(keys: Seq<u32>, s: (u32, u32), n: nat) -> (u32, u32)
    decreases n,
{
    if n < 2 {
        s
    } else {
        enc_pair(keys, enc_rounds(keys, s, (n - 2) as nat), n - 2)
    }
}

/// Applies decryption round pairs `n - 2, n - 4, ..., 0` (`n` even).
pub open spec fn dec_rounds(keys: Seq<u32>, s: (u32, u32), n: nat) -> (u32, u32)
    decreases n,
{
    if n < 2 {
        s
    } else {
        dec_rounds(keys, dec_pair(keys, s, n - 2), (n - 2) as nat)
    }
}

pub open spec fn swap(s: (u32, u32)) -> (u32, u32) {
    (s.1, s.0)
}

proof fn lemma_pair_inverse(keys: Seq<u32>, s: (u32, u32), i: int)
    ensures
        dec_pair(keys, swap(enc_pair(keys, s, i)), i) == swap(s),
        enc_pair(keys, swap(dec_pair(keys, s, i)), i) == swap(s),
{
    let e = enc_pair(keys, s, i);
    lemma_xor_facts(s.1, round_f(keys, e.0, i + 1), 0);
    lemma_xor_facts(s.0, round_f(keys, s.1, i), 0);
    let d = dec_pair(keys, s, i);
    lemma_xor_facts(s.1, round_f(keys, d.0, i), 0);
    lemma_xor_facts(s.0, round_f(keys, s.1, i + 1), 0);
}

proof fn lemma_rounds_inverse_dec(keys: Seq<u32>, s: (u32, u32), n: nat)
    ensures
        dec_rounds(keys, swap(enc_rounds(keys, s, n)), n) == swap(s),
    decreases n,
{
    if n >= 2 {
        let m = (n - 2) as nat;
        let y = enc_rounds(keys, s, m);
        lemma_pair_inverse(keys, y, m as int);
        lemma_rounds_inverse_dec(keys, s, m);
        assert(dec_pair(keys, swap(enc_rounds(keys, s, n)), m as int) == swap(y));
    }
}

proof fn lemma_rounds_inverse_enc(keys: Seq<u32>, s: (u32, u32), n: nat)
    ensures
        enc_rounds(keys, swap(dec_rounds(keys, s, n)), n) == swap(s),
    decreases n,
{
    if n >= 2 {
        let m = (n - 2) as nat;
        let x = dec_pair(keys, s, m as int);
        lemma_rounds_inverse_enc(keys, x, m);
        lemma_pair_inverse(keys, s, m as int);
        assert(dec_rounds(keys, s, n) == dec_rounds(keys, x, m));
        assert(enc_rounds(keys, swap(dec_rounds(keys, s, n)), m) == swap(x));
    }
}

proof fn lemma_rounds_inverse(keys: Seq<u32>, s: (u32, u32), n: nat)
    ensures
        dec_rounds(keys, swap(enc_rounds(keys, s, n)), n) == swap(s),
        enc_rounds(keys, swap(dec_rounds(keys, s, n)), n) == swap(s),
{
    lemma_rounds_inverse_dec(keys, s, n);
    lemma_rounds_inverse_enc(keys, s, n);
}

// ---------------------------------------------------------------------------
// Block encoding
// ---------------------------------------------------------------------------

/// Big-endian word from four bytes.
pub open spec fn be_word(b0: u8, b1: u8, b2: u8, b3: u8) -> u32 {
    ((b0 as u32) << 24u32) | ((b1 as u32) << 16u32) | ((b2 as u32) << 8u32) | (b3 as u32)
}

/// Big-endian bytes of a word.
pub open spec fn be_bytes(x: u32) -> Seq<u8> {
    seq![(x >> 24u32) as u8, (x >> 16u32) as u8, (x >> 8u32) as u8, x as u8]
}

proof fn lemma_be_roundtrip(b0: u8, b1: u8, b2: u8, b3: u8)
    ensures
        be_bytes(be_word(b0, b1, b2, b3)) == seq![b0, b1, b2, b3],
{
    let w = be_word(b0, b1, b2, b3);
    assert((w >> 24u32) as u8 == b0 && (w >> 16u32) as u8 == b1 && (w >> 8u32) as u8 == b2
        && w as u8 == b3) by (bit_vector)
        requires
            w == ((b0 as u32) << 24u32) | ((b1 as u32) << 16u32) | ((b2 as u32) << 8u32) | (
            b3 as u32),
    ;
}

proof fn lemma_word_roundtrip(x: u32)
    ensures
        be_word(be_bytes(x)[0], be_bytes(x)[1], be_bytes(x)[2], be_bytes(x)[3]) == x,
{
    let b0 = (x >> 24u32) as u8;
    let b1 = (x >> 16u32) as u8;
    let b2 = (x >> 8u32) as u8;
    let b3 = x as u8;
    assert(((b0 as u32) << 24u32) | ((b1 as u32) << 16u32) | ((b2 as u32) << 8u32) | (b3 as u32)
        == x) by (bit_vector)
        requires
            b0 == (x >> 24u32) as u8,
            b1 == (x >> 16u32) as u8,
            b2 == (x >> 8u32) as u8,
            b3 == x as u8,
    ;
}

/// The two halves of the 8-byte block of `data` at `off`.
pub open spec fn block_halves(data: Seq<u8>, off: int) -> (u32, u32) {
    (
        be_word(data[off], data[off + 1], data[off + 2], data[off + 3]),
        be_word(data[off + 4], data[off + 5], data[off + 6], data[off + 7]),
    )
}

/// Output bytes of a block whose final halves are `s`: right half first.
pub open spec fn block_bytes(s: (u32, u32)) -> Seq<u8> {
    be_bytes(s.1) + be_bytes(s.0)
}

/// Encryption of the block at `off` under `keys`.
pub open spec fn encrypt_block(keys: Seq<u32>, data: Seq<u8>, off: int) -> Seq<u8> {
    block_bytes(enc_rounds(keys, block_halves(data, off), ICE_ROUNDS as nat))
}

/// Decryption of the block at `off` under `keys`.
pub open spec fn decrypt_block(keys: Seq<u32>, data: Seq<u8>, off: int) -> Seq<u8> {
    block_bytes(dec_rounds(keys, block_halves(data, off), ICE_ROUNDS as nat))
}

/// Length of the prefix made of whole 8-byte blocks.
pub open spec fn whole_blocks_len(n: nat) -> int {
    (n / 8 * 8) as int
}

/// ECB encryption of every whole block; trailing bytes are left as they are.
pub open spec fn spec_ice_encrypt(keys: Seq<u32>, data: Seq<u8>) -> Seq<u8> {
    Seq::new(
        data.len(),
        |j: int|
            if j < whole_blocks_len(data.len()) {
                encrypt_block(keys, data, j / 8 * 8)[j % 8]
            } else {
                data[j]
            },
    )
}

/// ECB decryption of every whole block; trailing bytes are left as they are.
pub open spec fn spec_ice_decrypt(keys: Seq<u32>, data: Seq<u8>) -> Seq<u8> {
    Seq::new(
        data.len(),
        |j: int|
            if j < whole_blocks_len(data.len()) {
                decrypt_block(keys, data, j / 8 * 8)[j % 8]
            } else {
                data[j]
            },
    )
}

proof fn lemma_block_of_output(keys: Seq<u32>, data: Seq<u8>, out: Seq<u8>, off: int, s: (u32, u32))
    requires
        0 <= off,
        off + 8 <= data.len(),
        out.len() == data.len(),
        forall|t: int| 0 <= t < 8 ==> out[off + t] == #[trigger] block_bytes(s)[t],
    ensures
        block_halves(out, off) == swap(s),
{
    lemma_word_roundtrip(s.1);
    lemma_word_roundtrip(s.0);
    let bb = block_bytes(s);
    assert(out[off + 0] == bb[0]);
    assert(out[off + 1] == bb[1]);
    assert(out[off + 2] == bb[2]);
    assert(out[off + 3] == bb[3]);
    assert(out[off + 4] == bb[4]);
    assert(out[off + 5] == bb[5]);
    assert(out[off + 6] == bb[6]);
    assert(out[off + 7] == bb[7]);
    assert(off + 0 == off);
}

proof fn lemma_block_bytes_of_halves(data: Seq<u8>, off: int)
    requires
        0 <= off,
        off + 8 <= data.len(),
    ensures
        forall|t: int| 0 <= t < 8 ==> #[trigger] block_bytes(swap(block_halves(data, off)))[t] == data[off + t],
{
    lemma_be_roundtrip(data[off], data[off + 1], data[off + 2], data[off + 3]);
    lemma_be_roundtrip(data[off + 4], data[off + 5], data[off + 6], data[off + 7]);
}

proof fn lemma_block_index(data_len: nat, j: int, off: int)
    requires
        0 <= j < whole_blocks_len(data_len),
        off == j / 8 * 8,
    ensures
        0 <= off,
        off + 8 <= data_len,
        off <= j < off + 8,
        j % 8 == j - off,
        forall|t: int|
            0 <= t < 8 ==> (#[trigger] (off + t)) / 8 * 8 == off && (off + t) % 8 == t && off + t
                < whole_blocks_len(data_len),
{
    assert(0 <= off && off + 8 <= data_len && off <= j < off + 8 && j % 8 == j - off)
        by (nonlinear_arith)
        requires
            0 <= j < data_len / 8 * 8,
            off == j / 8 * 8,
    ;
    assert forall|t: int| 0 <= t < 8 implies (#[trigger] (off + t)) / 8 * 8 == off && (off + t) % 8
        == t && off + t < whole_blocks_len(data_len) by {
        assert((off + t) / 8 * 8 == off && (off + t) % 8 == t && off + t < data_len / 8 * 8)
            by (nonlinear_arith)
            requires
                off == j / 8 * 8,
                0 <= t < 8,
                0 <= j < data_len / 8 * 8,
        ;
    }
}

proof fn lemma_decrypt_encrypt_at(keys: Seq<u32>, data: Seq<u8>, j: int)
    requires
        0 <= j < whole_blocks_len(data.len()),
    ensures
        spec_ice_decrypt(keys, spec_ice_encrypt(keys, data))[j] == data[j],
{
    let c = spec_ice_encrypt(keys, data);
    let off = j / 8 * 8;
    lemma_block_index(data.len(), j, off);
    let s = enc_rounds(keys, block_halves(data, off), ICE_ROUNDS as nat);
    assert forall|t: int| 0 <= t < 8 implies c[off + t] == #[trigger] block_bytes(s)[t] by {
        assert((off + t) / 8 * 8 == off && (off + t) % 8 == t);
    }
    lemma_block_of_output(keys, data, c, off, s);
    lemma_rounds_inverse(keys, block_halves(data, off), ICE_ROUNDS as nat);
    lemma_block_bytes_of_halves(data, off);
    let k = j - off;
    assert(block_bytes(swap(block_halves(data, off)))[k] == data[off + k]);
    assert(off + k == j);
}

proof fn lemma_encrypt_decrypt_at(keys: Seq<u32>, data: Seq<u8>, j: int)
    requires
        0 <= j < whole_blocks_len(data.len()),
    ensures
        spec_ice_encrypt(keys, spec_ice_decrypt(keys, data))[j] == data[j],
{
    let c = spec_ice_decrypt(keys, data);
    let off = j / 8 * 8;
    lemma_block_index(data.len(), j, off);
    let s = dec_rounds(keys, block_halves(data, off), ICE_ROUNDS as nat);
    assert forall|t: int| 0 <= t < 8 implies c[off + t] == #[trigger] block_bytes(s)[t] by {
        assert((off + t) / 8 * 8 == off && (off + t) % 8 == t);
    }
    lemma_block_of_output(keys, data, c, off, s);
    lemma_rounds_inverse(keys, block_halves(data, off), ICE_ROUNDS as nat);
    lemma_block_bytes_of_halves(data, off);
    let k = j - off;
    assert(block_bytes(swap(block_halves(data, off)))[k] == data[off + k]);
    assert(off + k == j);
}

/// Law: decryption undoes encryption under the same key, for any data
/// (whole blocks are restored by the Feistel structure, trailing bytes are
/// never touched).
pub proof fn lemma_ice_decrypt_encrypt(keys: Seq<u32>, data: Seq<u8>)
    ensures
        spec_ice_decrypt(keys, spec_ice_encrypt(keys, data)) == data,
{
    let d = spec_ice_decrypt(keys, spec_ice_encrypt(keys, data));
    assert forall|j: int| 0 <= j < data.len() implies d[j] == data[j] by {
        if j < whole_blocks_len(data.len()) {
            lemma_decrypt_encrypt_at(keys, data, j);
        }
    }
    assert(d =~= data);
}

/// Law: encryption undoes decryption under the same key, for any data.
pub proof fn lemma_ice_encrypt_decrypt(keys: Seq<u32>, data: Seq<u8>)
    ensures
        spec_ice_encrypt(keys, spec_ice_decrypt(keys, data)) == data,
{
    let d = spec_ice_encrypt(keys, spec_ice_decrypt(keys, data));
    assert forall|j: int| 0 <= j < data.len() implies d[j] == data[j] by {
        if j < whole_blocks_len(data.len()) {
            lemma_encrypt_decrypt_at(keys, data, j);
        }
    }
    assert(d =~= data);
}

proof fn lemma_split_index(m: int, k: int, n: int)
    requires
        0 <= m,
        0 <= k,
        0 <= n,
    ensures
        (8 * m + k) / 8 * 8 == 8 * m + k / 8 * 8,
        (8 * m + k) % 8 == k % 8,
        (8 * m + n) / 8 * 8 == 8 * m + n / 8 * 8,
        k < n / 8 * 8 ==> k / 8 * 8 + 8 <= n,
{
    assert((8 * m + k) / 8 == m + k / 8) by (nonlinear_arith)
        requires
            0 <= m,
            0 <= k,
    ;
    assert((8 * m + n) / 8 == m + n / 8) by (nonlinear_arith)
        requires
            0 <= m,
            0 <= n,
    ;
    assert(k < n / 8 * 8 ==> k / 8 * 8 + 8 <= n) by (nonlinear_arith)
        requires
            0 <= k,
            0 <= n,
    ;
}

/// Law: whole 8-byte blocks are enciphered independently, so encrypting a
/// message that starts with whole blocks `a` is encrypting `a`, then the
/// rest.
pub proof fn lemma_ice_encrypt_concat(keys: Seq<u32>, a: Seq<u8>, b: Seq<u8>)
    requires
        a.len() % 8 == 0,
    ensures
        spec_ice_encrypt(keys, a + b) == spec_ice_encrypt(keys, a) + spec_ice_encrypt(keys, b),
{
    let ab = a + b;
    let m = a.len() / 8;
    assert(a.len() == 8 * m);
    let lhs = spec_ice_encrypt(keys, ab);
    let rhs = spec_ice_encrypt(keys, a) + spec_ice_encrypt(keys, b);
    lemma_split_index(m as int, 0, b.len() as int);
    lemma_split_index(0, 0, a.len() as int);
    assert(whole_blocks_len(ab.len()) == a.len() + whole_blocks_len(b.len()));
    assert(whole_blocks_len(a.len()) == a.len());
    assert forall|j: int| 0 <= j < ab.len() implies lhs[j] == rhs[j] by {
        if j < a.len() {
            lemma_split_index(0, j, a.len() as int);
            let off = j / 8 * 8;
            assert(off + 8 <= a.len());
            assert(block_halves(ab, off) == block_halves(a, off));
        } else {
            let k = j - a.len();
            lemma_split_index(m as int, k, b.len() as int);
            if k < whole_blocks_len(b.len()) {
                let off = k / 8 * 8;
                assert(off + 8 <= b.len());
                assert(j / 8 * 8 == a.len() + off);
                assert(block_halves(ab, a.len() + off) == block_halves(b, off));
            }
        }
    }
    assert(lhs =~= rhs);
}

/// Law: whole 8-byte blocks are deciphered independently, so decrypting a
/// message that starts with whole blocks `a` is decrypting `a`, then the
/// rest.
pub proof fn lemma_ice_decrypt_concat(keys: Seq<u32>, a: Seq<u8>, b: Seq<u8>)
    requires
        a.len() % 8 == 0,
    ensures
        spec_ice_decrypt(keys, a + b) == spec_ice_decrypt(keys, a) + spec_ice_decrypt(keys, b),
{
    let ab = a + b;
    let m = a.len() / 8;
    assert(a.len() == 8 * m);
    let lhs = spec_ice_decrypt(keys, ab);
    let rhs = spec_ice_decrypt(keys, a) + spec_ice_decrypt(keys, b);
    lemma_split_index(m as int, 0, b.len() as int);
    lemma_split_index(0, 0, a.len() as int);
    assert(whole_blocks_len(ab.len()) == a.len() + whole_blocks_len(b.len()));
    assert(whole_blocks_len(a.len()) == a.len());
    assert forall|j: int| 0 <= j < ab.len() implies lhs[j] == rhs[j] by {
        if j < a.len() {
            lemma_split_index(0, j, a.len() as int);
            let off = j / 8 * 8;
            assert(off + 8 <= a.len());
            assert(block_halves(ab, off) == block_halves(a, off));
        } else {
            let k = j - a.len();
            lemma_split_index(m as int, k, b.len() as int);
            if k < whole_blocks_len(b.len()) {
                let off = k / 8 * 8;
                assert(off + 8 <= b.len());
                assert(j / 8 * 8 == a.len() + off);
                assert(block_halves(ab, a.len() + off) == block_halves(b, off));
            }
        }
    }
    assert(lhs =~= rhs);
}

// ---------------------------------------------------------------------------
// Key schedule
// ---------------------------------------------------------------------------

/// The 16-bit key word `j` (0..4) of the 8-byte key chunk `i`.
pub open spec fn key_word(key: Seq<u8>, i: int, j: int) -> u16 {
    (((key[8 * i + 2 * j] as u16) << 8u16) | (key[8 * i + 2 * j + 1] as u16)) as u16
}

/// The rotating key register loaded from key chunk `i` (words stored in reverse).
pub open spec fn sched_kb(key: Seq<u8>, i: int) -> Seq<u16> {
    seq![key_word(key, i, 3), key_word(key, i, 2), key_word(key, i, 1), key_word(key, i, 0)]
}

/// One bit step of the schedule: step `t` (0..480) of the build that fills
/// subkeys `n .. n + 8` with rotation table offset `off`.  Subkey word
/// `j % 3` of subkey `n + t / 60` receives the low bit of register word
/// `(KEYROT[off + t / 60] + t % 4) % 4`, which is rotated right with that bit
/// complemented into the top.
pub open spec fn sched_step(st: (Seq<u32>, Seq<u16>), n: int, off: int, t: int) -> (
    Seq<u32>,
    Seq<u16>,
) {
    let i = t / 60;
    let j = (t % 60) / 4;
    let k = t % 4;
    let pos = 3 * (n + i) + j % 3;
    let kr = ((spec_keyrot(off + i) + k) % 4) as int;
    let bit: u16 = st.1[kr] & 1u16;
    let word: u32 = st.0[pos] << 1u32;
    let kbw: u16 = st.1[kr] >> 1u16;
    let flip: u16 = ((bit ^ 1u16) << 15u16) as u16;
    (st.0.update(pos, word | (bit as u32)), st.1.update(kr, kbw | flip))
}

/// The first `t` bit steps of a build.
pub open spec fn sched_build(st: (Seq<u32>, Seq<u16>), n: int, off: int, t: nat) -> (
    Seq<u32>,
    Seq<u16>,
)
    decreases t,
{
    if t == 0 {
        st
    } else {
        sched_step(sched_build(st, n, off, (t - 1) as nat), n, off, t - 1)
    }
}

/// The flat subkey table after processing the first `m` 8-byte key chunks:
/// chunk `i` builds subkeys `8 * i ..` with the first half of the rotation
/// table and then subkeys `8 - 8 * i ..` with the second half.
pub open spec fn schedule_upto(key: Seq<u8>, m: nat) -> Seq<u32>
    decreases m,
{
    if m == 0 {
        Seq::new(ICE_KEY_WORDS as nat, |x: int| 0u32)
    } else {
        let i = m - 1;
        let prev = schedule_upto(key, (m - 1) as nat);
        let a = sched_build((prev, sched_kb(key, i)), 8 * i, 0, 480);
        let b = sched_build(a, 8 - 8 * i, 8, 480);
        b.0
    }
}

/// The subkey table for `key`: every whole 8-byte chunk of the key is used.
pub open spec fn spec_ice_schedule(key: Seq<u8>) -> Seq<u32> {
    schedule_upto(key, key.len() / 8)
}

proof fn lemma_step_index(i: usize, j: usize, k: usize)
    requires
        i < 8,
        j < 15,
        k < 4,
    ensures
        ({
            let t = 60 * i + 4 * j + k;
            &&& t / 60 == i
            &&& (t % 60) / 4 == j
            &&& t % 4 == k
        }),
{
    let t = 60 * i + 4 * j + k;
    assert(t / 60 == i && (t % 60) / 4 == j && t % 4 == k) by (nonlinear_arith)
        requires
            t == 60 * i + 4 * j + k,
            i < 8,
            j < 15,
            k < 4,
    ;
}

fn schedule_build(keys: &mut Vec<u32>, kb: &mut Vec<u16>, n: usize, off: usize)
    requires
        old(keys)@.len() == ICE_KEY_WORDS,
        old(kb)@.len() == 4,
        n + 8 <= ICE_ROUNDS,
        off == 0 || off == 8,
    ensures
        (final(keys)@, final(kb)@) == sched_build((old(keys)@, old(kb)@), n as int, off as int, 480),
        final(keys)@.len() == ICE_KEY_WORDS,
        final(kb)@.len() == 4,
{
    let ghost st0 = (keys@, kb@);
    let mut i: usize = 0;
    while i < 8
        invariant
            i <= 8,
            keys@.len() == ICE_KEY_WORDS,
            kb@.len() == 4,
            n + 8 <= ICE_ROUNDS,
            off == 0 || off == 8,
            (keys@, kb@) == sched_build(st0, n as int, off as int, (60 * i) as nat),
        decreases 8 - i,
    {
        let mut j: usize = 0;
        while j < 15
            invariant
                i < 8,
                j <= 15,
                keys@.len() == ICE_KEY_WORDS,
                kb@.len() == 4,
                n + 8 <= ICE_ROUNDS,
                off == 0 || off == 8,
                (keys@, kb@) == sched_build(st0, n as int, off as int, (60 * i + 4 * j) as nat),
            decreases 15 - j,
        {
            let idx = j % 3;
            let mut k: usize = 0;
            while k < 4
                invariant
                    i < 8,
                    j < 15,
                    k <= 4,
                    idx == j % 3,
                    keys@.len() == ICE_KEY_WORDS,
                    kb@.len() == 4,
                    n + 8 <= ICE_ROUNDS,
                    off == 0 || off == 8,
                    (keys@, kb@) == sched_build(
                        st0,
                        n as int,
                        off as int,
                        (60 * i + 4 * j + k) as nat,
                    ),
                decreases 4 - k,
            {
                proof {
                    lemma_step_index(i, j, k);
                }
                let kridx = (keyrot(off + i) + k) % 4;
                let pos = 3 * (n + i) + idx;
                let bit: u16 = kb[kridx] & 1;
                let word = keys[pos] << 1u32;
                keys[pos] = word | (bit as u32);
                let kbw = kb[kridx] >> 1u16;
                kb[kridx] = kbw | ((bit ^ 1) << 15u16);
                k = k + 1;
            }
            j = j + 1;
        }
        i = i + 1;
    }
}

fn schedule(key: &[u8]) -> (keys: Vec<u32>)
    requires
        key@.len() < 24,
    ensures
        keys@ == spec_ice_schedule(key@),
        keys@.len() == ICE_KEY_WORDS,
{
    let mut keys: Vec<u32> = Vec::new();
    let mut z: usize = 0;
    while z < ICE_KEY_WORDS
        invariant
            z <= ICE_KEY_WORDS,
            keys@ == Seq::new(z as nat, |x: int| 0u32),
        decreases ICE_KEY_WORDS - z,
    {
        keys.push(0);
        z = z + 1;
    }
    let chunks = key.len() / 8;
    let mut i: usize = 0;
    while i < chunks
        invariant
            chunks == key@.len() / 8,
            chunks <= 2,
            i <= chunks,
            keys@ == schedule_upto(key@, i as nat),
            keys@.len() == ICE_KEY_WORDS,
        decreases chunks - i,
    {
        let mut kb: Vec<u16> = Vec::new();
        let mut j: usize = 0;
        while j < 4
            invariant
                i < chunks,
                chunks == key@.len() / 8,
                chunks <= 2,
                j <= 4,
                kb@.len() == j,
                forall|q: int| 0 <= q < j ==> #[trigger] kb@[q] == sched_kb(key@, i as int)[q],
            decreases 4 - j,
        {
            let w = 3 - j;
            proof {
                assert(8 * i + 2 * w + 1 < key@.len()) by (nonlinear_arith)
                    requires
                        i < chunks,
                        chunks == key@.len() / 8,
                        w < 4,
                ;
            }
            let hi = key[8 * i + 2 * w] as u16;
            let lo = key[8 * i + 2 * w + 1] as u16;
            kb.push((hi << 8u16) | lo);
            j = j + 1;
        }
        assert(kb@ =~= sched_kb(key@, i as int));
        schedule_build(&mut keys, &mut kb, 8 * i, 0);
        schedule_build(&mut keys, &mut kb, ICE_ROUNDS - 8 - 8 * i, 8);
        i = i + 1;
    }
    keys
}

// ---------------------------------------------------------------------------
// The keyed cipher
// ---------------------------------------------------------------------------

/// An ICE key: the number of rounds (always 16) and the expanded subkeys.
pub struct IceKey {
    rounds: usize,
    keys: Vec<u32>,
}

impl IceKey {
    #[verifier::type_invariant]
    spec fn wf(&self) -> bool {
        &&& self.rounds == ICE_ROUNDS
        &&& self.keys@.len() == ICE_KEY_WORDS
    }

    /// The flat subkey table (three words per round).
    pub closed spec fn subkeys(&self) -> Seq<u32> {
        self.keys@
    }

    /// Expands `key`; every whole 8-byte chunk of it feeds the schedule.  Keys
    /// of 24 bytes or more are rejected by the caller's contract: the
    /// schedule has room for two chunks only.
    pub fn new(key: &[u8]) -> (ice: Self)
        requires
            key@.len() < 24,
        ensures
            ice.subkeys() == spec_ice_schedule(key@),
    {
        let keys = schedule(key);
        IceKey { rounds: ICE_ROUNDS, keys }
    }

    /// Encrypts every whole 8-byte block of `pt` (ECB); a trailing partial
    /// block is copied unchanged.
    pub fn encrypt(&self, pt: &[u8]) -> (ct: Vec<u8>)
        ensures
            ct@ == spec_ice_encrypt(self.subkeys(), pt@),
    {
        proof {
            use_type_invariant(self);
        }
        let sbox = init_sboxes();
        let mut ct = vstd::slice::slice_to_vec(pt);
        let total = pt.len();
        let nblocks = ct.len() / 8;
        let ghost keys = self.keys@;
        let mut b: usize = 0;
        while b < nblocks
            invariant
                nblocks == pt@.len() / 8,
                total == pt@.len(),
                b <= nblocks,
                ct@.len() == pt@.len(),
                keys == self.keys@,
                keys.len() == ICE_KEY_WORDS,
                self.rounds == ICE_ROUNDS,
                sbox_table_ok(sbox@),
                forall|q: int| 0 <= q < 8 * b ==> #[trigger] ct@[q] == spec_ice_encrypt(keys, pt@)[q],
                forall|q: int| 8 * b <= q < ct@.len() ==> #[trigger] ct@[q] == pt@[q],
            decreases nblocks - b,
        {
            proof {
                assert(8 * b + 8 <= pt@.len()) by (nonlinear_arith)
                    requires
                        b < nblocks,
                        nblocks == pt@.len() / 8,
                ;
            }
            let off = 8 * b;
            let mut l: u32 = ((ct[off] as u32) << 24u32) | ((ct[off + 1] as u32) << 16u32) | ((
            ct[off + 2] as u32) << 8u32) | (ct[off + 3] as u32);
            let mut r: u32 = ((ct[off + 4] as u32) << 24u32) | ((ct[off + 5] as u32) << 16u32) | ((
            ct[off + 6] as u32) << 8u32) | (ct[off + 7] as u32);
            let ghost s0 = (l, r);
            assert(s0 == block_halves(pt@, off as int));
            let mut i: usize = 0;
            while i < self.rounds
                invariant
                    self.rounds == ICE_ROUNDS,
                    i <= ICE_ROUNDS,
                    i % 2 == 0,
                    keys == self.keys@,
                    keys.len() == ICE_KEY_WORDS,
                    sbox_table_ok(sbox@),
                    (l, r) == enc_rounds(keys, s0, i as nat),
                decreases ICE_ROUNDS - i,
            {
                l = l ^ ice_f(r, self.keys[3 * i], self.keys[3 * i + 1], self.keys[3 * i + 2], &sbox);
                r = r ^ ice_f(
                    l,
                    self.keys[3 * i + 3],
                    self.keys[3 * i + 4],
                    self.keys[3 * i + 5],
                    &sbox,
                );
                i = i + 2;
            }
            let ghost fin = (l, r);
            ct[off] = (r >> 24u32) as u8;
            ct[off + 1] = (r >> 16u32) as u8;
            ct[off + 2] = (r >> 8u32) as u8;
            ct[off + 3] = r as u8;
            ct[off + 4] = (l >> 24u32) as u8;
            ct[off + 5] = (l >> 16u32) as u8;
            ct[off + 6] = (l >> 8u32) as u8;
            ct[off + 7] = l as u8;
            proof {
                let e = spec_ice_encrypt(keys, pt@);
                assert forall|t: int| 0 <= t < 8 implies #[trigger] ct@[off + t] == e[off + t] by {
                    assert((off + t) / 8 * 8 == off && (off + t) % 8 == t && off + t
                        < whole_blocks_len(pt@.len())) by (nonlinear_arith)
                        requires
                            off == 8 * b,
                            0 <= t < 8,
                            b < nblocks,
                            nblocks == pt@.len() / 8,
                    ;
                    assert(e[off + t] == encrypt_block(keys, pt@, off as int)[t]);
                    assert(encrypt_block(keys, pt@, off as int) == block_bytes(fin));
                }
                assert forall|q: int| 0 <= q < 8 * (b + 1) implies #[trigger] ct@[q] == spec_ice_encrypt(
                    keys,
                    pt@,
                )[q] by {
                    if q >= off {
                        assert(ct@[off + (q - off)] == spec_ice_encrypt(keys, pt@)[off + (q - off)]);
                    }
                }
            }
            b = b + 1;
        }
        proof {
            let e = spec_ice_encrypt(keys, pt@);
            assert forall|q: int| 0 <= q < ct@.len() implies #[trigger] ct@[q] == e[q] by {
                if q >= 8 * b {
                    assert(q >= whole_blocks_len(pt@.len()));
                }
            }
            assert(ct@ =~= e);
        }
        ct
    }

    /// Decrypts every whole 8-byte block of `ct` (ECB); a trailing partial
    /// block is copied unchanged.
    pub fn decrypt(&self, ct: &[u8]) -> (pt: Vec<u8>)
        ensures
            pt@ == spec_ice_decrypt(self.subkeys(), ct@),
    {
        proof {
            use_type_invariant(self);
        }
        let sbox = init_sboxes();
        let mut pt = vstd::slice::slice_to_vec(ct);
        let total = ct.len();
        let nblocks = pt.len() / 8;
        let ghost keys = self.keys@;
        let mut b: usize = 0;
        while b < nblocks
            invariant
                nblocks == ct@.len() / 8,
                total == ct@.len(),
                b <= nblocks,
                pt@.len() == ct@.len(),
                keys == self.keys@,
                keys.len() == ICE_KEY_WORDS,
                self.rounds == ICE_ROUNDS,
                sbox_table_ok(sbox@),
                forall|q: int| 0 <= q < 8 * b ==> #[trigger] pt@[q] == spec_ice_decrypt(keys, ct@)[q],
                forall|q: int| 8 * b <= q < pt@.len() ==> #[trigger] pt@[q] == ct@[q],
            decreases nblocks - b,
        {
            proof {
                assert(8 * b + 8 <= ct@.len()) by (nonlinear_arith)
                    requires
                        b < nblocks,
                        nblocks == ct@.len() / 8,
                ;
            }
            let off = 8 * b;
            let mut l: u32 = ((pt[off] as u32) << 24u32) | ((pt[off + 1] as u32) << 16u32) | ((
            pt[off + 2] as u32) << 8u32) | (pt[off + 3] as u32);
            let mut r: u32 = ((pt[off + 4] as u32) << 24u32) | ((pt[off + 5] as u32) << 16u32) | ((
            pt[off + 6] as u32) << 8u32) | (pt[off + 7] as u32);
            let ghost s0 = (l, r);
            assert(s0 == block_halves(ct@, off as int));
            let mut i: usize = self.rounds;
            while i >= 2
                invariant
                    i <= ICE_ROUNDS,
                    i % 2 == 0,
                    keys == self.keys@,
                    keys.len() == ICE_KEY_WORDS,
                    sbox_table_ok(sbox@),
                    dec_rounds(keys, (l, r), i as nat) == dec_rounds(keys, s0, ICE_ROUNDS as nat),
                decreases i,
            {
                l = l ^ ice_f(
                    r,
                    self.keys[3 * i - 3],
                    self.keys[3 * i - 2],
                    self.keys[3 * i - 1],
                    &sbox,
                );
                r = r ^ ice_f(
                    l,
                    self.keys[3 * i - 6],
                    self.keys[3 * i - 5],
                    self.keys[3 * i - 4],
                    &sbox,
                );
                i = i - 2;
            }
            let ghost fin = (l, r);
            assert(fin == dec_rounds(keys, s0, ICE_ROUNDS as nat));
            pt[off] = (r >> 24u32) as u8;
            pt[off + 1] = (r >> 16u32) as u8;
            pt[off + 2] = (r >> 8u32) as u8;
            pt[off + 3] = r as u8;
            pt[off + 4] = (l >> 24u32) as u8;
            pt[off + 5] = (l >> 16u32) as u8;
            pt[off + 6] = (l >> 8u32) as u8;
            pt[off + 7] = l as u8;
            proof {
                let e = spec_ice_decrypt(keys, ct@);
                assert forall|t: int| 0 <= t < 8 implies #[trigger] pt@[off + t] == e[off + t] by {
                    assert((off + t) / 8 * 8 == off && (off + t) % 8 == t && off + t
                        < whole_blocks_len(ct@.len())) by (nonlinear_arith)
                        requires
                            off == 8 * b,
                            0 <= t < 8,
                            b < nblocks,
                            nblocks == ct@.len() / 8,
                    ;
                    assert(e[off + t] == decrypt_block(keys, ct@, off as int)[t]);
                    assert(decrypt_block(keys, ct@, off as int) == block_bytes(fin));
                }
                assert forall|q: int| 0 <= q < 8 * (b + 1) implies #[trigger] pt@[q] == spec_ice_decrypt(
                    keys,
                    ct@,
                )[q] by {
                    if q >= off {
                        assert(pt@[off + (q - off)] == spec_ice_decrypt(keys, ct@)[off + (q - off)]);
                    }
                }
            }
            b = b + 1;
        }
        proof {
            let e = spec_ice_decrypt(keys, ct@);
            assert forall|q: int| 0 <= q < pt@.len() implies #[trigger] pt@[q] == e[q] by {
                if q >= 8 * b {
                    assert(q >= whole_blocks_len(ct@.len()));
                }
            }
            assert(pt@ =~= e);
        }
        pt
    }
}

/// Law: with one key, `decrypt` gives back what `encrypt` was given.
pub proof fn lemma_ice_key_round_trip(ice: &IceKey, data: Seq<u8>)
    ensures
        spec_ice_decrypt(ice.subkeys(), spec_ice_encrypt(ice.subkeys(), data)) == data,
        spec_ice_encrypt(ice.subkeys(), spec_ice_decrypt(ice.subkeys(), data)) == data,
{
    lemma_ice_decrypt_encrypt(ice.subkeys(), data);
    lemma_ice_encrypt_decrypt(ice.subkeys(), data);
}

} // verus!
