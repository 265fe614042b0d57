//! The CRC used by the integrity scanners: polynomial 0x488781ED, fed one
//! byte at a time into the top of the register, two bit positions per step.
use vstd::prelude::*;

verus! {

/// The polynomial that is folded in whenever the top bit is set.
pub const CRC_POLY: u32 = 0x488781ED;

/// One of the eight inner steps applied per input byte.
pub open spec fn crc_step(h: u32) -> u32 {
    if h & 0x8000_0000 != 0 {
        ((h << 2u32) ^ CRC_POLY) as u32
    } else {
        (h << 2u32) as u32
    }
}

/// `n` inner steps.
pub open spec fn crc_steps(h: u32, n: nat) -> u32
    decreases n,
{
    if n == 0 {
        h
    } else {
        crc_steps(crc_step(h), (n - 1) as nat)
    }
}

/// The register after absorbing one byte.
pub open spec fn crc_byte(h: u32, b: u8) -> u32 {
    crc_steps(h ^ ((b as u32) << 24u32), 8)
}

/// The register after absorbing `data` from the start, starting at `init`.
pub open spec fn spec_crc32(data: Seq<u8>, init: u32) -> u32
    decreases data.len(),
{
    if data.len() == 0 {
        init
    } else {
        crc_byte(spec_crc32(data.drop_last(), init), data.last())
    }
}

/// Computes the CRC of `data` starting from the register value `initial`.
pub fn crc32(data: &[u8], initial: u32) -> (hash: u32)
    ensures
        hash == spec_crc32(data@, initial),
{
    let mut hash = initial;
    let mut i: usize = 0;
    while i < data.len()
        invariant
            i <= data.len(),
            hash == spec_crc32(data@.subrange(0, i as int), initial),
        decreases data.len() - i,
    {
        let byte = data[i];
        hash = hash ^ ((byte as u32) << 24u32);
        let ghost start = hash;
        let mut k: u32 = 0;
        while k < 8
            invariant
                k <= 8,
                crc_steps(start, 8) == crc_steps(hash, (8 - k) as nat),
            decreases 8 - k,
        {
            let ghost before = hash;
            if hash & 0x8000_0000 != 0 {
                hash = (hash << 2u32) ^ CRC_POLY;
            } else {
                hash = hash << 2u32;
            }
            assert(hash == crc_step(before));
            assert(crc_steps(before, (8 - k) as nat) == crc_steps(hash, (8 - k - 1) as nat));
            k = k + 1;
        }
        proof {
            let s = data@.subrange(0, i + 1);
            assert(s.drop_last() =~= data@.subrange(0, i as int));
        }
        i = i + 1;
    }
    proof {
        assert(data@.subrange(0, data@.len() as int) =~= data@);
    }
    hash
}

/// The CRC of `data` from a zero register.
pub fn crc32_bytes(data: &[u8]) -> (hash: u32)
    ensures
        hash == spec_crc32(data@, 0),
{
    crc32(data, 0)
}

/// Streaming law: the CRC of a concatenation is the CRC of the second part
/// started from the register value left by the first part, so a checksum can
/// be computed over chunks by passing each result as the next `initial`.
pub proof fn lemma_crc32_concat(a: Seq<u8>, b: Seq<u8>, init: u32)
    ensures
        spec_crc32(a + b, init) == spec_crc32(b, spec_crc32(a, init)),
    decreases b.len(),
{
    if b.len() == 0 {
        assert(a + b =~= a);
    } else {
        lemma_crc32_concat(a, b.drop_last(), init);
        assert((a + b).drop_last() =~= a + b.drop_last());
        assert((a + b).last() == b.last());
    }
}

} // verus!
