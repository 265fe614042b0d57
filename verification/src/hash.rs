//! The byte-string hash used to fingerprint names and paths in scan reports.
use vstd::prelude::*;
use vstd::string::StringSliceAdditionalSpecFns;

verus! {

/// Starting value of the hash register.
pub const VAC_HASH_SEED: u32 = 0x45D71892;

/// Absorbs one byte: `(b | 0x20) + 33 * h`, both wrapping in 32 bits.
pub open spec fn vac_hash_step(h: u32, b: u8) -> u32 {
    (((b | 32u8) as u32 as int + 33 * (h as int)) % 0x1_0000_0000) as u32
}

/// The hash register after absorbing `data` from the seed.
pub open spec fn spec_vac_hash(data: Seq<u8>) -> u32
    decreases data.len(),
{
    if data.len() == 0 {
        VAC_HASH_SEED
    } else {
        vac_hash_step(spec_vac_hash(data.drop_last()), data.last())
    }
}

/// Hashes a byte string (djb2 style, case-folding each byte with `| 0x20`).
pub fn vac_hash(data: &[u8]) -> (hash: u32)
    ensures
        hash == spec_vac_hash(data@),
{
    let mut hash: u32 = VAC_HASH_SEED;
    let mut i: usize = 0;
    while i < data.len()
        invariant
            i <= data.len(),
            hash == spec_vac_hash(data@.subrange(0, i as int)),
        decreases data.len() - i,
    {
        let b = data[i];
        hash = ((b | 32) as u32).wrapping_add(33u32.wrapping_mul(hash));
        proof {
            let s = data@.subrange(0, i + 1);
            assert(s.drop_last() =~= data@.subrange(0, i as int));
        }
        i = i + 1;
    }
    proof {
        assert(data@.subrange(0, data@.len() as int) =~= data@);
    }
    hash
}

/// Hashes the UTF-8 bytes of a string.
pub fn vac_hash_str(s: &str) -> (hash: u32)
    ensures
        hash == spec_vac_hash(s.spec_bytes()),
{
    vac_hash(s.as_bytes())
}

/// The hash folds ASCII case: two byte strings of the same length that agree
/// on every byte once bit 0x20 is set hash to the same value (so `"Foo.DLL"`
/// and `"foo.dll"` collide by design).
pub proof fn lemma_vac_hash_case_insensitive(a: Seq<u8>, b: Seq<u8>)
    requires
        a.len() == b.len(),
        forall|i: int| 0 <= i < a.len() ==> (#[trigger] a[i] | 32u8) == (b[i] | 32u8),
    ensures
        spec_vac_hash(a) == spec_vac_hash(b),
    decreases a.len(),
{
    if a.len() > 0 {
        lemma_vac_hash_case_insensitive(a.drop_last(), b.drop_last());
        assert(a[a.len() - 1] | 32u8 == b[b.len() - 1] | 32u8);
    }
}

/// Streaming law: hashing `a + b` continues from the register left by `a`.
pub open spec fn vac_hash_from(h: u32, data: Seq<u8>) -> u32
    decreases data.len(),
{
    if data.len() == 0 {
        h
    } else {
        vac_hash_step(vac_hash_from(h, data.drop_last()), data.last())
    }
}

/// Hashing a concatenation equals continuing the hash of the prefix over the
/// suffix.
pub proof fn lemma_vac_hash_concat(a: Seq<u8>, b: Seq<u8>)
    ensures
        spec_vac_hash(a + b) == vac_hash_from(spec_vac_hash(a), b),
    decreases b.len(),
{
    if b.len() == 0 {
        assert(a + b =~= a);
    } else {
        lemma_vac_hash_concat(a, b.drop_last());
        assert((a + b).drop_last() =~= a + b.drop_last());
        assert((a + b).last() == b.last());
    }
}

} // verus!
