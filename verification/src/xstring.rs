//! Strings stored XOR-obfuscated with a one-byte key and decoded on creation.
use vstd::prelude::*;
use vstd::string::StringSliceAdditionalSpecFns;
use crate::text::utf8_str;
use vstd::utf8::valid_utf8;

verus! {

/// Index of the first zero byte of `d`, or its length when there is none.
pub open spec fn first_zero(d: Seq<u8>) -> nat
    decreases d.len(),
{
    if d.len() == 0 {
        0
    } else if d[0] == 0 {
        0
    } else {
        1 + first_zero(d.drop_first())
    }
}

/// The bytes before the first zero byte.
pub open spec fn until_nul(d: Seq<u8>) -> Seq<u8> {
    d.subrange(0, first_zero(d) as int)
}

proof fn lemma_first_zero(d: Seq<u8>)
    ensures
        first_zero(d) <= d.len(),
        forall|i: int| 0 <= i < first_zero(d) ==> d[i] != 0,
        first_zero(d) < d.len() ==> d[first_zero(d) as int] == 0,
    decreases d.len(),
{
    if d.len() > 0 && d[0] != 0 {
        lemma_first_zero(d.drop_first());
        assert forall|i: int| 0 <= i < first_zero(d) implies d[i] != 0 by {
            if i > 0 {
                assert(d[i] == d.drop_first()[i - 1]);
            }
        }
    }
}

/// An obfuscated string of `N` bytes (the last of which is normally the
/// encoded terminator) together with its decoded form.
pub struct XorString<const N: usize> {
    data: [u8; N],
    key: u8,
    decoded: Vec<u8>,
}

fn decode<const N: usize>(data: &[u8; N], key: u8) -> (out: Vec<u8>)
    ensures
        out@ == Seq::new(N as nat, |i: int| data@[i] ^ key),
{
    let mut out: Vec<u8> = Vec::new();
    let mut i: usize = 0;
    while i < N
        invariant
            i <= N,
            data@.len() == N,
            out@ == Seq::new(i as nat, |k: int| data@[k] ^ key),
        decreases N - i,
    {
        out.push(data[i] ^ key);
        proof {
            assert(out@ =~= Seq::new((i + 1) as nat, |k: int| data@[k] ^ key));
        }
        i = i + 1;
    }
    out
}

impl<const N: usize> XorString<N> {
    #[verifier::type_invariant]
    spec fn wf(&self) -> bool {
        self.decoded@.len() == N
    }

    /// The decoded bytes (all `N` of them).
    pub closed spec fn decoded_bytes(&self) -> Seq<u8> {
        self.decoded@
    }

    /// Stores `encoded` and decodes it with `key`.
    pub fn new(encoded: [u8; N], key: u8) -> (s: Self)
        ensures
            s.decoded_bytes() == Seq::new(N as nat, |i: int| encoded@[i] ^ key),
    {
        let decoded = decode(&encoded, key);
        XorString { data: encoded, key, decoded }
    }

    fn nul_position(&self) -> (len: usize)
        ensures
            len == first_zero(self.decoded@),
    {
        proof {
            use_type_invariant(self);
            lemma_first_zero(self.decoded@);
        }
        let mut i: usize = 0;
        while i < N
            invariant
                i <= N,
                self.decoded@.len() == N,
                forall|k: int| 0 <= k < i ==> self.decoded@[k] != 0,
                first_zero(self.decoded@) <= N,
                forall|k: int| 0 <= k < first_zero(self.decoded@) ==> self.decoded@[k] != 0,
                first_zero(self.decoded@) < N ==> self.decoded@[first_zero(self.decoded@) as int] == 0,
            decreases N - i,
        {
            if self.decoded[i] == 0 {
                return i;
            }
            i = i + 1;
        }
        N
    }

    /// The decoded bytes before the first zero byte.
    pub fn as_bytes(&self) -> (b: &[u8])
        ensures
            b@ == until_nul(self.decoded_bytes()),
    {
        let len = self.nul_position();
        proof {
            use_type_invariant(self);
            lemma_first_zero(self.decoded@);
        }
        vstd::slice::slice_subrange(self.decoded.as_slice(), 0, len)
    }

    /// The decoded text before the first zero byte, or `""` when those bytes
    /// are not valid UTF-8.
    pub fn as_str(&self) -> (s: &str)
        ensures
            valid_utf8(until_nul(self.decoded_bytes())) ==> s.spec_bytes() == until_nul(
                self.decoded_bytes(),
            ),
            !valid_utf8(until_nul(self.decoded_bytes())) ==> s@.len() == 0,
    {
        let bytes = self.as_bytes();
        match utf8_str(bytes) {
            Some(s) => s,
            None => {
                let e = "";
                proof {
                    reveal_strlit("");
                }
                e
            },
        }
    }
}

} // verus!
