//! The fixed-size scan report buffer: 2048 little-endian 32-bit words with a
//! write cursor.  Writes past the end are silently dropped.
use vstd::prelude::*;

verus! {

/// Number of words in a buffer.
pub const DATA_BUFFER_DWORDS: usize = 2048;

/// The words and cursor after appending `src` at `pos`: as many words as fit
/// before the end are stored, the rest are dropped.
pub open spec fn append_words(words: Seq<u32>, pos: nat, src: Seq<u32>) -> (Seq<u32>, nat) {
    let room = (DATA_BUFFER_DWORDS - pos) as nat;
    let n: nat = if src.len() <= room {
        src.len()
    } else {
        room
    };
    (
        Seq::new(
            words.len(),
            |i: int|
                if pos <= i < pos + n {
                    src[i - pos]
                } else {
                    words[i]
                },
        ),
        pos + n,
    )
}

/// Little-endian word made of the (up to four) bytes of `b` from `off`;
/// missing bytes count as zero.
pub open spec fn le_chunk_word(b: Seq<u8>, off: int) -> u32 {
    (if off < b.len() {
        b[off] as u32
    } else {
        0u32
    }) | (if off + 1 < b.len() {
        (b[off + 1] as u32) << 8u32
    } else {
        0u32
    }) | (if off + 2 < b.len() {
        (b[off + 2] as u32) << 16u32
    } else {
        0u32
    }) | (if off + 3 < b.len() {
        (b[off + 3] as u32) << 24u32
    } else {
        0u32
    })
}

/// The words that `write_bytes` appends: one per started 4-byte chunk.
pub open spec fn byte_chunk_words(b: Seq<u8>) -> Seq<u32> {
    Seq::new(((b.len() + 3) / 4) as nat, |k: int| le_chunk_word(b, 4 * k))
}

/// Little-endian byte image of a word sequence.
pub open spec fn words_le_bytes(w: Seq<u32>) -> Seq<u8> {
    Seq::new(w.len() * 4, |i: int| (w[i / 4] >> ((8 * (i % 4)) as u32)) as u8)
}

/// Law: appending `a` then `b` is appending `a + b`.
pub proof fn lemma_append_words_concat(words: Seq<u32>, pos: nat, a: Seq<u32>, b: Seq<u32>)
    requires
        pos <= DATA_BUFFER_DWORDS,
    ensures
        ({
            let first = append_words(words, pos, a);
            append_words(first.0, first.1, b) == append_words(words, pos, a + b)
        }),
{
    let first = append_words(words, pos, a);
    let lhs = append_words(first.0, first.1, b);
    let rhs = append_words(words, pos, a + b);
    assert(lhs.0 =~= rhs.0);
}

/// The scan report buffer.
#[derive(Debug)]
pub struct DataBuffer {
    raw: Vec<u32>,
    cursor: usize,
}

impl DataBuffer {
    /// The buffer holds exactly 2048 words and the cursor lies within them.
    pub closed spec fn wf(&self) -> bool {
        &&& self.raw@.len() == DATA_BUFFER_DWORDS
        &&& self.cursor <= DATA_BUFFER_DWORDS
    }

    /// The 2048 words.
    pub closed spec fn words(&self) -> Seq<u32> {
        self.raw@
    }

    /// The write cursor.
    pub closed spec fn pos(&self) -> nat {
        self.cursor as nat
    }

    /// A zeroed buffer with the cursor at 0.
    pub fn new() -> (buf: Self)
        ensures
            buf.wf(),
            buf.words() == Seq::new(DATA_BUFFER_DWORDS as nat, |i: int| 0u32),
            buf.pos() == 0,
    {
        let mut raw: Vec<u32> = Vec::new();
        let mut i: usize = 0;
        while i < DATA_BUFFER_DWORDS
            invariant
                i <= DATA_BUFFER_DWORDS,
                raw@ == Seq::new(i as nat, |k: int| 0u32),
            decreases DATA_BUFFER_DWORDS - i,
        {
            raw.push(0);
            proof {
                assert(raw@ =~= Seq::new((i + 1) as nat, |k: int| 0u32));
            }
            i = i + 1;
        }
        DataBuffer { raw, cursor: 0 }
    }

    /// Zeroes every word and moves the cursor back to 0.
    pub fn reset(&mut self)
        requires
            old(self).wf(),
        ensures
            final(self).wf(),
            final(self).words() == Seq::new(DATA_BUFFER_DWORDS as nat, |i: int| 0u32),
            final(self).pos() == 0,
    {
        *self = DataBuffer::new();
    }

    /// Stores `val` at the cursor and advances it, unless the buffer is full.
    pub fn write_u32(&mut self, val: u32)
        requires
            old(self).wf(),
        ensures
            final(self).wf(),
            (final(self).words(), final(self).pos()) == append_words(
                old(self).words(),
                old(self).pos(),
                seq![val],
            ),
    {
        let ghost w0 = self.raw@;
        if self.cursor < DATA_BUFFER_DWORDS {
            let c = self.cursor;
            self.raw.set(c, val);
            self.cursor = c + 1;
        }
        proof {
            let r = append_words(w0, old(self).pos(), seq![val]);
            assert(self.raw@ =~= r.0);
        }
    }

    /// Appends the bytes as little-endian words, four bytes per word; a last
    /// partial chunk is zero-extended.
    pub fn write_bytes(&mut self, bytes: &[u8])
        requires
            old(self).wf(),
        ensures
            final(self).wf(),
            (final(self).words(), final(self).pos()) == append_words(
                old(self).words(),
                old(self).pos(),
                byte_chunk_words(bytes@),
            ),
    {
        let n = bytes.len();
        let nchunks = n / 4 + if n % 4 == 0 { 0 } else { 1 };
        assert(nchunks == (n + 3) / 4);
        let ghost w0 = self.words();
        let ghost p0 = self.pos();
        let mut k: usize = 0;
        while k < nchunks
            invariant
                k <= nchunks,
                nchunks == (bytes@.len() + 3) / 4,
                n == bytes@.len(),
                p0 <= DATA_BUFFER_DWORDS,
                self.wf(),
                (self.words(), self.pos()) == append_words(
                    w0,
                    p0,
                    byte_chunk_words(bytes@).subrange(0, k as int),
                ),
            decreases nchunks - k,
        {
            let off = 4 * k;
            let x0: u32 = if off < n {
                bytes[off] as u32
            } else {
                0
            };
            let x1: u32 = if off + 1 < n {
                (bytes[off + 1] as u32) << 8u32
            } else {
                0
            };
            let x2: u32 = if off + 2 < n {
                (bytes[off + 2] as u32) << 16u32
            } else {
                0
            };
            let x3: u32 = if off + 3 < n {
                (bytes[off + 3] as u32) << 24u32
            } else {
                0
            };
            let val = x0 | x1 | x2 | x3;
            assert(val == le_chunk_word(bytes@, off as int));
            self.write_u32(val);
            proof {
                let pre = byte_chunk_words(bytes@).subrange(0, k as int);
                lemma_append_words_concat(w0, p0, pre, seq![val]);
                assert(pre + seq![val] =~= byte_chunk_words(bytes@).subrange(0, k + 1));
            }
            k = k + 1;
        }
        proof {
            assert(byte_chunk_words(bytes@).subrange(0, nchunks as int) =~= byte_chunk_words(
                bytes@,
            ));
        }
    }

    /// Appends as many words of `src` as fit.
    pub fn write_slice(&mut self, src: &[u32])
        requires
            old(self).wf(),
        ensures
            final(self).wf(),
            (final(self).words(), final(self).pos()) == append_words(
                old(self).words(),
                old(self).pos(),
                src@,
            ),
    {
        let room = DATA_BUFFER_DWORDS - self.cursor;
        let count = if src.len() < room {
            src.len()
        } else {
            room
        };
        let c = self.cursor;
        let ghost w0 = self.raw@;
        let mut raw: Vec<u32> = Vec::new();
        std::mem::swap(&mut raw, &mut self.raw);
        let mut i: usize = 0;
        while i < count
            invariant
                i <= count,
                c + count <= DATA_BUFFER_DWORDS,
                count <= src@.len(),
                raw@.len() == DATA_BUFFER_DWORDS,
                w0.len() == DATA_BUFFER_DWORDS,
                forall|q: int|
                    0 <= q < DATA_BUFFER_DWORDS ==> #[trigger] raw@[q] == if c <= q < c + i {
                        src@[q - c]
                    } else {
                        w0[q]
                    },
            decreases count - i,
        {
            raw.set(c + i, src[i]);
            i = i + 1;
        }
        *self = DataBuffer { raw, cursor: c + count };
        proof {
            let r = append_words(w0, c as nat, src@);
            assert(self.raw@ =~= r.0);
        }
    }

    /// The write cursor.
    pub fn cursor(&self) -> (c: usize)
        requires
            self.wf(),
        ensures
            c == self.pos(),
            c <= DATA_BUFFER_DWORDS,
            self.words().len() == DATA_BUFFER_DWORDS,
    {
        self.cursor
    }

    /// Moves the cursor, clamped to the end of the buffer.
    pub fn set_cursor(&mut self, pos: usize)
        requires
            old(self).wf(),
        ensures
            final(self).wf(),
            final(self).words() == old(self).words(),
            final(self).pos() == if pos < DATA_BUFFER_DWORDS {
                pos as nat
            } else {
                DATA_BUFFER_DWORDS as nat
            },
    {
        let p = if pos < DATA_BUFFER_DWORDS {
            pos
        } else {
            DATA_BUFFER_DWORDS
        };
        self.cursor = p;
    }

    /// Word `i` of the buffer.
    pub fn word(&self, i: usize) -> (w: u32)
        requires
            self.wf(),
            i < DATA_BUFFER_DWORDS,
        ensures
            w == self.words()[i as int],
    {
        self.raw[i]
    }

    /// All 2048 words.
    pub fn raw(&self) -> (r: &[u32])
        requires
            self.wf(),
        ensures
            r@ == self.words(),
    {
        self.raw.as_slice()
    }

    /// Overwrites word `i`, leaving the cursor where it is.
    pub fn set_word(&mut self, i: usize, val: u32)
        requires
            old(self).wf(),
            i < DATA_BUFFER_DWORDS,
        ensures
            final(self).wf(),
            final(self).words() == old(self).words().update(i as int, val),
            final(self).pos() == old(self).pos(),
    {
        let c = self.cursor;
        let mut raw: Vec<u32> = Vec::new();
        std::mem::swap(&mut raw, &mut self.raw);
        raw.set(i, val);
        *self = DataBuffer { raw, cursor: c };
    }

    /// The words as little-endian bytes (8192 bytes).
    pub fn as_bytes(&self) -> (b: Vec<u8>)
        requires
            self.wf(),
        ensures
            b@ == words_le_bytes(self.words()),
            b@.len() == DATA_BUFFER_DWORDS * 4,
    {
        let mut out: Vec<u8> = Vec::new();
        let mut i: usize = 0;
        while i < DATA_BUFFER_DWORDS
            invariant
                i <= DATA_BUFFER_DWORDS,
                self.raw@.len() == DATA_BUFFER_DWORDS,
                out@ == words_le_bytes(self.raw@.subrange(0, i as int)),
            decreases DATA_BUFFER_DWORDS - i,
        {
            let w = self.raw[i];
            out.push(w as u8);
            out.push((w >> 8u32) as u8);
            out.push((w >> 16u32) as u8);
            out.push((w >> 24u32) as u8);
            proof {
                assert(w >> 0u32 == w) by (bit_vector);
                let next = words_le_bytes(self.raw@.subrange(0, i + 1));
                assert forall|q: int| 0 <= q < next.len() implies #[trigger] out@[q] == next[q] by {
                    if q < 4 * i {
                        assert(q / 4 < i);
                    } else {
                        assert(q / 4 == i);
                    }
                }
                assert(out@ =~= next);
            }
            i = i + 1;
        }
        proof {
            assert(self.raw@.subrange(0, DATA_BUFFER_DWORDS as int) =~= self.raw@);
        }
        out
    }

    /// XORs every word with `key`.
    pub fn encrypt_xor(&mut self, key: u32)
        requires
            old(self).wf(),
        ensures
            final(self).wf(),
            final(self).pos() == old(self).pos(),
            final(self).words() == Seq::new(
                DATA_BUFFER_DWORDS as nat,
                |i: int| old(self).words()[i] ^ key,
            ),
    {
        let c = self.cursor;
        let ghost w0 = self.raw@;
        let mut raw: Vec<u32> = Vec::new();
        std::mem::swap(&mut raw, &mut self.raw);
        let mut i: usize = 0;
        while i < DATA_BUFFER_DWORDS
            invariant
                i <= DATA_BUFFER_DWORDS,
                raw@.len() == DATA_BUFFER_DWORDS,
                w0.len() == DATA_BUFFER_DWORDS,
                forall|q: int|
                    0 <= q < DATA_BUFFER_DWORDS ==> #[trigger] raw@[q] == if q < i {
                        w0[q] ^ key
                    } else {
                        w0[q]
                    },
            decreases DATA_BUFFER_DWORDS - i,
        {
            let v = raw[i] ^ key;
            raw.set(i, v);
            i = i + 1;
        }
        *self = DataBuffer { raw, cursor: c };
        proof {
            assert(self.raw@ =~= Seq::new(DATA_BUFFER_DWORDS as nat, |i: int| w0[i] ^ key));
        }
    }

    /// The size of the buffer in bytes.
    pub fn size_in_bytes(&self) -> (n: usize)
        ensures
            n == DATA_BUFFER_DWORDS * 4,
    {
        DATA_BUFFER_DWORDS * 4
    }
}

impl Default for DataBuffer {
    fn default() -> (buf: Self)
        ensures
            buf.wf(),
            buf.words() == Seq::new(DATA_BUFFER_DWORDS as nat, |i: int| 0u32),
            buf.pos() == 0,
    {
        DataBuffer::new()
    }
}

/// Law: XOR-ing with the same key twice restores the words.
pub proof fn lemma_encrypt_xor_involution(w: Seq<u32>, key: u32)
    requires
        w.len() == DATA_BUFFER_DWORDS,
    ensures
        Seq::new(
            DATA_BUFFER_DWORDS as nat,
            |i: int| Seq::new(DATA_BUFFER_DWORDS as nat, |j: int| w[j] ^ key)[i] ^ key,
        ) == w,
{
    let twice = Seq::new(
        DATA_BUFFER_DWORDS as nat,
        |i: int| Seq::new(DATA_BUFFER_DWORDS as nat, |j: int| w[j] ^ key)[i] ^ key,
    );
    assert forall|i: int| 0 <= i < DATA_BUFFER_DWORDS implies twice[i] == w[i] by {
        let x = w[i];
        assert((x ^ key) ^ key == x) by (bit_vector);
    }
    assert(twice =~= w);
}

} // verus!
