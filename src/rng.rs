//! A byte stream over the ShiShuA generator.
use vstd::prelude::*;

use crate::state::{block_words, round_model, rounds, seeded_model, ShiShuAState, StateModel};

verus! {

/// Number of bytes in one block: the sixteen words of a round.
pub const BLOCK_BYTES: usize = 128;

/// Byte `k` of `w` counted from the least significant end.
pub open spec fn le_byte(w: u64, k: int) -> u8 {
    (w >> ((8 * k) as u64)) as u8
}

/// Words written out little-endian, one after the other.
pub open spec fn words_le_bytes(w: Seq<u64>) -> Seq<u8> {
    Seq::new(8 * w.len(), |i: int| le_byte(w[i / 8], i % 8))
}

/// The number that bytes give read little-endian.
pub open spec fn le_value(b: Seq<u8>) -> nat
    decreases b.len(),
{
    if b.len() == 0 {
        0
    } else {
        b[0] as nat + 256 * le_value(b.drop_first())
    }
}

/// The 128 bytes of a round from `m`.
pub open spec fn block_bytes(m: StateModel) -> Seq<u8> {
    words_le_bytes(block_words(m))
}

/// Byte `i` of the stream that rounds from `m` produce: byte `i % 128` of
/// the block of round `i / 128`.
pub open spec fn stream_byte(m: StateModel, i: nat) -> u8 {
    block_bytes(rounds(m, i / 128))[(i % 128) as int]
}

/// The first `n` bytes of the stream seeded with `seed`.
pub open spec fn seed_stream(seed: Seq<u64>, n: nat) -> Seq<u8> {
    Seq::new(n, |j: int| stream_byte(seeded_model(seed), j as nat))
}

/// A byte stream as its generator, its buffer and the position of the next
/// buffered byte (128 when the buffer is drained).
pub struct RngModel {
    pub state: StateModel,
    pub buffer: Seq<u8>,
    pub index: nat,
}

impl RngModel {
    /// The buffer is one block long and the position lies within it or at
    /// its end.
    pub open spec fn wf(self) -> bool {
        self.buffer.len() == 128 && self.index <= 128
    }

    /// Byte `i` of what the stream will produce from here: the bytes left in
    /// the buffer, then the stream of the generator.
    pub open spec fn upcoming(self, i: int) -> u8 {
        if self.index + i < 128 {
            self.buffer[(self.index + i) as int]
        } else {
            stream_byte(self.state, (self.index + i - 128) as nat)
        }
    }

    /// The next `n` bytes of the stream.
    pub open spec fn peek(self, n: nat) -> Seq<u8> {
        Seq::new(n, |j: int| self.upcoming(j))
    }

    /// `self` is the stream `before` once `n` bytes have been taken from it.
    pub open spec fn advanced_by(self, before: RngModel, n: nat) -> bool {
        &&& self.wf()
        &&& forall|j: int| 0 <= j ==> #[trigger] self.upcoming(j) == before.upcoming(j + n)
    }

    /// `self` is a stream freshly seeded with `seed`.
    pub open spec fn fresh_from(self, seed: Seq<u64>) -> bool {
        &&& self.wf()
        &&& forall|j: int| 0 <= j ==> #[trigger] self.upcoming(j) == stream_byte(seeded_model(seed), j as nat)
    }
}

/// A round from `m` followed by the rest is the stream from `m`.
proof fn lemma_rounds_shift(m: StateModel, n: nat)
    ensures
        rounds(m, n + 1) == rounds(round_model(m), n),
    decreases n,
{
    reveal_with_fuel(rounds, 2);
    if n > 0 {
        lemma_rounds_shift(m, (n - 1) as nat);
    }
}

/// The stream from `m` is the block of `m` followed by the stream from the
/// next round.
proof fn lemma_stream_step(m: StateModel, i: nat)
    ensures
        i < 128 ==> stream_byte(m, i) == block_bytes(m)[i as int],
        stream_byte(m, i + 128) == stream_byte(round_model(m), i),
{
    lemma_rounds_shift(m, i / 128);
    assert((i + 128) / 128 == i / 128 + 1);
    assert((i + 128) % 128 == i % 128);
}

/// Writes the words little-endian into `out[start..start + 128]`.
fn write_block(words: &[u64; 16], out: &mut [u8], start: usize)
    requires
        start + 128 <= old(out)@.len(),
    ensures
        final(out)@.len() == old(out)@.len(),
        forall|k: int|
            0 <= k < final(out)@.len() && !(start <= k < start + 128) ==> #[trigger] final(out)@[k]
                == old(out)@[k],
        forall|i: int| 0 <= i < 128 ==> #[trigger] final(out)@[start + i] == words_le_bytes(words@)[i],
{
    let len = out.len();
    let mut i: usize = 0;
    while i < BLOCK_BYTES
        invariant
            i <= 128,
            len == out@.len(),
            start + 128 <= out@.len(),
            out@.len() == old(out)@.len(),
            forall|k: int|
                0 <= k < out@.len() && !(start <= k < start + i) ==> #[trigger] out@[k]
                    == old(out)@[k],
            forall|j: int| 0 <= j < i ==> #[trigger] out@[start + j] == words_le_bytes(words@)[j],
        decreases 128 - i,
    {
        out[start + i] = #[verifier::truncate] ((words[i / 8] >> ((8 * (i % 8)) as u64)) as u8);
        i += 1;
    }
}

/// A byte stream over `ShiShuAState`: each round's sixteen words are cut
/// into bytes, and an internal buffer keeps what a request leaves over.
pub struct ShiShuARng {
    state: ShiShuAState,
    buffer: [u8; 128],
    buffer_index: usize,
}

impl View for ShiShuARng {
    type V = RngModel;

    closed spec fn view(&self) -> RngModel {
        RngModel { state: self.state@, buffer: self.buffer@, index: self.buffer_index as nat }
    }
}

impl ShiShuARng {
    /// A stream seeded with `seed`, its buffer drained.
    pub fn new(seed: [u64; 4]) -> (r: Self)
        ensures
            r@.fresh_from(seed@),
            r@.state == seeded_model(seed@),
            r@.index == 128,
    {
        ShiShuARng { state: ShiShuAState::new(seed), buffer: [0; 128], buffer_index: BLOCK_BYTES }
    }

    /// The next byte of the stream; a drained buffer is refilled first with
    /// the next round.
    pub fn get_byte(&mut self) -> (r: u8)
        requires
            old(self)@.wf(),
        ensures
            r == old(self)@.upcoming(0),
            final(self)@.advanced_by(old(self)@, 1),
    {
        let ghost start = self@;
        if self.buffer_index >= BLOCK_BYTES {
            let ghost m = self.state@;
            let data = self.state.round_unpack();
            write_block(&data, &mut self.buffer, 0);
            self.buffer_index = 0;
            proof {
                assert forall|j: int| 0 <= j implies #[trigger] self@.upcoming(j) == start.upcoming(j) by {
                    lemma_stream_step(m, j as nat);
                    if j >= 128 {
                        lemma_stream_step(m, (j - 128) as nat);
                    }
                }
            }
        }
        let ghost mid = self@;
        assert(forall|j: int| 0 <= j ==> #[trigger] mid.upcoming(j) == start.upcoming(j));
        let index = self.buffer_index;
        self.buffer_index += 1;
        proof {
            assert(mid.upcoming(0) == start.upcoming(0));
            assert forall|j: int| 0 <= j implies #[trigger] self@.upcoming(j) == start.upcoming(j + 1) by {
                assert(mid.upcoming(j + 1) == start.upcoming(j + 1));
            }
        }
        self.buffer[index]
    }

    /// Fills `dest` with the next `dest.len()` bytes of the stream: first
    /// what is left in the buffer, then whole rounds written straight into
    /// `dest`, then single bytes for a tail shorter than a block.
    pub fn fill_bytes(&mut self, dest: &mut [u8])
        requires
            old(self)@.wf(),
        ensures
            final(dest)@ == old(self)@.peek(old(dest)@.len()),
            final(self)@.advanced_by(old(self)@, old(dest)@.len()),
            old(dest)@.len() == 0 ==> final(self)@ == old(self)@,
    {
        let ghost start = self@;
        let len = dest.len();
        let mut pos: usize = 0;
        while self.buffer_index < BLOCK_BYTES && pos < len
            invariant
                self@.wf(),
                pos <= len,
                len == dest@.len(),
                len == old(dest)@.len(),
                len == 0 ==> self@ == start,
                forall|j: int| 0 <= j < pos ==> #[trigger] dest@[j] == start.upcoming(j),
                forall|j: int| 0 <= j ==> #[trigger] self@.upcoming(j) == start.upcoming(j + pos),
            decreases len - pos,
        {
            let ghost before = self@;
            dest[pos] = self.buffer[self.buffer_index];
            self.buffer_index += 1;
            proof {
                assert(before.upcoming(0) == start.upcoming(pos as int));
                assert forall|j: int| 0 <= j implies #[trigger] self@.upcoming(j) == start.upcoming(j + pos + 1) by {
                    assert(before.upcoming(j + 1) == start.upcoming(j + 1 + pos));
                }
            }
            pos += 1;
        }
        while len - pos >= BLOCK_BYTES
            invariant
                self@.wf(),
                pos <= len,
                len == dest@.len(),
                len == old(dest)@.len(),
                len == 0 ==> self@ == start,
                pos < len ==> self@.index == 128,
                forall|j: int| 0 <= j < pos ==> #[trigger] dest@[j] == start.upcoming(j),
                forall|j: int| 0 <= j ==> #[trigger] self@.upcoming(j) == start.upcoming(j + pos),
            decreases len - pos,
        {
            let ghost before = self@;
            let data = self.state.round_unpack();
            write_block(&data, dest, pos);
            proof {
                assert forall|j: int| 0 <= j < pos + 128 implies #[trigger] dest@[j]
                    == start.upcoming(j) by {
                    if j >= pos {
                        let i = j - pos;
                        assert(dest@[pos + i] == words_le_bytes(data@)[i]);
                        lemma_stream_step(before.state, i as nat);
                        assert(before.upcoming(i) == start.upcoming(i + pos));
                    }
                }
                assert forall|j: int| 0 <= j implies #[trigger] self@.upcoming(j) == start.upcoming(
                    j + pos + 128,
                ) by {
                    lemma_stream_step(before.state, j as nat);
                    assert(before.upcoming(j + 128) == start.upcoming(j + 128 + pos));
                }
            }
            pos += BLOCK_BYTES;
        }
        while pos < len
            invariant
                self@.wf(),
                pos <= len,
                len == dest@.len(),
                len == old(dest)@.len(),
                len == 0 ==> self@ == start,
                forall|j: int| 0 <= j < pos ==> #[trigger] dest@[j] == start.upcoming(j),
                forall|j: int| 0 <= j ==> #[trigger] self@.upcoming(j) == start.upcoming(j + pos),
            decreases len - pos,
        {
            let ghost before = self@;
            let b = self.get_byte();
            dest[pos] = b;
            proof {
                assert(before.upcoming(0) == start.upcoming(pos as int));
                assert forall|j: int| 0 <= j implies #[trigger] self@.upcoming(j) == start.upcoming(j + pos + 1) by {
                    assert(before.upcoming(j + 1) == start.upcoming(j + 1 + pos));
                }
            }
            pos += 1;
        }
        assert(dest@ =~= start.peek(len as nat));
    }
    /// The next four bytes of the stream read as a little-endian number.
    pub fn next_u32(&mut self) -> (r: u32)
        requires
            old(self)@.wf(),
        ensures
            r as nat == le_value(old(self)@.peek(4)),
            final(self)@.advanced_by(old(self)@, 4),
    {
        let mut buffer = [0u8; 4];
        self.fill_bytes(&mut buffer);
        let b0 = buffer[0];
        let b1 = buffer[1];
        let b2 = buffer[2];
        let b3 = buffer[3];
        let r = (b0 as u32) | ((b1 as u32) << 8) | ((b2 as u32) << 16) | ((b3 as u32) << 24);
        proof {
            reveal_with_fuel(le_value, 5);
            assert(r == b0 + 0x100 * b1 + 0x1_0000 * b2 + 0x100_0000 * b3) by (bit_vector)
                requires
                    r == (b0 as u32) | ((b1 as u32) << 8) | ((b2 as u32) << 16) | ((b3 as u32)
                        << 24),
            ;
            let p = buffer@;
            assert(p.drop_first().drop_first().drop_first().drop_first().len() == 0);
        }
        r
    }

    /// The next eight bytes of the stream read as a little-endian number.
    pub fn next_u64(&mut self) -> (r: u64)
        requires
            old(self)@.wf(),
        ensures
            r as nat == le_value(old(self)@.peek(8)),
            final(self)@.advanced_by(old(self)@, 8),
    {
        let mut buffer = [0u8; 8];
        self.fill_bytes(&mut buffer);
        let b0 = buffer[0];
        let b1 = buffer[1];
        let b2 = buffer[2];
        let b3 = buffer[3];
        let b4 = buffer[4];
        let b5 = buffer[5];
        let b6 = buffer[6];
        let b7 = buffer[7];
        let r = (b0 as u64) | ((b1 as u64) << 8) | ((b2 as u64) << 16) | ((b3 as u64) << 24) | ((
        b4 as u64) << 32) | ((b5 as u64) << 40) | ((b6 as u64) << 48) | ((b7 as u64) << 56);
        proof {
            reveal_with_fuel(le_value, 9);
            assert(r == b0 + 0x100 * b1 + 0x1_0000 * b2 + 0x100_0000 * b3 + 0x1_0000_0000 * b4
                + 0x100_0000_0000 * b5 + 0x1_0000_0000_0000 * b6 + 0x100_0000_0000_0000 * b7)
                by (bit_vector)
                requires
                    r == (b0 as u64) | ((b1 as u64) << 8) | ((b2 as u64) << 16) | ((b3 as u64)
                        << 24) | ((b4 as u64) << 32) | ((b5 as u64) << 40) | ((b6 as u64) << 48)
                        | ((b7 as u64) << 56),
            ;
            let p = buffer@;
            assert(p.drop_first().drop_first().drop_first().drop_first().drop_first().drop_first().drop_first().drop_first().len() == 0);
        }
        r
    }
}

} // verus!
