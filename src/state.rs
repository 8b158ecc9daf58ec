//! The ShiShuA state: seed expansion and the round function.
use vstd::prelude::*;

use crate::software_simd::{
    lanes_add, lanes_permute32, lanes_shr, lanes_xor, u64x4, valid_table, SoftwareSimd,
};

verus! {

/// Number of warm-up rounds run while seeding.
pub const WARM_UP_ROUNDS: usize = 13;

/// The key schedule, derived from the golden ratio.
pub const PHI: [u64; 16] = [
    0x9E3779B97F4A7C15,
    0xF39CC0605CEDC834,
    0x1082276BF3A27251,
    0xF86C6A11D0C18E95,
    0x2767F0B153D27B7F,
    0x0347045B5BF1827F,
    0x01886F0928403002,
    0xC1D64BA40F335E36,
    0xF06AD7AE9717877E,
    0x85839D6EFFBD7DC6,
    0x64D325D1C5371682,
    0xCADD0CCCFDFFBBE1,
    0x626E33B8D04B4331,
    0xBBF73C790D94F79D,
    0x471C4AB3ED3D82A5,
    0xFEC507705E4AE6E5,
];

/// The 32-bit lane permutation applied to the even registers, in the lane
/// order of `SoftwareSimd` (low half of each 64-bit lane first).
pub const SHUFFLE_EVEN: [usize; 8] = [5, 2, 7, 4, 1, 6, 3, 0];

/// The 32-bit lane permutation applied to the odd registers.
pub const SHUFFLE_ODD: [usize; 8] = [7, 4, 1, 6, 3, 0, 5, 2];

/// The registers of a generator, each as a sequence of four lanes.
pub struct StateModel {
    pub state: Seq<Seq<u64>>,
    pub output: Seq<Seq<u64>>,
    pub counter: Seq<u64>,
}

/// The per-lane step by which the counter grows each round.
pub open spec fn counter_step() -> Seq<u64> {
    seq![1u64, 3u64, 5u64, 7u64]
}

/// Four zero lanes.
pub open spec fn zero_lanes() -> Seq<u64> {
    seq![0u64, 0u64, 0u64, 0u64]
}

/// The registers after one round from `m`.
pub open spec fn round_model(m: StateModel) -> StateModel {
    let s0 = m.state[0];
    let s1 = lanes_add(m.state[1], m.counter);
    let s2 = m.state[2];
    let s3 = lanes_add(m.state[3], m.counter);
    let u0 = lanes_shr(s0, 1);
    let u1 = lanes_shr(s1, 3);
    let u2 = lanes_shr(s2, 1);
    let u3 = lanes_shr(s3, 3);
    let t0 = lanes_permute32(s0, SHUFFLE_EVEN@);
    let t1 = lanes_permute32(s1, SHUFFLE_ODD@);
    let t2 = lanes_permute32(s2, SHUFFLE_EVEN@);
    let t3 = lanes_permute32(s3, SHUFFLE_ODD@);
    let n0 = lanes_add(t0, u0);
    let n1 = lanes_add(t1, u1);
    let n2 = lanes_add(t2, u2);
    let n3 = lanes_add(t3, u3);
    StateModel {
        state: seq![n0, n1, n2, n3],
        output: seq![lanes_xor(u0, t1), lanes_xor(u2, t3), lanes_xor(n0, n3), lanes_xor(n2, n1)],
        counter: lanes_add(m.counter, counter_step()),
    }
}

/// The sixteen words that a round from `m` returns: the pipeline registers
/// of `m`, each with its lanes reversed, one after the other.
pub open spec fn block_words(m: StateModel) -> Seq<u64> {
    Seq::new(16, |k: int| m.output[k / 4][3 - k % 4])
}

/// The registers after `n` rounds from `m`.
pub open spec fn rounds(m: StateModel, n: nat) -> StateModel
    decreases n,
{
    if n == 0 {
        m
    } else {
        round_model(rounds(m, (n - 1) as nat))
    }
}

/// The registers built from the seed, before warm-up.
pub open spec fn initial_model(seed: Seq<u64>) -> StateModel {
    StateModel {
        state: seq![
            seq![PHI[3], PHI[2] ^ seed[1], PHI[1], PHI[0] ^ seed[0]],
            seq![PHI[7], PHI[6] ^ seed[3], PHI[5], PHI[4] ^ seed[2]],
            seq![PHI[11], PHI[10] ^ seed[3], PHI[9], PHI[8] ^ seed[2]],
            seq![PHI[15], PHI[14] ^ seed[1], PHI[13], PHI[12] ^ seed[0]],
        ],
        output: seq![zero_lanes(), zero_lanes(), zero_lanes(), zero_lanes()],
        counter: zero_lanes(),
    }
}

/// One warm-up step: a round, then the pipeline registers, in reverse
/// order, become the working state.
pub open spec fn warm_up_step(m: StateModel) -> StateModel {
    let n = round_model(m);
    StateModel {
        state: seq![n.output[3], n.output[2], n.output[1], n.output[0]],
        output: n.output,
        counter: n.counter,
    }
}

/// The registers after `k` warm-up steps from `m`.
pub open spec fn warmed(m: StateModel, k: nat) -> StateModel
    decreases k,
{
    if k == 0 {
        m
    } else {
        warm_up_step(warmed(m, (k - 1) as nat))
    }
}

/// The registers of a generator freshly built from `seed`.
pub open spec fn seeded_model(seed: Seq<u64>) -> StateModel {
    warmed(initial_model(seed), WARM_UP_ROUNDS as nat)
}

/// The raw ShiShuA generator: each round yields sixteen 64-bit words.
#[derive(Copy, Clone)]
pub struct ShiShuAState {
    state: [u64x4; 4],
    output: [u64x4; 4],
    counter: u64x4,
}

impl View for ShiShuAState {
    type V = StateModel;

    closed spec fn view(&self) -> StateModel {
        StateModel {
            state: seq![self.state[0]@, self.state[1]@, self.state[2]@, self.state[3]@],
            output: seq![self.output[0]@, self.output[1]@, self.output[2]@, self.output[3]@],
            counter: self.counter@,
        }
    }
}

/// The lanes of four registers.
pub open spec fn registers_view(r: [u64x4; 4]) -> Seq<Seq<u64>> {
    seq![r[0]@, r[1]@, r[2]@, r[3]@]
}

impl ShiShuAState {
    /// A generator seeded with `seed`: the seed is mixed into the key
    /// schedule and diffused by the warm-up rounds, whose output is dropped.
    pub fn new(seed: [u64; 4]) -> (r: Self)
        ensures
            r@ == seeded_model(seed@),
    {
        let mut buffer = [0u64; 16];
        let zero = u64x4::splat(0);
        let mut state = ShiShuAState {
            state: [
                u64x4::from_array([PHI[3], PHI[2] ^ seed[1], PHI[1], PHI[0] ^ seed[0]]),
                u64x4::from_array([PHI[7], PHI[6] ^ seed[3], PHI[5], PHI[4] ^ seed[2]]),
                u64x4::from_array([PHI[11], PHI[10] ^ seed[3], PHI[9], PHI[8] ^ seed[2]]),
                u64x4::from_array([PHI[15], PHI[14] ^ seed[1], PHI[13], PHI[12] ^ seed[0]]),
            ],
            output: [zero, zero, zero, zero],
            counter: zero,
        };
        assert(zero@ =~= zero_lanes());
        assert(state@ == initial_model(seed@));
        let mut step: usize = 0;
        while step < WARM_UP_ROUNDS
            invariant
                step <= WARM_UP_ROUNDS,
                state@ == warmed(initial_model(seed@), step as nat),
            decreases WARM_UP_ROUNDS - step,
        {
            let ghost prev = state@;
            state.generate(&mut buffer);
            proof {
                reveal_with_fuel(rounds, 2);
            }
            state.state = [state.output[3], state.output[2], state.output[1], state.output[0]];
            assert(state@ =~= warm_up_step(prev));
            step += 1;
        }
        state
    }

    /// Fills `out` with the words of successive rounds, one block of sixteen
    /// words per round.
    fn generate(&mut self, out: &mut [u64])
        requires
            old(out)@.len() % 16 == 0,
        ensures
            final(out)@.len() == old(out)@.len(),
            final(self)@ == rounds(old(self)@, old(out)@.len() / 16),
            forall|k: int|
                0 <= k < old(out)@.len() ==> #[trigger] final(out)@[k] == block_words(
                    rounds(old(self)@, (k / 16) as nat),
                )[k % 16],
    {
        let ghost start = self@;
        let len = out.len();
        let blocks = len / 16;
        let mut b: usize = 0;
        while b < blocks
            invariant
                blocks == out@.len() / 16,
                len == out@.len(),
                out@.len() % 16 == 0,
                out@.len() == old(out)@.len(),
                b <= blocks,
                self@ == rounds(start, b as nat),
                forall|k: int|
                    0 <= k < 16 * b ==> #[trigger] out@[k] == block_words(
                        rounds(start, (k / 16) as nat),
                    )[k % 16],
            decreases blocks - b,
        {
            let words = self.round_unpack();
            let mut i: usize = 0;
            while i < 16
                invariant
                    0 <= i <= 16,
                    b < blocks,
                    blocks == out@.len() / 16,
                    len == out@.len(),
                    out@.len() % 16 == 0,
                    out@.len() == old(out)@.len(),
                    words@ == block_words(rounds(start, b as nat)),
                    self@ == rounds(start, (b + 1) as nat),
                    forall|k: int|
                        0 <= k < 16 * b + i ==> #[trigger] out@[k] == block_words(
                            rounds(start, (k / 16) as nat),
                        )[k % 16],
                decreases 16 - i,
            {
                assert(16 * b + i < out@.len());
                out[16 * b + i] = words[i];
                i += 1;
            }
            b += 1;
        }
    }

    /// One round, with its sixteen words in canonical order: the lanes of
    /// each returned register are reversed.
    pub fn round_unpack(&mut self) -> (r: [u64; 16])
        ensures
            r@ == block_words(old(self)@),
            final(self)@ == round_model(old(self)@),
    {
        let raw = self.round();
        let a = raw[0].to_array();
        let b = raw[1].to_array();
        let c = raw[2].to_array();
        let d = raw[3].to_array();
        let r = [
            a[3], a[2], a[1], a[0],
            b[3], b[2], b[1], b[0],
            c[3], c[2], c[1], c[0],
            d[3], d[2], d[1], d[0],
        ];
        assert(r@ =~= block_words(old(self)@));
        r
    }

    /// One round: advances the state and returns the pipeline registers
    /// that the previous round computed.
    fn round(&mut self) -> (r: [u64x4; 4])
        ensures
            registers_view(r) == old(self)@.output,
            final(self)@ == round_model(old(self)@),
    {
        assert(valid_table(SHUFFLE_EVEN@));
        assert(valid_table(SHUFFLE_ODD@));
        let counter = self.counter;
        let s0 = self.state[0];
        let s1 = self.state[1].wrapping_add(counter);
        let s2 = self.state[2];
        let s3 = self.state[3].wrapping_add(counter);
        let next_counter = counter.wrapping_add(SoftwareSimd::from_array([1, 3, 5, 7]));

        let u0 = s0.shr(1);
        let u1 = s1.shr(3);
        let u2 = s2.shr(1);
        let u3 = s3.shr(3);

        let t0 = s0.permute32(SHUFFLE_EVEN);
        let t1 = s1.permute32(SHUFFLE_ODD);
        let t2 = s2.permute32(SHUFFLE_EVEN);
        let t3 = s3.permute32(SHUFFLE_ODD);

        let n0 = t0.wrapping_add(u0);
        let n1 = t1.wrapping_add(u1);
        let n2 = t2.wrapping_add(u2);
        let n3 = t3.wrapping_add(u3);

        let result = self.output;
        self.state = [n0, n1, n2, n3];
        self.output = [u0.bitxor(t1), u2.bitxor(t3), n0.bitxor(n3), n2.bitxor(n1)];
        self.counter = next_counter;
        proof {
            assert(counter_step() =~= seq![1u64, 3u64, 5u64, 7u64]);
            assert(self@ == round_model(old(self)@));
        }
        result
    }
}

} // verus!
