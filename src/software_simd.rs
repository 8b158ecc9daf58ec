//! A portable fixed-width lane vector: the scalar backend of the generator.
use vstd::prelude::*;

verus! {

/// A vector of `N` lanes of `T`, held as a plain array.
#[derive(Copy, Clone, PartialEq, Eq, Hash, Debug)]
pub struct SoftwareSimd<T, const N: usize>(pub [T; N]);

/// Four lanes of 64-bit words.
pub type u64x4 = SoftwareSimd<u64, 4>;

/// Eight lanes of 32-bit words.
pub type u32x8 = SoftwareSimd<u32, 8>;

/// The modulus of 64-bit wrapping arithmetic.
pub open spec fn word_modulus() -> int {
    0x1_0000_0000_0000_0000
}

/// Lane-wise wrapping sum of two lane sequences.
pub open spec fn lanes_add(a: Seq<u64>, b: Seq<u64>) -> Seq<u64> {
    Seq::new(a.len(), |i: int| ((a[i] + b[i]) % word_modulus()) as u64)
}

/// Lane-wise exclusive or of two lane sequences.
pub open spec fn lanes_xor(a: Seq<u64>, b: Seq<u64>) -> Seq<u64> {
    Seq::new(a.len(), |i: int| a[i] ^ b[i])
}

/// Lane-wise logical right shift by `n` bits.
pub open spec fn lanes_shr(a: Seq<u64>, n: u64) -> Seq<u64> {
    Seq::new(a.len(), |i: int| a[i] >> n)
}

/// The `k`-th 32-bit half of 64-bit lanes read as 32-bit lanes:
/// lane `i` gives the halves `2i` (its low bits) and `2i + 1` (its high bits).
pub open spec fn half_of(a: Seq<u64>, k: int) -> u32 {
    if k % 2 == 0 {
        a[k / 2] as u32
    } else {
        (a[k / 2] >> 32u64) as u32
    }
}

/// 64-bit lanes read as twice as many 32-bit lanes.
pub open spec fn lanes_split(a: Seq<u64>) -> Seq<u32> {
    Seq::new(2 * a.len(), |k: int| half_of(a, k))
}

/// A 64-bit word from its low and high 32-bit halves.
pub open spec fn join_halves(lo: u32, hi: u32) -> u64 {
    ((hi as u64) << 32u64) | (lo as u64)
}

/// 32-bit lanes read pairwise, low half first, as 64-bit lanes.
pub open spec fn lanes_join(h: Seq<u32>) -> Seq<u64> {
    Seq::new(h.len() / 2, |i: int| join_halves(h[2 * i], h[2 * i + 1]))
}

/// The lanes of `h` picked in the order that `table` gives: lane `j` of the
/// result is lane `table[j]` of `h`.
pub open spec fn lanes_swizzle(h: Seq<u32>, table: Seq<usize>) -> Seq<u32> {
    Seq::new(table.len(), |j: int| h[table[j] as int])
}

/// Four 64-bit lanes read as eight 32-bit lanes, rearranged by `table`, and
/// read back as four 64-bit lanes.
pub open spec fn lanes_permute32(a: Seq<u64>, table: Seq<usize>) -> Seq<u64> {
    lanes_join(lanes_swizzle(lanes_split(a), table))
}

/// Every entry of `table` names one of eight lanes.
pub open spec fn valid_table(table: Seq<usize>) -> bool {
    forall|j: int| 0 <= j < table.len() ==> table[j] < 8
}

impl<T, const N: usize> View for SoftwareSimd<T, N> {
    type V = Seq<T>;

    open spec fn view(&self) -> Seq<T> {
        self.0@
    }
}

impl<T: Copy, const N: usize> SoftwareSimd<T, N> {
    /// A vector with every lane equal to `value`.
    pub fn splat(value: T) -> (r: Self)
        ensures
            r@.len() == N,
            forall|i: int| 0 <= i < N ==> r@[i] == value,
    {
        Self([value; N])
    }

    /// The vector whose lanes are `array`, in order.
    pub fn from_array(array: [T; N]) -> (r: Self)
        ensures
            r@ == array@,
    {
        Self(array)
    }

    /// The lanes of the vector, in order.
    pub fn to_array(self) -> (r: [T; N])
        ensures
            r@ == self@,
    {
        self.0
    }
}

impl SoftwareSimd<u64, 4> {
    /// Lane-wise wrapping addition.
    pub fn wrapping_add(self, rhs: Self) -> (r: Self)
        ensures
            r@ == lanes_add(self@, rhs@),
    {
        let a = self.0;
        let b = rhs.0;
        let r = SoftwareSimd(
            [
                a[0].wrapping_add(b[0]),
                a[1].wrapping_add(b[1]),
                a[2].wrapping_add(b[2]),
                a[3].wrapping_add(b[3]),
            ],
        );
        assert(r@ =~= lanes_add(self@, rhs@));
        r
    }

    /// Lane-wise exclusive or.
    pub fn bitxor(self, rhs: Self) -> (r: Self)
        ensures
            r@ == lanes_xor(self@, rhs@),
    {
        let a = self.0;
        let b = rhs.0;
        let r = SoftwareSimd([a[0] ^ b[0], a[1] ^ b[1], a[2] ^ b[2], a[3] ^ b[3]]);
        assert(r@ =~= lanes_xor(self@, rhs@));
        r
    }

    /// Lane-wise logical right shift by `n` bits.
    pub fn shr(self, n: u64) -> (r: Self)
        requires
            n < 64,
        ensures
            r@ == lanes_shr(self@, n),
    {
        let a = self.0;
        let r = SoftwareSimd([a[0] >> n, a[1] >> n, a[2] >> n, a[3] >> n]);
        assert(r@ =~= lanes_shr(self@, n));
        r
    }

    /// The same bits read as eight 32-bit lanes, low half of each lane first.
    pub fn split_halves(self) -> (r: u32x8)
        ensures
            r@ == lanes_split(self@),
    {
        let a = self.0;
        let r = SoftwareSimd(
            [
                a[0] as u32,
                (a[0] >> 32) as u32,
                a[1] as u32,
                (a[1] >> 32) as u32,
                a[2] as u32,
                (a[2] >> 32) as u32,
                a[3] as u32,
                (a[3] >> 32) as u32,
            ],
        );
        assert(r@ =~= lanes_split(self@));
        r
    }

    /// Lane-wise 32-bit permutation: lane `j` of the eight 32-bit lanes of the
    /// result is lane `table[j]` of the eight 32-bit lanes of `self`.
    pub fn permute32(self, table: [usize; 8]) -> (r: Self)
        requires
            valid_table(table@),
        ensures
            r@ == lanes_permute32(self@, table@),
    {
        self.split_halves().swizzle(table).join_halves()
    }
}

impl SoftwareSimd<u32, 8> {
    /// The lanes picked in the order that `table` gives.
    pub fn swizzle(self, table: [usize; 8]) -> (r: Self)
        requires
            valid_table(table@),
        ensures
            r@ == lanes_swizzle(self@, table@),
    {
        let h = self.0;
        let r = SoftwareSimd(
            [
                h[table[0]],
                h[table[1]],
                h[table[2]],
                h[table[3]],
                h[table[4]],
                h[table[5]],
                h[table[6]],
                h[table[7]],
            ],
        );
        assert(r@ =~= lanes_swizzle(self@, table@));
        r
    }

    /// The same bits read as four 64-bit lanes, pairing each low half with
    /// the high half that follows it.
    pub fn join_halves(self) -> (r: u64x4)
        ensures
            r@ == lanes_join(self@),
    {
        let h = self.0;
        let r = SoftwareSimd(
            [
                ((h[1] as u64) << 32) | (h[0] as u64),
                ((h[3] as u64) << 32) | (h[2] as u64),
                ((h[5] as u64) << 32) | (h[4] as u64),
                ((h[7] as u64) << 32) | (h[6] as u64),
            ],
        );
        assert(r@ =~= lanes_join(self@));
        r
    }
}

} // verus!
