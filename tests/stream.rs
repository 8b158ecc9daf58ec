use shishua::{u32x8, u64x4, ShiShuARng, ShiShuAState, SoftwareSimd};

const SEED: [u64; 4] = [0x1234_5678_9ABC_DEF0, 0x1234_5678_9ABC_DEF1, 7, 0xFFFF_FFFF_FFFF_FFFF];

fn fill(rng: &mut ShiShuARng, n: usize) -> Vec<u8> {
    let mut out = vec![0u8; n];
    rng.fill_bytes(&mut out);
    out
}

#[test]
fn chunked_fills_match_one_fill() {
    let whole = fill(&mut ShiShuARng::new(SEED), 1000);
    let mut rng = ShiShuARng::new(SEED);
    let mut parts = Vec::new();
    for size in [1usize, 7, 128, 0, 3, 300, 561] {
        parts.extend(fill(&mut rng, size));
    }
    assert_eq!(parts, whole);
}

#[test]
fn byte_by_byte_matches_one_fill() {
    let whole = fill(&mut ShiShuARng::new(SEED), 300);
    let mut rng = ShiShuARng::new(SEED);
    let bytes: Vec<u8> = (0..300).map(|_| rng.get_byte()).collect();
    assert_eq!(bytes, whole);
}

#[test]
fn mixed_single_and_bulk_reads() {
    let whole = fill(&mut ShiShuARng::new(SEED), 600);
    let mut rng = ShiShuARng::new(SEED);
    let mut got = vec![rng.get_byte()];
    got.extend(fill(&mut rng, 400));
    got.push(rng.get_byte());
    got.extend(fill(&mut rng, 198));
    assert_eq!(got, whole);
}

#[test]
fn same_seed_same_bytes() {
    let a = fill(&mut ShiShuARng::new(SEED), 513);
    let b = fill(&mut ShiShuARng::new(SEED), 513);
    assert_eq!(a, b);
    let c = fill(&mut ShiShuARng::new([1, 2, 3, 4]), 513);
    assert_ne!(a, c);
}

#[test]
fn fill_gives_exactly_the_requested_length() {
    let whole = fill(&mut ShiShuARng::new(SEED), 300);
    for n in [0usize, 1, 127, 128, 129, 255, 256, 257, 300] {
        let got = fill(&mut ShiShuARng::new(SEED), n);
        assert_eq!(got.len(), n);
        assert_eq!(&got[..], &whole[..n]);
    }
}

#[test]
fn empty_fill_consumes_nothing() {
    let expected = fill(&mut ShiShuARng::new(SEED), 16);
    let mut rng = ShiShuARng::new(SEED);
    let mut empty: [u8; 0] = [];
    rng.fill_bytes(&mut empty);
    assert_eq!(fill(&mut rng, 16), expected);
}

#[test]
fn next_u32_reads_four_bytes_little_endian() {
    let bytes = fill(&mut ShiShuARng::new(SEED), 8);
    let mut rng = ShiShuARng::new(SEED);
    assert_eq!(rng.next_u32(), u32::from_le_bytes([bytes[0], bytes[1], bytes[2], bytes[3]]));
    assert_eq!(rng.next_u32(), u32::from_le_bytes([bytes[4], bytes[5], bytes[6], bytes[7]]));
}

#[test]
fn next_u64_reads_eight_bytes_little_endian() {
    let bytes = fill(&mut ShiShuARng::new(SEED), 13);
    let mut rng = ShiShuARng::new(SEED);
    assert_eq!(rng.get_byte(), bytes[0]);
    let mut word = [0u8; 8];
    word.copy_from_slice(&bytes[1..9]);
    assert_eq!(rng.next_u64(), u64::from_le_bytes(word));
    assert_eq!(
        rng.next_u32(),
        u32::from_le_bytes([bytes[9], bytes[10], bytes[11], bytes[12]])
    );
}

#[test]
fn zero_seed_first_words() {
    let mut state = ShiShuAState::new([0, 0, 0, 0]);
    let words = state.round_unpack();
    assert_eq!(words[0], u64::from_le_bytes([149, 93, 150, 249, 15, 180, 170, 83]));
    assert_eq!(words[15], u64::from_le_bytes([81, 45, 206, 52, 139, 166, 3, 241]));
}

#[test]
fn rounds_serialize_to_the_stream() {
    let bytes = fill(&mut ShiShuARng::new(SEED), 256);
    let mut state = ShiShuAState::new(SEED);
    let mut serialized = Vec::new();
    for _ in 0..2 {
        for word in state.round_unpack() {
            serialized.extend_from_slice(&word.to_le_bytes());
        }
    }
    assert_eq!(serialized, bytes);
}

#[test]
fn splat_and_arrays() {
    let v: u64x4 = SoftwareSimd::splat(9);
    assert_eq!(v.to_array(), [9, 9, 9, 9]);
    let w: u64x4 = SoftwareSimd::from_array([1, 2, 3, 4]);
    assert_eq!(w.to_array(), [1, 2, 3, 4]);
    let h: u32x8 = SoftwareSimd::splat(5);
    assert_eq!(h.to_array(), [5; 8]);
}

#[test]
fn lane_arithmetic() {
    let a: u64x4 = SoftwareSimd::from_array([u64::MAX, 1, 0xF0, 1 << 63]);
    let b: u64x4 = SoftwareSimd::from_array([2, 3, 0x0F, 1 << 63]);
    assert_eq!(a.wrapping_add(b).to_array(), [1, 4, 0xFF, 0]);
    assert_eq!(a.bitxor(b).to_array(), [u64::MAX - 2, 2, 0xFF, 0]);
    assert_eq!(a.shr(3).to_array(), [u64::MAX >> 3, 0, 0x1E, 1 << 60]);
}

#[test]
fn halves_split_and_join() {
    let a: u64x4 = SoftwareSimd::from_array([
        0x1111_1111_2222_2222,
        0x3333_3333_4444_4444,
        0x5555_5555_6666_6666,
        0x7777_7777_8888_8888,
    ]);
    let h = a.split_halves();
    assert_eq!(
        h.to_array(),
        [
            0x2222_2222, 0x1111_1111, 0x4444_4444, 0x3333_3333, 0x6666_6666, 0x5555_5555,
            0x8888_8888, 0x7777_7777,
        ]
    );
    assert_eq!(h.join_halves().to_array(), a.to_array());
    let r = h.swizzle([1, 0, 3, 2, 5, 4, 7, 6]);
    assert_eq!(r.to_array()[0], 0x1111_1111);
    assert_eq!(
        a.permute32([1, 0, 3, 2, 5, 4, 7, 6]).to_array(),
        [
            0x2222_2222_1111_1111,
            0x4444_4444_3333_3333,
            0x6666_6666_5555_5555,
            0x8888_8888_7777_7777,
        ]
    );
    assert_eq!(
        a.permute32([5, 2, 7, 4, 1, 6, 3, 0]).to_array(),
        [
            0x4444_4444_5555_5555,
            0x6666_6666_7777_7777,
            0x8888_8888_1111_1111,
            0x2222_2222_3333_3333,
        ]
    );
}
