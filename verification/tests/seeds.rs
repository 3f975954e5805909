use upscale::noise::{paired_samples, splitmix64, tile_seed, top_bits, LOW_RES_TWIST};

#[test]
fn the_word_stream_is_splitmix64() {
    let mut state = 0u64;
    assert_eq!(splitmix64(&mut state), 0xe220_a839_7b1d_cdaf);
    assert_eq!(splitmix64(&mut state), 0x6e78_9e6a_a1b9_65f4);
    assert_eq!(splitmix64(&mut state), 0x06c4_5d18_8009_454f);
    assert_eq!(state, 0x9E37_79B9_7F4A_7C15u64.wrapping_mul(3));
}

#[test]
fn a_draw_is_the_top_53_bits() {
    assert_eq!(top_bits(0xe220_a839_7b1d_cdaf), 7_956_156_453_446_585);
    assert_eq!(top_bits(u64::MAX), (1 << 53) - 1);
    assert_eq!(top_bits(2047), 0);
}

#[test]
fn samples_come_in_pairs_of_draws() {
    let first = |a: u64, b: u64| (0, a, b);
    let second = |a: u64, b: u64| (1, a, b);
    let three = paired_samples(0, 3, &first, &second);
    let four = paired_samples(0, 4, &first, &second);
    assert_eq!(three.len(), 3);
    assert_eq!(three[..], four[..3]);
    let (a, b) = (top_bits(0xe220_a839_7b1d_cdaf), top_bits(0x6e78_9e6a_a1b9_65f4));
    assert_eq!(three[0], (0, a, b));
    assert_eq!(three[1], (1, a, b));
    assert_eq!(three[2].1, top_bits(0x06c4_5d18_8009_454f));
    assert!(paired_samples(7, 0, &first, &second).is_empty());
}

#[test]
fn tile_seeds_are_told_apart() {
    assert_eq!(tile_seed(0x5D5C_A1E0, 0, 0), 0x5D5C_A1E0);
    assert_eq!(tile_seed(0x5D5C_A1E0, 3, 0), 0x6d5c_a1e3);
    assert_eq!(tile_seed(0x5D5C_A1E0, 3, LOW_RES_TWIST), 0xc8f9_0446);
    let mut seen = Vec::new();
    for i in 0..100 {
        for twist in [0, LOW_RES_TWIST] {
            seen.push(tile_seed(1, i, twist));
        }
    }
    seen.sort();
    seen.dedup();
    assert_eq!(seen.len(), 200);
}
