use rustic::{
    blue_noise_seeds, draw_uniform_seeds, lds_bits, pcg_hash, uniform_seeds, RngSeed, RngState,
};

#[test]
fn pcg_hash_known_values() {
    assert_eq!(pcg_hash(0), 129708002);
    assert_eq!(pcg_hash(1), 2831084092);
    assert_eq!(pcg_hash(12345), 4099845390);
    assert_eq!(pcg_hash(u32::MAX), 3861530882);
}

#[test]
fn pcg_hash_is_deterministic() {
    assert_eq!(pcg_hash(777), pcg_hash(777));
    assert_ne!(pcg_hash(777), pcg_hash(778));
}

#[test]
fn lds_bits_known_values() {
    assert_eq!(lds_bits(5, 1, 7), 3369872944);
    assert_eq!(lds_bits(u32::MAX, 2, 3), 2027808484);
    assert_eq!(lds_bits(0, 0, 0), 0);
}

#[test]
fn rng_state_walks_dimensions() {
    let mut rng = RngState::new(RngSeed { index: 5, seed: 7 });
    assert_eq!(rng.dimension(), 0);
    let first = rng.gen_r1_bits();
    assert_eq!(first, lds_bits(5, 1, 7));
    assert_eq!(first, 3369872944);
    let second = rng.gen_r1_bits();
    assert_eq!(second, lds_bits(5, 2, 7));
    assert_eq!(rng.dimension(), 2);
}

#[test]
fn rng_next_state_advances_index_only() {
    let rng = RngState::new(RngSeed { index: 41, seed: 99 });
    assert_eq!(rng.next_state(), RngSeed { index: 42, seed: 99 });
    let last = RngState::new(RngSeed { index: u32::MAX, seed: 3 });
    assert_eq!(last.next_state(), RngSeed { index: 0, seed: 3 });
}

#[test]
fn blue_noise_seeds_tile_the_texture() {
    let texture = vec![10, 11, 12, 13];
    let seeds = blue_noise_seeds(3, 3, &texture, 2, 2);
    assert_eq!(seeds.len(), 9);
    let expected = [10, 11, 10, 12, 13, 12, 10, 11, 10];
    for (i, seed) in seeds.iter().enumerate() {
        assert_eq!(*seed, RngSeed { index: 0, seed: expected[i] });
    }
}

#[test]
fn blue_noise_seeds_empty_frame() {
    let texture = vec![1];
    assert!(blue_noise_seeds(0, 5, &texture, 1, 1).is_empty());
}

#[test]
fn uniform_seeds_keep_values_as_indices() {
    let seeds = uniform_seeds(&vec![4, 0, u32::MAX]);
    assert_eq!(
        seeds,
        vec![
            RngSeed { index: 4, seed: 0 },
            RngSeed { index: 0, seed: 0 },
            RngSeed { index: u32::MAX, seed: 0 },
        ]
    );
}

#[test]
fn drawn_uniform_seeds_have_zero_seed() {
    let seeds = draw_uniform_seeds(64);
    assert_eq!(seeds.len(), 64);
    assert!(seeds.iter().all(|s| s.seed == 0));
    // 64 draws of a uniform u32 are all equal with negligible probability
    assert!(seeds.iter().any(|s| s.index != seeds[0].index));
}
