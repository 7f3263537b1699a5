use mi_plaits_dsp::utils::random::{
    get_sample, get_word, is_thread_local, seed, state, DEFAULT_SEED,
};

#[test]
fn default_seed_draws_the_reference_stream() {
    let mut rng = DEFAULT_SEED;
    assert_eq!(get_word(&mut rng), 1068833548);
    assert_eq!(state(&rng), 1068833548);
    assert_eq!(get_word(&mut rng), 1167334139);
    assert_eq!(get_word(&mut rng), 1782010910);
}

#[test]
fn reseeding_replays_the_stream() {
    let mut rng = 0u32;
    seed(&mut rng, 12345);
    let first: Vec<u32> = (0..8).map(|_| get_word(&mut rng)).collect();
    seed(&mut rng, 12345);
    let second: Vec<u32> = (0..8).map(|_| get_word(&mut rng)).collect();
    assert_eq!(first, second);
}

#[test]
fn words_wrap_around() {
    let mut rng = u32::MAX;
    let expected = (u32::MAX as u64 * 1664525 + 1013904223) % (1u64 << 32);
    assert_eq!(get_word(&mut rng) as u64, expected);
}

#[test]
fn samples_are_the_upper_half_of_the_word() {
    let mut rng = DEFAULT_SEED;
    assert_eq!(get_sample(&mut rng), 16309);
    assert_eq!(state(&rng), 1068833548);

    // A word with the top bit set gives a negative sample.
    let mut rng = 0u32;
    let mut found = false;
    for _ in 0..16 {
        let before = rng;
        let sample = get_sample(&mut rng);
        assert_eq!(sample, (rng >> 16) as u16 as i16);
        assert_ne!(before, rng);
        if sample < 0 {
            found = true;
        }
    }
    assert!(found);
}

#[test]
fn the_state_belongs_to_the_caller() {
    assert!(is_thread_local());
}
