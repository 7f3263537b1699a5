use mi_plaits_dsp::performance::playhead::Playhead;

#[test]
fn playhead_grid_follows_the_position() {
    // 120 BPM at 48 kHz: a sixteenth is 6000 samples.
    let mut playhead = Playhead::new();
    assert_eq!(playhead.position(), 0);

    playhead.advance(3000);
    assert_eq!(playhead.samples_since_grid(6000), 3000);

    playhead.advance(3000);
    assert_eq!(playhead.samples_since_grid(6000), 0);
    assert_eq!(playhead.samples_since_grid(24000), 6000);
    assert_eq!(playhead.position(), 6000);
}

#[test]
fn playhead_reset_and_set_position() {
    let mut playhead = Playhead::new();
    playhead.set_position(100_001);
    assert_eq!(playhead.position(), 100_001);
    assert_eq!(playhead.samples_since_grid(1000), 1);
    assert_eq!(playhead.samples_since_grid(1), 0);
    playhead.reset();
    assert_eq!(playhead.position(), 0);
}

#[test]
fn playhead_wraps_around() {
    let mut playhead = Playhead::new();
    playhead.set_position(u64::MAX - 1);
    playhead.advance(3);
    assert_eq!(playhead.position(), 1);
}
