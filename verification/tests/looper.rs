use mi_plaits_dsp::performance::looper::SliceLooper;
use mi_plaits_dsp::performance::playhead::Playhead;
use mi_plaits_dsp::performance::Division;

#[test]
fn looper_replays_the_captured_slice() {
    // 48 kHz, 120 BPM: a sixteenth is 6000 samples, the history two seconds.
    let loop_length = 6000usize;
    let mut looper = SliceLooper::new(0.0f32);
    looper.init(96000);
    assert_eq!(looper.history_len(), 96000);

    let mut playhead = Playhead::new();
    let input: Vec<f32> = (0..loop_length * 4)
        .map(|n| (n % loop_length) as f32 / loop_length as f32)
        .collect();
    for block in input.chunks(24) {
        looper.record(block);
        playhead.advance(block.len());
    }
    assert_eq!(playhead.samples_since_grid(loop_length), 0);

    assert!(looper.engage(Division::Sixteenth, loop_length, playhead.samples_since_grid(loop_length)));
    assert!(looper.is_active());
    assert_eq!(looper.slice_samples(), loop_length);
    assert_eq!(looper.loop_phase(), 0);

    let mut output = Vec::new();
    let mut wraps = 0;
    for _ in 0..loop_length * 2 {
        let (sample, wrapped) = looper.step_forward(0.0, Division::Sixteenth, loop_length);
        output.push(sample);
        if wrapped {
            wraps += 1;
        }
    }
    assert_eq!(wraps, 2);

    for n in 0..loop_length {
        let expected = n as f32 / loop_length as f32;
        assert_eq!(output[n], expected, "sample {n} of the first repetition");
        assert_eq!(output[n + loop_length], expected, "sample {n} of the second repetition");
    }
}

#[test]
fn looper_engage_starts_at_the_grid_position() {
    let mut looper = SliceLooper::new(0i32);
    looper.init(16);
    let input: Vec<i32> = (1..=16).collect();
    looper.record(&input);

    // The division is 4 samples long and we are 2 samples past a grid line: the
    // slice ends 2 samples ago and playback resumes at its third sample.
    assert!(looper.engage(Division::Sixteenth, 4, 6));
    assert_eq!(looper.slice_samples(), 4);
    assert_eq!(looper.loop_phase(), 2);
    let out: Vec<i32> = (0..6).map(|_| looper.step_forward(0, Division::Sixteenth, 4).0).collect();
    assert_eq!(out, [13, 14, 11, 12, 13, 14]);
}

#[test]
fn looper_without_storage_does_not_engage() {
    let mut looper = SliceLooper::new(0i32);
    assert!(!looper.engage(Division::Quarter, 100, 0));
    assert!(!looper.is_active());
    assert_eq!(looper.slice_samples(), 0);
}

#[test]
fn looper_limits_the_slice_to_its_storage() {
    let mut looper = SliceLooper::new(0i32);
    looper.init(3);
    assert_eq!(looper.history_len(), 8);
    assert!(looper.engage(Division::Bar, 1000, 0));
    assert_eq!(looper.slice_samples(), 4);
    assert_eq!(looper.slice_length(0), 1);
    assert_eq!(looper.slice_length(2), 2);
    assert_eq!(looper.slice_length(9), 4);
}

#[test]
fn looper_follows_a_division_change_at_the_end_of_the_loop() {
    let mut looper = SliceLooper::new(0i32);
    looper.init(16);
    let input: Vec<i32> = (1..=16).collect();
    looper.record(&input);
    assert!(looper.engage(Division::Sixteenth, 4, 0));

    // The loop keeps playing until its end, then grabs the last 3 live samples.
    let mut out = Vec::new();
    for n in 0..7 {
        out.push(looper.step_forward(100 + n, Division::ThirtySecond, 3).0);
    }
    assert_eq!(out, [13, 14, 15, 16, 101, 102, 103]);
    assert_eq!(looper.slice_samples(), 3);
}

#[test]
fn reverse_plays_the_slice_backwards() {
    let mut looper = SliceLooper::new(0i32);
    looper.init(8);
    let input: Vec<i32> = (1..=8).collect();
    looper.record(&input);
    assert!(looper.engage(Division::Sixteenth, 4, 0));

    let mut out = Vec::new();
    let mut distances = Vec::new();
    for n in 0..8 {
        let (sample, distance, _) = looper.step_reverse(10 + n, true, Division::Sixteenth, 4);
        out.push(sample);
        distances.push(distance);
    }
    // Held: the first slice is looped backwards again and again.
    assert_eq!(out, [8, 7, 6, 5, 8, 7, 6, 5]);
    assert_eq!(distances, [0, 1, 1, 0, 0, 1, 1, 0]);
}

#[test]
fn reverse_turns_each_recorded_slice_around() {
    let mut looper = SliceLooper::new(0i32);
    looper.init(8);
    let input: Vec<i32> = (1..=8).collect();
    looper.record(&input);
    assert!(looper.engage(Division::Sixteenth, 4, 0));

    let mut out = Vec::new();
    let mut wraps = Vec::new();
    for n in 0..8 {
        let (sample, _, wrapped) = looper.step_reverse(10 + n, false, Division::Sixteenth, 4);
        out.push(sample);
        wraps.push(wrapped);
    }
    assert_eq!(out, [8, 7, 6, 5, 13, 12, 11, 10]);
    assert_eq!(wraps, [false, false, false, true, false, false, false, true]);
}

#[test]
fn looper_release_and_reset() {
    let mut looper = SliceLooper::new(0i32);
    looper.init(8);
    looper.record(&[1, 2, 3, 4, 5, 6, 7, 8]);
    assert!(looper.engage(Division::Sixteenth, 2, 1));
    looper.release();
    assert!(!looper.is_active());
    assert_eq!(looper.slice_samples(), 2);

    looper.reset();
    assert!(!looper.is_active());
    assert_eq!(looper.slice_samples(), 0);
    assert_eq!(looper.loop_phase(), 0);
    assert!(looper.engage(Division::Sixteenth, 2, 0));
    assert_eq!(looper.step_forward(0, Division::Sixteenth, 2).0, 0);
}
