use mi_plaits_dsp::performance::buffer::RecordBuffer;

#[test]
fn read_returns_samples_in_reverse_order() {
    let mut buffer = RecordBuffer::new(0.0f32);
    buffer.init(8);

    for n in 0..5 {
        buffer.write(n as f32);
    }

    assert_eq!(buffer.read(1), 4.0);
    assert_eq!(buffer.read(2), 3.0);
    assert_eq!(buffer.read(5), 0.0);
}

#[test]
fn read_wraps_around() {
    let mut buffer = RecordBuffer::new(0.0f32);
    buffer.init(4);

    for n in 0..10 {
        buffer.write(n as f32);
    }

    assert_eq!(buffer.read(1), 9.0);
    assert_eq!(buffer.read(4), 6.0);
}

#[test]
fn copy_out_returns_a_forward_running_slice() {
    let mut buffer = RecordBuffer::new(0.0f32);
    buffer.init(16);

    for n in 0..10 {
        buffer.write(n as f32);
    }

    let mut slice = [0.0; 4];
    buffer.copy_out(6, &mut slice);

    assert_eq!(slice, [4.0, 5.0, 6.0, 7.0]);
}

#[test]
fn init_allocates_at_least_four_silent_samples() {
    let mut buffer = RecordBuffer::new(-1i32);
    assert!(buffer.is_empty());
    assert_eq!(buffer.len(), 0);

    buffer.init(2);
    assert_eq!(buffer.len(), 4);
    assert!(!buffer.is_empty());
    for delay in 1..=4 {
        assert_eq!(buffer.read(delay), -1);
    }

    buffer.init(100);
    assert_eq!(buffer.len(), 100);
}

#[test]
fn empty_buffer_reads_silence_and_ignores_writes() {
    let mut buffer = RecordBuffer::new(7u8);
    buffer.write(3);
    assert_eq!(buffer.len(), 0);
    assert_eq!(buffer.read(1), 7);

    let mut dest = [0u8; 3];
    buffer.copy_out(2, &mut dest);
    assert_eq!(dest, [7, 7, 7]);
}

#[test]
fn read_clamps_the_delay() {
    let mut buffer = RecordBuffer::new(0i32);
    buffer.init(4);
    for n in 1..=6 {
        buffer.write(n);
    }
    // Delay 0 reads the newest sample, delays past the length the oldest.
    assert_eq!(buffer.read(0), 6);
    assert_eq!(buffer.read(4), 3);
    assert_eq!(buffer.read(1000), 3);
}

#[test]
fn copy_out_repeats_the_newest_sample_past_the_present() {
    let mut buffer = RecordBuffer::new(0i32);
    buffer.init(8);
    for n in 1..=8 {
        buffer.write(n);
    }
    let mut dest = [0i32; 5];
    buffer.copy_out(3, &mut dest);
    assert_eq!(dest, [6, 7, 8, 8, 8]);
}

#[test]
fn reset_clears_the_history() {
    let mut buffer = RecordBuffer::new(0i32);
    buffer.init(4);
    for n in 1..=3 {
        buffer.write(n);
    }
    buffer.reset();
    assert_eq!(buffer.len(), 4);
    for delay in 1..=4 {
        assert_eq!(buffer.read(delay), 0);
    }
    buffer.write(9);
    assert_eq!(buffer.read(1), 9);
    assert_eq!(buffer.read(2), 0);
}
