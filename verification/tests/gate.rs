use mi_plaits_dsp::performance::gate::gate_pattern;

#[test]
fn gate_pattern_follows_the_grid() {
    let pattern = gate_pattern(0, 3, 5, 12);
    let expected = [
        true, true, true, false, false, true, true, true, false, false, true, true,
    ];
    assert_eq!(pattern, expected);
}

#[test]
fn gate_pattern_starts_within_the_division() {
    let pattern = gate_pattern(4, 2, 5, 4);
    assert_eq!(pattern, [false, true, true, false]);
}

#[test]
fn gate_pattern_closed_and_open() {
    assert_eq!(gate_pattern(1, 0, 3, 4), [false; 4]);
    assert_eq!(gate_pattern(1, 3, 3, 4), [true; 4]);
    assert!(gate_pattern(0, 1, 1, 0).is_empty());
}
