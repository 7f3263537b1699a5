use mi_plaits_dsp::performance::{
    Division, EffectKind, DIVISIONS, EFFECT_KINDS, NUM_DIVISIONS, TICKS_PER_BEAT,
};

#[test]
fn divisions_are_ordered_from_long_to_short() {
    for pair in DIVISIONS.windows(2) {
        assert!(
            pair[0].ticks() > pair[1].ticks(),
            "{} is not longer than {}",
            pair[0].name(),
            pair[1].name()
        );
    }
}

#[test]
fn division_lengths_in_ticks() {
    assert_eq!(TICKS_PER_BEAT, 48);
    assert_eq!(Division::Bar.ticks(), 4 * TICKS_PER_BEAT);
    assert_eq!(Division::Quarter.ticks(), TICKS_PER_BEAT);
    assert_eq!(Division::HalfTriplet.ticks(), 64);
    assert_eq!(Division::DottedSixteenth.ticks(), 18);
    assert_eq!(Division::SixteenthTriplet.ticks(), 8);
    assert_eq!(Division::SixtyFourth.ticks(), 3);
}

#[test]
fn division_names() {
    let names: Vec<&str> = DIVISIONS.iter().map(|d| d.name()).collect();
    assert_eq!(
        names,
        [
            "1 bar", "1/2", "1/4.", "1/2T", "1/4", "1/8.", "1/4T", "1/8", "1/16.", "1/8T",
            "1/16", "1/16T", "1/32", "1/64"
        ]
    );
}

#[test]
fn division_index_round_trip() {
    assert_eq!(DIVISIONS.len(), NUM_DIVISIONS);
    for (index, division) in DIVISIONS.iter().enumerate() {
        assert_eq!(division.index(), index);
        assert_eq!(Division::from_index(index), *division);
    }
}

#[test]
fn division_from_index_clamps_to_the_shortest() {
    assert_eq!(Division::from_index(0), Division::Bar);
    assert_eq!(Division::from_index(13), Division::SixtyFourth);
    assert_eq!(Division::from_index(14), Division::SixtyFourth);
    assert_eq!(Division::from_index(usize::MAX), Division::SixtyFourth);
}

#[test]
fn default_division_is_an_eighth() {
    assert_eq!(Division::default(), Division::Eighth);
}

#[test]
fn effect_kind_names() {
    let names: Vec<&str> = EFFECT_KINDS.iter().map(|k| k.name()).collect();
    assert_eq!(
        names,
        ["Repeat", "Reverse", "Tape Stop", "Gate", "Filter", "Crush", "Delay"]
    );
    assert_eq!(EffectKind::TapeStop.name(), "Tape Stop");
}
