use mi_plaits_dsp::performance::pads::Pads;

#[test]
fn pads_engage_and_release() {
    let mut pads = Pads::new();
    assert_eq!(pads.add(), 0);
    assert_eq!(pads.add(), 1);
    assert_eq!(pads.num_slots(), 2);

    assert!(pads.engage(1));
    assert!(pads.is_engaged(1));
    assert!(!pads.is_engaged(0));

    // A second press changes nothing and is not passed on.
    assert!(!pads.engage(1));
    assert!(pads.is_engaged(1));

    assert!(pads.release(1));
    assert!(!pads.is_engaged(1));
    assert!(!pads.release(1));
}

#[test]
fn pads_ignore_missing_slots() {
    let mut pads = Pads::new();
    pads.add();
    assert!(!pads.engage(5));
    assert!(!pads.release(5));
    assert!(!pads.is_engaged(5));
    assert_eq!(pads.num_slots(), 1);
}

#[test]
fn release_all_reports_the_held_slots() {
    let mut pads = Pads::new();
    for _ in 0..5 {
        pads.add();
    }
    pads.engage(3);
    pads.engage(0);
    pads.engage(4);
    assert_eq!(pads.release_all(), vec![0, 3, 4]);
    for slot in 0..5 {
        assert!(!pads.is_engaged(slot));
    }
    assert!(pads.release_all().is_empty());
}

#[test]
fn reset_lifts_all_pads() {
    let mut pads = Pads::new();
    pads.add();
    pads.add();
    pads.engage(0);
    pads.engage(1);
    pads.reset();
    assert!(!pads.is_engaged(0));
    assert!(!pads.is_engaged(1));
    assert_eq!(pads.num_slots(), 2);
}
