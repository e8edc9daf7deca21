use rkbx_link::dmx::{sacn_settings, DmxFrame, SacnSettings};

#[test]
fn settings_are_kept_in_range() {
    assert_eq!(sacn_settings(0, 0, 0), SacnSettings { universe: 1, start_slot: 1, priority: 1 });
    assert_eq!(sacn_settings(7, 600, 250), SacnSettings { universe: 7, start_slot: 511, priority: 200 });
    assert_eq!(sacn_settings(3, 10, 100), SacnSettings { universe: 3, start_slot: 10, priority: 100 });
}

#[test]
fn tempo_and_beat_slots() {
    let mut f = DmxFrame::new(10);
    assert_eq!(f.used().len(), 12);
    f.tempo_changed(128);
    assert_eq!(f.used()[10], 128);
    f.tempo_changed(400);
    assert_eq!(f.used()[10], 250);
    f.tempo_changed(-3);
    assert_eq!(f.used()[10], 0);
    assert!(f.beat_changed(0));
    assert_eq!(f.used()[11], 1);
    assert!(!f.beat_changed(0));
    assert!(f.beat_changed(1));
    assert_eq!(f.used()[11], 2);
    assert_eq!(f.used()[0], 0);
}

#[test]
fn beat_counter_wraps() {
    let mut f = DmxFrame::new(1);
    // The first beat always counts, whatever whole beat it is.
    assert!(f.beat_changed(i32::MIN + 1));
    assert!(f.beat_changed(i32::MIN));
    let mut f = DmxFrame::new(1);
    for b in 0..256 {
        assert!(f.beat_changed(b));
    }
    assert_eq!(f.used()[2], 0);
    assert!(f.beat_changed(256));
    assert_eq!(f.used()[2], 1);
}

#[test]
fn last_start_slot_sends_the_whole_universe() {
    let mut f = DmxFrame::new(511);
    assert_eq!(f.used().len(), 513);
    f.write_u8_slot(512, 9);
    f.write_u8_slot(513, 9);
    f.write_u8_slot(0, 9);
    assert_eq!(f.used()[512], 9);
    assert_eq!(f.used()[0], 0);
}
