use rkbx_link::timing::{
    averaged_grid_shift_of, beat_position_of, implied_tempo_of, reliable_advance_of,
    samples_per_measure_of, tempo_candidate_of, TimingSample, BAR_LENGTH, FALLBACK_TEMPO, SPEED_SCALE,
};
use rkbx_link::tracker::TrackTracker;

fn sample(bpm: i64, speed: i64, position: i64, beat: i32, bar: i32) -> TimingSample {
    TimingSample {
        current_bpm: bpm,
        playback_speed: speed,
        sample_position: position,
        beat_display: beat,
        bar_display: bar,
    }
}

#[test]
fn beat_from_position_at_120_bpm() {
    let mut t = TrackTracker::new();
    assert_eq!(samples_per_measure_of(t.accepted_tempo()), 88200);
    assert_eq!(t.grid_shift(), 0);
    let r = t.update(sample(120_000_000, SPEED_SCALE, 0, 1, 1), 20_000, 10, 0);
    assert_eq!(r.beat, 0);
    let r = t.update(sample(120_000_000, SPEED_SCALE, 22050, 1, 1), 20_000, 10, 0);
    assert_eq!(r.beat, 1_000_000);
}

#[test]
fn zero_tempo_falls_back_to_120() {
    let mut t = TrackTracker::new();
    let r = t.update(sample(0, SPEED_SCALE, 44100, 1, 1), 20_000, 10, 0);
    assert_eq!(r.sample.current_bpm, FALLBACK_TEMPO);
    assert_eq!(r.original_bpm, FALLBACK_TEMPO);
    assert_eq!(r.beat, 2_000_000);
    assert_eq!(t.accepted_tempo(), FALLBACK_TEMPO);
}

#[test]
fn tempo_candidate_divides_by_speed() {
    assert_eq!(implied_tempo_of(&sample(126_000_000, 1_050_000, 0, 1, 0)), Some(120_000_000));
    assert_eq!(implied_tempo_of(&sample(120_000_000, 0, 0, 1, 0)), None);
    assert_eq!(implied_tempo_of(&sample(-5, SPEED_SCALE, 0, 1, 0)), Some(-5));
    assert_eq!(implied_tempo_of(&sample(0, 1, 0, 1, 0)), Some(120_000_000_000_000));
    assert_eq!(implied_tempo_of(&sample(i64::MAX, 1, 0, 1, 0)), None);
    assert_eq!(tempo_candidate_of(Some(120_000_000)), Some(120_000_000));
    assert_eq!(tempo_candidate_of(Some(-5)), None);
    assert_eq!(tempo_candidate_of(Some(120_000_000_000_000)), None);
    assert_eq!(tempo_candidate_of(None), None);
}

#[test]
fn tempo_change_is_accepted_after_settling() {
    let mut t = TrackTracker::new();
    let s = sample(128_000_000, SPEED_SCALE, 0, 1, 0);
    t.update(s, 100_000, 10, 0);
    assert_eq!(t.accepted_tempo(), 120_000_000);
    t.update(s, 100_000, 10, 0);
    assert_eq!(t.accepted_tempo(), 120_000_000);
    t.update(s, 1, 10, 0);
    assert_eq!(t.accepted_tempo(), 128_000_000);
}

#[test]
fn tempo_wobble_resets_the_timer() {
    let mut t = TrackTracker::new();
    t.update(sample(128_000_000, SPEED_SCALE, 0, 1, 0), 150_000, 10, 0);
    t.update(sample(120_000_000, SPEED_SCALE, 0, 1, 0), 150_000, 10, 0);
    t.update(sample(128_000_000, SPEED_SCALE, 0, 1, 0), 150_000, 10, 0);
    assert_eq!(t.accepted_tempo(), 120_000_000);
}

#[test]
fn reliability_of_an_advance() {
    // 20 ms at normal speed is 882 samples.
    assert!(reliable_advance_of(20_000, SPEED_SCALE, 882));
    assert!(reliable_advance_of(20_000, SPEED_SCALE, 500));
    assert!(!reliable_advance_of(20_000, SPEED_SCALE, 441));
    assert!(!reliable_advance_of(20_000, SPEED_SCALE, 1323));
    assert!(!reliable_advance_of(20_000, SPEED_SCALE, 0));
    assert!(!reliable_advance_of(20_000, SPEED_SCALE, -882));
    assert!(!reliable_advance_of(0, SPEED_SCALE, 882));
    assert!(!reliable_advance_of(u64::MAX, i64::MAX, 882));
}

#[test]
fn beat_change_records_a_phase_measurement() {
    let mut t = TrackTracker::new();
    t.update(sample(120_000_000, SPEED_SCALE, 100_000, 1, 1), 20_000, 10, 0);
    assert!(t.measurements().is_empty());
    t.update(sample(120_000_000, SPEED_SCALE, 100_882, 2, 1), 20_000, 10, 0);
    // 100882 - 441 - 22050
    assert_eq!(t.measurements(), vec![78_391]);
    assert_eq!(t.grid_shift(), 78_391);
}

#[test]
fn unreliable_tick_records_nothing() {
    let mut t = TrackTracker::new();
    t.update(sample(120_000_000, SPEED_SCALE, 100_000, 1, 1), 20_000, 10, 0);
    t.update(sample(120_000_000, SPEED_SCALE, 300_000, 2, 1), 20_000, 10, 0);
    assert!(t.measurements().is_empty());
    assert_eq!(t.grid_shift(), 0);
}

#[test]
fn measurement_queue_keeps_eight() {
    let mut t = TrackTracker::new();
    let mut pos: i64 = 0;
    t.update(sample(120_000_000, SPEED_SCALE, pos, 1, 1), 20_000, 10, 0);
    for i in 0..12 {
        pos += 882;
        let beat = if i % 2 == 0 { 2 } else { 1 };
        t.update(sample(120_000_000, SPEED_SCALE, pos, beat, 1), 20_000, 10, 0);
    }
    assert_eq!(t.measurements().len(), 8);
}

#[test]
fn track_change_clears_the_queue() {
    let mut t = TrackTracker::new();
    t.update(sample(120_000_000, SPEED_SCALE, 100_000, 1, 1), 20_000, 10, 0);
    t.update(sample(120_000_000, SPEED_SCALE, 100_882, 2, 1), 20_000, 10, 0);
    assert_eq!(t.measurements().len(), 1);
    t.mark_track_changed();
    assert!(t.track_change_pending());
    t.update(sample(120_000_000, SPEED_SCALE, 101_764, 2, 1), 20_000, 10, 0);
    assert!(t.measurements().is_empty());
    assert!(!t.track_change_pending());
}

#[test]
fn grid_shift_of_equal_phases() {
    let m: i64 = 88_200;
    let w = m as i128;
    let v: i128 = 1_234;
    let q = vec![v + 2 * w, v - 3 * w, v, v + w];
    assert_eq!(averaged_grid_shift_of(&q, m), v as i64);
    let q = vec![v - 3 * w, v + w, v + 2 * w, v];
    assert_eq!(averaged_grid_shift_of(&q, m), v as i64);
    let q = vec![-10 as i128, 88_190];
    assert_eq!(averaged_grid_shift_of(&q, m), 88_190);
}

#[test]
fn grid_shift_averages_across_the_seam() {
    let m: i64 = 88_200;
    let q = vec![88_190 as i128, 10];
    assert_eq!(averaged_grid_shift_of(&q, m), 0);
}

#[test]
fn beat_position_counts_bars() {
    assert_eq!(beat_position_of(0, 0, 0, 120_000_000, 0), 0);
    assert_eq!(beat_position_of(0, 0, 0, 120_000_000, 3), 2 * BAR_LENGTH);
    assert_eq!(beat_position_of(88_200 + 22_050, 0, 0, 120_000_000, 2), BAR_LENGTH + 1_000_000);
    assert_eq!(beat_position_of(0, 22_050, 0, 120_000_000, 1), 3_000_000);
    assert_eq!(beat_position_of(0, 0, 22_050, 120_000_000, 1), 1_000_000);
}

#[test]
fn beat_grows_with_position() {
    let mut t = TrackTracker::new();
    let mut last = i64::MIN;
    for i in 0..20 {
        let r = t.update(sample(120_000_000, SPEED_SCALE, i * 4_410, 1, 1), 100_000, 10, 0);
        assert!(r.beat >= last);
        last = r.beat;
    }
}

#[test]
fn bar_jitter_is_absorbed_then_passed() {
    let mut t = TrackTracker::new();
    let r = t.update(sample(120_000_000, SPEED_SCALE, 0, 1, 1), 20_000, 3, 0);
    assert_eq!(r.beat, 0);
    // The GUI shows the next bar too early: a jump of four beats.
    let r = t.update(sample(120_000_000, SPEED_SCALE, 0, 1, 2), 20_000, 3, 0);
    assert_eq!(r.beat, 0);
    let r = t.update(sample(120_000_000, SPEED_SCALE, 0, 1, 2), 20_000, 3, 0);
    assert_eq!(r.beat, 0);
    let r = t.update(sample(120_000_000, SPEED_SCALE, 0, 1, 2), 20_000, 3, 0);
    assert_eq!(r.beat, BAR_LENGTH);
    let r = t.update(sample(120_000_000, SPEED_SCALE, 0, 1, 2), 20_000, 3, 0);
    assert_eq!(r.beat, BAR_LENGTH);
}

#[test]
fn small_jump_is_not_jitter() {
    let mut t = TrackTracker::new();
    t.update(sample(120_000_000, SPEED_SCALE, 0, 1, 1), 20_000, 3, 0);
    let r = t.update(sample(120_000_000, SPEED_SCALE, 44_100, 1, 1), 20_000, 3, 0);
    assert_eq!(r.beat, 2_000_000);
}

#[test]
fn zero_tempo_at_low_speed_reports_the_quotient() {
    let mut t = TrackTracker::new();
    let r = t.update(sample(0, 1, 0, 1, 1), 20_000, 10, 0);
    assert_eq!(r.original_bpm, 120_000_000_000_000);
    assert_eq!(r.sample.current_bpm, FALLBACK_TEMPO);
    // Far beyond any beat grid: the accepted tempo does not follow it.
    let r = t.update(sample(0, 1, 0, 1, 1), 300_000, 10, 0);
    assert_eq!(r.original_bpm, 120_000_000_000_000);
    assert_eq!(t.accepted_tempo(), FALLBACK_TEMPO);
    let r = t.update(sample(0, 500_000, 0, 1, 1), 20_000, 10, 0);
    assert_eq!(r.original_bpm, 240_000_000);
}

#[test]
fn no_positive_speed_reports_the_accepted_tempo() {
    let mut t = TrackTracker::new();
    let r = t.update(sample(128_000_000, 0, 0, 1, 1), 20_000, 10, 0);
    assert_eq!(r.original_bpm, 120_000_000);
    let r = t.update(sample(128_000_000, -1_000_000, 0, 1, 1), 20_000, 10, 0);
    assert_eq!(r.original_bpm, 120_000_000);
}
