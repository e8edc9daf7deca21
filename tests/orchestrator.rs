use rkbx_link::keeper::{
    pacing_delay_us, BeatKeeper, ConnectionState, KeeperConfig, SinkEvent, TickPlan,
};
use rkbx_link::offsets::Pointer;
use rkbx_link::source::{AnlzFile, ReadError, SourceError, TrackInfo};
use rkbx_link::timing::{TimingSample, SPEED_SCALE};

fn config(decks: usize, keep_warm: bool, slow_every: u64) -> KeeperConfig {
    KeeperConfig {
        update_rate: 50,
        slow_update_every_nth: slow_every,
        offset_samples: 0,
        bar_jitter_tolerance: 10,
        keep_warm,
        decks,
    }
}

fn sample(position: i64) -> TimingSample {
    TimingSample {
        current_bpm: 120_000_000,
        playback_speed: SPEED_SCALE,
        sample_position: position,
        beat_display: 1,
        bar_display: 1,
    }
}

fn track(title: &str) -> TrackInfo {
    TrackInfo { title: title.to_string(), artist: "A".to_string(), album: "B".to_string() }
}

fn read_failed(detail: &str) -> ReadError {
    ReadError {
        pointer: Some(Pointer::new(vec![0x10, 0x20], 0x8)),
        address: 0x1234,
        error: SourceError::ReadMemoryFailed(detail.to_string()),
    }
}

fn tick(
    keeper: &mut BeatKeeper,
    master: usize,
    samples: Vec<Option<TimingSample>>,
    tracks: Vec<TrackInfo>,
) -> (TickPlan, Vec<SinkEvent>) {
    let plan = keeper.begin_tick(master);
    if !plan.in_range {
        return (plan, vec![]);
    }
    let files: Vec<AnlzFile> = if plan.slow_update {
        (0..samples.len()).map(|_| AnlzFile::default()).collect()
    } else {
        vec![]
    };
    let tracks = if !plan.slow_update {
        vec![]
    } else if tracks.is_empty() {
        (0..samples.len()).map(|_| TrackInfo::default()).collect()
    } else {
        tracks
    };
    let events = keeper.finish_tick(&plan, 20_000, &samples, tracks, files);
    (plan, events)
}

#[test]
fn identical_sample_twice_publishes_nothing_new() {
    let mut k = BeatKeeper::new(config(2, false, 1000));
    let (_, first) = tick(&mut k, 0, vec![Some(sample(22_050)), None], vec![]);
    assert_eq!(
        first,
        vec![
            SinkEvent::PreUpdate,
            SinkEvent::BeatUpdateMaster(1_000_000),
            SinkEvent::TimeUpdateMaster(22_050),
            SinkEvent::SlowUpdate,
        ]
    );
    let (_, second) = tick(&mut k, 0, vec![Some(sample(22_050)), None], vec![]);
    assert_eq!(second, vec![SinkEvent::PreUpdate]);
}

#[test]
fn master_out_of_range_publishes_nothing() {
    let mut k = BeatKeeper::new(config(4, true, 50));
    let plan = k.begin_tick(99);
    assert!(!plan.in_range);
    assert!(plan.decks.is_empty());
    assert!(!plan.slow_update);
    assert_eq!(k.state(), ConnectionState::Disconnected);
}

#[test]
fn keep_warm_polls_every_deck() {
    let mut k = BeatKeeper::new(config(3, true, 50));
    let plan = k.begin_tick(1);
    assert!(plan.in_range);
    assert_eq!(plan.decks, vec![0, 1, 2]);
    let mut k = BeatKeeper::new(config(3, false, 50));
    let plan = k.begin_tick(2);
    assert_eq!(plan.decks, vec![2]);
}

#[test]
fn slow_tick_reports_track_changes() {
    let mut k = BeatKeeper::new(config(2, true, 2));
    k.connected();
    let plan = k.begin_tick(0);
    assert!(plan.slow_update);
    assert!(!plan.master_changed);
    let events = k.finish_tick(
        &plan,
        20_000,
        &vec![Some(sample(0)), Some(sample(0))],
        vec![track("one"), TrackInfo::default()],
        vec![AnlzFile { path: "a".to_string() }, AnlzFile::default()],
    );
    assert_eq!(
        events,
        vec![
            SinkEvent::PreUpdate,
            SinkEvent::TrackChanged(0),
            SinkEvent::SlowUpdate,
            SinkEvent::MasterTrackChanged(0),
        ]
    );
    assert_eq!(k.track_info(0).title, "one");
    assert!(k.tracker(0).track_change_pending());
    assert!(!k.tracker(1).track_change_pending());
    // The next tick is not a slow one.
    let plan = k.begin_tick(0);
    assert!(!plan.slow_update);
}

#[test]
fn master_switch_is_announced_once() {
    let mut k = BeatKeeper::new(config(2, true, 1000));
    let (_, _) = tick(&mut k, 0, vec![Some(sample(0)), Some(sample(0))], vec![]);
    let (plan, events) = tick(&mut k, 1, vec![Some(sample(0)), Some(sample(0))], vec![]);
    assert!(plan.master_changed);
    assert_eq!(events.last(), Some(&SinkEvent::MasterTrackChanged(1)));
    assert_eq!(
        events.iter().filter(|e| matches!(e, SinkEvent::MasterTrackChanged(_))).count(),
        1
    );
}

#[test]
fn failed_tick_disconnects_and_keeps_estimators() {
    let mut k = BeatKeeper::new(config(2, true, 1000));
    k.connected();
    assert_eq!(k.state(), ConnectionState::Connected);
    tick(&mut k, 0, vec![Some(sample(100_000)), Some(sample(0))], vec![]);
    let mut s = sample(100_882);
    s.beat_display = 2;
    tick(&mut k, 0, vec![Some(s), Some(sample(0))], vec![]);
    let grid = k.tracker(0).grid_shift();
    let queue = k.tracker(0).measurements();
    assert_eq!(queue.len(), 1);

    let plan = k.begin_tick(0);
    assert!(plan.in_range);
    // Reading deck 1 fails: the tick is abandoned.
    assert!(k.tick_failed(read_failed("deck 1")));
    assert_eq!(k.state(), ConnectionState::Disconnected);
    assert_eq!(k.tracker(0).grid_shift(), grid);
    assert_eq!(k.tracker(0).measurements(), queue);

    // The same error while reconnecting is not reported again.
    assert!(!k.connect_failed(read_failed("deck 1")));
    assert!(k.connect_failed(ReadError {
        pointer: None,
        address: 0,
        error: SourceError::ProcessNotFound,
    }));
    k.connected();
    assert_eq!(k.state(), ConnectionState::Connected);
    assert!(k.tick_failed(read_failed("deck 1")));
    k.connected();
    let mut s = sample(101_764);
    s.beat_display = 2;
    let (_, events) = tick(&mut k, 0, vec![Some(s), Some(sample(0))], vec![]);
    assert_eq!(k.tracker(0).grid_shift(), grid);
    assert!(events.contains(&SinkEvent::BeatUpdateMaster(
        rkbx_link::timing::beat_position_of(101_764, grid, 0, 120_000_000, 1)
    )));
}

#[test]
fn error_reports_are_deduplicated() {
    let mut k = BeatKeeper::new(config(1, true, 50));
    assert!(k.report_error(read_failed("x")));
    assert!(!k.report_error(read_failed("x")));
    assert!(k.report_error(read_failed("y")));
    assert!(k.report_error(read_failed("x")));
}

#[test]
fn pacing_sleeps_for_the_rest_of_the_period() {
    let k = BeatKeeper::new(config(1, true, 50));
    assert_eq!(k.tick_period_us(), 20_000);
    assert_eq!(pacing_delay_us(20_000, 5_000), 15_000);
    assert_eq!(pacing_delay_us(20_000, 25_000), 0);
}

#[test]
fn default_options() {
    let c = KeeperConfig::default();
    assert_eq!(c.update_rate, 50);
    assert_eq!(c.slow_update_every_nth, 50);
    assert_eq!(c.bar_jitter_tolerance, 10);
    assert!(c.keep_warm);
    assert_eq!(c.decks, 4);
}
