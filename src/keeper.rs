//! The orchestrator: selects the master deck, feeds the estimators, suppresses
//! unchanged values, and keeps the connection state. Reading the source, sleeping
//! and calling the sinks are left to the caller, which performs each step these
//! functions decide on.
use vstd::prelude::*;
use crate::change::ChangeTrackedValue;
use crate::source::{AnlzFile, ReadError, TrackInfo};
use crate::timing::TimingSample;
use crate::tracker::{
    initial_view,
    next_estimate,
    next_view,
    tracker_wf,
    EstimateResult,
    TrackTracker,
    TrackerView,
};

verus! {

/// Pause between two attempts to reach the source while disconnected.
pub const RECONNECT_BACKOFF_MS: u64 = 3000;

/// One notification for the sinks, in the order the sinks must receive them.
#[derive(Clone, Copy, Debug, PartialEq, Eq, Structural)]
pub enum SinkEvent {
    /// Once per tick with a master deck, before any other event.
    PreUpdate,
    /// The master deck's displayed tempo, in micro-BPM.
    BpmChangedMaster(i64),
    /// The master deck's original tempo, in micro-BPM.
    OriginalBpmChangedMaster(i64),
    /// The master deck's playback speed, in parts per million.
    PlaybackSpeedChangedMaster(i64),
    /// The master deck's continuous beat, in micro-beats.
    BeatUpdateMaster(i64),
    /// The master deck's play head, in samples at 44100 Hz.
    TimeUpdateMaster(i64),
    /// The identity of the track on this deck changed.
    TrackChanged(usize),
    /// The master deck changed, or the track on it did.
    MasterTrackChanged(usize),
    /// The periodic low-rate hook.
    SlowUpdate,
}

/// Whether the source is reachable.
#[derive(Clone, Copy, Debug, PartialEq, Eq, Structural)]
pub enum ConnectionState {
    Disconnected,
    Connected,
}

/// The orchestrator's options.
#[derive(Clone, Copy, Debug)]
pub struct KeeperConfig {
    /// Ticks per second while connected.
    pub update_rate: u64,
    /// Every this many ticks, identities are read and the slow hook runs.
    pub slow_update_every_nth: u64,
    /// Samples added to every position, to compensate output latency.
    pub offset_samples: i64,
    /// Ticks for which a one-bar jump of the beat is cancelled.
    pub bar_jitter_tolerance: u32,
    /// Whether decks other than the master are estimated too.
    pub keep_warm: bool,
    /// Number of deck slots.
    pub decks: usize,
}

impl Default for KeeperConfig {
    fn default() -> (r: KeeperConfig)
        ensures
            r.update_rate == 50,
            r.slow_update_every_nth == 50,
            r.offset_samples == 0,
            r.bar_jitter_tolerance == 10,
            r.keep_warm,
            r.decks == 4,
    {
        KeeperConfig {
            update_rate: 50,
            slow_update_every_nth: 50,
            offset_samples: 0,
            bar_jitter_tolerance: 10,
            keep_warm: true,
            decks: 4,
        }
    }
}

/// What a tick must read once the master index is known.
#[derive(Clone, Debug)]
pub struct TickPlan {
    /// The master index that was read.
    pub master: usize,
    /// Whether it differs from the previous tick's.
    pub master_changed: bool,
    /// Whether it names a configured deck; if not, the tick is over.
    pub in_range: bool,
    /// The decks whose timing sample must be read, in increasing order.
    pub decks: Vec<usize>,
    /// Whether identities and analysis-file paths must be read this tick.
    pub slow_update: bool,
}

/// The master deck's values as last published, as plain values.
pub struct PublishedValues {
    pub bpm: int,
    pub original_bpm: int,
    pub playback_speed: int,
    pub beat: int,
    pub position: int,
}

/// The orchestrator's state, as plain values.
pub struct KeeperView {
    pub master: int,
    pub published: PublishedValues,
    pub tracks: Seq<TrackInfo>,
    pub files: Seq<AnlzFile>,
    pub trackers: Seq<TrackerView>,
    pub last_error: Option<ReadError>,
    pub tick_count: int,
    pub state: ConnectionState,
    pub offset: int,
    pub tolerance: int,
    pub keep_warm: bool,
    pub decks: int,
    pub slow_every: int,
    pub update_rate: int,
}

/// The master deck's values as last published to the sinks.
struct PublishedState {
    bpm: ChangeTrackedValue<i64>,
    original_bpm: ChangeTrackedValue<i64>,
    playback_speed: ChangeTrackedValue<i64>,
    beat: ChangeTrackedValue<i64>,
    position: ChangeTrackedValue<i64>,
}

impl PublishedState {
    closed spec fn values(&self) -> PublishedValues {
        PublishedValues {
            bpm: self.bpm.value as int,
            original_bpm: self.original_bpm.value as int,
            playback_speed: self.playback_speed.value as int,
            beat: self.beat.value as int,
            position: self.position.value as int,
        }
    }

    /// Publishes an estimate: appends one event per value that differs from the
    /// one published before.
    fn publish(&mut self, e: &EstimateResult, events: &mut Vec<SinkEvent>)
        ensures
            final(events)@ == old(events)@ + publish_events(old(self).values(), *e),
            final(self).values() == published(old(self).values(), *e),
    {
        let ghost start = events@;
        let ghost v = self.values();
        let bpm_changed = self.bpm.set(e.sample.current_bpm);
        let original_bpm_changed = self.original_bpm.set(e.original_bpm);
        let playback_speed_changed = self.playback_speed.set(e.sample.playback_speed);
        let beat_changed = self.beat.set(e.beat);
        let pos_changed = self.position.set(e.sample.sample_position);
        let ghost e1 = when(e.sample.current_bpm != v.bpm, SinkEvent::BpmChangedMaster(e.sample.current_bpm));
        let ghost e2 = when(e.original_bpm != v.original_bpm, SinkEvent::OriginalBpmChangedMaster(e.original_bpm));
        let ghost e3 = when(
            e.sample.playback_speed != v.playback_speed,
            SinkEvent::PlaybackSpeedChangedMaster(e.sample.playback_speed),
        );
        let ghost e4 = when(e.beat != v.beat, SinkEvent::BeatUpdateMaster(e.beat));
        let ghost e5 = when(
            e.sample.sample_position != v.position,
            SinkEvent::TimeUpdateMaster(e.sample.sample_position),
        );
        if bpm_changed {
            events.push(SinkEvent::BpmChangedMaster(e.sample.current_bpm));
        }
        assert(events@ =~= start + e1);
        if original_bpm_changed {
            events.push(SinkEvent::OriginalBpmChangedMaster(e.original_bpm));
        }
        assert(events@ =~= start + e1 + e2);
        if playback_speed_changed {
            events.push(SinkEvent::PlaybackSpeedChangedMaster(e.sample.playback_speed));
        }
        assert(events@ =~= start + e1 + e2 + e3);
        if beat_changed {
            events.push(SinkEvent::BeatUpdateMaster(e.beat));
        }
        assert(events@ =~= start + e1 + e2 + e3 + e4);
        if pos_changed {
            events.push(SinkEvent::TimeUpdateMaster(e.sample.sample_position));
        }
        assert(events@ =~= start + e1 + e2 + e3 + e4 + e5);
        assert(publish_events(v, *e) =~= e1 + e2 + e3 + e4 + e5);
        assert(self.values() == published(v, *e));
    }

}

pub struct BeatKeeper {
    masterdeck_index: ChangeTrackedValue<usize>,
    offset_samples: i64,
    published: PublishedState,
    track_infos: Vec<ChangeTrackedValue<TrackInfo>>,
    anlz_files: Vec<ChangeTrackedValue<AnlzFile>>,
    track_trackers: Vec<TrackTracker>,
    last_error: Option<ReadError>,
    bar_jitter_tolerance: u32,
    keep_warm: bool,
    decks: usize,
    slow_update_every_nth: u64,
    update_rate: u64,
    tick_count: u64,
    state: ConnectionState,
}

impl View for BeatKeeper {
    type V = KeeperView;

    closed spec fn view(&self) -> KeeperView {
        KeeperView {
            master: self.masterdeck_index.value as int,
            published: self.published.values(),
            tracks: self.track_infos@.map_values(|c: ChangeTrackedValue<TrackInfo>| c.value),
            files: self.anlz_files@.map_values(|c: ChangeTrackedValue<AnlzFile>| c.value),
            trackers: self.track_trackers@.map_values(|t: TrackTracker| t@),
            last_error: self.last_error,
            tick_count: self.tick_count as int,
            state: self.state,
            offset: self.offset_samples as int,
            tolerance: self.bar_jitter_tolerance as int,
            keep_warm: self.keep_warm,
            decks: self.decks as int,
            slow_every: self.slow_update_every_nth as int,
            update_rate: self.update_rate as int,
        }
    }
}

/// The orchestrator's invariant: one identity, path and estimator per deck slot,
/// each estimator well formed, and a tick counter below its period.
pub open spec fn keeper_wf(v: KeeperView) -> bool {
    &&& v.tracks.len() == v.decks
    &&& v.files.len() == v.decks
    &&& v.trackers.len() == v.decks
    &&& forall|i: int| 0 <= i < v.decks ==> tracker_wf(#[trigger] v.trackers[i])
    &&& 1 <= v.slow_every <= u64::MAX as int
    &&& 0 <= v.tick_count < v.slow_every
    &&& 0 <= v.decks <= usize::MAX as int
    &&& 1 <= v.update_rate <= u64::MAX as int
}

/// Two read errors with the same pointer, address, kind and detail.
pub open spec fn same_read_error(a: ReadError, b: ReadError) -> bool {
    &&& match (a.pointer, b.pointer) {
        (None, None) => true,
        (Some(p), Some(q)) => p.offsets@ == q.offsets@ && p.final_offset == q.final_offset,
        _ => false,
    }
    &&& a.address == b.address
    &&& crate::source::same_source_error(a.error, b.error)
}

/// Whether `e` must be reported: it is not the error reported last.
pub open spec fn fresh_error(v: KeeperView, e: ReadError) -> bool {
    !(v.last_error is Some && same_read_error(v.last_error.unwrap(), e))
}

/// The state after `e` was handed to the error channel.
pub open spec fn after_error(v: KeeperView, e: ReadError) -> KeeperView {
    KeeperView { last_error: if fresh_error(v, e) { Some(e) } else { v.last_error }, ..v }
}

/// The estimator of deck `i` after a tick that read `samples`.
pub open spec fn updated_tracker(
    v: KeeperView,
    samples: Seq<Option<TimingSample>>,
    elapsed_us: int,
    i: int,
) -> TrackerView {
    match samples[i] {
        Some(s) => next_view(v.trackers[i], s, elapsed_us, v.tolerance, v.offset),
        None => v.trackers[i],
    }
}

/// The master deck's estimate on a tick that read `samples`.
pub open spec fn master_estimate(
    v: KeeperView,
    master: int,
    samples: Seq<Option<TimingSample>>,
    elapsed_us: int,
) -> EstimateResult {
    next_estimate(v.trackers[master], samples[master].unwrap(), elapsed_us, v.tolerance, v.offset)
}

/// `e` alone when `c` holds, else nothing.
pub open spec fn when(c: bool, e: SinkEvent) -> Seq<SinkEvent> {
    if c { seq![e] } else { Seq::empty() }
}

/// The events that publishing an estimate produces: one per value that differs
/// from the one published before.
pub open spec fn publish_events(v: PublishedValues, e: EstimateResult) -> Seq<SinkEvent> {
    when(e.sample.current_bpm != v.bpm, SinkEvent::BpmChangedMaster(e.sample.current_bpm))
        + when(e.original_bpm != v.original_bpm, SinkEvent::OriginalBpmChangedMaster(e.original_bpm))
        + when(
        e.sample.playback_speed != v.playback_speed,
        SinkEvent::PlaybackSpeedChangedMaster(e.sample.playback_speed),
    ) + when(e.beat != v.beat, SinkEvent::BeatUpdateMaster(e.beat)) + when(
        e.sample.sample_position != v.position,
        SinkEvent::TimeUpdateMaster(e.sample.sample_position),
    )
}

/// The published values after publishing an estimate.
pub open spec fn published(v: PublishedValues, e: EstimateResult) -> PublishedValues {
    PublishedValues {
        bpm: e.sample.current_bpm as int,
        original_bpm: e.original_bpm as int,
        playback_speed: e.sample.playback_speed as int,
        beat: e.beat as int,
        position: e.sample.sample_position as int,
    }
}

/// Whether the identity read for deck `i` differs from the one held.
pub open spec fn identity_changed(v: KeeperView, tracks: Seq<TrackInfo>, i: int) -> bool {
    !(v.tracks[i].title@ == tracks[i].title@ && v.tracks[i].artist@ == tracks[i].artist@
        && v.tracks[i].album@ == tracks[i].album@)
}

/// Whether the analysis-file path read for deck `i` differs from the one held.
pub open spec fn path_changed(v: KeeperView, files: Seq<AnlzFile>, i: int) -> bool {
    v.files[i].path@ != files[i].path@
}

/// The track-change events for decks `0..n`, in deck order.
pub open spec fn identity_events(v: KeeperView, tracks: Seq<TrackInfo>, n: int) -> Seq<SinkEvent>
    decreases n,
{
    if n <= 0 {
        Seq::empty()
    } else {
        identity_events(v, tracks, n - 1) + when(
            identity_changed(v, tracks, n - 1),
            SinkEvent::TrackChanged((n - 1) as usize),
        )
    }
}

/// An estimator, flagged for a track-change reset when `reset` holds.
pub open spec fn flagged(t: TrackerView, reset: bool) -> TrackerView {
    if reset { TrackerView { track_changed: true, ..t } } else { t }
}

/// Whether deck `i`'s track changed on a slow tick: its identity or its
/// analysis-file path differs from the one held.
pub open spec fn deck_reset(v: KeeperView, tracks: Seq<TrackInfo>, files: Seq<AnlzFile>, i: int) -> bool {
    identity_changed(v, tracks, i) || path_changed(v, files, i)
}

/// What a tick with a master deck requires of the values read for it.
pub open spec fn tick_inputs_fit(
    v: KeeperView,
    plan: TickPlan,
    samples: Seq<Option<TimingSample>>,
    tracks: Seq<TrackInfo>,
    files: Seq<AnlzFile>,
) -> bool {
    &&& plan.in_range
    &&& plan.master as int == v.master
    &&& plan.master < v.decks
    &&& plan.slow_update == (v.tick_count == 0)
    &&& samples.len() == v.decks
    &&& forall|i: int| 0 <= i < v.decks ==> ((#[trigger] samples[i]) is Some <==> polled(v, plan.master as int, i))
    &&& plan.slow_update ==> tracks.len() == v.decks && files.len() == v.decks
}

/// The events of a tick with a master deck, in order: the pre-update hook, the
/// changed values of the master's estimate, on a slow tick the identity changes
/// and the slow hook, and one master-track notice when the master index or the
/// master's identity changed.
pub open spec fn tick_events(
    v: KeeperView,
    plan: TickPlan,
    samples: Seq<Option<TimingSample>>,
    tracks: Seq<TrackInfo>,
    elapsed_us: int,
) -> Seq<SinkEvent> {
    let master = plan.master as int;
    let slow = plan.slow_update;
    seq![SinkEvent::PreUpdate] + publish_events(v.published, master_estimate(v, master, samples, elapsed_us)) + (if slow {
        identity_events(v, tracks, v.decks) + seq![SinkEvent::SlowUpdate]
    } else {
        Seq::empty()
    }) + when(
        plan.master_changed || (slow && identity_changed(v, tracks, master)),
        SinkEvent::MasterTrackChanged(plan.master),
    )
}

/// The state after a tick with a master deck.
pub open spec fn after_tick(
    v: KeeperView,
    plan: TickPlan,
    samples: Seq<Option<TimingSample>>,
    tracks: Seq<TrackInfo>,
    files: Seq<AnlzFile>,
    elapsed_us: int,
) -> KeeperView {
    let slow = plan.slow_update;
    let e = master_estimate(v, plan.master as int, samples, elapsed_us);
    KeeperView {
        trackers: Seq::new(
            v.decks as nat,
            |i: int| flagged(updated_tracker(v, samples, elapsed_us, i), slow && deck_reset(v, tracks, files, i)),
        ),
        tracks: if slow {
            Seq::new(v.decks as nat, |i: int| if identity_changed(v, tracks, i) { tracks[i] } else { v.tracks[i] })
        } else {
            v.tracks
        },
        files: if slow {
            Seq::new(v.decks as nat, |i: int| if path_changed(v, files, i) { files[i] } else { v.files[i] })
        } else {
            v.files
        },
        tick_count: (v.tick_count + 1) % v.slow_every,
        published: published(v.published, e),
        ..v
    }
}

/// Change gating: publishing the same estimate a second time produces no event.
pub proof fn lemma_publish_twice_is_silent(v: PublishedValues, e: EstimateResult)
    ensures
        publish_events(published(v, e), e) == Seq::<SinkEvent>::empty(),
{
    assert(publish_events(published(v, e), e) =~= Seq::<SinkEvent>::empty());
}

/// The identity events depend on the held identities alone.
proof fn lemma_identity_events_depend_on_tracks(a: KeeperView, b: KeeperView, tracks: Seq<TrackInfo>, n: int)
    requires
        a.tracks == b.tracks,
    ensures
        identity_events(a, tracks, n) == identity_events(b, tracks, n),
    decreases n,
{
    if n > 0 {
        lemma_identity_events_depend_on_tracks(a, b, tracks, n - 1);
    }
}

/// Runs the estimators of the polled decks; returns the master's estimate.
fn update_trackers(
    trackers: &mut Vec<TrackTracker>,
    samples: &Vec<Option<TimingSample>>,
    elapsed_us: u64,
    tolerance: u32,
    offset: i64,
    master: usize,
) -> (r: EstimateResult)
    requires
        samples@.len() == old(trackers)@.len(),
        master < samples@.len(),
        samples@[master as int] is Some,
        forall|i: int| 0 <= i < old(trackers)@.len() ==> tracker_wf((#[trigger] old(trackers)@[i])@),
    ensures
        final(trackers)@.len() == old(trackers)@.len(),
        forall|i: int|
            0 <= i < old(trackers)@.len() ==> (#[trigger] final(trackers)@[i])@ == match samples@[i] {
                Some(s) => next_view(old(trackers)@[i]@, s, elapsed_us as int, tolerance as int, offset as int),
                None => old(trackers)@[i]@,
            },
        forall|i: int| 0 <= i < old(trackers)@.len() ==> tracker_wf((#[trigger] final(trackers)@[i])@),
        r == next_estimate(
            old(trackers)@[master as int]@,
            samples@[master as int].unwrap(),
            elapsed_us as int,
            tolerance as int,
            offset as int,
        ),
{
    let ghost start = trackers@;
    let mut result: Option<EstimateResult> = None;
    let mut i: usize = 0;
    while i < trackers.len()
        invariant
            0 <= i <= trackers@.len(),
            trackers@.len() == start.len(),
            samples@.len() == start.len(),
            master < start.len(),
            samples@[master as int] is Some,
            forall|j: int| 0 <= j < start.len() ==> tracker_wf((#[trigger] start[j])@),
            forall|j: int|
                0 <= j < i ==> (#[trigger] trackers@[j])@ == match samples@[j] {
                    Some(s) => next_view(start[j]@, s, elapsed_us as int, tolerance as int, offset as int),
                    None => start[j]@,
                },
            forall|j: int| i <= j < start.len() ==> (#[trigger] trackers@[j])@ == start[j]@,
            forall|j: int| 0 <= j < i ==> tracker_wf((#[trigger] trackers@[j])@),
            result == if master < i {
                Some(
                    next_estimate(
                        start[master as int]@,
                        samples@[master as int].unwrap(),
                        elapsed_us as int,
                        tolerance as int,
                        offset as int,
                    ),
                )
            } else {
                None::<EstimateResult>
            },
        decreases start.len() - i,
    {
        if let Some(s) = samples[i] {
            let r = trackers[i].update(s, elapsed_us, tolerance, offset);
            if i == master {
                result = Some(r);
            }
        }
        i = i + 1;
    }
    result.unwrap()
}

/// Whether deck `i` is estimated on a tick whose master is `master`.
pub open spec fn polled(v: KeeperView, master: int, i: int) -> bool {
    i == master || v.keep_warm
}

/// The decks a tick with master `master` reads, in increasing order.
pub open spec fn poll_list(v: KeeperView, master: int) -> Seq<usize> {
    if 0 <= master < v.decks {
        if v.keep_warm {
            Seq::new(v.decks as nat, |i: int| i as usize)
        } else {
            seq![master as usize]
        }
    } else {
        Seq::empty()
    }
}

impl BeatKeeper {
    pub fn new(config: KeeperConfig) -> (r: Self)
        requires
            config.slow_update_every_nth >= 1,
            config.update_rate >= 1,
        ensures
            keeper_wf(r@),
            r@.master == 0,
            r@.published == (PublishedValues {
                bpm: crate::timing::FALLBACK_TEMPO as int,
                original_bpm: crate::timing::FALLBACK_TEMPO as int,
                playback_speed: crate::timing::SPEED_SCALE as int,
                beat: 0,
                position: 0,
            }),
            r@.tracks.len() == config.decks,
            forall|i: int|
                0 <= i < config.decks ==> (#[trigger] r@.tracks[i]).title@.len() == 0
                    && r@.tracks[i].artist@.len() == 0 && r@.tracks[i].album@.len() == 0,
            forall|i: int| 0 <= i < config.decks ==> (#[trigger] r@.files[i]).path@.len() == 0,
            forall|i: int| 0 <= i < config.decks ==> #[trigger] r@.trackers[i] == initial_view(),
            r@.last_error is None,
            r@.tick_count == 0,
            r@.state == ConnectionState::Disconnected,
            r@.offset == config.offset_samples,
            r@.tolerance == config.bar_jitter_tolerance,
            r@.keep_warm == config.keep_warm,
            r@.decks == config.decks,
            r@.slow_every == config.slow_update_every_nth,
            r@.update_rate == config.update_rate,
    {
        let mut track_infos: Vec<ChangeTrackedValue<TrackInfo>> = Vec::new();
        let mut anlz_files: Vec<ChangeTrackedValue<AnlzFile>> = Vec::new();
        let mut track_trackers: Vec<TrackTracker> = Vec::new();
        let mut i: usize = 0;
        while i < config.decks
            invariant
                0 <= i <= config.decks,
                track_infos@.len() == i,
                anlz_files@.len() == i,
                track_trackers@.len() == i,
                forall|j: int|
                    0 <= j < i ==> (#[trigger] track_infos@[j]).value.title@.len() == 0
                        && track_infos@[j].value.artist@.len() == 0
                        && track_infos@[j].value.album@.len() == 0,
                forall|j: int| 0 <= j < i ==> (#[trigger] anlz_files@[j]).value.path@.len() == 0,
                forall|j: int| 0 <= j < i ==> (#[trigger] track_trackers@[j])@ == initial_view(),
                forall|j: int| 0 <= j < i ==> tracker_wf((#[trigger] track_trackers@[j])@),
            decreases config.decks - i,
        {
            track_infos.push(ChangeTrackedValue::new(TrackInfo::default()));
            anlz_files.push(ChangeTrackedValue::new(AnlzFile::default()));
            track_trackers.push(TrackTracker::new());
            i = i + 1;
        }
        BeatKeeper {
            masterdeck_index: ChangeTrackedValue::new(0),
            offset_samples: config.offset_samples,
            published: PublishedState {
                bpm: ChangeTrackedValue::new(crate::timing::FALLBACK_TEMPO),
                original_bpm: ChangeTrackedValue::new(crate::timing::FALLBACK_TEMPO),
                playback_speed: ChangeTrackedValue::new(crate::timing::SPEED_SCALE),
                beat: ChangeTrackedValue::new(0),
                position: ChangeTrackedValue::new(0),
            },
            track_infos,
            anlz_files,
            track_trackers,
            last_error: None,
            bar_jitter_tolerance: config.bar_jitter_tolerance,
            keep_warm: config.keep_warm,
            decks: config.decks,
            slow_update_every_nth: config.slow_update_every_nth,
            update_rate: config.update_rate,
            tick_count: 0,
            state: ConnectionState::Disconnected,
        }
    }

    /// First step of a tick: records the master index just read and says what else
    /// the tick must read. A master index outside the configured decks ends the
    /// tick here, with nothing published.
    pub fn begin_tick(&mut self, master: usize) -> (plan: TickPlan)
        requires
            keeper_wf(old(self)@),
        ensures
            keeper_wf(final(self)@),
            plan.master == master,
            plan.master_changed == (master != old(self)@.master),
            plan.in_range == (master < old(self)@.decks),
            plan.decks@ == poll_list(old(self)@, master as int),
            plan.slow_update == (plan.in_range && old(self)@.tick_count == 0),
            final(self)@ == (KeeperView {
                master: master as int,
                tick_count: if plan.in_range {
                    old(self)@.tick_count
                } else {
                    (old(self)@.tick_count + 1) % old(self)@.slow_every
                },
                ..old(self)@
            }),
    {
        let master_changed = self.masterdeck_index.set(master);
        let in_range = master < self.decks;
        let mut decks: Vec<usize> = Vec::new();
        if in_range {
            if self.keep_warm {
                let mut i: usize = 0;
                while i < self.decks
                    invariant
                        0 <= i <= self.decks,
                        decks@ == Seq::new(i as nat, |j: int| j as usize),
                    decreases self.decks - i,
                {
                    decks.push(i);
                    i = i + 1;
                    assert(decks@ =~= Seq::new(i as nat, |j: int| j as usize));
                }
            } else {
                decks.push(master);
                assert(decks@ =~= seq![master]);
            }
        } else {
            self.tick_count = (self.tick_count + 1) % self.slow_update_every_nth;
        }
        assert(decks@ =~= poll_list(old(self)@, master as int));
        TickPlan {
            master,
            master_changed,
            in_range,
            decks,
            slow_update: in_range && self.tick_count == 0,
        }
    }

    /// Second step of a tick with a master deck: runs the estimators on the
    /// samples read for the polled decks (`None` for the others), publishes the
    /// master's estimate, and on a slow tick takes in the identities and paths read
    /// for every deck. Returns the sink events in the order they must be sent.
    pub fn finish_tick(
        &mut self,
        plan: &TickPlan,
        elapsed_us: u64,
        samples: &Vec<Option<TimingSample>>,
        tracks: Vec<TrackInfo>,
        files: Vec<AnlzFile>,
    ) -> (events: Vec<SinkEvent>)
        requires
            keeper_wf(old(self)@),
            tick_inputs_fit(old(self)@, *plan, samples@, tracks@, files@),
        ensures
            keeper_wf(final(self)@),
            events@ == tick_events(old(self)@, *plan, samples@, tracks@, elapsed_us as int),
            final(self)@ == after_tick(old(self)@, *plan, samples@, tracks@, files@, elapsed_us as int),
    {
        let ghost v = self@;
        let master = plan.master;
        assert(samples@[master as int] is Some);
        assert forall|i: int| 0 <= i < self.track_trackers@.len() implies tracker_wf(
            (#[trigger] self.track_trackers@[i])@,
        ) by {
            assert(v.trackers[i] == self.track_trackers@[i]@);
        }
        let mut events: Vec<SinkEvent> = Vec::new();
        events.push(SinkEvent::PreUpdate);
        let estimate = update_trackers(
            &mut self.track_trackers,
            samples,
            elapsed_us,
            self.bar_jitter_tolerance,
            self.offset_samples,
            master,
        );
        assert(estimate == master_estimate(v, master as int, samples@, elapsed_us as int));
        assert(self@.trackers =~= Seq::new(
            v.decks as nat,
            |i: int| updated_tracker(v, samples@, elapsed_us as int, i),
        ));
        self.published.publish(&estimate, &mut events);
        let ghost after_publish = self@;
        let ghost publish_part = events@;
        let mut master_track_changed = false;
        if plan.slow_update {
            master_track_changed = self.slow_update(master, tracks, files, &mut events);
            events.push(SinkEvent::SlowUpdate);
            proof {
                assert(identity_events(after_publish, tracks@, v.decks) == identity_events(
                    v,
                    tracks@,
                    v.decks,
                )) by {
                    lemma_identity_events_depend_on_tracks(after_publish, v, tracks@, v.decks);
                }
            }
        }
        if plan.master_changed || master_track_changed {
            events.push(SinkEvent::MasterTrackChanged(master));
        }
        self.tick_count = (self.tick_count + 1) % self.slow_update_every_nth;
        proof {
            let target = after_tick(v, *plan, samples@, tracks@, files@, elapsed_us as int);
            assert(self@.trackers =~= target.trackers);
            assert(self@.tracks =~= target.tracks);
            assert(self@.files =~= target.files);
            assert(events@ =~= tick_events(v, *plan, samples@, tracks@, elapsed_us as int));
        }
        events
    }

    /// The slow part of a tick: takes in the identities and paths read for every
    /// deck, appends one event per changed identity, flags the estimators of decks
    /// whose track changed, and returns whether the master's identity changed.
    fn slow_update(
        &mut self,
        master: usize,
        tracks: Vec<TrackInfo>,
        files: Vec<AnlzFile>,
        events: &mut Vec<SinkEvent>,
    ) -> (master_track_changed: bool)
        requires
            keeper_wf(old(self)@),
            tracks@.len() == old(self)@.decks,
            files@.len() == old(self)@.decks,
            master < old(self)@.decks,
        ensures
            keeper_wf(final(self)@),
            master_track_changed == identity_changed(old(self)@, tracks@, master as int),
            final(events)@ == old(events)@ + identity_events(old(self)@, tracks@, old(self)@.decks),
            final(self)@ == (KeeperView {
                trackers: Seq::new(
                    old(self)@.decks as nat,
                    |i: int| flagged(old(self)@.trackers[i], deck_reset(old(self)@, tracks@, files@, i)),
                ),
                tracks: Seq::new(
                    old(self)@.decks as nat,
                    |i: int|
                        if identity_changed(old(self)@, tracks@, i) {
                            tracks@[i]
                        } else {
                            old(self)@.tracks[i]
                        },
                ),
                files: Seq::new(
                    old(self)@.decks as nat,
                    |i: int| if path_changed(old(self)@, files@, i) { files@[i] } else { old(self)@.files[i] },
                ),
                ..old(self)@
            }),
    {
        let ghost v = self@;
        let ghost start = events@;
        let ghost new_tracks = tracks@;
        let ghost new_files = files@;
        let mut tracks = tracks;
        let mut files = files;
        let mut master_track_changed = false;
        let mut i: usize = 0;
        while i < self.decks
            invariant
                0 <= i <= v.decks,
                keeper_wf(v),
                self.decks == v.decks,
                master < v.decks,
                tracks@.len() == v.decks,
                files@.len() == v.decks,
                new_tracks.len() == v.decks,
                new_files.len() == v.decks,
                forall|j: int| i <= j < v.decks ==> #[trigger] tracks@[j] == new_tracks[j],
                forall|j: int| i <= j < v.decks ==> #[trigger] files@[j] == new_files[j],
                self@ == (KeeperView {
                    trackers: self@.trackers,
                    tracks: self@.tracks,
                    files: self@.files,
                    ..v
                }),
                self@.trackers.len() == v.decks,
                self@.tracks.len() == v.decks,
                self@.files.len() == v.decks,
                forall|j: int|
                    0 <= j < v.decks ==> #[trigger] self@.trackers[j] == if j < i {
                        flagged(v.trackers[j], deck_reset(v, new_tracks, new_files, j))
                    } else {
                        v.trackers[j]
                    },
                forall|j: int|
                    0 <= j < v.decks ==> #[trigger] self@.tracks[j] == if j < i && identity_changed(
                        v,
                        new_tracks,
                        j,
                    ) {
                        new_tracks[j]
                    } else {
                        v.tracks[j]
                    },
                forall|j: int|
                    0 <= j < v.decks ==> #[trigger] self@.files[j] == if j < i && path_changed(
                        v,
                        new_files,
                        j,
                    ) {
                        new_files[j]
                    } else {
                        v.files[j]
                    },
                self.track_infos@.len() == v.decks,
                self.anlz_files@.len() == v.decks,
                self.track_trackers@.len() == v.decks,
                events@ == start + identity_events(v, new_tracks, i as int),
                master_track_changed == (master < i && identity_changed(v, new_tracks, master as int)),
            decreases v.decks - i,
        {
            let ghost before = self@;
            let mut track = TrackInfo::default();
            std::mem::swap(&mut track, &mut tracks[i]);
            let mut file = AnlzFile::default();
            std::mem::swap(&mut file, &mut files[i]);
            assert(self@.tracks[i as int] == v.tracks[i as int]);
            assert(self.track_infos@[i as int].value == v.tracks[i as int]);
            assert(self@.files[i as int] == v.files[i as int]);
            assert(self.anlz_files@[i as int].value == v.files[i as int]);
            let track_changed = self.track_infos[i].set(track);
            let file_changed = self.anlz_files[i].set(file);
            assert(track_changed == identity_changed(v, new_tracks, i as int));
            assert(file_changed == path_changed(v, new_files, i as int));
            if track_changed {
                events.push(SinkEvent::TrackChanged(i));
                if i == master {
                    master_track_changed = true;
                }
            }
            if track_changed || file_changed {
                self.track_trackers[i].mark_track_changed();
            }
            assert forall|j: int| 0 <= j < v.decks && j != i implies #[trigger] self@.tracks[j] == before.tracks[j]
                && self@.files[j] == before.files[j] && self@.trackers[j] == before.trackers[j] by {}
            assert(self@.trackers[i as int] == flagged(
                v.trackers[i as int],
                deck_reset(v, new_tracks, new_files, i as int),
            ));
            assert(self@.files[i as int] == if path_changed(v, new_files, i as int) {
                new_files[i as int]
            } else {
                v.files[i as int]
            });
            proof {
                assert(identity_events(v, new_tracks, i + 1) == identity_events(v, new_tracks, i as int)
                    + when(identity_changed(v, new_tracks, i as int), SinkEvent::TrackChanged(i)));
            }
            i = i + 1;
            assert forall|j: int| 0 <= j < v.decks implies #[trigger] self@.trackers[j] == if j < i {
                flagged(v.trackers[j], deck_reset(v, new_tracks, new_files, j))
            } else {
                v.trackers[j]
            } by {
                if j != i - 1 {
                    assert(self@.trackers[j] == before.trackers[j]);
                }
            }
            assert forall|j: int| 0 <= j < v.decks implies #[trigger] self@.files[j] == if j < i && path_changed(
                v,
                new_files,
                j,
            ) {
                new_files[j]
            } else {
                v.files[j]
            } by {
                if j != i - 1 {
                    assert(self@.files[j] == before.files[j]);
                }
            }
        }
        proof {
            assert(self@.trackers =~= Seq::new(
                v.decks as nat,
                |j: int| flagged(v.trackers[j], deck_reset(v, new_tracks, new_files, j)),
            ));
            assert(self@.tracks =~= Seq::new(
                v.decks as nat,
                |j: int| if identity_changed(v, new_tracks, j) { new_tracks[j] } else { v.tracks[j] },
            ));
            assert(self@.files =~= Seq::new(
                v.decks as nat,
                |j: int| if path_changed(v, new_files, j) { new_files[j] } else { v.files[j] },
            ));
        }
        master_track_changed
    }

    /// Hands a failed read to the error channel; returns whether it must be
    /// reported, that is whether it differs from the error reported last.
    pub fn report_error(&mut self, e: ReadError) -> (report: bool)
        ensures
            report == fresh_error(old(self)@, e),
            final(self)@ == after_error(old(self)@, e),
    {
        if let Some(last) = &self.last_error {
            if e == *last {
                return false;
            }
        }
        self.last_error = Some(e);
        true
    }

    /// A source was acquired: the keeper is connected, and the next error is
    /// reported whatever came before.
    pub fn connected(&mut self)
        ensures
            final(self)@ == (KeeperView {
                state: ConnectionState::Connected,
                last_error: None,
                ..old(self)@
            }),
    {
        self.state = ConnectionState::Connected;
        self.last_error = None;
    }

    /// An attempt to acquire a source failed: the keeper stays disconnected.
    /// Returns whether the error must be reported.
    pub fn connect_failed(&mut self, e: ReadError) -> (report: bool)
        ensures
            report == fresh_error(old(self)@, e),
            final(self)@ == (KeeperView {
                state: ConnectionState::Disconnected,
                ..after_error(old(self)@, e)
            }),
    {
        self.state = ConnectionState::Disconnected;
        self.report_error(e)
    }

    /// A read failed during a tick: the keeper is disconnected, and no estimator,
    /// published value or identity changes. Returns whether the error must be
    /// reported.
    pub fn tick_failed(&mut self, e: ReadError) -> (report: bool)
        ensures
            report == fresh_error(old(self)@, e),
            final(self)@ == (KeeperView {
                state: ConnectionState::Disconnected,
                ..after_error(old(self)@, e)
            }),
    {
        self.state = ConnectionState::Disconnected;
        self.report_error(e)
    }

    /// The connection state.
    pub fn state(&self) -> (r: ConnectionState)
        ensures
            r == self@.state,
    {
        self.state
    }

    /// The identity held for a deck.
    pub fn track_info(&self, deck: usize) -> (r: &TrackInfo)
        requires
            keeper_wf(self@),
            deck < self@.decks,
        ensures
            *r == self@.tracks[deck as int],
    {
        &self.track_infos[deck].value
    }

    /// The analysis-file path held for a deck.
    pub fn anlz_file(&self, deck: usize) -> (r: &AnlzFile)
        requires
            keeper_wf(self@),
            deck < self@.decks,
        ensures
            *r == self@.files[deck as int],
    {
        &self.anlz_files[deck].value
    }

    /// The estimator of a deck.
    pub fn tracker(&self, deck: usize) -> (r: &TrackTracker)
        requires
            keeper_wf(self@),
            deck < self@.decks,
        ensures
            r@ == self@.trackers[deck as int],
    {
        &self.track_trackers[deck]
    }

    /// The number of deck slots.
    pub fn decks(&self) -> (r: usize)
        ensures
            r == self@.decks,
    {
        self.decks
    }

    /// Microseconds between the starts of two ticks.
    pub fn tick_period_us(&self) -> (r: u64)
        requires
            keeper_wf(self@),
        ensures
            r == 1000000int / self@.update_rate,
    {
        1000000 / self.update_rate
    }
}

/// How long to sleep after a tick that took `spent_us` of a `period_us` period:
/// the rest of the period, or nothing when the tick overran it.
pub fn pacing_delay_us(period_us: u64, spent_us: u64) -> (r: u64)
    ensures
        r == if spent_us < period_us { period_us - spent_us } else { 0 },
{
    if spent_us < period_us {
        period_us - spent_us
    } else {
        0
    }
}

} // verus!
