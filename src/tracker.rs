//! The per-deck estimator: turns sparse, display-lagged raw counters into a
//! continuous beat position.
use vstd::prelude::*;
use crate::change::ChangeTrackedValue;
use crate::timing::{
    abs,
    averaged_grid_shift,
    averaged_grid_shift_of,
    beat_bound,
    beat_position,
    beat_position_of,
    effective_bpm,
    effective_bpm_of,
    floor_mod,
    phase_bound,
    phase_measurement,
    phase_measurement_of,
    raw_beat_bound,
    reliable_advance,
    reliable_advance_of,
    samples_per_measure,
    samples_per_measure_of,
    tempo_candidate,
    tempo_candidate_of,
    implied_tempo,
    implied_tempo_of,
    valid_tempo,
    lemma_measure_bounds,
    TimingSample,
    BAR_LENGTH,
    FALLBACK_TEMPO,
};

verus! {

/// Most phase measurements kept for the grid-shift average.
pub const PHASE_QUEUE_CAPACITY: usize = 8;

/// A new original tempo must differ from the accepted one by more than this
/// (0.001 BPM, in micro-BPM) to start the settling timer.
pub const TEMPO_TOLERANCE: i64 = 1000;

/// A differing original tempo is accepted once it has persisted longer than this
/// many microseconds.
pub const TEMPO_SETTLE_US: u64 = 200000;

/// A beat jump within this many micro-beats (0.1 beat) of one bar counts as bar
/// jitter.
pub const JITTER_WINDOW: i64 = 100000;

/// The estimator's state, as plain values.
pub struct TrackerView {
    pub accepted_tempo: int,
    pub settle_us: int,
    pub last_beat_display: int,
    pub last_position: int,
    pub grid_shift: int,
    pub measurements: Seq<i128>,
    pub since_bar_jump: int,
    pub last_beat: int,
    pub track_changed: bool,
}

/// What one estimator step reports.
#[derive(Clone, Copy, Debug, PartialEq, Eq, Structural)]
pub struct EstimateResult {
    /// The continuous beat position, in micro-beats.
    pub beat: i64,
    /// The original tempo implied by this sample, in micro-BPM; the accepted
    /// tempo when the sample implies none.
    pub original_bpm: i64,
    /// The sample, with a zero displayed tempo replaced by the fallback tempo.
    pub sample: TimingSample,
}

pub open spec fn min_int(a: int, b: int) -> int {
    if a < b { a } else { b }
}

/// Whether the sample's original tempo differs noticeably from the accepted one.
pub open spec fn tempo_differs(v: TrackerView, s: TimingSample) -> bool {
    &&& tempo_candidate(s) is Some
    &&& abs(tempo_candidate(s).unwrap() - v.accepted_tempo) > TEMPO_TOLERANCE as int
}

/// The settling timer after adding `elapsed_us`, saturated at the largest `u64`.
pub open spec fn settled_time(v: TrackerView, elapsed_us: int) -> int {
    min_int(v.settle_us + elapsed_us, u64::MAX as int)
}

/// Whether this step accepts the sample's original tempo.
pub open spec fn tempo_commits(v: TrackerView, s: TimingSample, elapsed_us: int) -> bool {
    tempo_differs(v, s) && settled_time(v, elapsed_us) > TEMPO_SETTLE_US as int
}

/// The accepted tempo after this step.
pub open spec fn next_tempo(v: TrackerView, s: TimingSample, elapsed_us: int) -> int {
    if tempo_commits(v, s, elapsed_us) { tempo_candidate(s).unwrap() } else { v.accepted_tempo }
}

/// The settling timer after this step.
pub open spec fn next_settle(v: TrackerView, s: TimingSample, elapsed_us: int) -> int {
    if tempo_differs(v, s) && !tempo_commits(v, s, elapsed_us) {
        settled_time(v, elapsed_us)
    } else {
        0
    }
}

/// The queue with only its newest entry kept.
pub open spec fn keep_newest(q: Seq<i128>) -> Seq<i128> {
    if q.len() > 1 { q.subrange(q.len() - 1, q.len() as int) } else { q }
}

/// The queue with `x` appended, the oldest entry dropped beyond capacity.
pub open spec fn push_bounded(q: Seq<i128>, x: i128) -> Seq<i128> {
    let p = q.push(x);
    if p.len() > PHASE_QUEUE_CAPACITY { p.subrange(1, p.len() as int) } else { p }
}

/// The play head's advance since the previous step.
pub open spec fn advance(v: TrackerView, s: TimingSample) -> int {
    s.sample_position - v.last_position
}

/// Whether this step records a phase measurement: the GUI beat changed and the
/// advance is reliable.
pub open spec fn phase_recorded(v: TrackerView, s: TimingSample, elapsed_us: int) -> bool {
    &&& s.beat_display != v.last_beat_display
    &&& reliable_advance(elapsed_us, s.playback_speed as int, advance(v, s))
}

/// The queue after the tempo trim and the track-change reset, before this step's
/// measurement.
pub open spec fn reset_measurements(v: TrackerView, s: TimingSample, elapsed_us: int) -> Seq<i128> {
    if v.track_changed {
        Seq::empty()
    } else if tempo_commits(v, s, elapsed_us) {
        keep_newest(v.measurements)
    } else {
        v.measurements
    }
}

/// The phase measurement queue after this step.
pub open spec fn next_measurements(v: TrackerView, s: TimingSample, elapsed_us: int) -> Seq<i128> {
    let q = reset_measurements(v, s, elapsed_us);
    if phase_recorded(v, s, elapsed_us) {
        push_bounded(q, phase_measurement(s, advance(v, s), next_tempo(v, s, elapsed_us)) as i128)
    } else {
        q
    }
}

/// The grid shift after this step: averaged anew when the tempo was accepted or a
/// measurement was recorded, else the old shift reduced to the current measure.
pub open spec fn next_grid_shift(v: TrackerView, s: TimingSample, elapsed_us: int) -> int {
    let q = next_measurements(v, s, elapsed_us);
    let m = samples_per_measure(next_tempo(v, s, elapsed_us));
    if (tempo_commits(v, s, elapsed_us) || phase_recorded(v, s, elapsed_us)) && q.len() > 0 {
        averaged_grid_shift(q, m)
    } else {
        v.grid_shift % m
    }
}

/// Whether the beat moved by about one bar since the previous step.
pub open spec fn bar_jump(raw: int, last: int) -> bool {
    abs(abs(raw - last) - BAR_LENGTH as int) < JITTER_WINDOW as int
}

/// The bar-jump counter after a step that computed `raw`.
pub open spec fn next_since_bar_jump(count: int, raw: int, last: int) -> int {
    if bar_jump(raw, last) { min_int(count + 1, u32::MAX as int) } else { 0 }
}

/// The reported beat: a bar jump is cancelled while the counter stays below the
/// tolerance, and passed through after.
pub open spec fn corrected_beat(count: int, raw: int, last: int, tolerance: int) -> int {
    if bar_jump(raw, last) && next_since_bar_jump(count, raw, last) < tolerance {
        if raw - last > 0 { raw - BAR_LENGTH as int } else { raw + BAR_LENGTH as int }
    } else {
        raw
    }
}

/// The beat position before the bar-jump correction.
pub open spec fn raw_beat(v: TrackerView, s: TimingSample, elapsed_us: int, offset: int) -> int {
    beat_position(
        s.sample_position as int,
        next_grid_shift(v, s, elapsed_us),
        offset,
        next_tempo(v, s, elapsed_us),
        s.bar_display as int,
    )
}

/// The state after one estimator step.
pub open spec fn next_view(
    v: TrackerView,
    s: TimingSample,
    elapsed_us: int,
    tolerance: int,
    offset: int,
) -> TrackerView {
    let raw = raw_beat(v, s, elapsed_us, offset);
    TrackerView {
        accepted_tempo: next_tempo(v, s, elapsed_us),
        settle_us: next_settle(v, s, elapsed_us),
        last_beat_display: s.beat_display as int,
        last_position: s.sample_position as int,
        grid_shift: next_grid_shift(v, s, elapsed_us),
        measurements: next_measurements(v, s, elapsed_us),
        since_bar_jump: next_since_bar_jump(v.since_bar_jump, raw, v.last_beat),
        last_beat: corrected_beat(v.since_bar_jump, raw, v.last_beat, tolerance),
        track_changed: false,
    }
}

/// The sample as reported: a zero displayed tempo is replaced by the fallback.
pub open spec fn reported_sample(s: TimingSample) -> TimingSample {
    TimingSample { current_bpm: effective_bpm(s) as i64, ..s }
}

/// The result of one estimator step.
pub open spec fn next_estimate(
    v: TrackerView,
    s: TimingSample,
    elapsed_us: int,
    tolerance: int,
    offset: int,
) -> EstimateResult {
    EstimateResult {
        beat: next_view(v, s, elapsed_us, tolerance, offset).last_beat as i64,
        original_bpm: (match implied_tempo(s) {
            Some(c) => c,
            None => v.accepted_tempo,
        }) as i64,
        sample: reported_sample(s),
    }
}

/// The per-deck estimator.
pub struct TrackTracker {
    last_original_bpm: i64,
    time_since_bpm_change: u64,
    last_beat: ChangeTrackedValue<i32>,
    last_pos: i64,
    grid_shift: i64,
    new_bar_measurements: Vec<i128>,
    measurements_since_bar_jump: u32,
    last_calculated_beat: i64,
    track_changed: bool,
}

impl View for TrackTracker {
    type V = TrackerView;

    closed spec fn view(&self) -> TrackerView {
        TrackerView {
            accepted_tempo: self.last_original_bpm as int,
            settle_us: self.time_since_bpm_change as int,
            last_beat_display: self.last_beat.value as int,
            last_position: self.last_pos as int,
            grid_shift: self.grid_shift as int,
            measurements: self.new_bar_measurements@,
            since_bar_jump: self.measurements_since_bar_jump as int,
            last_beat: self.last_calculated_beat as int,
            track_changed: self.track_changed,
        }
    }
}

/// The estimator's invariant: a valid accepted tempo, a grid shift reduced to the
/// measure, a bounded queue of bounded phases, and a bounded last beat.
pub open spec fn tracker_wf(v: TrackerView) -> bool {
    &&& valid_tempo(v.accepted_tempo)
    &&& 0 <= v.settle_us <= u64::MAX as int
    &&& 0 <= v.grid_shift < samples_per_measure(v.accepted_tempo)
    &&& v.measurements.len() <= PHASE_QUEUE_CAPACITY
    &&& forall|i: int|
        0 <= i < v.measurements.len() ==> -phase_bound() <= #[trigger] v.measurements[i] <= phase_bound()
    &&& 0 <= v.since_bar_jump <= u32::MAX as int
    &&& -beat_bound() <= v.last_beat <= beat_bound()
}

/// The state of a fresh estimator.
pub open spec fn initial_view() -> TrackerView {
    TrackerView {
        accepted_tempo: FALLBACK_TEMPO as int,
        settle_us: 0,
        last_beat_display: 1,
        last_position: 0,
        grid_shift: 0,
        measurements: Seq::empty(),
        since_bar_jump: 0,
        last_beat: 0,
        track_changed: false,
    }
}

impl TrackTracker {
    pub fn new() -> (r: Self)
        ensures
            r@ == initial_view(),
            tracker_wf(r@),
    {
        let r = TrackTracker {
            last_original_bpm: FALLBACK_TEMPO,
            time_since_bpm_change: 0,
            last_beat: ChangeTrackedValue::new(1),
            last_pos: 0,
            grid_shift: 0,
            new_bar_measurements: Vec::new(),
            measurements_since_bar_jump: 0,
            last_calculated_beat: 0,
            track_changed: false,
        };
        proof {
            lemma_measure_bounds(FALLBACK_TEMPO as int);
            assert(r@.measurements =~= Seq::<i128>::empty());
        }
        r
    }

    /// Flags that the deck's track changed: the next step clears the queue.
    pub fn mark_track_changed(&mut self)
        ensures
            final(self)@ == (TrackerView { track_changed: true, ..old(self)@ }),
    {
        self.track_changed = true;
    }

    /// Whether a track change is flagged and not yet consumed.
    pub fn track_change_pending(&self) -> (r: bool)
        ensures
            r == self@.track_changed,
    {
        self.track_changed
    }

    /// One estimator step: folds a new sample, read `elapsed_us` after the previous
    /// one, into the state and reports the continuous beat.
    pub fn update(
        &mut self,
        sample: TimingSample,
        elapsed_us: u64,
        bar_jitter_tolerance: u32,
        offset_samples: i64,
    ) -> (r: EstimateResult)
        requires
            tracker_wf(old(self)@),
        ensures
            tracker_wf(final(self)@),
            final(self)@ == next_view(
                old(self)@,
                sample,
                elapsed_us as int,
                bar_jitter_tolerance as int,
                offset_samples as int,
            ),
            r == next_estimate(
                old(self)@,
                sample,
                elapsed_us as int,
                bar_jitter_tolerance as int,
                offset_samples as int,
            ),
    {
        let ghost v = self@;
        let bpm = effective_bpm_of(&sample);
        let implied = implied_tempo_of(&sample);
        let candidate = tempo_candidate_of(implied);

        // Tempo debounce: a differing original tempo must persist before it is accepted.
        let differs = match candidate {
            Some(c) => {
                let d = c - self.last_original_bpm;
                d > TEMPO_TOLERANCE || d < -TEMPO_TOLERANCE
            },
            None => false,
        };
        let mut committed = false;
        if differs {
            self.time_since_bpm_change = self.time_since_bpm_change.saturating_add(elapsed_us);
            if self.time_since_bpm_change > TEMPO_SETTLE_US {
                if let Some(c) = candidate {
                    self.last_original_bpm = c;
                }
                self.time_since_bpm_change = 0;
                committed = true;
            }
        } else {
            self.time_since_bpm_change = 0;
        }
        assert(committed == tempo_commits(v, sample, elapsed_us as int));
        let mut recompute = committed;

        // Older measurements were taken at another tempo; a new track voids them all.
        if committed {
            let n = self.new_bar_measurements.len();
            if n > 1 {
                let newest = self.new_bar_measurements[n - 1];
                self.new_bar_measurements.clear();
                self.new_bar_measurements.push(newest);
                assert(self.new_bar_measurements@ =~= keep_newest(v.measurements));
            }
        }
        if self.track_changed {
            self.new_bar_measurements.clear();
            self.track_changed = false;
        }
        assert(self.new_bar_measurements@ =~= reset_measurements(v, sample, elapsed_us as int));

        let tempo = self.last_original_bpm;
        let measure = samples_per_measure_of(tempo);
        let advance = sample.sample_position as i128 - self.last_pos as i128;
        self.last_pos = sample.sample_position;

        // A change of the GUI beat marks a beat boundary within the last interval.
        let beat_changed = self.last_beat.set(sample.beat_display);
        if beat_changed && reliable_advance_of(elapsed_us, sample.playback_speed, advance) {
            let shift = phase_measurement_of(&sample, advance, tempo);
            self.new_bar_measurements.push(shift);
            if self.new_bar_measurements.len() > PHASE_QUEUE_CAPACITY {
                self.new_bar_measurements.remove(0);
            }
            recompute = true;
        }
        assert(self.new_bar_measurements@ =~= next_measurements(v, sample, elapsed_us as int));

        if recompute && self.new_bar_measurements.len() > 0 {
            self.grid_shift = averaged_grid_shift_of(&self.new_bar_measurements, measure);
        } else {
            self.grid_shift = floor_mod(self.grid_shift as i128, measure as i128) as i64;
        }

        let raw = beat_position_of(
            sample.sample_position,
            self.grid_shift,
            offset_samples,
            tempo,
            sample.bar_display,
        );

        // The GUI bar counter may flip early or late: cancel a one-bar jump for a while.
        let diff = raw - self.last_calculated_beat;
        let distance = if diff < 0 { -diff } else { diff };
        let mut beat = raw;
        if distance - BAR_LENGTH < JITTER_WINDOW && BAR_LENGTH - distance < JITTER_WINDOW {
            self.measurements_since_bar_jump = self.measurements_since_bar_jump.saturating_add(1);
            if self.measurements_since_bar_jump < bar_jitter_tolerance {
                beat = if diff > 0 { raw - BAR_LENGTH } else { raw + BAR_LENGTH };
            }
        } else {
            self.measurements_since_bar_jump = 0;
        }
        self.last_calculated_beat = beat;

        let original_bpm = match implied {
            Some(c) => c,
            None => tempo,
        };
        EstimateResult {
            beat,
            original_bpm,
            sample: TimingSample { current_bpm: bpm, ..sample },
        }
    }

    /// The grid shift in samples.
    pub fn grid_shift(&self) -> (r: i64)
        ensures
            r == self@.grid_shift,
    {
        self.grid_shift
    }

    /// The accepted original tempo in micro-BPM.
    pub fn accepted_tempo(&self) -> (r: i64)
        ensures
            r == self@.accepted_tempo,
    {
        self.last_original_bpm
    }

    /// The queued phase measurements, oldest first.
    pub fn measurements(&self) -> (r: Vec<i128>)
        ensures
            r@ == self@.measurements,
    {
        let mut r: Vec<i128> = Vec::new();
        let mut i: usize = 0;
        while i < self.new_bar_measurements.len()
            invariant
                0 <= i <= self.new_bar_measurements@.len(),
                r@ == self.new_bar_measurements@.subrange(0, i as int),
            decreases self.new_bar_measurements@.len() - i,
        {
            r.push(self.new_bar_measurements[i]);
            i = i + 1;
            assert(r@ =~= self.new_bar_measurements@.subrange(0, i as int));
        }
        assert(r@ =~= self.new_bar_measurements@);
        r
    }
}

/// Bar-jitter suppression: when a step's beat lands about one bar away from the
/// previous one, the jump counter grows by one; while it stays below the tolerance
/// the jump is cancelled (the reported beat stays within a tenth of a beat of the
/// previous one), and from the tolerance on the jump is passed through unmodified.
/// Any other step resets the counter and reports the beat as computed.
pub proof fn lemma_bar_jitter_absorbed(
    v: TrackerView,
    s: TimingSample,
    elapsed_us: int,
    tolerance: int,
    offset: int,
)
    requires
        tracker_wf(v),
    ensures
        ({
            let raw = raw_beat(v, s, elapsed_us, offset);
            let n = next_view(v, s, elapsed_us, tolerance, offset);
            &&& bar_jump(raw, v.last_beat) ==> n.since_bar_jump == min_int(
                v.since_bar_jump + 1,
                u32::MAX as int,
            )
            &&& bar_jump(raw, v.last_beat) && n.since_bar_jump < tolerance ==> abs(n.last_beat - v.last_beat)
                < JITTER_WINDOW as int
            &&& bar_jump(raw, v.last_beat) && n.since_bar_jump >= tolerance ==> n.last_beat == raw
            &&& !bar_jump(raw, v.last_beat) ==> n.since_bar_jump == 0 && n.last_beat == raw
        }),
{
}

/// A displayed tempo of zero is replaced by 120 BPM before anything is divided by
/// it: the reported sample carries the fallback tempo, the implied original tempo
/// is 120 BPM divided by the playback speed at any positive speed, and at normal
/// speed it is the fallback tempo itself.
pub proof fn lemma_zero_tempo_falls_back(s: TimingSample)
    requires
        s.current_bpm == 0,
    ensures
        effective_bpm(s) == FALLBACK_TEMPO as int,
        reported_sample(s).current_bpm == FALLBACK_TEMPO,
        s.playback_speed == crate::timing::SPEED_SCALE ==> tempo_candidate(s) == Some(
            FALLBACK_TEMPO as int,
        ),
        s.playback_speed > 0 ==> implied_tempo(s) == Some(
            FALLBACK_TEMPO as int * crate::timing::SPEED_SCALE as int / s.playback_speed as int,
        ),
{
    if s.playback_speed > 0 {
        crate::timing::lemma_floor_div_bounds(
            FALLBACK_TEMPO as int * crate::timing::SPEED_SCALE as int,
            s.playback_speed as int,
        );
    }
    assert(FALLBACK_TEMPO as int * crate::timing::SPEED_SCALE as int / crate::timing::SPEED_SCALE as int
        == FALLBACK_TEMPO as int);
}

/// The beat position never decreases as the play head moves forward on a fixed
/// grid and tempo, as long as the GUI's bar counter agrees with the grid, that is
/// the counted bars minus the bars the grid has passed is the same at both
/// positions.
pub proof fn lemma_beat_nondecreasing(
    earlier: int,
    later: int,
    grid_shift: int,
    offset: int,
    t: int,
    bar1: int,
    bar2: int,
)
    requires
        valid_tempo(t),
        earlier <= later,
        crate::timing::bar_base(bar1) - grid_beats(earlier, grid_shift, offset, t) / (BAR_LENGTH as int) * (
        BAR_LENGTH as int) == crate::timing::bar_base(bar2) - grid_beats(later, grid_shift, offset, t) / (
        BAR_LENGTH as int) * (BAR_LENGTH as int),
    ensures
        beat_position(earlier, grid_shift, offset, t, bar1) <= beat_position(later, grid_shift, offset, t, bar2),
{
    let b = BAR_LENGTH as int;
    let c1 = grid_beats(earlier, grid_shift, offset, t);
    let c2 = grid_beats(later, grid_shift, offset, t);
    let d = crate::timing::BEAT_DIVISOR as int;
    assert((earlier - grid_shift + offset) * t <= (later - grid_shift + offset) * t) by (nonlinear_arith)
        requires
            earlier <= later,
            t >= 1,
    ;
    vstd::arithmetic::div_mod::lemma_div_is_ordered(
        (earlier - grid_shift + offset) * t,
        (later - grid_shift + offset) * t,
        d,
    );
    vstd::arithmetic::div_mod::lemma_fundamental_div_mod(c1, b);
    vstd::arithmetic::div_mod::lemma_fundamental_div_mod(c2, b);
    assert(b * (c1 / b) == c1 / b * b) by (nonlinear_arith);
    assert(b * (c2 / b) == c2 / b * b) by (nonlinear_arith);
}

/// Between beat-grid updates the estimator's beat does not go back: on a step that
/// accepts no new tempo and records no phase measurement, the grid and tempo stay
/// as they were, so when the previous beat was computed on that grid from an
/// earlier or equal position, and the GUI's bar counter agrees with the grid at
/// both positions, the new beat is at least the previous one unless the step
/// makes a bar-jump correction.
pub proof fn lemma_steady_beat_nondecreasing(
    v: TrackerView,
    s: TimingSample,
    elapsed_us: int,
    tolerance: int,
    offset: int,
    previous_position: int,
    previous_bar: int,
)
    requires
        tracker_wf(v),
        !tempo_commits(v, s, elapsed_us),
        !phase_recorded(v, s, elapsed_us),
        v.last_beat == beat_position(previous_position, v.grid_shift, offset, v.accepted_tempo, previous_bar),
        previous_position <= s.sample_position,
        crate::timing::bar_base(previous_bar) - grid_beats(
            previous_position,
            v.grid_shift,
            offset,
            v.accepted_tempo,
        ) / (BAR_LENGTH as int) * (BAR_LENGTH as int) == crate::timing::bar_base(s.bar_display as int)
            - grid_beats(s.sample_position as int, v.grid_shift, offset, v.accepted_tempo) / (
        BAR_LENGTH as int) * (BAR_LENGTH as int),
    ensures
        next_view(v, s, elapsed_us, tolerance, offset).grid_shift == v.grid_shift,
        next_view(v, s, elapsed_us, tolerance, offset).accepted_tempo == v.accepted_tempo,
        !bar_jump(raw_beat(v, s, elapsed_us, offset), v.last_beat) ==> next_view(
            v,
            s,
            elapsed_us,
            tolerance,
            offset,
        ).last_beat >= v.last_beat,
{
    let m = samples_per_measure(v.accepted_tempo);
    lemma_measure_bounds(v.accepted_tempo);
    vstd::arithmetic::div_mod::lemma_small_mod(v.grid_shift as nat, m as nat);
    assert(next_grid_shift(v, s, elapsed_us) == v.grid_shift);
    lemma_beat_nondecreasing(
        previous_position,
        s.sample_position as int,
        v.grid_shift,
        offset,
        v.accepted_tempo,
        previous_bar,
        s.bar_display as int,
    );
}

/// Micro-beats the grid has counted at a position, before reduction to the bar.
pub open spec fn grid_beats(position: int, grid_shift: int, offset: int, t: int) -> int {
    (position - grid_shift + offset) * t / (crate::timing::BEAT_DIVISOR as int)
}

} // verus!
