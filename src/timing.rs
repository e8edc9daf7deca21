//! Fixed-point timing model: units, the raw per-deck sample, and the formulas
//! that turn sample positions into beat positions.
use vstd::prelude::*;
use vstd::arithmetic::div_mod::{
    lemma_fundamental_div_mod,
    lemma_mod_bound,
};

verus! {

/// Audio samples per second of the reference clock that sample positions count in.
pub const SAMPLE_RATE: i64 = 44100;

/// Micro-BPM per BPM: tempos are held in millionths of a beat per minute.
pub const TEMPO_SCALE: i64 = 1000000;

/// Parts per million: a playback speed of `1_000_000` is normal speed.
pub const SPEED_SCALE: i64 = 1000000;

/// Micro-beats per beat: beat positions are held in millionths of a beat.
pub const BEAT_SCALE: i64 = 1000000;

/// Beats in one bar (one measure).
pub const BEATS_PER_BAR: i64 = 4;

/// Micro-beats in one bar.
pub const BAR_LENGTH: i64 = 4000000;

/// Tempo used while a deck reports a displayed tempo of zero (120 BPM).
pub const FALLBACK_TEMPO: i64 = 120000000;

/// Highest original tempo the beat grid is built on (10000 BPM).
pub const MAX_TEMPO: i64 = 10000000000;

/// Samples per minute at the reference rate, times `TEMPO_SCALE`: dividing it by
/// a tempo in micro-BPM gives the samples in one beat.
pub const SAMPLE_MINUTE: i128 = 2646000000000;

/// Samples per minute at the reference rate, divided by `BEAT_SCALE`: a sample
/// offset times a tempo in micro-BPM, divided by this, gives micro-beats.
pub const BEAT_DIVISOR: i128 = 2646000;

/// Microseconds times speed in parts per million, times this, gives samples
/// times `10^12` (the scale of `ADVANCE_SCALE`).
pub const ADVANCE_SCALE: i128 = 1000000000000;

/// Raw counters read for one deck on one tick.
#[derive(Clone, Copy, Debug, PartialEq, Eq, Structural)]
pub struct TimingSample {
    /// Displayed tempo, in micro-BPM.
    pub current_bpm: i64,
    /// Playback speed multiplier, in parts per million.
    pub playback_speed: i64,
    /// Position of the play head, in samples at 44100 Hz.
    pub sample_position: i64,
    /// The GUI's beat within the bar (1 to 4).
    pub beat_display: i32,
    /// The GUI's bar counter: 0 before analysis, 1-based afterward.
    pub bar_display: i32,
}

pub open spec fn abs(x: int) -> int {
    if x < 0 { -x } else { x }
}

/// The displayed tempo, with zero replaced by the fallback tempo.
pub open spec fn effective_bpm(s: TimingSample) -> int {
    if s.current_bpm == 0 { FALLBACK_TEMPO as int } else { s.current_bpm as int }
}

/// A tempo the beat grid can be built on.
pub open spec fn valid_tempo(t: int) -> bool {
    1 <= t <= MAX_TEMPO as int
}

/// The original tempo that a sample implies: the displayed tempo divided by the
/// playback speed, rounded down, when the speed is positive and the quotient
/// fits an `i64`.
pub open spec fn implied_tempo(s: TimingSample) -> Option<int> {
    if s.playback_speed > 0 {
        let c = effective_bpm(s) * (SPEED_SCALE as int) / (s.playback_speed as int);
        if i64::MIN <= c <= i64::MAX { Some(c) } else { None }
    } else {
        None
    }
}

/// The implied original tempo, when the beat grid can be built on it.
pub open spec fn tempo_candidate(s: TimingSample) -> Option<int> {
    match implied_tempo(s) {
        Some(c) => if valid_tempo(c) { Some(c) } else { None },
        None => None,
    }
}

/// Samples in one beat at tempo `t`, rounded to the nearest integer.
pub open spec fn samples_per_beat(t: int) -> int {
    (2 * (SAMPLE_MINUTE as int) + t) / (2 * t)
}

/// Samples in one bar at tempo `t`.
pub open spec fn samples_per_measure(t: int) -> int {
    samples_per_beat(t) * (BEATS_PER_BAR as int)
}

/// Expected advance of the play head over `elapsed_us` at `speed`, in samples
/// times `ADVANCE_SCALE`.
pub open spec fn expected_advance(elapsed_us: int, speed: int) -> int {
    elapsed_us * (SAMPLE_RATE as int) * speed
}

/// Whether an observed advance is usable for a phase measurement: the play head
/// moved forward, by less than half the expected advance away from it.
pub open spec fn reliable_advance(elapsed_us: int, speed: int, advance: int) -> bool {
    let e = expected_advance(elapsed_us, speed);
    &&& advance > 0
    &&& 2 * abs(e - advance * (ADVANCE_SCALE as int)) < abs(e)
}

/// Where the bar started, estimated from a beat display change seen after the play
/// head advanced by `advance` samples: the midpoint of the advance, moved back by
/// the beats already counted in the bar.
pub open spec fn phase_measurement(s: TimingSample, advance: int, t: int) -> int {
    s.sample_position - advance / 2 - (s.beat_display - 1) * (SAMPLE_MINUTE as int) / t
}

/// Beats between bar zero and the bar the GUI shows, in micro-beats.
pub open spec fn bar_base(bar: int) -> int {
    (bar - (if bar > 0 { 1int } else { 0int })) * (BAR_LENGTH as int)
}

/// The continuous beat position: the position within the bar from the grid, plus
/// the bars counted by the GUI, in micro-beats.
pub open spec fn beat_position(position: int, grid_shift: int, offset: int, t: int, bar: int) -> int {
    (position - grid_shift + offset) * t / (BEAT_DIVISOR as int) % (BAR_LENGTH as int) + bar_base(bar)
}

/// Largest magnitude of a beat position computed from any sample.
pub open spec fn raw_beat_bound() -> int {
    0x8000_0000 * (BAR_LENGTH as int)
}

/// Largest magnitude of a beat position after a bar-jump correction.
pub open spec fn beat_bound() -> int {
    raw_beat_bound() + BAR_LENGTH as int
}

/// Sum of the queued phases after rotating each by `guess` on a circle of size `m`.
pub open spec fn rotated_sum(q: Seq<i128>, guess: int, m: int) -> int
    decreases q.len(),
{
    if q.len() == 0 {
        0
    } else {
        rotated_sum(q.drop_last(), guess, m) + (q.last() as int + guess) % m
    }
}

/// The rotation that moves the oldest phase to the middle of the circle.
pub open spec fn phase_guess(q: Seq<i128>, m: int) -> int {
    m / 2 - (q[0] as int) % m
}

/// The grid shift averaged from the queued phases on a circle of size `m`: each
/// phase is rotated by the guess, the rotated values are averaged, and the
/// rotation is taken back out.
pub open spec fn averaged_grid_shift(q: Seq<i128>, m: int) -> int {
    let guess = phase_guess(q, m);
    (rotated_sum(q, guess, m) / (q.len() as int) - guess) % m
}

/// Largest magnitude of a queued phase measurement.
pub open spec fn phase_bound() -> int {
    0x1_0000_0000_0000_0000_0000_0000
}

pub proof fn lemma_floor_div_bounds(a: int, b: int)
    requires
        b >= 1,
    ensures
        a >= 0 ==> 0 <= a / b <= a,
        a < 0 ==> a <= a / b < 0,
{
    lemma_fundamental_div_mod(a, b);
    lemma_mod_bound(a, b);
    let q = a / b;
    let r = a % b;
    assert(a >= 0 ==> 0 <= q <= a) by (nonlinear_arith)
        requires
            a == b * q + r,
            0 <= r < b,
            b >= 1,
    ;
    assert(a < 0 ==> a <= q < 0) by (nonlinear_arith)
        requires
            a == b * q + r,
            0 <= r < b,
            b >= 1,
    ;
}

/// Rounds `a / b` down.
pub fn floor_div(a: i128, b: i128) -> (r: i128)
    requires
        b > 0,
    ensures
        r == a as int / b as int,
{
    proof {
        lemma_floor_div_bounds(a as int, b as int);
    }
    a.checked_div_euclid(b).unwrap()
}

/// The remainder of `a` on a circle of size `m`, in `0..m`.
pub fn floor_mod(a: i128, m: i128) -> (r: i128)
    requires
        m > 0,
    ensures
        r == a as int % m as int,
        0 <= r < m,
{
    proof {
        lemma_mod_bound(a as int, m as int);
    }
    a.checked_rem_euclid(m).unwrap()
}

pub fn effective_bpm_of(s: &TimingSample) -> (r: i64)
    ensures
        r == effective_bpm(*s),
{
    if s.current_bpm == 0 {
        FALLBACK_TEMPO
    } else {
        s.current_bpm
    }
}

pub fn implied_tempo_of(s: &TimingSample) -> (r: Option<i64>)
    ensures
        match implied_tempo(*s) {
            Some(c) => r == Some(c as i64),
            None => r is None,
        },
{
    let bpm = effective_bpm_of(s);
    if s.playback_speed > 0 {
        assert(-0x8000_0000_0000_0000 * 1000000 <= bpm as i128 * 1000000 <= 0x8000_0000_0000_0000 * 1000000)
            by (nonlinear_arith)
            requires
                -0x8000_0000_0000_0000 <= bpm <= 0x8000_0000_0000_0000,
        ;
        let c = floor_div(bpm as i128 * SPEED_SCALE as i128, s.playback_speed as i128);
        if i64::MIN as i128 <= c && c <= i64::MAX as i128 {
            Some(c as i64)
        } else {
            None
        }
    } else {
        None
    }
}

/// The implied original tempo, when the beat grid can be built on it.
pub fn tempo_candidate_of(implied: Option<i64>) -> (r: Option<i64>)
    ensures
        r == match implied {
            Some(c) => if valid_tempo(c as int) { Some(c) } else { None::<i64> },
            None => None::<i64>,
        },
{
    match implied {
        Some(c) => if 1 <= c && c <= MAX_TEMPO { Some(c) } else { None },
        None => None,
    }
}

pub proof fn lemma_measure_bounds(t: int)
    requires
        valid_tempo(t),
    ensures
        1 <= samples_per_beat(t) <= 2 * SAMPLE_MINUTE,
        4 <= samples_per_measure(t) <= 8 * SAMPLE_MINUTE,
{
    let n = 2 * SAMPLE_MINUTE + t;
    let d = 2 * t;
    assert(n >= d);
    vstd::arithmetic::div_mod::lemma_div_is_ordered(d, n, d);
    vstd::arithmetic::div_mod::lemma_div_by_self(d);
    lemma_floor_div_bounds(n, d);
    assert(n / d <= n / 2) by {
        vstd::arithmetic::div_mod::lemma_div_is_ordered_by_denominator(n, 2, d);
    }
    assert(n / 2 <= 2 * SAMPLE_MINUTE) by {
        vstd::arithmetic::div_mod::lemma_div_is_ordered(n, 2 * (2 * SAMPLE_MINUTE), 2);
        vstd::arithmetic::div_mod::lemma_div_multiples_vanish(2 * SAMPLE_MINUTE, 2);
    }
}

pub fn samples_per_measure_of(t: i64) -> (r: i64)
    requires
        valid_tempo(t as int),
    ensures
        r == samples_per_measure(t as int),
        4 <= r <= 8 * SAMPLE_MINUTE,
{
    proof {
        lemma_measure_bounds(t as int);
    }
    let per_beat = floor_div(2 * SAMPLE_MINUTE + t as i128, 2 * t as i128);
    (per_beat * 4) as i64
}

pub fn reliable_advance_of(elapsed_us: u64, speed: i64, advance: i128) -> (r: bool)
    requires
        -0x4_0000_0000_0000_0000 <= advance <= 0x4_0000_0000_0000_0000,
    ensures
        r == reliable_advance(elapsed_us as int, speed as int, advance as int),
{
    let ghost e = expected_advance(elapsed_us as int, speed as int);
    if advance <= 0 {
        return false;
    }
    let a = advance * ADVANCE_SCALE;
    if speed <= 0 {
        assert(e <= 0) by (nonlinear_arith)
            requires
                e == elapsed_us as int * 44100 * speed as int,
                elapsed_us >= 0,
                speed <= 0,
        ;
        return false;
    }
    let scaled = elapsed_us as i128 * SAMPLE_RATE as i128;
    assert(e == scaled as int * speed as int);
    assert(e >= 0) by (nonlinear_arith)
        requires
            e == scaled as int * speed as int,
            scaled >= 0,
            speed > 0,
    ;
    match scaled.checked_mul(speed as i128) {
        None => false,
        Some(ex) => {
            let d = ex - a;
            let ad = if d < 0 { -d } else { d };
            ad < ex - ad
        },
    }
}

pub fn phase_measurement_of(s: &TimingSample, advance: i128, t: i64) -> (r: i128)
    requires
        valid_tempo(t as int),
        0 < advance <= 0x4_0000_0000_0000_0000,
    ensures
        r == phase_measurement(*s, advance as int, t as int),
        -phase_bound() <= r <= phase_bound(),
{
    let beats = (s.beat_display as i128 - 1) * SAMPLE_MINUTE;
    let into_bar = floor_div(beats, t as i128);
    proof {
        lemma_floor_div_bounds(beats as int, t as int);
        lemma_floor_div_bounds(advance as int, 2);
    }
    s.sample_position as i128 - floor_div(advance, 2) - into_bar
}

pub fn beat_position_of(position: i64, grid_shift: i64, offset: i64, t: i64, bar: i32) -> (r: i64)
    requires
        valid_tempo(t as int),
    ensures
        r == beat_position(position as int, grid_shift as int, offset as int, t as int, bar as int),
        -raw_beat_bound() <= r <= raw_beat_bound(),
{
    let x = position as i128 - grid_shift as i128 + offset as i128;
    proof {
        let c: int = 0x2_0000_0000_0000_0000;
        vstd::arithmetic::mul::lemma_mul_inequality(x as int, c, t as int);
        vstd::arithmetic::mul::lemma_mul_inequality(-c, x as int, t as int);
        vstd::arithmetic::mul::lemma_mul_inequality(t as int, 0x4_0000_0000, c);
        assert(-c * t == -(c * t)) by (nonlinear_arith);
    }
    let micro = floor_div(x * t as i128, BEAT_DIVISOR);
    let within = floor_mod(micro, BAR_LENGTH as i128);
    let counted: i128 = if bar > 0 { bar as i128 - 1 } else { bar as i128 };
    (within + counted * BAR_LENGTH as i128) as i64
}

pub proof fn lemma_rotated_sum_bounds(q: Seq<i128>, guess: int, m: int)
    requires
        m > 0,
    ensures
        0 <= rotated_sum(q, guess, m) <= q.len() * (m - 1),
    decreases q.len(),
{
    if q.len() > 0 {
        lemma_rotated_sum_bounds(q.drop_last(), guess, m);
        lemma_mod_bound(q.last() + guess, m);
        assert((q.len() - 1) * (m - 1) + (m - 1) == q.len() * (m - 1)) by (nonlinear_arith);
    }
}

pub fn averaged_grid_shift_of(q: &Vec<i128>, m: i64) -> (r: i64)
    requires
        1 <= q.len() <= 8,
        4 <= m <= 8 * SAMPLE_MINUTE,
        forall|i: int| 0 <= i < q.len() ==> -phase_bound() <= #[trigger] q@[i] <= phase_bound(),
    ensures
        r == averaged_grid_shift(q@, m as int),
        0 <= r < m,
{
    let mi = m as i128;
    let guess = floor_div(mi, 2) - floor_mod(q[0], mi);
    proof {
        lemma_floor_div_bounds(m as int, 2);
    }
    let mut sum: i128 = 0;
    let mut i: usize = 0;
    while i < q.len()
        invariant
            0 <= i <= q.len() <= 8,
            -mi <= guess <= mi,
            mi == m,
            4 <= m <= 8 * SAMPLE_MINUTE,
            forall|j: int| 0 <= j < q.len() ==> -phase_bound() <= #[trigger] q@[j] <= phase_bound(),
            sum == rotated_sum(q@.subrange(0, i as int), guess as int, m as int),
            0 <= sum <= i * (m - 1),
        decreases q.len() - i,
    {
        let ghost before = q@.subrange(0, i as int);
        let rotated = floor_mod(q[i] + guess, mi);
        proof {
            assert(q@.subrange(0, i + 1).drop_last() =~= before);
            assert(i * (m - 1) + (m - 1) == (i + 1) * (m - 1)) by (nonlinear_arith);
            assert(i * (m - 1) <= 8 * (m - 1)) by (nonlinear_arith)
                requires
                    i <= 8,
                    m >= 4,
            ;
        }
        sum = sum + rotated;
        i = i + 1;
    }
    assert(q@.subrange(0, q.len() as int) =~= q@);
    assert(q.len() * (m - 1) <= 8 * (m - 1)) by (nonlinear_arith)
        requires
            q.len() <= 8,
            m >= 4,
    ;
    let avg = floor_div(sum, q.len() as i128);
    proof {
        lemma_floor_div_bounds(sum as int, q.len() as int);
    }
    floor_mod(avg - guess, mi) as i64
}

/// Rotation consistency of the grid-shift average: when every queued phase is the
/// same value `v` on the circle of size `m`, the averaged grid shift is `v mod m`,
/// whatever the order or number of the queued values.
pub proof fn lemma_equal_phases_average_to_phase(q: Seq<i128>, m: int, v: int)
    requires
        q.len() > 0,
        m > 0,
        forall|i: int| 0 <= i < q.len() ==> #[trigger] (q[i] as int % m) == v % m,
    ensures
        averaged_grid_shift(q, m) == v % m,
{
    let guess = phase_guess(q, m);
    let c = (v + guess) % m;
    lemma_rotated_sum_all_equal(q, guess, m, v);
    assert(rotated_sum(q, guess, m) / (q.len() as int) == c) by {
        vstd::arithmetic::div_mod::lemma_div_multiples_vanish(c, q.len() as int);
        assert(q.len() * c == c * q.len()) by (nonlinear_arith);
    }
    vstd::arithmetic::div_mod::lemma_add_mod_noop(v, guess, m);
    vstd::arithmetic::div_mod::lemma_sub_mod_noop(v + guess, guess, m);
    vstd::arithmetic::div_mod::lemma_mod_twice(v + guess, m);
    vstd::arithmetic::div_mod::lemma_mod_twice(guess, m);
    vstd::arithmetic::div_mod::lemma_sub_mod_noop(c, guess, m);
}

proof fn lemma_rotated_sum_all_equal(q: Seq<i128>, guess: int, m: int, v: int)
    requires
        m > 0,
        forall|i: int| 0 <= i < q.len() ==> #[trigger] (q[i] as int % m) == v % m,
    ensures
        rotated_sum(q, guess, m) == q.len() * ((v + guess) % m),
    decreases q.len(),
{
    if q.len() > 0 {
        let p = q.drop_last();
        assert forall|i: int| 0 <= i < p.len() implies #[trigger] (p[i] as int % m) == v % m by {
            assert(p[i] == q[i]);
        }
        lemma_rotated_sum_all_equal(p, guess, m, v);
        let x = q.last() as int;
        assert(x % m == v % m) by {
            assert(q[q.len() - 1] == q.last());
        }
        vstd::arithmetic::div_mod::lemma_add_mod_noop(x, guess, m);
        vstd::arithmetic::div_mod::lemma_add_mod_noop(v, guess, m);
        assert((q.len() - 1) * ((v + guess) % m) + (v + guess) % m == q.len() * ((v + guess) % m))
            by (nonlinear_arith);
    }
}

} // verus!
