//! Beat/time conversion under piecewise-constant tempo.
//!
//! Time is counted in picoseconds and musical position in billionths of a
//! beat. Both units are finer than a millionth of a second and of a beat,
//! and at every tempo a map may hold one beat unit lasts at least two time
//! units: so a beat converted to a time and back is the same beat, and a
//! time converted to a beat and back lies within 30 nanoseconds of itself.

use vstd::prelude::*;
use vstd::arithmetic::div_mod::lemma_fundamental_div_mod_converse;

verus! {

/// Units of [`Time`] in one second.
pub const UNITS_PER_SECOND: i64 = 1_000_000_000_000;

/// Units of [`Beat`] in one whole beat.
pub const UNITS_PER_BEAT: i64 = 1_000_000_000;

/// Units of tempo in one beat per minute.
pub const UNITS_PER_BPM: u32 = 1_000;

/// Slowest tempo a map may hold (1 BPM).
pub const MIN_BPM: u32 = 1_000;

/// Fastest tempo a map may hold (30000 BPM). At or below it one time unit
/// is at most half a beat unit, so that no two beats share a time and the
/// beat of the time of a beat is that beat again.
pub const MAX_BPM: u32 = 30_000_000;

/// Largest magnitude of a beat position that the conversions accept
/// (50000 beats).
pub const BEAT_LIMIT: i64 = 50_000_000_000_000;

/// Largest magnitude of a map's offset (a million seconds).
pub const OFFSET_LIMIT: i64 = 1_000_000_000_000_000_000;

/// A point on the clock, or a signed distance between two points, in picoseconds.
#[derive(Clone, Copy, Debug, PartialEq, Eq, PartialOrd, Ord, Hash, Structural)]
pub struct Time(pub i64);

/// A musical position in billionths of a beat.
#[derive(Clone, Copy, Debug, PartialEq, Eq, PartialOrd, Ord, Hash, Structural)]
pub struct Beat(pub i64);

/// Magnitude of an integer.
pub open spec fn magnitude(x: int) -> int {
    if x < 0 { -x } else { x }
}

/// Duration in time units of `beats` beat units at tempo `bpm`, rounded
/// down. One beat unit at a tempo of one tempo unit lasts 60 000 000 time
/// units.
pub open spec fn span_time(beats: int, bpm: int) -> int {
    beats * 60_000_000 / bpm
}

/// Number of beat units that pass in `time` time units at tempo `bpm`,
/// rounded to the nearest unit (halves upwards).
pub open spec fn span_beats(time: int, bpm: int) -> int {
    (2 * time * bpm + 60_000_000) / 120_000_000
}

impl Time {
    /// Sum of two times.
    pub fn add(self, rhs: Time) -> (r: Time)
        requires
            i64::MIN <= self.0 + rhs.0 <= i64::MAX,
        ensures
            r.0 == self.0 + rhs.0,
    {
        Time(self.0 + rhs.0)
    }

    /// Signed distance from `rhs` to `self`.
    pub fn sub(self, rhs: Time) -> (r: Time)
        requires
            i64::MIN <= self.0 - rhs.0 <= i64::MAX,
        ensures
            r.0 == self.0 - rhs.0,
    {
        Time(self.0 - rhs.0)
    }

    /// Magnitude of a time.
    pub fn abs(&self) -> (r: Time)
        requires
            self.0 > i64::MIN,
        ensures
            r.0 == magnitude(self.0 as int),
    {
        if self.0 < 0 { Time(-self.0) } else { Time(self.0) }
    }
}

impl Beat {
    /// Whether the position lies within the range the conversions accept.
    pub open spec fn in_range(&self) -> bool {
        -BEAT_LIMIT <= self.0 <= BEAT_LIMIT
    }

    /// Executable form of [`Beat::in_range`].
    pub fn is_in_range(&self) -> (r: bool)
        ensures
            r == self.in_range(),
    {
        -BEAT_LIMIT <= self.0 && self.0 <= BEAT_LIMIT
    }
}

/// The quotient of the euclidean division by a positive divisor lies within
/// one divisor below the dividend.
pub proof fn lemma_floor_bounds(x: int, d: int)
    requires
        d > 0,
    ensures
        (x / d) * d <= x < (x / d) * d + d,
{
    vstd::arithmetic::div_mod::lemma_fundamental_div_mod(x, d);
    vstd::arithmetic::div_mod::lemma_mod_bound(x, d);
    assert((x / d) * d == d * (x / d)) by (nonlinear_arith);
}

/// Any `q` with `q * d <= x < q * d + d` is the euclidean quotient.
pub proof fn lemma_floor_unique(x: int, d: int, q: int)
    requires
        d > 0,
        q * d <= x < q * d + d,
    ensures
        x / d == q,
{
    lemma_fundamental_div_mod_converse(x, d, q, x - q * d);
}

/// Floor division of a signed dividend by a positive divisor.
fn floor_div(n: i128, d: i128) -> (q: i128)
    requires
        0 < d <= 0x1000_0000_0000_0000_0000_0000,
        -0x1000_0000_0000_0000_0000_0000_0000 <= n <= 0x1000_0000_0000_0000_0000_0000_0000,
    ensures
        q == n / d,
        magnitude(q as int) <= magnitude(n as int),
{
    if n >= 0 {
        let q: i128 = n / d;
        proof {
            lemma_floor_bounds(n as int, d as int);
            assert(q * d <= n);
            assert(q >= 0) by (nonlinear_arith)
                requires q * d + d > n, n >= 0, d > 0;
            assert(q <= n) by (nonlinear_arith)
                requires q * d <= n, q >= 0, d >= 1;
        }
        q
    } else {
        let m: i128 = -n;
        let c: i128 = (m + (d - 1)) / d;
        proof {
            lemma_floor_bounds(m + (d - 1), d as int);
            assert(c >= 0) by (nonlinear_arith)
                requires c * d + d > m + (d - 1), m >= 0, d > 0;
            assert((-c) * d == -(c * d)) by (nonlinear_arith);
            lemma_floor_unique(n as int, d as int, -c);
            assert((c - 1) * d == c * d - d) by (nonlinear_arith);
            assert(c <= m) by (nonlinear_arith)
                requires (c - 1) * d <= m - 1, c >= 0, d >= 1, m >= 1;
        }
        -c
    }
}

/// A tempo segment: from `beat` on, the tempo is `bpm` thousandths of a beat
/// per minute, until the next segment starts.
#[derive(Clone, Copy, Debug, PartialEq, Eq, Structural)]
pub struct BpmChange {
    pub beat: Beat,
    pub bpm: u32,
}

/// Tempo segments in ascending order of their start, and the time of beat zero.
#[derive(Clone, Debug)]
pub struct TimingMap {
    pub offset: Time,
    pub bpm_changes: Vec<BpmChange>,
}

/// Duration of a span of beats, exactly as [`span_time`] states it.
fn span_to_time(beats: i64, bpm: u32) -> (r: i64)
    requires
        -2 * BEAT_LIMIT <= beats <= 2 * BEAT_LIMIT,
        MIN_BPM <= bpm <= MAX_BPM,
    ensures
        r == span_time(beats as int, bpm as int),
{
    let q: i128 = floor_div((beats as i128) * 60_000_000, bpm as i128);
    proof {
        lemma_span_time_bounds(beats as int, bpm as int);
    }
    q as i64
}

/// Beats that pass in a span of time, exactly as [`span_beats`] states it.
fn span_to_beats(time: i128, bpm: u32) -> (r: i64)
    requires
        -16_300_000_000_000_000_000 <= time <= 16_300_000_000_000_000_000,
        MIN_BPM <= bpm <= MAX_BPM,
    ensures
        r == span_beats(time as int, bpm as int),
{
    assert(-16_300_000_000_000_000_000 * 30_000_000 <= time * bpm <= 16_300_000_000_000_000_000 * 30_000_000)
        by (nonlinear_arith)
        requires
            -16_300_000_000_000_000_000 <= time <= 16_300_000_000_000_000_000,
            1 <= bpm <= 30_000_000,
    ;
    let n: i128 = 2 * (time * (bpm as i128)) + 60_000_000;
    assert(n == 2 * time * bpm + 60_000_000) by (nonlinear_arith)
        requires n == 2 * (time * bpm) + 60_000_000;
    let q: i128 = floor_div(n, 120_000_000);
    proof {
        lemma_span_beats_bounds(time as int, bpm as int);
    }
    q as i64
}

/// A span of beats at a tempo of at least [`MIN_BPM`] lasts at most 60000
/// time units per beat unit, and has the sign of the span.
pub proof fn lemma_span_time_bounds(beats: int, bpm: int)
    requires
        bpm >= MIN_BPM,
    ensures
        beats >= 0 ==> 0 <= span_time(beats, bpm) <= beats * 60_000,
        beats <= 0 ==> beats * 60_000 <= span_time(beats, bpm) <= 0,
{
    let x = beats * 60_000_000;
    let q = x / bpm;
    lemma_floor_bounds(x, bpm);
    if beats >= 0 {
        assert(q >= 0) by (nonlinear_arith)
            requires q * bpm + bpm > x, x >= 0, bpm > 0;
        assert(q <= beats * 60_000) by (nonlinear_arith)
            requires q * bpm <= beats * 60_000_000, bpm >= 1000, q >= 0, beats >= 0;
    }
    if beats <= 0 {
        assert(q <= 0) by (nonlinear_arith)
            requires q * bpm <= x, x <= 0, bpm > 0;
        assert(q >= beats * 60_000) by (nonlinear_arith)
            requires q * bpm + bpm > beats * 60_000_000, bpm >= 1000, q <= 0, beats <= 0;
    }
}

/// At a tempo of at most [`MAX_BPM`] a span of time holds at most half a
/// beat unit per time unit, give or take one unit of rounding.
pub proof fn lemma_span_beats_bounds(time: int, bpm: int)
    requires
        1 <= bpm <= MAX_BPM,
    ensures
        magnitude(span_beats(time, bpm)) <= magnitude(time) / 2 + 1,
{
    let n = 2 * time * bpm + 60_000_000;
    let q = n / 120_000_000;
    lemma_floor_bounds(n, 120_000_000);
    let h = magnitude(time) / 2;
    lemma_floor_bounds(magnitude(time), 2);
    if time >= 0 {
        assert(q >= 0);
        assert(2 * time * bpm <= 2 * time * 30_000_000) by (nonlinear_arith)
            requires time >= 0, 1 <= bpm <= 30_000_000;
    } else {
        assert(2 * time * bpm >= 2 * time * 30_000_000) by (nonlinear_arith)
            requires time < 0, 1 <= bpm <= 30_000_000;
        assert(2 * time * bpm < 0) by (nonlinear_arith)
            requires time < 0, 1 <= bpm;
    }
}

/// At a tempo of at most one beat unit per time unit a longer span of
/// beats lasts strictly longer.
pub proof fn lemma_span_time_strict(shorter: int, longer: int, bpm: int)
    requires
        shorter < longer,
        1 <= bpm <= 60_000_000,
    ensures
        span_time(shorter, bpm) < span_time(longer, bpm),
{
    let q1 = span_time(shorter, bpm);
    let q2 = span_time(longer, bpm);
    lemma_floor_bounds(shorter * 60_000_000, bpm);
    lemma_floor_bounds(longer * 60_000_000, bpm);
    assert(q1 < q2) by (nonlinear_arith)
        requires
            q1 * bpm <= shorter * 60_000_000,
            longer * 60_000_000 < q2 * bpm + bpm,
            shorter + 1 <= longer,
            1 <= bpm <= 60_000_000,
    ;
}

/// At a tempo of at most [`MAX_BPM`] the beats counted in the duration of a
/// span are the span itself.
pub proof fn lemma_span_round_trip(beats: int, bpm: int)
    requires
        1 <= bpm <= MAX_BPM,
    ensures
        span_beats(span_time(beats, bpm), bpm) == beats,
{
    let x = span_time(beats, bpm);
    lemma_floor_bounds(beats * 60_000_000, bpm);
    let n = 2 * x * bpm + 60_000_000;
    assert(2 * x * bpm == 2 * (x * bpm)) by (nonlinear_arith);
    assert(beats * 120_000_000 == 2 * (beats * 60_000_000)) by (nonlinear_arith);
    lemma_floor_unique(n, 120_000_000, beats);
}

/// Farthest, in time units, that the duration of the beats counted in a
/// span of time lies from that span, at any tempo a map may hold: 30
/// nanoseconds and one unit of rounding.
pub const TIME_TOLERANCE: i64 = 30_001;

/// The duration of the beats counted in a span of time lies within
/// [`TIME_TOLERANCE`] of the span: the count is rounded to the nearest beat
/// unit, which at the slowest tempo lasts 60 nanoseconds.
pub proof fn lemma_span_time_of_beats(time: int, bpm: int)
    requires
        MIN_BPM <= bpm <= MAX_BPM,
    ensures
        -30_001 <= span_time(span_beats(time, bpm), bpm) - time <= 30_001,
{
    let r = span_beats(time, bpm);
    let s = span_time(r, bpm);
    lemma_floor_bounds(2 * time * bpm + 60_000_000, 120_000_000);
    lemma_floor_bounds(r * 60_000_000, bpm);
    assert(2 * time * bpm == 2 * (time * bpm)) by (nonlinear_arith);
    assert(r * 120_000_000 == 2 * (r * 60_000_000)) by (nonlinear_arith);
    let rk = r * 60_000_000;
    let tm = time * bpm;
    assert(rk - 30_000_000 <= tm < rk + 30_000_000);
    assert(s * bpm <= rk < s * bpm + bpm);
    assert((s - time) * bpm == s * bpm - tm) by (nonlinear_arith)
        requires
            tm == time * bpm,
    ;
    assert(s - time <= 30_001) by (nonlinear_arith)
        requires
            (s - time) * bpm <= 30_000_000,
            bpm >= 1000,
    ;
    assert(s - time >= -30_001) by (nonlinear_arith)
        requires
            (s - time) * bpm > -30_000_000 - bpm,
            bpm >= 1000,
    ;
}

/// A span of time shorter than the duration of a span of beats holds no
/// more beats than that span.
pub proof fn lemma_span_beats_capped(time: int, beats: int, bpm: int)
    requires
        1 <= bpm,
        time < span_time(beats, bpm),
    ensures
        span_beats(time, bpm) <= beats,
{
    lemma_floor_bounds(beats * 60_000_000, bpm);
    let n = 2 * time * bpm + 60_000_000;
    assert(2 * time * bpm == 2 * (time * bpm)) by (nonlinear_arith);
    assert(time * bpm < beats * 60_000_000) by (nonlinear_arith)
        requires
            time < span_time(beats, bpm),
            span_time(beats, bpm) * bpm <= beats * 60_000_000,
            bpm >= 1,
    ;
    lemma_floor_bounds(n, 120_000_000);
    assert(span_beats(time, bpm) * 120_000_000 <= n);
    assert(beats * 120_000_000 == 2 * (beats * 60_000_000)) by (nonlinear_arith);
}

/// A span of time that is not negative holds no negative number of beats.
pub proof fn lemma_span_beats_sign(time: int, bpm: int)
    requires
        1 <= bpm,
        time >= 0,
    ensures
        span_beats(time, bpm) >= 0,
{
    let n = 2 * time * bpm + 60_000_000;
    assert(2 * time * bpm >= 0) by (nonlinear_arith)
        requires
            time >= 0,
            bpm >= 1,
    ;
    lemma_floor_bounds(n, 120_000_000);
}

impl BpmChange {
    /// The start lies in range and the tempo between [`MIN_BPM`] and [`MAX_BPM`].
    pub open spec fn wf(&self) -> bool {
        self.beat.in_range() && MIN_BPM <= self.bpm <= MAX_BPM
    }
}

impl TimingMap {
    /// Start of segment `i`, in beat units.
    pub open spec fn beat_at(&self, i: int) -> int {
        self.bpm_changes@[i].beat.0 as int
    }

    /// Tempo of segment `i`.
    pub open spec fn bpm_at(&self, i: int) -> int {
        self.bpm_changes@[i].bpm as int
    }

    /// Validity: at least one segment, each one well formed, starts in
    /// ascending order, and an offset within [`OFFSET_LIMIT`].
    pub open spec fn wf(&self) -> bool {
        &&& self.bpm_changes@.len() > 0
        &&& -OFFSET_LIMIT <= self.offset.0 <= OFFSET_LIMIT
        &&& forall|i: int| 0 <= i < self.bpm_changes@.len() ==> (#[trigger] self.bpm_changes@[i]).wf()
        &&& forall|i: int|
            0 < i < self.bpm_changes@.len() ==> self.beat_at(i - 1) <= #[trigger] self.beat_at(i)
    }

    /// Time at which segment `i` starts: the offset plus the durations of all
    /// segments before it.
    pub open spec fn start_time(&self, i: int) -> int
        decreases i,
    {
        if i <= 0 {
            self.offset.0 as int
        } else {
            self.start_time(i - 1) + span_time(
                self.beat_at(i) - self.beat_at(i - 1),
                self.bpm_at(i - 1),
            )
        }
    }

    /// Index of the segment that holds `beat`, looking from segment `from` on:
    /// the first whose successor starts after `beat`, or the last segment.
    pub open spec fn segment_of_beat(&self, beat: int, from: int) -> int
        decreases self.bpm_changes@.len() - from,
    {
        if from + 1 < self.bpm_changes@.len() && beat >= self.beat_at(from + 1) {
            self.segment_of_beat(beat, from + 1)
        } else {
            from
        }
    }

    /// Index of the segment that holds `time`, looking from segment `from` on.
    pub open spec fn segment_of_time(&self, time: int, from: int) -> int
        decreases self.bpm_changes@.len() - from,
    {
        if from + 1 < self.bpm_changes@.len() && time >= self.start_time(from + 1) {
            self.segment_of_time(time, from + 1)
        } else {
            from
        }
    }

    /// The time of a beat: the start time of its segment plus the duration of
    /// the part of the segment before it. Before the first segment and after
    /// the last start the tempo of that segment is extended linearly.
    pub open spec fn time_of(&self, beat: int) -> int {
        let i = self.segment_of_beat(beat, 0);
        self.start_time(i) + span_time(beat - self.beat_at(i), self.bpm_at(i))
    }

    /// The beat of a time: the start of its segment plus the beats that pass
    /// in the part of the segment before it.
    pub open spec fn beat_of(&self, time: int) -> int {
        let i = self.segment_of_time(time, 0);
        self.beat_at(i) + span_beats(time - self.start_time(i), self.bpm_at(i))
    }

    /// Segment starts never run backwards in time, and lie within 60000
    /// time units per beat unit of the offset.
    pub proof fn lemma_start_time_bounds(&self, i: int)
        requires
            self.wf(),
            0 <= i < self.bpm_changes@.len(),
        ensures
            self.beat_at(0) <= self.beat_at(i),
            self.offset.0 <= self.start_time(i) <= self.offset.0 + (self.beat_at(i) - self.beat_at(
                0,
            )) * 60_000,
            i > 0 ==> self.start_time(i - 1) <= self.start_time(i),
        decreases i,
    {
        if i > 0 {
            self.lemma_start_time_bounds(i - 1);
            assert(self.bpm_changes@[i - 1].wf());
            assert(self.beat_at(i - 1) <= self.beat_at(i));
            lemma_span_time_bounds(self.beat_at(i) - self.beat_at(i - 1), self.bpm_at(i - 1));
        }
    }

    /// Segment starts are ordered in time as the segments are.
    pub proof fn lemma_start_time_monotone(&self, i: int, j: int)
        requires
            self.wf(),
            0 <= i <= j < self.bpm_changes@.len(),
        ensures
            self.start_time(i) <= self.start_time(j),
        decreases j - i,
    {
        if i < j {
            self.lemma_start_time_monotone(i, j - 1);
            self.lemma_start_time_bounds(j);
        }
    }

    /// The segment found for a beat is a segment of the map, its successor
    /// starts after the beat, and unless it is the one the search began at,
    /// it starts at or before the beat.
    pub proof fn lemma_segment_of_beat(&self, beat: int, from: int)
        requires
            0 <= from < self.bpm_changes@.len(),
        ensures
            from <= self.segment_of_beat(beat, from) < self.bpm_changes@.len(),
            self.segment_of_beat(beat, from) + 1 < self.bpm_changes@.len() ==> beat < self.beat_at(
                self.segment_of_beat(beat, from) + 1,
            ),
            self.segment_of_beat(beat, from) > from ==> beat >= self.beat_at(
                self.segment_of_beat(beat, from),
            ),
        decreases self.bpm_changes@.len() - from,
    {
        if from + 1 < self.bpm_changes@.len() && beat >= self.beat_at(from + 1) {
            self.lemma_segment_of_beat(beat, from + 1);
        }
    }

    /// A time at or after the start of segment `k` and before the start of
    /// its successor is found in segment `k`.
    pub proof fn lemma_segment_of_time(&self, time: int, from: int, k: int)
        requires
            self.wf(),
            0 <= from <= k < self.bpm_changes@.len(),
            k > from ==> time >= self.start_time(k),
            k + 1 < self.bpm_changes@.len() ==> time < self.start_time(k + 1),
        ensures
            self.segment_of_time(time, from) == k,
        decreases k - from,
    {
        if from < k {
            self.lemma_start_time_monotone(from + 1, k);
            self.lemma_segment_of_time(time, from + 1, k);
        }
    }

    /// Segment starts are ordered in beats as the segments are.
    pub proof fn lemma_beats_ascend(&self, i: int, j: int)
        requires
            self.wf(),
            0 <= i <= j < self.bpm_changes@.len(),
        ensures
            self.beat_at(i) <= self.beat_at(j),
        decreases j - i,
    {
        if i < j {
            self.lemma_beats_ascend(i, j - 1);
            assert(self.beat_at(j - 1) <= self.beat_at(j));
        }
    }

    /// On a valid map a later beat sounds at a later time.
    pub proof fn lemma_time_of_increases(&self, earlier: int, later: int)
        requires
            self.wf(),
            earlier < later,
        ensures
            self.time_of(earlier) < self.time_of(later),
    {
        let k1 = self.segment_of_beat(earlier, 0);
        let k2 = self.segment_of_beat(later, 0);
        self.lemma_segment_of_beat(earlier, 0);
        self.lemma_segment_of_beat(later, 0);
        assert(self.bpm_changes@[k1].wf());
        assert(self.bpm_changes@[k2].wf());
        if k1 == k2 {
            lemma_span_time_strict(
                earlier - self.beat_at(k1),
                later - self.beat_at(k1),
                self.bpm_at(k1),
            );
        } else if k1 < k2 {
            lemma_span_time_strict(
                earlier - self.beat_at(k1),
                self.beat_at(k1 + 1) - self.beat_at(k1),
                self.bpm_at(k1),
            );
            self.lemma_start_time_monotone(k1 + 1, k2);
            lemma_span_time_bounds(later - self.beat_at(k2), self.bpm_at(k2));
        } else {
            self.lemma_beats_ascend(k2 + 1, k1);
        }
    }

    /// The segment found for a time is a segment of the map, its successor
    /// starts after the time, and unless it is the one the search began at,
    /// it starts at or before the time.
    pub proof fn lemma_segment_found_for_time(&self, time: int, from: int)
        requires
            0 <= from < self.bpm_changes@.len(),
        ensures
            from <= self.segment_of_time(time, from) < self.bpm_changes@.len(),
            self.segment_of_time(time, from) + 1 < self.bpm_changes@.len() ==> time
                < self.start_time(self.segment_of_time(time, from) + 1),
            self.segment_of_time(time, from) > from ==> time >= self.start_time(
                self.segment_of_time(time, from),
            ),
        decreases self.bpm_changes@.len() - from,
    {
        if from + 1 < self.bpm_changes@.len() && time >= self.start_time(from + 1) {
            self.lemma_segment_found_for_time(time, from + 1);
        }
    }

    /// A beat at or after the start of segment `k` and before the start of
    /// its successor is found in segment `k`.
    pub proof fn lemma_segment_holds_beat(&self, beat: int, from: int, k: int)
        requires
            self.wf(),
            0 <= from <= k < self.bpm_changes@.len(),
            k > from ==> beat >= self.beat_at(k),
            k + 1 < self.bpm_changes@.len() ==> beat < self.beat_at(k + 1),
        ensures
            self.segment_of_beat(beat, from) == k,
        decreases k - from,
    {
        if from < k {
            self.lemma_beats_ascend(from + 1, k);
            self.lemma_segment_holds_beat(beat, from + 1, k);
        }
    }

    /// Segments that start at one beat start at one time.
    pub proof fn lemma_same_beat_same_time(&self, i: int, j: int)
        requires
            self.wf(),
            0 <= i <= j < self.bpm_changes@.len(),
            self.beat_at(i) == self.beat_at(j),
        ensures
            self.start_time(i) == self.start_time(j),
        decreases j - i,
    {
        if i < j {
            self.lemma_beats_ascend(i, j - 1);
            assert(self.beat_at(j - 1) <= self.beat_at(j));
            self.lemma_same_beat_same_time(i, j - 1);
            assert(self.bpm_changes@[j - 1].wf());
            lemma_span_time_bounds(0, self.bpm_at(j - 1));
        }
    }

    /// Round trip from a time: on a valid map the time of the beat of a
    /// time lies within [`TIME_TOLERANCE`] of that time, which is less than
    /// a microsecond.
    pub proof fn lemma_time_round_trip(&self, time: int)
        requires
            self.wf(),
        ensures
            -TIME_TOLERANCE <= self.time_of(self.beat_of(time)) - time <= TIME_TOLERANCE,
            -1_000_000 < self.time_of(self.beat_of(time)) - time < 1_000_000,
    {
        let n = self.bpm_changes@.len() as int;
        let k = self.segment_of_time(time, 0);
        self.lemma_segment_found_for_time(time, 0);
        assert(self.bpm_changes@[k].wf());
        let m = self.bpm_at(k);
        let x = time - self.start_time(k);
        let r = span_beats(x, m);
        let beat = self.beat_of(time);
        assert(beat == self.beat_at(k) + r);
        lemma_span_time_of_beats(x, m);
        if k > 0 {
            lemma_span_beats_sign(x, m);
        }
        if k + 1 < n {
            let d = self.beat_at(k + 1) - self.beat_at(k);
            lemma_span_beats_capped(x, d, m);
            if r == d {
                let k2 = self.segment_of_beat(beat, 0);
                self.lemma_segment_of_beat(beat, 0);
                if k2 <= k {
                    self.lemma_beats_ascend(k2 + 1, k + 1);
                }
                self.lemma_beats_ascend(k + 1, k2);
                self.lemma_same_beat_same_time(k + 1, k2);
                assert(self.bpm_changes@[k2].wf());
                lemma_span_time_bounds(0, self.bpm_at(k2));
            } else {
                self.lemma_segment_holds_beat(beat, 0, k);
            }
        } else {
            self.lemma_segment_holds_beat(beat, 0, k);
        }
    }

    /// Round trip from a beat: on a valid map the beat of the time of a
    /// beat is that beat.
    pub proof fn lemma_round_trip(&self, beat: int)
        requires
            self.wf(),
        ensures
            self.beat_of(self.time_of(beat)) == beat,
    {
        let k = self.segment_of_beat(beat, 0);
        self.lemma_segment_of_beat(beat, 0);
        let time = self.time_of(beat);
        assert(self.bpm_changes@[k].wf());
        if k > 0 {
            lemma_span_time_bounds(beat - self.beat_at(k), self.bpm_at(k));
        }
        if k + 1 < self.bpm_changes@.len() {
            lemma_span_time_strict(
                beat - self.beat_at(k),
                self.beat_at(k + 1) - self.beat_at(k),
                self.bpm_at(k),
            );
        }
        self.lemma_segment_of_time(time, 0, k);
        lemma_span_round_trip(beat - self.beat_at(k), self.bpm_at(k));
    }

    /// Decides [`TimingMap::wf`].
    pub fn is_valid(&self) -> (r: bool)
        ensures
            r == self.wf(),
    {
        let n = self.bpm_changes.len();
        if n == 0 || self.offset.0 < -OFFSET_LIMIT || self.offset.0 > OFFSET_LIMIT {
            return false;
        }
        let mut i: usize = 0;
        while i < n
            invariant
                n == self.bpm_changes@.len(),
                0 <= i <= n,
                forall|k: int| 0 <= k < i ==> (#[trigger] self.bpm_changes@[k]).wf(),
                forall|k: int| 0 < k < i ==> self.beat_at(k - 1) <= #[trigger] self.beat_at(k),
            decreases n - i,
        {
            let c = &self.bpm_changes[i];
            if !c.beat.is_in_range() || c.bpm < MIN_BPM || c.bpm > MAX_BPM {
                assert(!self.bpm_changes@[i as int].wf());
                return false;
            }
            if i > 0 && self.bpm_changes[i - 1].beat.0 > c.beat.0 {
                assert(!(self.beat_at(i - 1) <= self.beat_at(i as int)));
                return false;
            }
            i += 1;
        }
        true
    }

    /// Converts a beat position to the time at which it sounds.
    pub fn beat_to_time(&self, target: &Beat) -> (t: Time)
        requires
            self.wf(),
            target.in_range(),
        ensures
            t.0 == self.time_of(target.0 as int),
    {
        let n = self.bpm_changes.len();
        let mut i: usize = 0;
        let mut time: i64 = self.offset.0;
        while i + 1 < n && target.0 >= self.bpm_changes[i + 1].beat.0
            invariant
                self.wf(),
                n == self.bpm_changes@.len(),
                0 <= i < n,
                time == self.start_time(i as int),
                self.segment_of_beat(target.0 as int, 0) == self.segment_of_beat(
                    target.0 as int,
                    i as int,
                ),
            decreases n - i,
        {
            proof {
                self.lemma_start_time_bounds(i as int);
                self.lemma_start_time_bounds(i + 1);
                assert(self.bpm_changes@[i as int].wf());
                assert(self.bpm_changes@[i + 1].wf());
                assert(self.bpm_changes@[0].wf());
            }
            let d: i64 = self.bpm_changes[i + 1].beat.0 - self.bpm_changes[i].beat.0;
            time = time + span_to_time(d, self.bpm_changes[i].bpm);
            i += 1;
        }
        proof {
            self.lemma_start_time_bounds(i as int);
            assert(self.bpm_changes@[i as int].wf());
            assert(self.bpm_changes@[0].wf());
            lemma_span_time_bounds(target.0 - self.beat_at(i as int), self.bpm_at(i as int));
        }
        let d: i64 = target.0 - self.bpm_changes[i].beat.0;
        Time(time + span_to_time(d, self.bpm_changes[i].bpm))
    }

    /// Converts a time to the beat position that sounds at it.
    pub fn time_to_beat(&self, target: &Time) -> (b: Beat)
        requires
            self.wf(),
        ensures
            b.0 == self.beat_of(target.0 as int),
    {
        let n = self.bpm_changes.len();
        let mut i: usize = 0;
        let mut time: i64 = self.offset.0;
        while i + 1 < n
            invariant
                self.wf(),
                n == self.bpm_changes@.len(),
                0 <= i < n,
                time == self.start_time(i as int),
                self.segment_of_time(target.0 as int, 0) == self.segment_of_time(
                    target.0 as int,
                    i as int,
                ),
            ensures
                0 <= i < n,
                time == self.start_time(i as int),
                self.segment_of_time(target.0 as int, 0) == i,
            decreases n - i,
        {
            proof {
                self.lemma_start_time_bounds(i as int);
                self.lemma_start_time_bounds(i + 1);
                assert(self.bpm_changes@[i as int].wf());
                assert(self.bpm_changes@[i + 1].wf());
                assert(self.bpm_changes@[0].wf());
            }
            let d: i64 = self.bpm_changes[i + 1].beat.0 - self.bpm_changes[i].beat.0;
            let next_time: i64 = time + span_to_time(d, self.bpm_changes[i].bpm);
            if target.0 < next_time {
                break;
            }
            time = next_time;
            i += 1;
        }
        proof {
            self.lemma_start_time_bounds(i as int);
            assert(self.bpm_changes@[i as int].wf());
            assert(self.bpm_changes@[0].wf());
            lemma_span_beats_bounds(target.0 - time, self.bpm_at(i as int));
            lemma_floor_bounds(magnitude(target.0 - time), 2);
        }
        let dt: i128 = (target.0 as i128) - (time as i128);
        Beat(self.bpm_changes[i].beat.0 + span_to_beats(dt, self.bpm_changes[i].bpm))
    }
}

} // verus!
