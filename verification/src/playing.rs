//! A play session: the clock that judging goes by, the score, and what a
//! frame or a key does to them.

use vstd::prelude::*;
use std::collections::HashMap;
use crate::chart::{
    arrange_tracks, arranged, chart_notes_upto, lemma_arranged, lemma_arranged_notes,
    lemma_chart_notes_monotone, notes_wf, Chart, Note, Track,
};
use crate::judge::{
    clear_all, find_track, flush_all, flushed_upto, lemma_clear_all_count, lemma_find_track,
    lemma_flush_all_count,
    lemma_replace_count, lemma_unjudged_at_most_notes, notes_upto, tracks_wf, unjudged_upto,
    JudgeCore, JudgeManager, JudgeResult, NoteJudge, NoteState, TrackModel, UpdateResult,
};
use crate::rank::Rank;
use crate::states::StateAction;
use crate::timing::{Time, TimingMap};

verus! {

/// Points that a perfect note earns.
pub const PERFECT_SCORE: u32 = 1000;

/// Points that a good note earns.
pub const GOOD_SCORE: u32 = 500;

/// The accuracy of a flawless play, in thousandths of a percent.
pub const FULL_ACCURACY: u32 = 101_000;

/// Units of [`Time`] in a millisecond.
pub const UNITS_PER_MILLI: i64 = 1_000_000_000;

/// Where a session stands.
#[derive(Copy, Clone, Debug, PartialEq, Eq, Structural)]
pub enum PlayingPhase {
    Ready,
    Playing,
    Paused,
    Finished,
}

/// A key as a session sees it. `Confirm` and `Char` carry the lane that the
/// key is bound to, if any.
#[derive(Copy, Clone, Debug, PartialEq, Eq)]
pub enum KeyInput {
    /// The key that leaves: `q` or escape.
    Quit,
    /// Enter or the space bar.
    Confirm(Option<u8>),
    /// Any other character.
    Char(Option<u8>),
    /// Any other key.
    Other,
}

/// The counters of a session, and the judgment counted last.
pub struct Tally {
    pub last_judge: Option<JudgeResult>,
    pub combo: int,
    pub max_combo: int,
    pub score: int,
    pub perfect_count: int,
    pub good_count: int,
    pub miss_count: int,
}

impl Tally {
    /// The counters after one more judgment: a perfect note earns 1000
    /// points, a good one 500, both lengthen the combo; a miss ends it. The
    /// judgment is kept as the last one.
    pub open spec fn apply(self, result: JudgeResult) -> Tally {
        match result {
            JudgeResult::Perfect(_) => Tally {
                last_judge: Some(result),
                perfect_count: self.perfect_count + 1,
                score: self.score + 1000,
                combo: self.combo + 1,
                max_combo: if self.max_combo >= self.combo + 1 {
                    self.max_combo
                } else {
                    self.combo + 1
                },
                ..self
            },
            JudgeResult::Good(_) => Tally {
                last_judge: Some(result),
                good_count: self.good_count + 1,
                score: self.score + 500,
                combo: self.combo + 1,
                max_combo: if self.max_combo >= self.combo + 1 {
                    self.max_combo
                } else {
                    self.combo + 1
                },
                ..self
            },
            JudgeResult::Miss => Tally {
                last_judge: Some(result),
                miss_count: self.miss_count + 1,
                combo: 0,
                ..self
            },
        }
    }

    /// The counters after a run of judgments, in their order.
    pub open spec fn apply_all(self, results: Seq<JudgeResult>) -> Tally
        decreases results.len(),
    {
        if results.len() == 0 {
            self
        } else {
            self.apply_all(results.drop_last()).apply(results.last())
        }
    }

    /// Number of judgments counted.
    pub open spec fn judged(self) -> int {
        self.perfect_count + self.good_count + self.miss_count
    }

    /// No counter is negative, the combo is at most the longest combo, which
    /// is at most the number of notes played, and the score is at most 1000
    /// points for each of them.
    pub open spec fn bounded(self) -> bool {
        &&& 0 <= self.combo <= self.max_combo <= self.perfect_count + self.good_count
        &&& 0 <= self.score <= 1000 * (self.perfect_count + self.good_count)
        &&& 0 <= self.perfect_count
        &&& 0 <= self.good_count
        &&& 0 <= self.miss_count
    }

    /// A run of judgments keeps the counters bounded and counts each once.
    pub proof fn lemma_apply_all(self, results: Seq<JudgeResult>)
        requires
            self.bounded(),
        ensures
            self.apply_all(results).bounded(),
            self.apply_all(results).judged() == self.judged() + results.len(),
        decreases results.len(),
    {
        if results.len() > 0 {
            self.lemma_apply_all(results.drop_last());
        }
    }
}

/// The judgments of a run of reports.
pub open spec fn results_of(reports: Seq<UpdateResult>) -> Seq<JudgeResult> {
    Seq::new(reports.len(), |k: int| reports[k].result)
}

/// Accuracy in thousandths of a percent: the share of the highest score,
/// on a scale on which a flawless play reaches 101 percent, rounded down.
/// A chart without notes has accuracy 0.
pub open spec fn accuracy(score: int, max_score: int) -> int {
    if max_score == 0 {
        0
    } else {
        score * 101_000 / max_score
    }
}

/// The accuracy that is reached if every one of the `remaining` notes is
/// perfect. A chart without notes has the full 101 percent.
pub open spec fn potential_accuracy(score: int, remaining: int, max_score: int) -> int {
    if max_score == 0 {
        101_000
    } else {
        (score + remaining * 1000) * 101_000 / max_score
    }
}

/// What an automatic player does to one lane at `now`: once the note at
/// the cursor is due, it presses a tap or a pending hold, and lets go of a
/// hold whose end has come. Answers the lane and the judgment earned.
pub open spec fn autoplay_step(lane: TrackModel, now: int, core: JudgeCore, map: TimingMap) -> (
    TrackModel,
    Option<JudgeResult>,
) {
    if 0 <= lane.cursor < lane.notes.len() && now >= map.time_of(
        lane.notes[lane.cursor].judged_beat().0 as int,
    ) {
        match lane.notes[lane.cursor] {
            Note::Tap { .. } => (
                lane.on_input(now, true, core, map),
                lane.input_result(now, true, core, map),
            ),
            Note::Hold { end, .. } => {
                if lane.states[lane.cursor] is Pending {
                    (lane.on_input(now, true, core, map), None)
                } else if now >= map.time_of(end.0 as int) {
                    (
                        lane.on_input(now, false, core, map),
                        lane.input_result(now, false, core, map),
                    )
                } else {
                    (lane, None)
                }
            },
        }
    } else {
        (lane, None)
    }
}

/// Every lane after the automatic player.
pub open spec fn autoplay_all(tracks: Seq<TrackModel>, now: int, core: JudgeCore, map: TimingMap) -> Seq<
    TrackModel,
> {
    Seq::new(tracks.len(), |i: int| autoplay_step(tracks[i], now, core, map).0)
}

/// The judgments that the automatic player earns on the first `upto`
/// lanes, in the order of the lanes.
pub open spec fn autoplay_results(
    tracks: Seq<TrackModel>,
    upto: int,
    now: int,
    core: JudgeCore,
    map: TimingMap,
) -> Seq<JudgeResult>
    decreases upto,
{
    if upto <= 0 {
        Seq::empty()
    } else {
        let before = autoplay_results(tracks, upto - 1, now, core, map);
        match autoplay_step(tracks[upto - 1], now, core, map).1 {
            Some(r) => before.push(r),
            None => before,
        }
    }
}

/// The automatic player keeps a lane well formed and keeps its notes, and
/// a judgment it earns is for a note that it resolved.
pub proof fn lemma_autoplay_step(lane: TrackModel, now: int, core: JudgeCore, map: TimingMap)
    requires
        lane.wf(),
    ensures
        autoplay_step(lane, now, core, map).0.wf(),
        autoplay_step(lane, now, core, map).0.notes == lane.notes,
        autoplay_step(lane, now, core, map).0.id == lane.id,
        autoplay_step(lane, now, core, map).0.unjudged() + (if autoplay_step(
            lane,
            now,
            core,
            map,
        ).1 is Some { 1int } else { 0int }) <= lane.unjudged(),
{
    lane.lemma_on_input(now, true, core, map);
    lane.lemma_on_input(now, false, core, map);
}

/// The automatic player keeps all lanes well formed and keeps their notes,
/// and earns no more judgments than notes leave the unresolved ones.
pub proof fn lemma_autoplay_all_count(
    tracks: Seq<TrackModel>,
    upto: int,
    now: int,
    core: JudgeCore,
    map: TimingMap,
)
    requires
        tracks_wf(tracks),
        0 <= upto <= tracks.len(),
    ensures
        tracks_wf(autoplay_all(tracks, now, core, map)),
        notes_upto(autoplay_all(tracks, now, core, map), upto) == notes_upto(tracks, upto),
        unjudged_upto(autoplay_all(tracks, now, core, map), upto) + autoplay_results(
            tracks,
            upto,
            now,
            core,
            map,
        ).len() <= unjudged_upto(tracks, upto),
    decreases upto,
{
    let after = autoplay_all(tracks, now, core, map);
    assert forall|i: int| 0 <= i < after.len() implies (#[trigger] after[i]).wf() by {
        assert(tracks[i].wf());
        lemma_autoplay_step(tracks[i], now, core, map);
    }
    if upto > 0 {
        lemma_autoplay_all_count(tracks, upto - 1, now, core, map);
        assert(tracks[upto - 1].wf());
        lemma_autoplay_step(tracks[upto - 1], now, core, map);
    }
}

/// The mathematical content of a [`PlayingState`].
pub struct SessionModel {
    pub elapsed: int,
    pub phase: PlayingPhase,
    pub tally: Tally,
    pub max_score: int,
    pub tracks: Seq<TrackModel>,
    pub core: JudgeCore,
    pub map: TimingMap,
    /// For each lane whose key has gone down or up, whether it is down.
    pub pressed: Map<u8, bool>,
    pub autoplay: bool,
}

impl SessionModel {
    /// The tempo map is valid and every lane well formed; the counters are
    /// bounded; the highest score is 1000 points for each note and fits 32
    /// bits; the judgments counted and the notes unresolved are together no
    /// more than the notes.
    pub open spec fn wf(self) -> bool {
        &&& self.map.wf()
        &&& tracks_wf(self.tracks)
        &&& self.tally.bounded()
        &&& self.max_score == 1000 * notes_upto(self.tracks, self.tracks.len() as int)
        &&& self.max_score <= u32::MAX
        &&& self.tally.judged() + unjudged_upto(self.tracks, self.tracks.len() as int)
            <= notes_upto(self.tracks, self.tracks.len() as int)
    }

    /// Number of notes not yet resolved.
    pub open spec fn remaining(self) -> int {
        unjudged_upto(self.tracks, self.tracks.len() as int)
    }

    /// Accuracy so far.
    pub open spec fn accuracy(self) -> int {
        accuracy(self.tally.score, self.max_score)
    }

    /// Accuracy if all that remains is played perfectly.
    pub open spec fn potential_accuracy(self) -> int {
        potential_accuracy(self.tally.score, self.remaining(), self.max_score)
    }

    /// The score is never more than the highest score; the accuracy, and
    /// the accuracy that can still be reached, are never more than 101 percent.
    pub proof fn lemma_score_bounded(self)
        requires
            self.wf(),
        ensures
            0 <= self.tally.score <= self.max_score,
            0 <= self.tally.score + 1000 * self.remaining() <= self.max_score,
            0 <= self.accuracy() <= 101_000,
            0 <= self.potential_accuracy() <= 101_000,
    {
        lemma_unjudged_at_most_notes(self.tracks, self.tracks.len() as int);
        if self.max_score > 0 {
            lemma_share_bound(self.tally.score, self.max_score);
            lemma_share_bound(self.tally.score + self.remaining() * 1000, self.max_score);
        }
    }

    /// A frame of the countdown: the clock runs on by `dt`, and once it
    /// reaches the threshold of `offset_ms` milliseconds it is set to the
    /// threshold, play begins, and the audio is asked to start.
    pub open spec fn ready_tick(self, dt: int, offset_ms: int) -> (SessionModel, StateAction) {
        let threshold = offset_ms * 1_000_000_000;
        if self.elapsed + dt >= threshold {
            (
                SessionModel { elapsed: threshold, phase: PlayingPhase::Playing, ..self },
                StateAction::StartAudio,
            )
        } else {
            (SessionModel { elapsed: self.elapsed + dt, ..self }, StateAction::Idle)
        }
    }

    /// The session after the automatic player, if it is on, has played
    /// every lane and its judgments are counted.
    pub open spec fn autoplayed(self) -> SessionModel {
        if self.autoplay {
            SessionModel {
                tracks: autoplay_all(self.tracks, self.elapsed, self.core, self.map),
                tally: self.tally.apply_all(
                    autoplay_results(
                        self.tracks,
                        self.tracks.len() as int,
                        self.elapsed,
                        self.core,
                        self.map,
                    ),
                ),
                ..self
            }
        } else {
            self
        }
    }

    /// The session after every lane is flushed at the session's clock and
    /// the judgments reported are counted.
    pub open spec fn flushed(self) -> SessionModel {
        SessionModel {
            tracks: flush_all(self.tracks, self.elapsed, self.core, self.map),
            tally: self.tally.apply_all(
                results_of(
                    flushed_upto(
                        self.tracks,
                        self.tracks.len() as int,
                        self.elapsed,
                        self.core,
                        self.map,
                    ),
                ),
            ),
            ..self
        }
    }

    /// The session after its end: every unresolved note is missed and
    /// counted as a miss.
    pub open spec fn finished(self) -> SessionModel {
        SessionModel {
            tracks: clear_all(self.tracks),
            tally: self.tally.apply_all(
                Seq::new(self.remaining() as nat, |k: int| JudgeResult::Miss),
            ),
            phase: PlayingPhase::Finished,
            ..self
        }
    }

    /// A frame of play: the automatic player, then what time resolves; and
    /// if the audio has finished, the end of the session, with the score
    /// and the rank of its accuracy to be shown.
    pub open spec fn playing_tick(self, audio_finished: bool) -> (SessionModel, StateAction) {
        let played = self.autoplayed().flushed();
        if audio_finished {
            let done = played.finished();
            (
                done,
                StateAction::ShowResult {
                    score: done.tally.score as u32,
                    rank: Rank::of(done.accuracy()),
                },
            )
        } else {
            (played, StateAction::Idle)
        }
    }

    /// What a frame does: see [`SessionModel::ready_tick`] and
    /// [`SessionModel::playing_tick`]. A paused or finished session stands still.
    pub open spec fn tick(self, dt: int, offset_ms: int, audio_finished: bool) -> (
        SessionModel,
        StateAction,
    ) {
        match self.phase {
            PlayingPhase::Ready => self.ready_tick(dt, offset_ms),
            PlayingPhase::Playing => self.playing_tick(audio_finished),
            _ => (self, StateAction::Idle),
        }
    }

    /// The session after the sampled audio position is taken as the
    /// clock: during play the clock is the position plus the offset; in
    /// every other phase it stays as it is.
    pub open spec fn synced(self, audio_time: int, offset_ms: int) -> SessionModel {
        if self.phase == PlayingPhase::Playing {
            SessionModel { elapsed: audio_time + offset_ms * 1_000_000_000, ..self }
        } else {
            self
        }
    }

    /// The session after pause is toggled: play pauses, a pause ends, and
    /// the other phases stay.
    pub open spec fn toggled(self) -> SessionModel {
        match self.phase {
            PlayingPhase::Playing => SessionModel { phase: PlayingPhase::Paused, ..self },
            PlayingPhase::Paused => SessionModel { phase: PlayingPhase::Playing, ..self },
            _ => self,
        }
    }

    /// Whether the key of a lane is down. A lane whose key has neither gone
    /// down nor up has its key up.
    pub open spec fn is_pressed(self, lane: u8) -> bool {
        self.pressed.contains_key(lane) && self.pressed[lane]
    }

    /// The session after a key of lane `lane` went down or up. With the
    /// automatic player on, nothing happens. A key that is already down does
    /// not go down again. Otherwise the key's state is noted, the event goes
    /// to the first judge of the lane, and the judgment it earns is counted.
    pub open spec fn lane_key(self, lane: u8, is_down: bool) -> SessionModel {
        if self.autoplay || (is_down && self.is_pressed(lane)) {
            self
        } else {
            let i = find_track(self.tracks, lane, 0);
            let pressed = self.pressed.insert(lane, is_down);
            if i < self.tracks.len() {
                let after = self.tracks[i].on_input(self.elapsed, is_down, self.core, self.map);
                let tally = match self.tracks[i].input_result(
                    self.elapsed,
                    is_down,
                    self.core,
                    self.map,
                ) {
                    Some(r) => self.tally.apply(r),
                    None => self.tally,
                };
                SessionModel { tracks: self.tracks.update(i, after), tally, pressed, ..self }
            } else {
                SessionModel { pressed, ..self }
            }
        }
    }

    /// What a key event does.
    ///
    /// The leaving key, going down, leaves the countdown and a pause for
    /// the collection, and asks to pause during play. The confirming key,
    /// going down, starts play at once from the countdown, at clock zero,
    /// and asks to end a pause. During the countdown and during play a key
    /// bound to a lane is handed to that lane; during play the space bar
    /// counts as such a key. Everything else is ignored.
    pub open spec fn key(self, key: KeyInput, is_down: bool) -> (SessionModel, StateAction) {
        match (self.phase, key) {
            (PlayingPhase::Ready, KeyInput::Quit) => (
                self,
                if is_down { StateAction::GoToCollection } else { StateAction::Idle },
            ),
            (PlayingPhase::Playing, KeyInput::Quit) => (
                self,
                if is_down { StateAction::TogglePause } else { StateAction::Idle },
            ),
            (PlayingPhase::Paused, KeyInput::Quit) => (
                self,
                if is_down { StateAction::GoToCollection } else { StateAction::Idle },
            ),
            (PlayingPhase::Finished, KeyInput::Quit) => (self, StateAction::Idle),
            (PlayingPhase::Ready, KeyInput::Confirm(_)) => if is_down {
                (
                    SessionModel { elapsed: 0, phase: PlayingPhase::Playing, ..self },
                    StateAction::StartAudio,
                )
            } else {
                (self, StateAction::Idle)
            },
            (PlayingPhase::Paused, KeyInput::Confirm(_)) => (
                self,
                if is_down { StateAction::TogglePause } else { StateAction::Idle },
            ),
            (PlayingPhase::Playing, KeyInput::Confirm(Some(lane))) => (
                self.lane_key(lane, is_down),
                StateAction::Idle,
            ),
            (PlayingPhase::Ready, KeyInput::Char(Some(lane))) => (
                self.lane_key(lane, is_down),
                StateAction::Idle,
            ),
            (PlayingPhase::Playing, KeyInput::Char(Some(lane))) => (
                self.lane_key(lane, is_down),
                StateAction::Idle,
            ),
            _ => (self, StateAction::Idle),
        }
    }
}

/// Lanes that hold the notes of a chart's tracks with the cursor at the
/// first note hold as many notes as the chart, all of them unresolved.
pub proof fn lemma_fresh_count(given: Seq<Track>, tracks: Seq<TrackModel>, upto: int)
    requires
        given.len() == tracks.len(),
        0 <= upto <= tracks.len(),
        forall|i: int|
            0 <= i < tracks.len() ==> (#[trigger] tracks[i]).notes == given[i].notes@ && tracks[i].cursor
                == 0,
    ensures
        notes_upto(tracks, upto) == chart_notes_upto(given, upto),
        unjudged_upto(tracks, upto) == chart_notes_upto(given, upto),
    decreases upto,
{
    if upto > 0 {
        lemma_fresh_count(given, tracks, upto - 1);
        assert(tracks[upto - 1].notes == given[upto - 1].notes@);
    }
}

/// A play session.
pub struct PlayingState {
    /// The clock that judging goes by.
    pub elapsed_time: Time,
    pub phase: PlayingPhase,
    pub combo: u32,
    pub max_combo: u32,
    pub score: u32,
    pub max_theoretical_score: u32,
    pub perfect_count: u32,
    pub good_count: u32,
    pub miss_count: u32,
    pub manager: JudgeManager,
    /// The judgment counted last, if any.
    pub last_judge: Option<JudgeResult>,
    /// For each lane whose key has gone down or up, whether it is down.
    pub key_pressed: HashMap<u8, bool>,
    pub is_autoplay: bool,
}

impl View for PlayingState {
    type V = SessionModel;

    open spec fn view(&self) -> SessionModel {
        SessionModel {
            elapsed: self.elapsed_time.0 as int,
            phase: self.phase,
            tally: Tally {
                last_judge: self.last_judge,
                combo: self.combo as int,
                max_combo: self.max_combo as int,
                score: self.score as int,
                perfect_count: self.perfect_count as int,
                good_count: self.good_count as int,
                miss_count: self.miss_count as int,
            },
            max_score: self.max_theoretical_score as int,
            tracks: self.manager.tracks(),
            core: self.manager.core,
            map: self.manager.map,
            pressed: self.key_pressed@,
            autoplay: self.is_autoplay,
        }
    }
}

/// Plays one lane automatically, as [`autoplay_step`] states it.
fn autoplay_lane(judge: &mut NoteJudge, now: Time, core: &JudgeCore, map: &TimingMap) -> (r: Option<
    JudgeResult,
>)
    requires
        old(judge).wf(),
        map.wf(),
    ensures
        final(judge).wf(),
        final(judge)@ == autoplay_step(old(judge)@, now.0 as int, *core, *map).0,
        r == autoplay_step(old(judge)@, now.0 as int, *core, *map).1,
{
    if judge.cursor < judge.notes.len() {
        let note = judge.notes[judge.cursor];
        assert(note.wf());
        let note_time = map.beat_to_time(&note.beat());
        if now.0 >= note_time.0 {
            match note {
                Note::Tap { .. } => {
                    return judge.on_input(now, true, core, map);
                },
                Note::Hold { end, .. } => {
                    let end_time = map.beat_to_time(&end);
                    let state = judge.states[judge.cursor];
                    if let NoteState::Pending = state {
                        let _ = judge.on_input(now, true, core, map);
                        return None;
                    } else if now.0 >= end_time.0 {
                        return judge.on_input(now, false, core, map);
                    }
                },
            }
        }
    }
    None
}

impl PlayingState {
    /// The session is well formed, as [`SessionModel::wf`] states it.
    pub open spec fn wf(&self) -> bool {
        self@.wf() && self.manager.wf()
    }

    /// A session for a chart, in its countdown: the clock stands `ready`
    /// before zero, nothing is counted, the key of every lane that a key is
    /// bound to is up, and the lanes stand in ascending order with every
    /// note pending.
    pub fn new(
        chart: Chart,
        judge_core: JudgeCore,
        ready: Time,
        autoplay: bool,
        bound_lanes: &Vec<u8>,
    ) -> (r: Self)
        requires
            chart.timing_map.wf(),
            forall|i: int| 0 <= i < chart.tracks@.len() ==> notes_wf((#[trigger] chart.tracks@[i]).notes@),
            1000 * chart_notes_upto(chart.tracks@, chart.tracks@.len() as int) <= u32::MAX,
            ready.0 > i64::MIN,
        ensures
            r.wf(),
            r@.elapsed == -ready.0,
            r@.phase == PlayingPhase::Ready,
            r@.tally == (Tally {
                last_judge: None,
                combo: 0,
                max_combo: 0,
                score: 0,
                perfect_count: 0,
                good_count: 0,
                miss_count: 0,
            }),
            r@.max_score == 1000 * chart_notes_upto(chart.tracks@, chart.tracks@.len() as int),
            r@.core == judge_core,
            r@.map == chart.timing_map,
            r@.autoplay == autoplay,
            r@.pressed == Map::new(|lane: u8| bound_lanes@.contains(lane), |lane: u8| false),
            r@.tracks.len() == chart.tracks@.len(),
            forall|i: int|
                0 <= i < chart.tracks@.len() ==> (#[trigger] r@.tracks[i]) == (TrackModel {
                    id: arranged(chart.tracks@, chart.tracks@.len() as int)[i].id,
                    notes: arranged(chart.tracks@, chart.tracks@.len() as int)[i].notes@,
                    states: Seq::new(
                        arranged(chart.tracks@, chart.tracks@.len() as int)[i].notes@.len(),
                        |k: int| NoteState::Pending,
                    ),
                    cursor: 0,
                }),
    {
        let ghost given = arranged(chart.tracks@, chart.tracks@.len() as int);
        proof {
            lemma_arranged(chart.tracks@, chart.tracks@.len() as int);
            lemma_arranged_notes(chart.tracks@, chart.tracks@.len() as int);
        }
        let n = chart.tracks.len();
        let mut total_notes: u32 = 0;
        let mut i: usize = 0;
        while i < n
            invariant
                n == chart.tracks@.len(),
                0 <= i <= n,
                1000 * chart_notes_upto(chart.tracks@, n as int) <= u32::MAX,
                total_notes == chart_notes_upto(chart.tracks@, i as int),
            decreases n - i,
        {
            proof {
                lemma_chart_notes_monotone(chart.tracks@, i + 1, n as int);
            }
            total_notes = total_notes + chart.tracks[i].notes.len() as u32;
            i += 1;
        }
        let max_score: u32 = total_notes * 1000;
        let mut key_pressed: HashMap<u8, bool> = HashMap::new();
        let lanes = bound_lanes.len();
        let mut k: usize = 0;
        assert(key_pressed@ =~= Map::new(
            |lane: u8| bound_lanes@.take(0).contains(lane),
            |lane: u8| false,
        ));
        while k < lanes
            invariant
                lanes == bound_lanes@.len(),
                0 <= k <= lanes,
                key_pressed@ == Map::new(
                    |lane: u8| bound_lanes@.take(k as int).contains(lane),
                    |lane: u8| false,
                ),
            decreases lanes - k,
        {
            broadcast use vstd::std_specs::hash::group_hash_axioms;

            let ghost before = bound_lanes@.take(k as int);
            let ghost after = bound_lanes@.take(k + 1);
            key_pressed.insert(bound_lanes[k], false);
            proof {
                assert(after =~= before.push(bound_lanes@[k as int]));
                assert forall|lane: u8| after.contains(lane) <==> (before.contains(lane) || lane
                    == bound_lanes@[k as int]) by {
                    if before.contains(lane) {
                        let i = choose|i: int| 0 <= i < before.len() && before[i] == lane;
                        assert(after[i] == lane);
                    }
                    if lane == bound_lanes@[k as int] {
                        assert(after[k as int] == lane);
                    }
                }
                assert(key_pressed@ =~= Map::new(
                    |lane: u8| after.contains(lane),
                    |lane: u8| false,
                ));
            }
            k += 1;
        }
        assert(bound_lanes@.take(lanes as int) =~= bound_lanes@);
        let man = JudgeManager::new(arrange_tracks(chart.tracks), chart.timing_map, judge_core);
        let r = Self {
            elapsed_time: Time(-ready.0),
            phase: PlayingPhase::Ready,
            combo: 0,
            max_combo: 0,
            score: 0,
            max_theoretical_score: max_score,
            perfect_count: 0,
            good_count: 0,
            miss_count: 0,
            manager: man,
            last_judge: None,
            key_pressed,
            is_autoplay: autoplay,
        };
        proof {
            lemma_fresh_count(given, r@.tracks, n as int);
            assert forall|i: int| 0 <= i < given.len() implies (#[trigger] r@.tracks[i]) == (TrackModel {
                id: given[i].id,
                notes: given[i].notes@,
                states: Seq::new(given[i].notes@.len(), |k: int| NoteState::Pending),
                cursor: 0,
            }) by {
                assert(r.manager.judges@[i]@.id == given[i].id);
            }
        }
        r
    }

    /// Pauses play, or ends a pause.
    pub fn toggle_pause(&mut self)
        ensures
            final(self)@ == old(self)@.toggled(),
            final(self).manager == old(self).manager,
            old(self).wf() ==> final(self).wf(),
    {
        match self.phase {
            PlayingPhase::Playing => self.phase = PlayingPhase::Paused,
            PlayingPhase::Paused => self.phase = PlayingPhase::Playing,
            _ => {},
        }
    }

    pub fn is_paused(&self) -> (r: bool)
        ensures
            r == (self.phase == PlayingPhase::Paused),
    {
        matches!(self.phase, PlayingPhase::Paused)
    }

    /// During play, sets the clock to the sampled position of the audio
    /// plus the offset. In every other phase the clock stays as it is.
    pub fn sync_audio_time(&mut self, audio_time: Time, offset_ms: i32)
        requires
            i64::MIN <= audio_time.0 + offset_ms * 1_000_000_000 <= i64::MAX,
        ensures
            final(self)@ == old(self)@.synced(audio_time.0 as int, offset_ms as int),
            final(self).manager == old(self).manager,
            old(self).wf() ==> final(self).wf(),
    {
        if let PlayingPhase::Playing = self.phase {
            let offset: i64 = (offset_ms as i64) * UNITS_PER_MILLI;
            self.elapsed_time = Time(audio_time.0 + offset);
        }
    }

    /// The clock that judging goes by.
    pub fn current_time(&self) -> (t: Time)
        ensures
            t == self.elapsed_time,
    {
        self.elapsed_time
    }

    /// Counts one judgment.
    fn process_judge_result(&mut self, result: JudgeResult)
        requires
            old(self)@.tally.bounded(),
            1000 * (old(self)@.tally.judged() + 1) <= u32::MAX,
        ensures
            final(self)@ == (SessionModel { tally: old(self)@.tally.apply(result), ..old(self)@ }),
            final(self).manager == old(self).manager,
    {
        self.last_judge = Some(result);
        match result {
            JudgeResult::Perfect(_) => {
                self.perfect_count = self.perfect_count + 1;
                self.score = self.score + PERFECT_SCORE;
                self.combo = self.combo + 1;
                if self.max_combo < self.combo {
                    self.max_combo = self.combo;
                }
            },
            JudgeResult::Good(_) => {
                self.good_count = self.good_count + 1;
                self.score = self.score + GOOD_SCORE;
                self.combo = self.combo + 1;
                if self.max_combo < self.combo {
                    self.max_combo = self.combo;
                }
            },
            JudgeResult::Miss => {
                self.miss_count = self.miss_count + 1;
                self.combo = 0;
            },
        }
    }

    /// Counts a run of judgments, in their order.
    fn record_all(&mut self, results: &Vec<JudgeResult>)
        requires
            old(self)@.tally.bounded(),
            1000 * (old(self)@.tally.judged() + results@.len()) <= u32::MAX,
        ensures
            final(self)@ == (SessionModel {
                tally: old(self)@.tally.apply_all(results@),
                ..old(self)@
            }),
            final(self).manager == old(self).manager,
    {
        let ghost start = self@;
        let n = results.len();
        let mut j: usize = 0;
        assert(results@.take(0) =~= Seq::<JudgeResult>::empty());
        while j < n
            invariant
                n == results@.len(),
                0 <= j <= n,
                start.tally.bounded(),
                1000 * (start.tally.judged() + n) <= u32::MAX,
                self@ == (SessionModel { tally: start.tally.apply_all(results@.take(j as int)), ..start }),
                self.manager == old(self).manager,
            decreases n - j,
        {
            proof {
                start.tally.lemma_apply_all(results@.take(j as int));
                assert(results@.take(j + 1).drop_last() =~= results@.take(j as int));
            }
            self.process_judge_result(results[j]);
            j += 1;
        }
        assert(results@.take(n as int) =~= results@);
    }

    /// Counts the judgments of a run of reports, in their order.
    fn record_updates(&mut self, updates: &Vec<UpdateResult>)
        requires
            old(self)@.tally.bounded(),
            1000 * (old(self)@.tally.judged() + updates@.len()) <= u32::MAX,
        ensures
            final(self)@ == (SessionModel {
                tally: old(self)@.tally.apply_all(results_of(updates@)),
                ..old(self)@
            }),
            final(self).manager == old(self).manager,
    {
        let ghost start = self@;
        let ghost all = results_of(updates@);
        let n = updates.len();
        let mut j: usize = 0;
        assert(all.take(0) =~= Seq::<JudgeResult>::empty());
        while j < n
            invariant
                n == updates@.len(),
                all == results_of(updates@),
                0 <= j <= n,
                start.tally.bounded(),
                1000 * (start.tally.judged() + n) <= u32::MAX,
                self@ == (SessionModel { tally: start.tally.apply_all(all.take(j as int)), ..start }),
                self.manager == old(self).manager,
            decreases n - j,
        {
            proof {
                start.tally.lemma_apply_all(all.take(j as int));
                assert(all.take(j + 1).drop_last() =~= all.take(j as int));
            }
            self.process_judge_result(updates[j].result);
            j += 1;
        }
        assert(all.take(n as int) =~= all);
    }

    /// Counts `count` misses.
    fn record_misses(&mut self, count: u32)
        requires
            old(self)@.tally.bounded(),
            1000 * (old(self)@.tally.judged() + count) <= u32::MAX,
        ensures
            final(self)@ == (SessionModel {
                tally: old(self)@.tally.apply_all(Seq::new(count as nat, |k: int| JudgeResult::Miss)),
                ..old(self)@
            }),
            final(self).manager == old(self).manager,
    {
        let ghost start = self@;
        let ghost all = Seq::new(count as nat, |k: int| JudgeResult::Miss);
        let mut j: u32 = 0;
        assert(all.take(0) =~= Seq::<JudgeResult>::empty());
        while j < count
            invariant
                all == Seq::new(count as nat, |k: int| JudgeResult::Miss),
                0 <= j <= count,
                start.tally.bounded(),
                1000 * (start.tally.judged() + count) <= u32::MAX,
                self@ == (SessionModel { tally: start.tally.apply_all(all.take(j as int)), ..start }),
                self.manager == old(self).manager,
            decreases count - j,
        {
            proof {
                start.tally.lemma_apply_all(all.take(j as int));
                assert(all.take(j + 1).drop_last() =~= all.take(j as int));
            }
            self.process_judge_result(JudgeResult::Miss);
            j += 1;
        }
        assert(all.take(count as int) =~= all);
    }

    /// Lets the automatic player play every lane.
    fn autoplay(&mut self) -> (results: Vec<JudgeResult>)
        requires
            old(self).manager.wf(),
        ensures
            final(self).manager.wf(),
            final(self)@ == (SessionModel {
                tracks: autoplay_all(
                    old(self)@.tracks,
                    old(self)@.elapsed,
                    old(self)@.core,
                    old(self)@.map,
                ),
                ..old(self)@
            }),
            results@ == autoplay_results(
                old(self)@.tracks,
                old(self)@.tracks.len() as int,
                old(self)@.elapsed,
                old(self)@.core,
                old(self)@.map,
            ),
    {
        let ghost start = self@;
        let now = self.elapsed_time;
        let mut results: Vec<JudgeResult> = Vec::new();
        let n = self.manager.judges.len();
        let mut i: usize = 0;
        while i < n
            invariant
                n == self.manager.judges@.len(),
                n == start.tracks.len(),
                0 <= i <= n,
                self.manager.wf(),
                now == self.elapsed_time,
                self@ == (SessionModel { tracks: self@.tracks, ..start }),
                forall|k: int|
                    0 <= k < i ==> (#[trigger] self.manager.judges@[k])@ == autoplay_step(
                        start.tracks[k],
                        start.elapsed,
                        start.core,
                        start.map,
                    ).0,
                forall|k: int| i <= k < n ==> (#[trigger] self.manager.judges@[k])@ == start.tracks[k],
                results@ == autoplay_results(
                    start.tracks,
                    i as int,
                    start.elapsed,
                    start.core,
                    start.map,
                ),
            decreases n - i,
        {
            let ghost before = self.manager.judges@;
            let r = autoplay_lane(
                &mut self.manager.judges[i],
                now,
                &self.manager.core,
                &self.manager.map,
            );
            assert(forall|k: int| 0 <= k < n && k != i ==> self.manager.judges@[k] == before[k]);
            if let Some(res) = r {
                results.push(res);
            }
            i += 1;
        }
        assert(self@.tracks =~= autoplay_all(start.tracks, start.elapsed, start.core, start.map));
        results
    }

    /// Advances the session by one frame: `dt` units of time have passed, the
    /// countdown ends at `global_offset_ms` milliseconds, and the audio has
    /// or has not finished. Answers what is to be done.
    pub fn tick(&mut self, dt: u64, global_offset_ms: i32, audio_finished: bool) -> (action:
        StateAction)
        requires
            old(self).wf(),
        ensures
            final(self).wf(),
            final(self)@ == old(self)@.tick(dt as int, global_offset_ms as int, audio_finished).0,
            action == old(self)@.tick(dt as int, global_offset_ms as int, audio_finished).1,
    {
        match self.phase {
            PlayingPhase::Ready => {
                let start_threshold: i64 = (global_offset_ms as i64) * UNITS_PER_MILLI;
                let reached: i128 = (self.elapsed_time.0 as i128) + (dt as i128);
                if reached >= start_threshold as i128 {
                    self.elapsed_time = Time(start_threshold);
                    self.phase = PlayingPhase::Playing;
                    return StateAction::StartAudio;
                }
                self.elapsed_time = Time(reached as i64);
                StateAction::Idle
            },
            PlayingPhase::Playing => {
                let ghost start = self@;
                let ghost total = notes_upto(start.tracks, start.tracks.len() as int);
                if self.is_autoplay {
                    proof {
                        lemma_autoplay_all_count(
                            start.tracks,
                            start.tracks.len() as int,
                            start.elapsed,
                            start.core,
                            start.map,
                        );
                        lemma_unjudged_at_most_notes(
                            autoplay_all(start.tracks, start.elapsed, start.core, start.map),
                            start.tracks.len() as int,
                        );
                    }
                    let autoplay_results = self.autoplay();
                    self.record_all(&autoplay_results);
                    proof {
                        start.tally.lemma_apply_all(autoplay_results@);
                    }
                }
                assert(self@ == start.autoplayed());
                let ghost played = self@;
                proof {
                    lemma_flush_all_count(
                        played.tracks,
                        played.tracks.len() as int,
                        played.elapsed,
                        played.core,
                        played.map,
                    );
                    lemma_unjudged_at_most_notes(
                        flush_all(played.tracks, played.elapsed, played.core, played.map),
                        played.tracks.len() as int,
                    );
                }
                let updates = self.manager.update(self.elapsed_time);
                self.record_updates(&updates);
                proof {
                    played.tally.lemma_apply_all(results_of(updates@));
                }
                assert(self@ == played.flushed());
                if audio_finished {
                    let ghost flushed = self@;
                    proof {
                        lemma_clear_all_count(flushed.tracks, flushed.tracks.len() as int);
                        lemma_unjudged_at_most_notes(flushed.tracks, flushed.tracks.len() as int);
                    }
                    let remaining_misses = self.manager.clear_and_count_unjudged();
                    self.record_misses(remaining_misses);
                    self.phase = PlayingPhase::Finished;
                    proof {
                        flushed.tally.lemma_apply_all(
                            Seq::new(remaining_misses as nat, |k: int| JudgeResult::Miss),
                        );
                    }
                    assert(self@ == flushed.finished());
                    return StateAction::ShowResult {
                        score: self.score,
                        rank: Rank::from_percentage(self.get_accuracy_pct()),
                    };
                }
                StateAction::Idle
            },
            _ => StateAction::Idle,
        }
    }

    /// Hands a key event of a lane to the lane's judge and counts what it earns.
    fn lane_key(&mut self, lane: u8, is_down: bool)
        requires
            old(self).wf(),
        ensures
            final(self).wf(),
            final(self)@ == old(self)@.lane_key(lane, is_down),
    {
        if self.is_autoplay {
            return ;
        }
        let ghost start = self@;
        let now = self.elapsed_time;
        broadcast use vstd::std_specs::hash::group_hash_axioms;

        let pressed = match self.key_pressed.get(&lane) {
            Some(p) => *p,
            None => false,
        };
        if is_down && pressed {
            return ;
        }
        self.key_pressed.insert(lane, is_down);
        let ghost i = find_track(start.tracks, lane, 0);
        proof {
            lemma_find_track(start.tracks, lane, 0);
            if i < start.tracks.len() {
                assert(start.tracks[i].wf());
                start.tracks[i].lemma_on_input(start.elapsed, is_down, start.core, start.map);
                let after = start.tracks[i].on_input(start.elapsed, is_down, start.core, start.map);
                lemma_replace_count(start.tracks, i, after, start.tracks.len() as int);
                assert(tracks_wf(start.tracks.update(i, after)));
                lemma_unjudged_at_most_notes(
                    start.tracks.update(i, after),
                    start.tracks.len() as int,
                );
            }
        }
        let r = self.manager.on_input(lane, now, is_down);
        if let Some(res) = r {
            self.process_judge_result(res);
        }
    }

    /// Handles a key going down or up. Answers what is to be done.
    pub fn handle_input(&mut self, key: KeyInput, is_down: bool) -> (action: StateAction)
        requires
            old(self).wf(),
        ensures
            final(self).wf(),
            final(self)@ == old(self)@.key(key, is_down).0,
            action == old(self)@.key(key, is_down).1,
    {
        match (self.phase, key) {
            (PlayingPhase::Ready, KeyInput::Quit) => {
                if is_down {
                    return StateAction::GoToCollection;
                }
            },
            (_, KeyInput::Quit) => {
                if is_down {
                    return match self.phase {
                        PlayingPhase::Playing => StateAction::TogglePause,
                        PlayingPhase::Paused => StateAction::GoToCollection,
                        _ => StateAction::Idle,
                    };
                }
            },
            (PlayingPhase::Ready, KeyInput::Confirm(_)) => {
                if is_down {
                    self.elapsed_time = Time(0);
                    self.phase = PlayingPhase::Playing;
                    return StateAction::StartAudio;
                }
            },
            (PlayingPhase::Paused, KeyInput::Confirm(_)) => {
                if is_down {
                    return StateAction::TogglePause;
                }
            },
            (PlayingPhase::Playing, KeyInput::Confirm(Some(lane))) => {
                self.lane_key(lane, is_down);
            },
            (PlayingPhase::Ready, KeyInput::Char(Some(lane))) => {
                self.lane_key(lane, is_down);
            },
            (PlayingPhase::Playing, KeyInput::Char(Some(lane))) => {
                self.lane_key(lane, is_down);
            },
            _ => {},
        }
        StateAction::Idle
    }

    /// Accuracy so far, in thousandths of a percent.
    pub fn get_accuracy_pct(&self) -> (r: u32)
        requires
            self.wf(),
        ensures
            r == self@.accuracy(),
            r <= FULL_ACCURACY,
    {
        if self.max_theoretical_score == 0 {
            return 0;
        }
        proof {
            self@.lemma_score_bounded();
        }
        let share: u64 = (self.score as u64) * (FULL_ACCURACY as u64) / (
        self.max_theoretical_score as u64);
        share as u32
    }

    /// Number of notes not yet resolved.
    pub fn remaining_notes(&self) -> (r: u32)
        requires
            self.wf(),
        ensures
            r == self@.remaining(),
    {
        let n = self.manager.judges.len();
        let mut remaining: u32 = 0;
        let mut i: usize = 0;
        proof {
            lemma_unjudged_at_most_notes(self@.tracks, n as int);
        }
        while i < n
            invariant
                n == self.manager.judges@.len(),
                0 <= i <= n,
                self.wf(),
                unjudged_upto(self@.tracks, n as int) <= u32::MAX,
                remaining == unjudged_upto(self@.tracks, i as int),
            decreases n - i,
        {
            proof {
                crate::judge::lemma_unjudged_upto_monotone(self@.tracks, i + 1, n as int);
                assert(self@.tracks[i as int].wf());
            }
            let judge = &self.manager.judges[i];
            remaining = remaining + (judge.notes.len() - judge.cursor) as u32;
            i += 1;
        }
        remaining
    }

    /// Accuracy, in thousandths of a percent, that is reached if all that
    /// remains is played perfectly.
    pub fn get_potential_accuracy_pct(&self) -> (r: u32)
        requires
            self.wf(),
        ensures
            r == self@.potential_accuracy(),
            r <= FULL_ACCURACY,
    {
        if self.max_theoretical_score == 0 {
            return FULL_ACCURACY;
        }
        let remaining = self.remaining_notes();
        proof {
            self@.lemma_score_bounded();
        }
        let potential_score: u64 = self.score as u64 + (remaining as u64) * 1000;
        let share: u64 = potential_score * (FULL_ACCURACY as u64) / (self.max_theoretical_score as u64);
        share as u32
    }

    /// The rank of the accuracy so far.
    pub fn get_rank(&self) -> (r: Rank)
        requires
            self.wf(),
        ensures
            r == Rank::of(self@.accuracy()),
    {
        Rank::from_percentage(self.get_accuracy_pct())
    }

    /// The best rank that can still be reached.
    pub fn get_potential_rank(&self) -> (r: Rank)
        requires
            self.wf(),
        ensures
            r == Rank::of(self@.potential_accuracy()),
    {
        Rank::from_percentage(self.get_potential_accuracy_pct())
    }
}

/// A score of at most the highest score has an accuracy of at most 101 percent.
pub proof fn lemma_share_bound(score: int, max_score: int)
    requires
        0 <= score <= max_score,
        0 < max_score,
    ensures
        0 <= score * 101_000 / max_score <= 101_000,
{
    crate::timing::lemma_floor_bounds(score * 101_000, max_score);
    let q = score * 101_000 / max_score;
    assert(q <= 101_000) by (nonlinear_arith)
        requires
            q * max_score <= score * 101_000,
            0 <= score <= max_score,
            0 < max_score,
    ;
    assert(q >= 0) by (nonlinear_arith)
        requires
            q * max_score + max_score > score * 101_000,
            0 <= score,
            0 < max_score,
    ;
}

} // verus!
