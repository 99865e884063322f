//! Judging: how close an input came to a note, and what becomes of each
//! note of a lane as time passes and keys go down and up.

use vstd::prelude::*;
use crate::chart::{notes_wf, Note, Track};
use crate::timing::{magnitude, Time, TimingMap};

verus! {

/// How well a note was played. `Perfect` and `Good` carry the signed
/// distance from the note to the input: negative when early.
#[derive(Debug, Clone, Copy, PartialEq, Eq, Structural)]
pub enum JudgeResult {
    Perfect(Time),
    Good(Time),
    Miss,
}

/// Half-widths of the two nested windows around a note's time.
#[derive(Debug, Clone, Copy, PartialEq, Eq, Structural)]
pub struct JudgeWindow {
    pub perfect: Time,
    pub good: Time,
}

/// The windows, and how long a hold may be let go before it is lost.
#[derive(Copy, Clone, Debug, PartialEq, Eq, Structural)]
pub struct JudgeCore {
    pub window: JudgeWindow,
    pub hold_tolerance: Time,
}

/// The time of a note and the time of the input that is held against it.
#[derive(Debug, Clone, Copy)]
pub struct JudgeInput {
    pub note_time: Time,
    pub input_time: Time,
}

/// Where a note stands. `Holding` and `Releasing` occur for holds only and
/// keep the judgment of the press; `Releasing` also keeps the time of release.
#[derive(Debug, Clone, Copy, PartialEq, Eq, Structural)]
pub enum NoteState {
    Pending,
    Holding(JudgeResult),
    Releasing(JudgeResult, Time),
    Hit,
    Missed,
}

impl JudgeResult {
    /// Rank of a judgment: 0 for `Perfect`, 1 for `Good`, 2 for `Miss`.
    pub open spec fn severity(&self) -> int {
        match *self {
            JudgeResult::Perfect(_) => 0,
            JudgeResult::Good(_) => 1,
            JudgeResult::Miss => 2,
        }
    }
}

impl NoteState {
    /// The note has been resolved for good.
    pub open spec fn is_final(&self) -> bool {
        *self is Hit || *self is Missed
    }
}

impl JudgeWindow {
    /// Both half-widths are non-negative and the perfect window lies within
    /// the good one.
    pub open spec fn wf(&self) -> bool {
        0 <= self.perfect.0 <= self.good.0
    }

    /// Decides [`JudgeWindow::wf`].
    pub fn is_valid(&self) -> (r: bool)
        ensures
            r == self.wf(),
    {
        0 <= self.perfect.0 && self.perfect.0 <= self.good.0
    }
}

impl JudgeCore {
    /// The judgment of an input that came `delta` units of time after its note:
    /// `Perfect` within the perfect window, else `Good` within the good
    /// window, else `Miss`. The signed distance is kept.
    pub open spec fn classify(&self, delta: int) -> JudgeResult {
        if magnitude(delta) <= self.window.perfect.0 {
            JudgeResult::Perfect(Time(delta as i64))
        } else if magnitude(delta) <= self.window.good.0 {
            JudgeResult::Good(Time(delta as i64))
        } else {
            JudgeResult::Miss
        }
    }

    /// Whether a distance lies within the good window.
    pub open spec fn in_good(&self, delta: int) -> bool {
        magnitude(delta) <= self.window.good.0
    }

    /// As the distance from the note grows, the judgment never gets better.
    pub proof fn lemma_classify_monotone(&self, nearer: int, farther: int)
        requires
            magnitude(nearer) <= magnitude(farther),
        ensures
            self.classify(nearer).severity() <= self.classify(farther).severity(),
    {
    }

    /// Within the good window no input is judged a miss.
    pub proof fn lemma_in_good_not_miss(&self, delta: int)
        requires
            self.in_good(delta),
        ensures
            !(self.classify(delta) is Miss),
    {
    }

    pub fn new(window: JudgeWindow, hold_tolerance: Time) -> (r: Self)
        ensures
            r.window == window,
            r.hold_tolerance == hold_tolerance,
    {
        Self { window, hold_tolerance }
    }

    /// Classifies a distance that does not fit a [`Time`] as well.
    fn classify_wide(&self, delta: i128) -> (r: JudgeResult)
        requires
            -0x1_0000_0000_0000_0000 <= delta <= 0x1_0000_0000_0000_0000,
        ensures
            r == self.classify(delta as int),
    {
        let d: i128 = if delta < 0 { -delta } else { delta };
        if d <= self.window.perfect.0 as i128 {
            JudgeResult::Perfect(Time(delta as i64))
        } else if d <= self.window.good.0 as i128 {
            JudgeResult::Good(Time(delta as i64))
        } else {
            JudgeResult::Miss
        }
    }

    /// Judges a signed distance from note to input.
    pub fn result_from_delta(&self, delta: Time) -> (r: JudgeResult)
        ensures
            r == self.classify(delta.0 as int),
    {
        self.classify_wide(delta.0 as i128)
    }

    /// Judges an input against a note by the distance between their times.
    pub fn judge(&self, input: JudgeInput) -> (r: JudgeResult)
        ensures
            r == self.classify(input.input_time.0 - input.note_time.0),
    {
        self.classify_wide((input.input_time.0 as i128) - (input.note_time.0 as i128))
    }
}

/// What the passing of time alone does to the note at the cursor, if
/// anything: the state it takes and the judgment reported for it.
///
/// A tap, or a hold not yet pressed, is missed once `now` is more than the
/// good window past its time. A hold that is held, or let go, is hit once
/// less than the good window is left to its end. A hold let go for longer
/// than the tolerance is missed.
pub open spec fn auto_step(
    note: Note,
    state: NoteState,
    now: int,
    core: JudgeCore,
    map: TimingMap,
) -> Option<(NoteState, JudgeResult)> {
    match note {
        Note::Tap { beat } => {
            if now - map.time_of(beat.0 as int) > core.window.good.0 {
                Some((NoteState::Missed, JudgeResult::Miss))
            } else {
                None
            }
        },
        Note::Hold { start, end } => {
            match state {
                NoteState::Pending => {
                    if now - map.time_of(start.0 as int) > core.window.good.0 {
                        Some((NoteState::Missed, JudgeResult::Miss))
                    } else {
                        None
                    }
                },
                NoteState::Holding(j) => {
                    if map.time_of(end.0 as int) - now < core.window.good.0 {
                        Some((NoteState::Hit, j))
                    } else {
                        None
                    }
                },
                NoteState::Releasing(j, released) => {
                    if map.time_of(end.0 as int) - now < core.window.good.0 {
                        Some((NoteState::Hit, j))
                    } else if now - released.0 > core.hold_tolerance.0 {
                        Some((NoteState::Missed, JudgeResult::Miss))
                    } else {
                        None
                    }
                },
                _ => None,
            }
        },
    }
}

/// What an input does to the note at the cursor: the state it takes, whether
/// the note is thereby resolved, and the judgment handed to the caller.
///
/// A key going down within the good window of a tap resolves it with the
/// judgment of the distance. Within the good window of a pending hold's
/// start it begins the hold with that judgment. A key going up lets a held
/// hold go, and a key going down takes a hold that was let go up again
/// with the judgment it had. Every other input changes nothing.
pub open spec fn input_step(
    note: Note,
    state: NoteState,
    at: int,
    is_down: bool,
    core: JudgeCore,
    map: TimingMap,
) -> (NoteState, bool, Option<JudgeResult>) {
    match note {
        Note::Tap { beat } => {
            let delta = at - map.time_of(beat.0 as int);
            if is_down && core.in_good(delta) {
                let result = core.classify(delta);
                (
                    if result is Miss { NoteState::Missed } else { NoteState::Hit },
                    true,
                    Some(result),
                )
            } else {
                (state, false, None)
            }
        },
        Note::Hold { start, end } => {
            match state {
                NoteState::Pending => {
                    let delta = at - map.time_of(start.0 as int);
                    if is_down && core.in_good(delta) {
                        (NoteState::Holding(core.classify(delta)), false, None)
                    } else {
                        (state, false, None)
                    }
                },
                NoteState::Holding(j) => {
                    if !is_down {
                        (NoteState::Releasing(j, Time(at as i64)), false, None)
                    } else {
                        (state, false, None)
                    }
                },
                NoteState::Releasing(j, _) => {
                    if is_down {
                        (NoteState::Holding(j), false, None)
                    } else {
                        (state, false, None)
                    }
                },
                _ => (state, false, None),
            }
        },
    }
}

/// The mathematical content of a [`NoteJudge`].
pub struct TrackModel {
    pub id: u8,
    pub notes: Seq<Note>,
    pub states: Seq<NoteState>,
    pub cursor: int,
}

impl TrackModel {
    /// One state per note, and no more notes than a machine can index.
    /// Every note before the cursor is resolved and every note after it is
    /// pending. The note at the cursor is unresolved: pending, if it is a
    /// tap; and if it is a hold that was pressed, the judgment kept from the
    /// press is no miss.
    pub open spec fn wf(&self) -> bool {
        &&& self.states.len() == self.notes.len()
        &&& self.notes.len() <= usize::MAX
        &&& 0 <= self.cursor <= self.notes.len()
        &&& notes_wf(self.notes)
        &&& forall|i: int| 0 <= i < self.cursor ==> (#[trigger] self.states[i]).is_final()
        &&& forall|i: int| self.cursor < i < self.notes.len() ==> #[trigger] self.states[i] is Pending
        &&& self.cursor < self.notes.len() ==> {
            &&& !self.states[self.cursor].is_final()
            &&& self.notes[self.cursor] is Tap ==> self.states[self.cursor] is Pending
            &&& self.states[self.cursor] matches NoteState::Holding(j) ==> !(j is Miss)
            &&& self.states[self.cursor] matches NoteState::Releasing(j, _) ==> !(j is Miss)
        }
    }

    /// Whether time alone resolves the note at the cursor.
    pub open spec fn stale(&self, now: int, core: JudgeCore, map: TimingMap) -> bool {
        0 <= self.cursor < self.notes.len() && auto_step(
            self.notes[self.cursor],
            self.states[self.cursor],
            now,
            core,
            map,
        ) is Some
    }

    /// The track after the note at the cursor took `state` and the cursor moved on.
    pub open spec fn resolve(&self, state: NoteState) -> TrackModel {
        TrackModel {
            states: self.states.update(self.cursor, state),
            cursor: self.cursor + 1,
            ..*self
        }
    }

    /// The track after time alone resolved the note at the cursor.
    pub open spec fn auto_resolve(&self, now: int, core: JudgeCore, map: TimingMap) -> TrackModel {
        self.resolve(
            auto_step(self.notes[self.cursor], self.states[self.cursor], now, core, map).unwrap().0,
        )
    }

    /// The track after every note that time alone resolves at `now`, one
    /// after the other from the cursor on, has been resolved.
    pub open spec fn flush(&self, now: int, core: JudgeCore, map: TimingMap) -> TrackModel
        decreases self.notes.len() - self.cursor,
    {
        if self.stale(now, core, map) {
            self.auto_resolve(now, core, map).flush(now, core, map)
        } else {
            *self
        }
    }

    /// The judgments that [`TrackModel::flush`] reports, each with the index
    /// of its note, in the order of the notes.
    pub open spec fn flushed(&self, now: int, core: JudgeCore, map: TimingMap) -> Seq<
        (usize, JudgeResult),
    >
        decreases self.notes.len() - self.cursor,
    {
        if self.stale(now, core, map) {
            seq![
                (
                    self.cursor as usize,
                    auto_step(
                        self.notes[self.cursor],
                        self.states[self.cursor],
                        now,
                        core,
                        map,
                    ).unwrap().1,
                ),
            ] + self.auto_resolve(now, core, map).flushed(now, core, map)
        } else {
            Seq::empty()
        }
    }

    /// The track after an input was applied to the note at the cursor,
    /// without regard to time that has passed.
    pub open spec fn press(&self, at: int, is_down: bool, core: JudgeCore, map: TimingMap) -> TrackModel {
        if 0 <= self.cursor < self.notes.len() {
            let step = input_step(
                self.notes[self.cursor],
                self.states[self.cursor],
                at,
                is_down,
                core,
                map,
            );
            TrackModel {
                states: self.states.update(self.cursor, step.0),
                cursor: if step.1 { self.cursor + 1 } else { self.cursor },
                ..*self
            }
        } else {
            *self
        }
    }

    /// The judgment that the input of [`TrackModel::press`] earns.
    pub open spec fn press_result(
        &self,
        at: int,
        is_down: bool,
        core: JudgeCore,
        map: TimingMap,
    ) -> Option<JudgeResult> {
        if 0 <= self.cursor < self.notes.len() {
            input_step(self.notes[self.cursor], self.states[self.cursor], at, is_down, core, map).2
        } else {
            None
        }
    }

    /// The track after an input event: first what time has resolved by then,
    /// then the input itself on the note then at the cursor.
    pub open spec fn on_input(&self, at: int, is_down: bool, core: JudgeCore, map: TimingMap) -> TrackModel {
        self.flush(at, core, map).press(at, is_down, core, map)
    }

    /// The judgment that an input event earns.
    pub open spec fn input_result(
        &self,
        at: int,
        is_down: bool,
        core: JudgeCore,
        map: TimingMap,
    ) -> Option<JudgeResult> {
        self.flush(at, core, map).press_result(at, is_down, core, map)
    }

    /// The track with every unresolved note missed and the cursor at the end.
    pub open spec fn cleared(&self) -> TrackModel {
        TrackModel {
            states: Seq::new(
                self.states.len(),
                |i: int| if i < self.cursor { self.states[i] } else { NoteState::Missed },
            ),
            cursor: self.notes.len() as int,
            ..*self
        }
    }

    /// Number of notes not yet resolved.
    pub open spec fn unjudged(&self) -> int {
        self.notes.len() - self.cursor
    }

    /// Resolving the note at the cursor keeps a track well formed.
    pub proof fn lemma_resolve_wf(&self, state: NoteState)
        requires
            self.wf(),
            self.cursor < self.notes.len(),
            state.is_final(),
        ensures
            self.resolve(state).wf(),
    {
        let next = self.resolve(state);
        assert forall|i: int| 0 <= i < next.cursor implies (#[trigger] next.states[i]).is_final() by {
            if i < self.cursor {
                assert(self.states[i].is_final());
            }
        }
        assert forall|i: int| next.cursor < i < next.notes.len() implies #[trigger] next.states[i] is Pending by {
            assert(self.states[i] is Pending);
        }
        if next.cursor < next.notes.len() {
            assert(self.states[next.cursor] is Pending);
        }
    }

    /// Flushing keeps a track well formed, keeps its notes, never moves the
    /// cursor back, and reports exactly one judgment for each note that the
    /// cursor passes: the `k`-th report is for the `k`-th note from the old
    /// cursor. Past the new cursor no state changes, and no further note is
    /// stale.
    pub proof fn lemma_flush(&self, now: int, core: JudgeCore, map: TimingMap)
        requires
            self.wf(),
        ensures
            self.flush(now, core, map).wf(),
            self.flush(now, core, map).notes == self.notes,
            self.flush(now, core, map).id == self.id,
            self.cursor <= self.flush(now, core, map).cursor,
            self.flushed(now, core, map).len() == self.flush(now, core, map).cursor - self.cursor,
            forall|k: int|
                0 <= k < self.flushed(now, core, map).len() ==> (#[trigger] self.flushed(
                    now,
                    core,
                    map,
                )[k]).0 == self.cursor + k,
            forall|i: int|
                0 <= i < self.cursor || self.flush(now, core, map).cursor <= i < self.notes.len()
                    ==> #[trigger] self.flush(now, core, map).states[i] == self.states[i],
            !self.flush(now, core, map).stale(now, core, map),
        decreases self.notes.len() - self.cursor,
    {
        if self.stale(now, core, map) {
            let step = auto_step(
                self.notes[self.cursor],
                self.states[self.cursor],
                now,
                core,
                map,
            ).unwrap();
            let next = self.auto_resolve(now, core, map);
            self.lemma_resolve_wf(step.0);
            next.lemma_flush(now, core, map);
            let rest = next.flushed(now, core, map);
            let all = self.flushed(now, core, map);
            assert(all == seq![(self.cursor as usize, step.1)] + rest);
            assert forall|k: int| 0 <= k < all.len() implies (#[trigger] all[k]).0 == self.cursor
                + k by {
                if k > 0 {
                    assert(all[k] == rest[k - 1]);
                }
            }
        }
    }

    /// A tap left alone is missed: once `now` is more than the good window
    /// past the time of the tap at the cursor, flushing reports a miss for
    /// it first, marks it missed, and moves the cursor past it.
    pub proof fn lemma_tap_times_out(&self, now: int, core: JudgeCore, map: TimingMap)
        requires
            self.wf(),
            self.cursor < self.notes.len(),
            self.notes[self.cursor] is Tap,
            now - map.time_of(self.notes[self.cursor]->Tap_beat.0 as int) > core.window.good.0,
        ensures
            self.flushed(now, core, map).len() >= 1,
            self.flushed(now, core, map)[0] == (self.cursor as usize, JudgeResult::Miss),
            self.flush(now, core, map).cursor > self.cursor,
            self.flush(now, core, map).states[self.cursor] == NoteState::Missed,
    {
        let next = self.auto_resolve(now, core, map);
        self.lemma_resolve_wf(NoteState::Missed);
        next.lemma_flush(now, core, map);
    }

    /// A hold that is held is hit at its end whether or not the key is let
    /// go: once less than the good window is left to the end of the hold at
    /// the cursor, flushing reports the judgment of the press for it first,
    /// which is no miss, marks it hit, and moves the cursor past it.
    pub proof fn lemma_held_to_the_end(&self, now: int, core: JudgeCore, map: TimingMap)
        requires
            self.wf(),
            self.cursor < self.notes.len(),
            self.notes[self.cursor] is Hold,
            self.states[self.cursor] is Holding,
            map.time_of(self.notes[self.cursor]->Hold_end.0 as int) - now < core.window.good.0,
        ensures
            self.flushed(now, core, map).len() >= 1,
            self.flushed(now, core, map)[0] == (
                self.cursor as usize,
                self.states[self.cursor]->Holding_0,
            ),
            !(self.flushed(now, core, map)[0].1 is Miss),
            self.flush(now, core, map).cursor > self.cursor,
            self.flush(now, core, map).states[self.cursor] == NoteState::Hit,
    {
        let next = self.auto_resolve(now, core, map);
        self.lemma_resolve_wf(NoteState::Hit);
        next.lemma_flush(now, core, map);
    }

    /// A hold let go too early and not taken up again is missed: once `now`
    /// is more than the tolerance past the release, and the good window or
    /// more is left to the end of the hold at the cursor, flushing reports a
    /// miss for it first and marks it missed.
    pub proof fn lemma_release_times_out(&self, now: int, core: JudgeCore, map: TimingMap)
        requires
            self.wf(),
            self.cursor < self.notes.len(),
            self.notes[self.cursor] is Hold,
            self.states[self.cursor] is Releasing,
            map.time_of(self.notes[self.cursor]->Hold_end.0 as int) - now >= core.window.good.0,
            now - self.states[self.cursor]->Releasing_1.0 > core.hold_tolerance.0,
        ensures
            self.flushed(now, core, map).len() >= 1,
            self.flushed(now, core, map)[0] == (self.cursor as usize, JudgeResult::Miss),
            self.flush(now, core, map).cursor > self.cursor,
            self.flush(now, core, map).states[self.cursor] == NoteState::Missed,
    {
        let next = self.auto_resolve(now, core, map);
        self.lemma_resolve_wf(NoteState::Missed);
        next.lemma_flush(now, core, map);
    }

    /// Inputs that count for nothing: on a pending note at the cursor, a
    /// key that goes up, and a key that goes down outside the good window of
    /// the note, change nothing and earn nothing.
    pub proof fn lemma_ignored_input(&self, at: int, is_down: bool, core: JudgeCore, map: TimingMap)
        requires
            self.wf(),
            self.cursor < self.notes.len(),
            self.states[self.cursor] is Pending,
            !is_down || !core.in_good(
                at - map.time_of(self.notes[self.cursor].judged_beat().0 as int),
            ),
        ensures
            self.press(at, is_down, core, map) == *self,
            self.press_result(at, is_down, core, map) is None,
    {
        assert(self.press(at, is_down, core, map).states =~= self.states);
    }

    /// A cleared track is well formed.
    pub proof fn lemma_cleared(&self)
        requires
            self.wf(),
        ensures
            self.cleared().wf(),
            self.cleared().unjudged() == 0,
    {
        let after = self.cleared();
        assert forall|i: int| 0 <= i < after.cursor implies (#[trigger] after.states[i]).is_final() by {
            if i < self.cursor {
                assert(self.states[i].is_final());
            }
        }
    }

    /// An input event keeps a track well formed and keeps its notes, and
    /// the cursor moves on by at least one where the input earns a judgment.
    pub proof fn lemma_on_input(&self, at: int, is_down: bool, core: JudgeCore, map: TimingMap)
        requires
            self.wf(),
        ensures
            self.on_input(at, is_down, core, map).wf(),
            self.on_input(at, is_down, core, map).notes == self.notes,
            self.on_input(at, is_down, core, map).id == self.id,
            self.on_input(at, is_down, core, map).unjudged() + (if self.input_result(
                at,
                is_down,
                core,
                map,
            ) is Some { 1int } else { 0int }) <= self.unjudged(),
    {
        self.lemma_flush(at, core, map);
        self.flush(at, core, map).lemma_press(at, is_down, core, map);
    }

    /// An input keeps a track well formed and keeps its notes; the cursor
    /// moves on by one exactly when the input earns a judgment, and stays
    /// otherwise.
    pub proof fn lemma_press(&self, at: int, is_down: bool, core: JudgeCore, map: TimingMap)
        requires
            self.wf(),
        ensures
            self.press(at, is_down, core, map).wf(),
            self.press(at, is_down, core, map).notes == self.notes,
            self.press(at, is_down, core, map).id == self.id,
            self.press(at, is_down, core, map).cursor == self.cursor + (if self.press_result(
                at,
                is_down,
                core,
                map,
            ) is Some { 1int } else { 0int }),
            self.press_result(at, is_down, core, map) is Some ==> !(self.press_result(
                at,
                is_down,
                core,
                map,
            ) matches Some(JudgeResult::Miss)),
    {
        if self.cursor < self.notes.len() {
            let step = input_step(
                self.notes[self.cursor],
                self.states[self.cursor],
                at,
                is_down,
                core,
                map,
            );
            let next = self.press(at, is_down, core, map);
            if step.1 {
                assert(next == self.resolve(step.0));
                self.lemma_resolve_wf(step.0);
            } else {
                assert forall|i: int| 0 <= i < next.cursor implies (#[trigger] next.states[i]).is_final() by {
                    assert(self.states[i].is_final());
                }
                assert forall|i: int| next.cursor < i < next.notes.len() implies #[trigger] next.states[i] is Pending by {
                    assert(self.states[i] is Pending);
                }
            }
        }
    }
}

/// One lane's notes, the state of each, and the cursor: the index of the
/// first note that is not yet resolved.
pub struct NoteJudge {
    pub id: u8,
    pub notes: Vec<Note>,
    pub states: Vec<NoteState>,
    pub cursor: usize,
}

impl View for NoteJudge {
    type V = TrackModel;

    open spec fn view(&self) -> TrackModel {
        TrackModel {
            id: self.id,
            notes: self.notes@,
            states: self.states@,
            cursor: self.cursor as int,
        }
    }
}

/// Computes [`auto_step`].
fn auto_transition(
    note: &Note,
    state: NoteState,
    now: Time,
    judge: &JudgeCore,
    timing_map: &TimingMap,
) -> (r: Option<(NoteState, JudgeResult)>)
    requires
        note.wf(),
        timing_map.wf(),
    ensures
        r == auto_step(*note, state, now.0 as int, *judge, *timing_map),
{
    let good: i128 = judge.window.good.0 as i128;
    let at: i128 = now.0 as i128;
    match note {
        Note::Tap { beat } => {
            let time = timing_map.beat_to_time(beat);
            if at - (time.0 as i128) > good {
                Some((NoteState::Missed, JudgeResult::Miss))
            } else {
                None
            }
        },
        Note::Hold { start, end } => {
            let start_time = timing_map.beat_to_time(start);
            let end_time = timing_map.beat_to_time(end);
            match state {
                NoteState::Pending => {
                    if at - (start_time.0 as i128) > good {
                        Some((NoteState::Missed, JudgeResult::Miss))
                    } else {
                        None
                    }
                },
                NoteState::Holding(j) => {
                    if (end_time.0 as i128) - at < good {
                        Some((NoteState::Hit, j))
                    } else {
                        None
                    }
                },
                NoteState::Releasing(j, release_time) => {
                    if (end_time.0 as i128) - at < good {
                        Some((NoteState::Hit, j))
                    } else if at - (release_time.0 as i128) > judge.hold_tolerance.0 as i128 {
                        Some((NoteState::Missed, JudgeResult::Miss))
                    } else {
                        None
                    }
                },
                _ => None,
            }
        },
    }
}

/// Computes [`input_step`].
fn input_transition(
    note: &Note,
    state: NoteState,
    input_time: Time,
    is_down: bool,
    judge: &JudgeCore,
    timing_map: &TimingMap,
) -> (r: (NoteState, bool, Option<JudgeResult>))
    requires
        note.wf(),
        timing_map.wf(),
    ensures
        r == input_step(*note, state, input_time.0 as int, is_down, *judge, *timing_map),
{
    match note {
        Note::Tap { beat } => {
            if !is_down {
                return (state, false, None);
            }
            let time = timing_map.beat_to_time(beat);
            if within_good(judge, time, input_time) {
                let result = judge.judge(JudgeInput { note_time: time, input_time });
                let next = if let JudgeResult::Miss = result {
                    NoteState::Missed
                } else {
                    NoteState::Hit
                };
                (next, true, Some(result))
            } else {
                (state, false, None)
            }
        },
        Note::Hold { start, .. } => {
            match state {
                NoteState::Pending => {
                    if !is_down {
                        return (state, false, None);
                    }
                    let start_time = timing_map.beat_to_time(start);
                    if within_good(judge, start_time, input_time) {
                        let result = judge.judge(JudgeInput { note_time: start_time, input_time });
                        (NoteState::Holding(result), false, None)
                    } else {
                        (state, false, None)
                    }
                },
                NoteState::Holding(res) => {
                    if is_down {
                        (state, false, None)
                    } else {
                        (NoteState::Releasing(res, input_time), false, None)
                    }
                },
                NoteState::Releasing(res, _) => {
                    if is_down {
                        (NoteState::Holding(res), false, None)
                    } else {
                        (state, false, None)
                    }
                },
                _ => (state, false, None),
            }
        },
    }
}

/// Whether an input lies within the good window around a note's time.
fn within_good(judge: &JudgeCore, note_time: Time, input_time: Time) -> (r: bool)
    ensures
        r == judge.in_good(input_time.0 - note_time.0),
{
    let delta: i128 = (input_time.0 as i128) - (note_time.0 as i128);
    let d: i128 = if delta < 0 { -delta } else { delta };
    d <= judge.window.good.0 as i128
}

impl NoteJudge {
    /// The track is well formed, as [`TrackModel::wf`] states it.
    pub open spec fn wf(&self) -> bool {
        self@.wf()
    }

    /// A judge for a track, with every note pending and the cursor at the
    /// first note.
    pub fn new(track: Track) -> (r: Self)
        requires
            notes_wf(track.notes@),
        ensures
            r.wf(),
            r@.id == track.id,
            r@.notes == track.notes@,
            r@.cursor == 0,
            r@.states == Seq::new(track.notes@.len(), |i: int| NoteState::Pending),
    {
        let n = track.notes.len();
        let mut states: Vec<NoteState> = Vec::new();
        let mut i: usize = 0;
        while i < n
            invariant
                0 <= i <= n,
                states@.len() == i,
                forall|k: int| 0 <= k < i ==> #[trigger] states@[k] is Pending,
            decreases n - i,
        {
            states.push(NoteState::Pending);
            i += 1;
        }
        assert(states@ =~= Seq::new(track.notes@.len(), |i: int| NoteState::Pending));
        Self { id: track.id, notes: track.notes, states, cursor: 0 }
    }

    /// Resolves every note that time alone resolves at `now`, from the
    /// cursor on, until one is met that still waits; reports each with its index.
    pub fn update(&mut self, now: Time, judge: &JudgeCore, timing_map: &TimingMap) -> (results: Vec<
        (usize, JudgeResult),
    >)
        requires
            old(self).wf(),
            timing_map.wf(),
        ensures
            final(self).wf(),
            final(self)@ == old(self)@.flush(now.0 as int, *judge, *timing_map),
            results@ == old(self)@.flushed(now.0 as int, *judge, *timing_map),
    {
        let ghost start = self@;
        let mut results: Vec<(usize, JudgeResult)> = Vec::new();
        while self.cursor < self.notes.len()
            invariant
                self.wf(),
                timing_map.wf(),
                self@.flush(now.0 as int, *judge, *timing_map) == start.flush(
                    now.0 as int,
                    *judge,
                    *timing_map,
                ),
                results@ + self@.flushed(now.0 as int, *judge, *timing_map) == start.flushed(
                    now.0 as int,
                    *judge,
                    *timing_map,
                ),
            ensures
                self.wf(),
                !self@.stale(now.0 as int, *judge, *timing_map),
                self@.flush(now.0 as int, *judge, *timing_map) == start.flush(
                    now.0 as int,
                    *judge,
                    *timing_map,
                ),
                results@ + self@.flushed(now.0 as int, *judge, *timing_map) == start.flushed(
                    now.0 as int,
                    *judge,
                    *timing_map,
                ),
            decreases self.notes.len() - self.cursor,
        {
            let c = self.cursor;
            let ghost before = self@;
            let ghost reported = results@;
            assert(self.notes@[c as int].wf());
            let step = auto_transition(&self.notes[c], self.states[c], now, judge, timing_map);
            match step {
                Some((state, result)) => {
                    self.states.set(c, state);
                    results.push((c, result));
                    self.cursor = c + 1;
                    proof {
                        before.lemma_resolve_wf(state);
                        assert(self@ == before.auto_resolve(now.0 as int, *judge, *timing_map));
                        assert(results@ + self@.flushed(now.0 as int, *judge, *timing_map)
                            =~= reported + before.flushed(now.0 as int, *judge, *timing_map));
                    }
                },
                None => {
                    break ;
                },
            }
        }
        assert(results@ + Seq::<(usize, JudgeResult)>::empty() =~= results@);
        results
    }

    /// Misses every note from the cursor on, moves the cursor to the end, and
    /// answers how many notes that were.
    pub fn clear(&mut self) -> (remaining: u32)
        requires
            old(self).wf(),
            old(self)@.unjudged() <= u32::MAX,
        ensures
            final(self).wf(),
            final(self)@ == old(self)@.cleared(),
            remaining == old(self)@.unjudged(),
    {
        let ghost start = self@;
        let n = self.notes.len();
        let from = self.cursor;
        let mut i: usize = from;
        while i < n
            invariant
                n == self.notes@.len(),
                n == self.states@.len(),
                from <= i <= n,
                self.notes@ == start.notes,
                self.id == start.id,
                self.cursor == from,
                from == start.cursor,
                start.states.len() == n,
                forall|k: int| 0 <= k < from ==> #[trigger] self.states@[k] == start.states[k],
                forall|k: int| from <= k < i ==> #[trigger] self.states@[k] is Missed,
            decreases n - i,
        {
            self.states.set(i, NoteState::Missed);
            i += 1;
        }
        self.cursor = n;
        assert(self@.states =~= start.cleared().states);
        (n - from) as u32
    }

    /// Handles one input event of this lane: resolves what time has
    /// resolved by `input_time`, then applies the input to the note at the
    /// cursor. Answers the judgment that the input earns, if any.
    pub fn on_input(
        &mut self,
        input_time: Time,
        is_down: bool,
        judge: &JudgeCore,
        timing_map: &TimingMap,
    ) -> (r: Option<JudgeResult>)
        requires
            old(self).wf(),
            timing_map.wf(),
        ensures
            final(self).wf(),
            final(self)@ == old(self)@.on_input(input_time.0 as int, is_down, *judge, *timing_map),
            r == old(self)@.input_result(input_time.0 as int, is_down, *judge, *timing_map),
    {
        let _ = self.update(input_time, judge, timing_map);
        if self.cursor >= self.notes.len() {
            return None;
        }
        let c = self.cursor;
        let ghost before = self@;
        assert(self.notes@[c as int].wf());
        let (state, advance, result) = input_transition(
            &self.notes[c],
            self.states[c],
            input_time,
            is_down,
            judge,
            timing_map,
        );
        self.states.set(c, state);
        if advance {
            self.cursor = c + 1;
        }
        proof {
            before.lemma_press(input_time.0 as int, is_down, *judge, *timing_map);
            assert(self@ == before.press(input_time.0 as int, is_down, *judge, *timing_map));
        }
        result
    }
}

/// A judgment that time alone brought about, with the lane and the index
/// of its note.
#[derive(Debug, Clone, Copy, PartialEq, Eq, Structural)]
pub struct UpdateResult {
    pub track_idx: usize,
    pub note_idx: usize,
    pub result: JudgeResult,
}

/// The judges of all lanes, with the windows and the tempo map they share.
pub struct JudgeManager {
    pub judges: Vec<NoteJudge>,
    pub core: JudgeCore,
    pub map: TimingMap,
}

/// Index of the first track from `from` on whose lane id is `id`, or the
/// number of tracks if there is none.
pub open spec fn find_track(tracks: Seq<TrackModel>, id: u8, from: int) -> int
    decreases tracks.len() - from,
{
    if from < tracks.len() && tracks[from].id != id {
        find_track(tracks, id, from + 1)
    } else {
        from
    }
}

/// The search for a lane ends at a track of that lane or past the last
/// track, and passes no track of that lane.
pub proof fn lemma_find_track(tracks: Seq<TrackModel>, id: u8, from: int)
    requires
        0 <= from <= tracks.len(),
    ensures
        from <= find_track(tracks, id, from) <= tracks.len(),
        find_track(tracks, id, from) < tracks.len() ==> tracks[find_track(tracks, id, from)].id == id,
        forall|k: int| from <= k < find_track(tracks, id, from) ==> (#[trigger] tracks[k]).id != id,
    decreases tracks.len() - from,
{
    if from < tracks.len() && tracks[from].id != id {
        lemma_find_track(tracks, id, from + 1);
    }
}

/// The reports of one lane, each tagged with the lane's id.
pub open spec fn tagged(id: u8, reports: Seq<(usize, JudgeResult)>) -> Seq<UpdateResult> {
    Seq::new(
        reports.len(),
        |k: int| (UpdateResult { track_idx: id as usize, note_idx: reports[k].0, result: reports[k].1 }),
    )
}

/// The tagged reports of flushing the first `upto` tracks at `now`, lane
/// after lane.
pub open spec fn flushed_upto(
    tracks: Seq<TrackModel>,
    upto: int,
    now: int,
    core: JudgeCore,
    map: TimingMap,
) -> Seq<UpdateResult>
    decreases upto,
{
    if upto <= 0 {
        Seq::empty()
    } else {
        flushed_upto(tracks, upto - 1, now, core, map) + tagged(
            tracks[upto - 1].id,
            tracks[upto - 1].flushed(now, core, map),
        )
    }
}

/// Every track flushed at `now`.
pub open spec fn flush_all(tracks: Seq<TrackModel>, now: int, core: JudgeCore, map: TimingMap) -> Seq<
    TrackModel,
> {
    Seq::new(tracks.len(), |i: int| tracks[i].flush(now, core, map))
}

/// Every track cleared.
pub open spec fn clear_all(tracks: Seq<TrackModel>) -> Seq<TrackModel> {
    Seq::new(tracks.len(), |i: int| tracks[i].cleared())
}

/// Number of unresolved notes in the first `upto` tracks.
pub open spec fn unjudged_upto(tracks: Seq<TrackModel>, upto: int) -> int
    decreases upto,
{
    if upto <= 0 {
        0
    } else {
        unjudged_upto(tracks, upto - 1) + tracks[upto - 1].unjudged()
    }
}

/// Number of notes in the first `upto` tracks.
pub open spec fn notes_upto(tracks: Seq<TrackModel>, upto: int) -> int
    decreases upto,
{
    if upto <= 0 {
        0
    } else {
        notes_upto(tracks, upto - 1) + tracks[upto - 1].notes.len()
    }
}

/// Every track is well formed.
pub open spec fn tracks_wf(tracks: Seq<TrackModel>) -> bool {
    forall|i: int| 0 <= i < tracks.len() ==> (#[trigger] tracks[i]).wf()
}

/// Flushing all lanes keeps them well formed and keeps their notes, and
/// reports exactly as many judgments as notes leave the unresolved ones.
pub proof fn lemma_flush_all_count(
    tracks: Seq<TrackModel>,
    upto: int,
    now: int,
    core: JudgeCore,
    map: TimingMap,
)
    requires
        tracks_wf(tracks),
        0 <= upto <= tracks.len(),
    ensures
        tracks_wf(flush_all(tracks, now, core, map)),
        notes_upto(flush_all(tracks, now, core, map), upto) == notes_upto(tracks, upto),
        unjudged_upto(flush_all(tracks, now, core, map), upto) + flushed_upto(
            tracks,
            upto,
            now,
            core,
            map,
        ).len() == unjudged_upto(tracks, upto),
    decreases upto,
{
    let after = flush_all(tracks, now, core, map);
    assert forall|i: int| 0 <= i < after.len() implies (#[trigger] after[i]).wf() by {
        assert(tracks[i].wf());
        tracks[i].lemma_flush(now, core, map);
    }
    if upto > 0 {
        lemma_flush_all_count(tracks, upto - 1, now, core, map);
        assert(tracks[upto - 1].wf());
        tracks[upto - 1].lemma_flush(now, core, map);
    }
}

/// Clearing all lanes keeps them well formed and keeps their notes, and
/// leaves no note unresolved.
pub proof fn lemma_clear_all_count(tracks: Seq<TrackModel>, upto: int)
    requires
        tracks_wf(tracks),
        0 <= upto <= tracks.len(),
    ensures
        tracks_wf(clear_all(tracks)),
        notes_upto(clear_all(tracks), upto) == notes_upto(tracks, upto),
        unjudged_upto(clear_all(tracks), upto) == 0,
    decreases upto,
{
    let after = clear_all(tracks);
    assert forall|i: int| 0 <= i < after.len() implies (#[trigger] after[i]).wf() by {
        assert(tracks[i].wf());
        tracks[i].lemma_cleared();
    }
    if upto > 0 {
        lemma_clear_all_count(tracks, upto - 1);
    }
}

/// Putting another state of the same lane in the place of lane `i` keeps
/// the number of notes, and changes the number of unresolved notes by the
/// difference between the two.
pub proof fn lemma_replace_count(tracks: Seq<TrackModel>, i: int, lane: TrackModel, upto: int)
    requires
        0 <= i < tracks.len(),
        0 <= upto <= tracks.len(),
        lane.notes == tracks[i].notes,
    ensures
        notes_upto(tracks.update(i, lane), upto) == notes_upto(tracks, upto),
        unjudged_upto(tracks.update(i, lane), upto) == unjudged_upto(tracks, upto) + (if i < upto {
            lane.unjudged() - tracks[i].unjudged()
        } else {
            0
        }),
    decreases upto,
{
    if upto > 0 {
        lemma_replace_count(tracks, i, lane, upto - 1);
    }
}

/// Well-formed tracks hold at least as many notes as unresolved notes.
pub proof fn lemma_unjudged_at_most_notes(tracks: Seq<TrackModel>, upto: int)
    requires
        tracks_wf(tracks),
        0 <= upto <= tracks.len(),
    ensures
        0 <= unjudged_upto(tracks, upto) <= notes_upto(tracks, upto),
    decreases upto,
{
    if upto > 0 {
        lemma_unjudged_at_most_notes(tracks, upto - 1);
        assert(tracks[upto - 1].wf());
    }
}

/// The unresolved notes of well-formed tracks are never fewer over more tracks.
pub proof fn lemma_unjudged_upto_monotone(tracks: Seq<TrackModel>, fewer: int, more: int)
    requires
        0 <= fewer <= more <= tracks.len(),
        forall|i: int| 0 <= i < tracks.len() ==> (#[trigger] tracks[i]).wf(),
    ensures
        0 <= unjudged_upto(tracks, fewer) <= unjudged_upto(tracks, more),
    decreases more,
{
    if fewer < more {
        lemma_unjudged_upto_monotone(tracks, fewer, more - 1);
        assert(tracks[more - 1].wf());
    } else if more > 0 {
        lemma_unjudged_upto_monotone(tracks, fewer - 1, more - 1);
        assert(tracks[more - 1].wf());
    }
}

impl JudgeManager {
    /// The tracks of all lanes, in the order in which they were given.
    pub open spec fn tracks(&self) -> Seq<TrackModel> {
        Seq::new(self.judges@.len(), |i: int| self.judges@[i]@)
    }

    /// The tempo map is valid and every track well formed.
    pub open spec fn wf(&self) -> bool {
        self.map.wf() && forall|i: int|
            0 <= i < self.judges@.len() ==> (#[trigger] self.judges@[i]).wf()
    }

    /// One judge per track, in the order given, each with every note pending.
    pub fn new(tracks: Vec<Track>, timing_map: TimingMap, core: JudgeCore) -> (r: Self)
        requires
            timing_map.wf(),
            forall|i: int| 0 <= i < tracks@.len() ==> notes_wf((#[trigger] tracks@[i]).notes@),
        ensures
            r.wf(),
            r.core == core,
            r.map == timing_map,
            r.judges@.len() == tracks@.len(),
            forall|i: int|
                0 <= i < tracks@.len() ==> {
                    &&& (#[trigger] r.judges@[i])@.id == tracks@[i].id
                    &&& r.judges@[i]@.notes == tracks@[i].notes@
                    &&& r.judges@[i]@.cursor == 0
                    &&& r.judges@[i]@.states == Seq::new(
                        tracks@[i].notes@.len(),
                        |k: int| NoteState::Pending,
                    )
                },
    {
        let ghost given = tracks@;
        let mut result: Vec<NoteJudge> = Vec::new();
        for track in it: tracks
            invariant
                it.seq() == given,
                forall|i: int| 0 <= i < given.len() ==> notes_wf((#[trigger] given[i]).notes@),
                result@.len() == it.index(),
                forall|i: int|
                    0 <= i < result@.len() ==> {
                        &&& (#[trigger] result@[i]).wf()
                        &&& result@[i]@.id == given[i].id
                        &&& result@[i]@.notes == given[i].notes@
                        &&& result@[i]@.cursor == 0
                        &&& result@[i]@.states == Seq::new(
                            given[i].notes@.len(),
                            |k: int| NoteState::Pending,
                        )
                    },
        {
            result.push(NoteJudge::new(track));
        }
        Self { judges: result, core, map: timing_map }
    }

    /// Hands an input event to the first judge of lane `track`. A lane that
    /// no judge has is ignored.
    pub fn on_input(&mut self, track: u8, time: Time, is_down: bool) -> (r: Option<JudgeResult>)
        requires
            old(self).wf(),
        ensures
            final(self).wf(),
            final(self).core == old(self).core,
            final(self).map == old(self).map,
            final(self).tracks().len() == old(self).tracks().len(),
            find_track(old(self).tracks(), track, 0) == old(self).tracks().len() ==> r is None
                && final(self).tracks() == old(self).tracks(),
            find_track(old(self).tracks(), track, 0) < old(self).tracks().len() ==> {
                let i = find_track(old(self).tracks(), track, 0);
                let lane = old(self).tracks()[i];
                &&& lane.id == track
                &&& r == lane.input_result(time.0 as int, is_down, old(self).core, old(self).map)
                &&& final(self).tracks() == old(self).tracks().update(
                    i,
                    lane.on_input(time.0 as int, is_down, old(self).core, old(self).map),
                )
            },
    {
        let ghost start = self.tracks();
        let n = self.judges.len();
        let mut i: usize = 0;
        while i < n && self.judges[i].id != track
            invariant
                n == self.judges@.len(),
                0 <= i <= n,
                start == self.tracks(),
                find_track(start, track, 0) == find_track(start, track, i as int),
            decreases n - i,
        {
            i += 1;
        }
        if i >= n {
            return None;
        }
        let r = self.judges[i].on_input(time, is_down, &self.core, &self.map);
        assert(self.tracks() =~= start.update(
            i as int,
            start[i as int].on_input(time.0 as int, is_down, self.core, self.map),
        ));
        r
    }

    /// Flushes every lane at `now`, in the order of the lanes, and gathers
    /// the reports, each tagged with its lane's id.
    pub fn update(&mut self, now: Time) -> (all_results: Vec<UpdateResult>)
        requires
            old(self).wf(),
        ensures
            final(self).wf(),
            final(self).core == old(self).core,
            final(self).map == old(self).map,
            final(self).tracks() == flush_all(
                old(self).tracks(),
                now.0 as int,
                old(self).core,
                old(self).map,
            ),
            all_results@ == flushed_upto(
                old(self).tracks(),
                old(self).tracks().len() as int,
                now.0 as int,
                old(self).core,
                old(self).map,
            ),
    {
        let ghost start = self.tracks();
        let ghost core = self.core;
        let ghost map = self.map;
        let mut all_results: Vec<UpdateResult> = Vec::new();
        let n = self.judges.len();
        let mut i: usize = 0;
        while i < n
            invariant
                n == self.judges@.len(),
                n == start.len(),
                0 <= i <= n,
                self.wf(),
                self.core == core,
                self.map == map,
                forall|k: int| 0 <= k < i ==> (#[trigger] self.judges@[k])@ == start[k].flush(now.0 as int, core, map),
                forall|k: int| i <= k < n ==> (#[trigger] self.judges@[k])@ == start[k],
                all_results@ == flushed_upto(start, i as int, now.0 as int, core, map),
            decreases n - i,
        {
            let real_id = self.judges[i].id as usize;
            let ghost before = self.judges@;
            let ghost base = all_results@;
            let results = self.judges[i].update(now, &self.core, &self.map);
            assert(forall|k: int| 0 <= k < n && k != i ==> self.judges@[k] == before[k]);
            let m = results.len();
            let mut j: usize = 0;
            while j < m
                invariant
                    m == results@.len(),
                    0 <= j <= m,
                    all_results@ == base + tagged(start[i as int].id, results@.take(j as int)),
                    real_id == start[i as int].id as usize,
                decreases m - j,
            {
                let (note_idx, res) = results[j];
                all_results.push(UpdateResult { track_idx: real_id, note_idx, result: res });
                assert(all_results@ =~= base + tagged(
                    start[i as int].id,
                    results@.take(j + 1),
                ));
                j += 1;
            }
            assert(results@.take(m as int) =~= results@);
            i += 1;
        }
        assert(self.tracks() =~= flush_all(start, now.0 as int, core, map));
        all_results
    }

    /// Ends the session: every note not yet resolved is missed, every
    /// cursor goes to the end of its track, and the number of notes that
    /// were thus resolved is answered.
    pub fn clear_and_count_unjudged(&mut self) -> (total_unjudged: u32)
        requires
            old(self).wf(),
            unjudged_upto(old(self).tracks(), old(self).tracks().len() as int) <= u32::MAX,
        ensures
            final(self).wf(),
            final(self).core == old(self).core,
            final(self).map == old(self).map,
            final(self).tracks() == clear_all(old(self).tracks()),
            total_unjudged == unjudged_upto(old(self).tracks(), old(self).tracks().len() as int),
    {
        let ghost start = self.tracks();
        let mut total_unjudged: u32 = 0;
        let n = self.judges.len();
        let mut t: usize = 0;
        while t < n
            invariant
                n == self.judges@.len(),
                n == start.len(),
                0 <= t <= n,
                self.core == old(self).core,
                self.map == old(self).map,
                self.map.wf(),
                forall|k: int| 0 <= k < n ==> (#[trigger] start[k]).wf(),
                unjudged_upto(start, n as int) <= u32::MAX,
                forall|k: int| 0 <= k < t ==> (#[trigger] self.judges@[k])@ == start[k].cleared(),
                forall|k: int| 0 <= k < t ==> (#[trigger] self.judges@[k]).wf(),
                forall|k: int| t <= k < n ==> (#[trigger] self.judges@[k])@ == start[k],
                total_unjudged == unjudged_upto(start, t as int),
            decreases n - t,
        {
            proof {
                lemma_unjudged_upto_monotone(start, t + 1, n as int);
                assert(start[t as int].wf());
            }
            let ghost before = self.judges@;
            let remaining: u32 = self.judges[t].clear();
            assert(forall|k: int| 0 <= k < n && k != t ==> self.judges@[k] == before[k]);
            total_unjudged = total_unjudged + remaining;
            t += 1;
        }
        assert(self.tracks() =~= clear_all(start));
        total_unjudged
    }
}

} // verus!
