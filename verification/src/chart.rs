//! Charts: the notes of each lane, with the tempo map they are timed by.

use vstd::prelude::*;
use crate::timing::{Beat, TimingMap};

verus! {

/// A note of a lane: a single hit, or a key held from `start` to `end`.
#[derive(Clone, Copy, Debug, PartialEq, Eq, Structural)]
pub enum Note {
    Tap { beat: Beat },
    Hold { start: Beat, end: Beat },
}

/// The notes of one lane, in the order in which they are judged.
#[derive(Clone, Debug)]
pub struct Track {
    pub id: u8,
    pub notes: Vec<Note>,
}

/// Who wrote a chart, how hard it is, and a free description.
#[derive(Clone, Debug)]
pub struct ChartMeta {
    pub charter: String,
    pub level: u8,
    pub desc: String,
}

/// A playable chart.
#[derive(Clone, Debug)]
pub struct Chart {
    pub meta: ChartMeta,
    pub timing_map: TimingMap,
    pub tracks: Vec<Track>,
}

/// Why a chart is refused.
#[derive(Clone, Copy, Debug, PartialEq, Eq, Structural)]
pub enum ChartError {
    /// The tempo map holds no segment.
    NoBpmChange,
    /// The tempo map holds segments but is not valid.
    BadTiming,
    /// The track at this index holds a malformed note or is out of order.
    BadTrack(usize),
}

impl Note {
    /// The beat at which the note is to be pressed.
    pub open spec fn judged_beat(&self) -> Beat {
        match *self {
            Note::Tap { beat } => beat,
            Note::Hold { start, .. } => start,
        }
    }

    /// Every beat of the note lies in range, and a hold ends after it starts.
    pub open spec fn wf(&self) -> bool {
        match *self {
            Note::Tap { beat } => beat.in_range(),
            Note::Hold { start, end } => start.in_range() && end.in_range() && start.0 < end.0,
        }
    }

    /// The beat at which the note is to be pressed.
    pub fn beat(&self) -> (b: Beat)
        ensures
            b == self.judged_beat(),
    {
        match self {
            Note::Tap { beat } => *beat,
            Note::Hold { start, .. } => *start,
        }
    }

    /// Decides [`Note::wf`].
    pub fn is_valid(&self) -> (r: bool)
        ensures
            r == self.wf(),
    {
        match self {
            Note::Tap { beat } => beat.is_in_range(),
            Note::Hold { start, end } => start.is_in_range() && end.is_in_range() && start.0
                < end.0,
        }
    }
}

/// Every note is well formed.
pub open spec fn notes_wf(notes: Seq<Note>) -> bool {
    forall|i: int| 0 <= i < notes.len() ==> (#[trigger] notes[i]).wf()
}

/// The notes ascend by the beat at which they are pressed.
pub open spec fn notes_sorted(notes: Seq<Note>) -> bool {
    forall|i: int|
        0 < i < notes.len() ==> notes[i - 1].judged_beat().0 <= (#[trigger] notes[i]).judged_beat().0
}

impl Track {
    /// Every note is well formed and the notes are in ascending order.
    pub open spec fn wf(&self) -> bool {
        notes_wf(self.notes@) && notes_sorted(self.notes@)
    }

    /// Decides [`Track::wf`].
    pub fn is_valid(&self) -> (r: bool)
        ensures
            r == self.wf(),
    {
        let n = self.notes.len();
        let mut i: usize = 0;
        while i < n
            invariant
                n == self.notes@.len(),
                0 <= i <= n,
                forall|k: int| 0 <= k < i ==> (#[trigger] self.notes@[k]).wf(),
                forall|k: int|
                    0 < k < i ==> self.notes@[k - 1].judged_beat().0 <= (
                    #[trigger] self.notes@[k]).judged_beat().0,
            decreases n - i,
        {
            if !self.notes[i].is_valid() {
                assert(!self.notes@[i as int].wf());
                return false;
            }
            if i > 0 && self.notes[i - 1].beat().0 > self.notes[i].beat().0 {
                assert(!(self.notes@[i - 1].judged_beat().0 <= self.notes@[i as int].judged_beat().0));
                return false;
            }
            i += 1;
        }
        true
    }
}

/// Where a track of lane `id` goes among tracks in ascending order of
/// lane: before the first track from `from` on whose lane is greater, or at
/// the end.
pub open spec fn insert_pos(tracks: Seq<Track>, id: u8, from: int) -> int
    decreases tracks.len() - from,
{
    if from < tracks.len() && tracks[from].id <= id {
        insert_pos(tracks, id, from + 1)
    } else {
        from
    }
}

/// The first `upto` tracks in ascending order of lane, tracks of one lane
/// in the order they had: each track in turn goes behind the tracks of its
/// own and of lesser lanes. That this is the stable sort of the tracks is
/// stated by [`lemma_arranged`], [`lemma_arranged_permutation`] and
/// [`lemma_arranged_stable`].
pub open spec fn arranged(tracks: Seq<Track>, upto: int) -> Seq<Track>
    decreases upto,
{
    if upto <= 0 {
        Seq::empty()
    } else {
        let before = arranged(tracks, upto - 1);
        before.insert(insert_pos(before, tracks[upto - 1].id, 0), tracks[upto - 1])
    }
}

/// The lanes ascend.
pub open spec fn lanes_ascend(tracks: Seq<Track>) -> bool {
    forall|a: int, b: int| 0 <= a < b < tracks.len() ==> tracks[a].id <= tracks[b].id
}

/// The place found lies within the tracks; among ascending lanes every
/// track before it has a lane of at most `id`, and every track from it on
/// a greater one.
pub proof fn lemma_insert_pos(tracks: Seq<Track>, id: u8, from: int)
    requires
        0 <= from <= tracks.len(),
        lanes_ascend(tracks),
        forall|k: int| 0 <= k < from ==> (#[trigger] tracks[k]).id <= id,
    ensures
        from <= insert_pos(tracks, id, from) <= tracks.len(),
        forall|k: int| 0 <= k < insert_pos(tracks, id, from) ==> (#[trigger] tracks[k]).id <= id,
        forall|k: int|
            insert_pos(tracks, id, from) <= k < tracks.len() ==> (#[trigger] tracks[k]).id > id,
    decreases tracks.len() - from,
{
    if from < tracks.len() && tracks[from].id <= id {
        lemma_insert_pos(tracks, id, from + 1);
    } else if from < tracks.len() {
        assert forall|k: int| from <= k < tracks.len() implies (#[trigger] tracks[k]).id > id by {
            if k > from {
                assert(tracks[from].id <= tracks[k].id);
            }
        }
    }
}

/// Arranging keeps every track and loses none: the arranged tracks are as
/// many as were given, their lanes ascend, and whatever holds of every
/// given track's notes being well formed holds of the arranged ones.
pub proof fn lemma_arranged(tracks: Seq<Track>, upto: int)
    requires
        0 <= upto <= tracks.len(),
    ensures
        arranged(tracks, upto).len() == upto,
        lanes_ascend(arranged(tracks, upto)),
        (forall|i: int| 0 <= i < upto ==> notes_wf((#[trigger] tracks[i]).notes@)) ==> (forall|i: int|
            0 <= i < upto ==> notes_wf((#[trigger] arranged(tracks, upto)[i]).notes@)),
    decreases upto,
{
    if upto > 0 {
        lemma_arranged(tracks, upto - 1);
        let before = arranged(tracks, upto - 1);
        let x = tracks[upto - 1];
        lemma_insert_pos(before, x.id, 0);
        let p = insert_pos(before, x.id, 0);
        let after = before.insert(p, x);
        assert forall|a: int, b: int| 0 <= a < b < after.len() implies after[a].id <= after[b].id by {
            if a < p {
                assert(after[a] == before[a]);
            } else if a > p {
                assert(after[a] == before[a - 1]);
            }
            if b < p {
                assert(after[b] == before[b]);
            } else if b > p {
                assert(after[b] == before[b - 1]);
            }
        }
        if forall|i: int| 0 <= i < upto ==> notes_wf((#[trigger] tracks[i]).notes@) {
            assert forall|i: int| 0 <= i < upto implies notes_wf((#[trigger] after[i]).notes@) by {
                if i < p {
                    assert(after[i] == before[i]);
                } else if i > p {
                    assert(after[i] == before[i - 1]);
                } else {
                    assert(notes_wf(tracks[upto - 1].notes@));
                }
            }
        }
    }
}

/// The tracks of lane `id` among the first `upto` tracks, in their order.
pub open spec fn lane_tracks(tracks: Seq<Track>, id: u8, upto: int) -> Seq<Track>
    decreases upto,
{
    if upto <= 0 {
        Seq::empty()
    } else if tracks[upto - 1].id == id {
        lane_tracks(tracks, id, upto - 1).push(tracks[upto - 1])
    } else {
        lane_tracks(tracks, id, upto - 1)
    }
}

/// Tracks that agree in their first `upto` places hold the same tracks of
/// a lane there.
pub proof fn lemma_lane_tracks_agree(a: Seq<Track>, b: Seq<Track>, id: u8, upto: int)
    requires
        0 <= upto <= a.len(),
        upto <= b.len(),
        forall|k: int| 0 <= k < upto ==> a[k] == b[k],
    ensures
        lane_tracks(a, id, upto) == lane_tracks(b, id, upto),
    decreases upto,
{
    if upto > 0 {
        lemma_lane_tracks_agree(a, b, id, upto - 1);
    }
}

/// A track put in front of tracks of other lanes only: it comes last among
/// the tracks of its own lane before it, and the tracks of every other lane
/// stay as they were.
pub proof fn lemma_lane_tracks_insert(tracks: Seq<Track>, at: int, track: Track, id: u8, upto: int)
    requires
        0 <= at <= tracks.len(),
        at < upto <= tracks.len() + 1,
        forall|k: int| at <= k < tracks.len() ==> (#[trigger] tracks[k]).id != track.id,
    ensures
        lane_tracks(tracks.insert(at, track), id, upto) == if track.id == id {
            lane_tracks(tracks, id, upto - 1).push(track)
        } else {
            lane_tracks(tracks, id, upto - 1)
        },
    decreases upto,
{
    let after = tracks.insert(at, track);
    if upto == at + 1 {
        assert(after[at] == track);
        lemma_lane_tracks_agree(after, tracks, id, at);
    } else {
        lemma_lane_tracks_insert(tracks, at, track, id, upto - 1);
        assert(after[upto - 1] == tracks[upto - 2]);
        assert(tracks[upto - 2].id != track.id);
    }
}

/// Arranging is a stable sort. The lanes of the arranged tracks ascend
/// (see [`lemma_arranged`]), and for every lane the arranged tracks hold
/// the given tracks of that lane, each once, in the order given: so the
/// arranged tracks are the given tracks in another order, and no other
/// order of them meets both.
pub proof fn lemma_arranged_stable(tracks: Seq<Track>, id: u8, upto: int)
    requires
        0 <= upto <= tracks.len(),
    ensures
        lane_tracks(arranged(tracks, upto), id, upto) == lane_tracks(tracks, id, upto),
    decreases upto,
{
    if upto > 0 {
        lemma_arranged_stable(tracks, id, upto - 1);
        lemma_arranged(tracks, upto - 1);
        let before = arranged(tracks, upto - 1);
        let x = tracks[upto - 1];
        lemma_insert_pos(before, x.id, 0);
        lemma_lane_tracks_insert(before, insert_pos(before, x.id, 0), x, id, upto);
    }
}

/// The arranged tracks are the given tracks in another order: each track
/// is among them as often as among the tracks given.
pub proof fn lemma_arranged_permutation(tracks: Seq<Track>, upto: int)
    requires
        0 <= upto <= tracks.len(),
    ensures
        arranged(tracks, upto).to_multiset() == tracks.take(upto).to_multiset(),
    decreases upto,
{
    if upto > 0 {
        lemma_arranged_permutation(tracks, upto - 1);
        lemma_arranged(tracks, upto - 1);
        let before = arranged(tracks, upto - 1);
        let x = tracks[upto - 1];
        lemma_insert_pos(before, x.id, 0);
        vstd::seq_lib::to_multiset_insert(before, insert_pos(before, x.id, 0), x);
        vstd::seq_lib::to_multiset_build(tracks.take(upto - 1), x);
        assert(tracks.take(upto) =~= tracks.take(upto - 1).push(x));
    } else {
        assert(tracks.take(0) =~= Seq::<Track>::empty());
    }
}

/// Number of notes in the first `upto` tracks.
pub open spec fn chart_notes_upto(tracks: Seq<Track>, upto: int) -> int
    decreases upto,
{
    if upto <= 0 {
        0
    } else {
        chart_notes_upto(tracks, upto - 1) + tracks[upto - 1].notes@.len()
    }
}

/// More tracks hold no fewer notes.
pub proof fn lemma_chart_notes_monotone(tracks: Seq<Track>, fewer: int, more: int)
    requires
        0 <= fewer <= more <= tracks.len(),
    ensures
        0 <= chart_notes_upto(tracks, fewer) <= chart_notes_upto(tracks, more),
    decreases more,
{
    if fewer < more {
        lemma_chart_notes_monotone(tracks, fewer, more - 1);
    } else if more > 0 {
        lemma_chart_notes_monotone(tracks, fewer - 1, more - 1);
    }
}

/// A track put among others adds its notes to theirs.
pub proof fn lemma_insert_notes(tracks: Seq<Track>, at: int, track: Track, upto: int)
    requires
        0 <= at <= tracks.len(),
        0 <= upto <= tracks.len() + 1,
    ensures
        chart_notes_upto(tracks.insert(at, track), upto) == if upto <= at {
            chart_notes_upto(tracks, upto)
        } else {
            chart_notes_upto(tracks, upto - 1) + track.notes@.len()
        },
    decreases upto,
{
    if upto > 0 {
        lemma_insert_notes(tracks, at, track, upto - 1);
        let after = tracks.insert(at, track);
        if upto - 1 < at {
            assert(after[upto - 1] == tracks[upto - 1]);
        } else if upto - 1 > at {
            assert(after[upto - 1] == tracks[upto - 2]);
        }
    }
}

/// Arranged tracks hold the notes of the tracks given.
pub proof fn lemma_arranged_notes(tracks: Seq<Track>, upto: int)
    requires
        0 <= upto <= tracks.len(),
    ensures
        chart_notes_upto(arranged(tracks, upto), upto) == chart_notes_upto(tracks, upto),
    decreases upto,
{
    if upto > 0 {
        lemma_arranged_notes(tracks, upto - 1);
        lemma_arranged(tracks, upto - 1);
        let before = arranged(tracks, upto - 1);
        lemma_insert_pos(before, tracks[upto - 1].id, 0);
        lemma_insert_notes(before, insert_pos(before, tracks[upto - 1].id, 0), tracks[upto - 1], upto);
    }
}

/// Puts tracks in ascending order of lane, tracks of one lane in the
/// order given.
pub fn arrange_tracks(tracks: Vec<Track>) -> (sorted: Vec<Track>)
    ensures
        sorted@ == arranged(tracks@, tracks@.len() as int),
{
    let ghost given = tracks@;
    let mut sorted: Vec<Track> = Vec::new();
    for track in it: tracks
        invariant
            it.seq() == given,
            sorted@ == arranged(given, it.index() as int),
    {
        proof {
            lemma_arranged(given, it.index() as int);
        }
        let n = sorted.len();
        let mut p: usize = 0;
        while p < n && sorted[p].id <= track.id
            invariant
                n == sorted@.len(),
                0 <= p <= n,
                insert_pos(sorted@, track.id, 0) == insert_pos(sorted@, track.id, p as int),
            decreases n - p,
        {
            p += 1;
        }
        sorted.insert(p, track);
    }
    sorted
}

impl Chart {
    /// The tempo map and every track are valid.
    pub open spec fn wf(&self) -> bool {
        self.timing_map.wf() && forall|i: int|
            0 <= i < self.tracks@.len() ==> (#[trigger] self.tracks@[i]).wf()
    }

    /// Index of the first track that is not valid, or the number of tracks if
    /// all are.
    pub open spec fn first_bad_track(&self, from: int) -> int
        decreases self.tracks@.len() - from,
    {
        if from < self.tracks@.len() && self.tracks@[from].wf() {
            self.first_bad_track(from + 1)
        } else {
            from
        }
    }

    /// What [`Chart::check`] answers.
    pub open spec fn verdict(&self) -> Result<(), ChartError> {
        if self.timing_map.bpm_changes@.len() == 0 {
            Err(ChartError::NoBpmChange)
        } else if !self.timing_map.wf() {
            Err(ChartError::BadTiming)
        } else if self.first_bad_track(0) < self.tracks@.len() {
            Err(ChartError::BadTrack(self.first_bad_track(0) as usize))
        } else {
            Ok(())
        }
    }

    /// The search for a bad track ends at a bad track or past the last one,
    /// and every track before its end is valid.
    pub proof fn lemma_first_bad_track(&self, from: int)
        requires
            0 <= from <= self.tracks@.len(),
        ensures
            from <= self.first_bad_track(from) <= self.tracks@.len(),
            self.first_bad_track(from) < self.tracks@.len() ==> !self.tracks@[self.first_bad_track(
                from,
            )].wf(),
            forall|i: int| from <= i < self.first_bad_track(from) ==> (#[trigger] self.tracks@[i]).wf(),
        decreases self.tracks@.len() - from,
    {
        if from < self.tracks@.len() && self.tracks@[from].wf() {
            self.lemma_first_bad_track(from + 1);
        }
    }

    /// A chart is accepted exactly when it is valid.
    pub proof fn lemma_verdict_ok(&self)
        ensures
            self.verdict() is Ok <==> self.wf(),
    {
        self.lemma_first_bad_track(0);
    }

    /// Accepts a valid chart; otherwise names the first thing that is wrong:
    /// an empty tempo map, an invalid tempo map, or the first invalid track.
    pub fn check(&self) -> (r: Result<(), ChartError>)
        ensures
            r == self.verdict(),
            r is Ok <==> self.wf(),
    {
        proof {
            self.lemma_verdict_ok();
        }
        if self.timing_map.bpm_changes.len() == 0 {
            return Err(ChartError::NoBpmChange);
        }
        if !self.timing_map.is_valid() {
            return Err(ChartError::BadTiming);
        }
        let n = self.tracks.len();
        let mut i: usize = 0;
        while i < n
            invariant
                n == self.tracks@.len(),
                0 <= i <= n,
                self.timing_map.wf(),
                self.first_bad_track(0) == self.first_bad_track(i as int),
            decreases n - i,
        {
            if !self.tracks[i].is_valid() {
                assert(self.first_bad_track(i as int) == i);
                return Err(ChartError::BadTrack(i));
            }
            i += 1;
        }
        Ok(())
    }
}

} // verus!
