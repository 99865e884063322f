//! Conversion of Malody key charts.
//!
//! A Malody beat is a whole number of beats plus a fraction; a note
//! without a column is background audio and carries the offset of the song.

use vstd::prelude::*;
use crate::chart::{Chart, ChartMeta, Note, Track};
use crate::models::SongMeta;
use crate::timing::{Beat, BpmChange, Time, TimingMap};

verus! {

/// Tempo taken for a chart that names none (120 BPM).
pub const DEFAULT_BPM: u32 = 120_000;

/// Seconds added to the estimated length of a song.
pub const LENGTH_MARGIN: u64 = 2;

/// A note of a Malody chart.
#[derive(Clone, Debug)]
pub struct McNote {
    pub beat: [u32; 3],
    pub column: Option<u8>,
    pub endbeat: Option<[u32; 3]>,
    pub sound: Option<String>,
    pub offset: Option<i32>,
}

/// A tempo change of a Malody chart; the tempo in thousandths of a beat
/// per minute.
#[derive(Clone, Copy, Debug)]
pub struct McTime {
    pub beat: [u32; 3],
    pub bpm: u32,
}

/// What a conversion reads of a Malody chart.
#[derive(Clone, Debug)]
pub struct McChart {
    pub creator: String,
    pub title: String,
    pub artist: String,
    pub column: u32,
    pub time: Vec<McTime>,
    pub note: Vec<McNote>,
}

/// The character of a decimal digit.
pub open spec fn digit(d: nat) -> char {
    if d == 0 {
        '0'
    } else if d == 1 {
        '1'
    } else if d == 2 {
        '2'
    } else if d == 3 {
        '3'
    } else if d == 4 {
        '4'
    } else if d == 5 {
        '5'
    } else if d == 6 {
        '6'
    } else if d == 7 {
        '7'
    } else if d == 8 {
        '8'
    } else {
        '9'
    }
}

/// A number written in decimal, without leading zeros.
pub open spec fn decimal(n: nat) -> Seq<char>
    decreases n,
{
    if n < 10 {
        seq![digit(n)]
    } else {
        decimal(n / 10).push(digit(n % 10))
    }
}

/// The description of a converted chart with `columns` columns: the number
/// of columns in decimal, followed by "K - Converted from Malody".
pub open spec fn converted_desc(columns: nat) -> Seq<char> {
    decimal(columns) + "K - Converted from Malody"@
}

/// Formats the description of a converted chart with `std::format!`.
/// Trusted: that the formatted text is the number of columns as `Display`
/// writes a `usize`, in decimal without sign or leading zeros, followed by
/// the fixed words.
#[verifier::external_body]
fn describe(column_count: usize) -> (r: String)
    ensures
        r@ == converted_desc(column_count as nat),
{
    format!("{}K - Converted from Malody", column_count)
}

/// The position of a Malody beat in beat units: the whole beats plus the
/// fraction, rounded down.
pub open spec fn beat_value(b: [u32; 3]) -> int {
    b[0] * 1_000_000_000 + b[1] * 1_000_000_000 / (b[2] as int)
}

/// The note that a Malody note becomes: a hold if it has an end, else a tap.
pub open spec fn converted_note(n: McNote) -> Note {
    match n.endbeat {
        Some(eb) => Note::Hold {
            start: Beat(beat_value(n.beat) as i64),
            end: Beat(beat_value(eb) as i64),
        },
        None => Note::Tap { beat: Beat(beat_value(n.beat) as i64) },
    }
}

/// Whether a Malody note is a note of column `col` among `columns` columns.
pub open spec fn in_column(n: McNote, col: int, columns: int) -> bool {
    n.column matches Some(c) && c == col && col < columns
}

/// Where a note pressed at `beat` goes among notes in ascending order:
/// before the first note from `from` on that is pressed later, or at the end.
pub open spec fn note_pos(notes: Seq<Note>, beat: int, from: int) -> int
    decreases notes.len() - from,
{
    if from < notes.len() && notes[from].judged_beat().0 <= beat {
        note_pos(notes, beat, from + 1)
    } else {
        from
    }
}

/// The notes of column `col` among the first `upto` Malody notes, in
/// ascending order of the beat at which they are pressed, notes of one
/// beat in the order they had: each in turn goes behind the notes pressed
/// at its own and at earlier beats. That this is the stable sort of the
/// notes of the column is stated by [`lemma_track_notes`].
pub open spec fn track_notes(notes: Seq<McNote>, col: int, columns: int, upto: int) -> Seq<Note>
    decreases upto,
{
    if upto <= 0 {
        Seq::empty()
    } else {
        let before = track_notes(notes, col, columns, upto - 1);
        if in_column(notes[upto - 1], col, columns) {
            let x = converted_note(notes[upto - 1]);
            before.insert(note_pos(before, x.judged_beat().0 as int, 0), x)
        } else {
            before
        }
    }
}

/// The notes of column `col` among the first `upto` Malody notes, in the
/// order given.
pub open spec fn column_notes(notes: Seq<McNote>, col: int, columns: int, upto: int) -> Seq<Note>
    decreases upto,
{
    if upto <= 0 {
        Seq::empty()
    } else if in_column(notes[upto - 1], col, columns) {
        column_notes(notes, col, columns, upto - 1).push(converted_note(notes[upto - 1]))
    } else {
        column_notes(notes, col, columns, upto - 1)
    }
}

/// The beats at which the notes are pressed ascend.
pub open spec fn beats_ascend(notes: Seq<Note>) -> bool {
    forall|a: int, b: int|
        0 <= a < b < notes.len() ==> notes[a].judged_beat().0 <= notes[b].judged_beat().0
}

/// The notes pressed at `beat` among the first `upto` notes, in their order.
pub open spec fn beat_notes(notes: Seq<Note>, beat: int, upto: int) -> Seq<Note>
    decreases upto,
{
    if upto <= 0 {
        Seq::empty()
    } else if notes[upto - 1].judged_beat().0 == beat {
        beat_notes(notes, beat, upto - 1).push(notes[upto - 1])
    } else {
        beat_notes(notes, beat, upto - 1)
    }
}

/// The place found lies within the notes; among ascending notes every note
/// before it is pressed at `beat` or earlier, and every note from it on later.
pub proof fn lemma_note_pos(notes: Seq<Note>, beat: int, from: int)
    requires
        0 <= from <= notes.len(),
        beats_ascend(notes),
        forall|k: int| 0 <= k < from ==> (#[trigger] notes[k]).judged_beat().0 <= beat,
    ensures
        from <= note_pos(notes, beat, from) <= notes.len(),
        forall|k: int|
            0 <= k < note_pos(notes, beat, from) ==> (#[trigger] notes[k]).judged_beat().0 <= beat,
        forall|k: int|
            note_pos(notes, beat, from) <= k < notes.len() ==> (#[trigger] notes[k]).judged_beat().0
                > beat,
    decreases notes.len() - from,
{
    if from < notes.len() && notes[from].judged_beat().0 <= beat {
        lemma_note_pos(notes, beat, from + 1);
    } else if from < notes.len() {
        assert forall|k: int| from <= k < notes.len() implies (#[trigger] notes[k]).judged_beat().0
            > beat by {
            if k > from {
                assert(notes[from].judged_beat().0 <= notes[k].judged_beat().0);
            }
        }
    }
}

/// Notes that agree in their first `upto` places hold the same notes of a
/// beat there.
pub proof fn lemma_beat_notes_agree(a: Seq<Note>, b: Seq<Note>, beat: int, upto: int)
    requires
        0 <= upto <= a.len(),
        upto <= b.len(),
        forall|k: int| 0 <= k < upto ==> a[k] == b[k],
    ensures
        beat_notes(a, beat, upto) == beat_notes(b, beat, upto),
    decreases upto,
{
    if upto > 0 {
        lemma_beat_notes_agree(a, b, beat, upto - 1);
    }
}

/// A note put in front of notes of other beats only: it comes last among
/// the notes of its own beat before it, and the notes of every other beat
/// stay as they were.
pub proof fn lemma_beat_notes_insert(notes: Seq<Note>, at: int, x: Note, beat: int, upto: int)
    requires
        0 <= at <= notes.len(),
        at < upto <= notes.len() + 1,
        forall|k: int|
            at <= k < notes.len() ==> (#[trigger] notes[k]).judged_beat().0 != x.judged_beat().0,
    ensures
        beat_notes(notes.insert(at, x), beat, upto) == if x.judged_beat().0 == beat {
            beat_notes(notes, beat, upto - 1).push(x)
        } else {
            beat_notes(notes, beat, upto - 1)
        },
    decreases upto,
{
    let after = notes.insert(at, x);
    if upto == at + 1 {
        assert(after[at] == x);
        lemma_beat_notes_agree(after, notes, beat, at);
    } else {
        lemma_beat_notes_insert(notes, at, x, beat, upto - 1);
        assert(after[upto - 1] == notes[upto - 2]);
        assert(notes[upto - 2].judged_beat().0 != x.judged_beat().0);
    }
}

/// The notes of a track are the notes of its column, stably sorted: they
/// are as many, their beats ascend, each note is among them as often as
/// among the notes of the column, and the notes of any one beat stand in
/// the order given.
pub proof fn lemma_track_notes(notes: Seq<McNote>, col: int, columns: int, beat: int, upto: int)
    requires
        0 <= upto <= notes.len(),
    ensures
        track_notes(notes, col, columns, upto).len() == column_notes(notes, col, columns, upto).len(),
        beats_ascend(track_notes(notes, col, columns, upto)),
        track_notes(notes, col, columns, upto).to_multiset() == column_notes(
            notes,
            col,
            columns,
            upto,
        ).to_multiset(),
        beat_notes(
            track_notes(notes, col, columns, upto),
            beat,
            track_notes(notes, col, columns, upto).len() as int,
        ) == beat_notes(
            column_notes(notes, col, columns, upto),
            beat,
            column_notes(notes, col, columns, upto).len() as int,
        ),
    decreases upto,
{
    if upto > 0 {
        lemma_track_notes(notes, col, columns, beat, upto - 1);
        if in_column(notes[upto - 1], col, columns) {
            let before = track_notes(notes, col, columns, upto - 1);
            let given = column_notes(notes, col, columns, upto - 1);
            let x = converted_note(notes[upto - 1]);
            let key = x.judged_beat().0 as int;
            lemma_note_pos(before, key, 0);
            let p = note_pos(before, key, 0);
            let after = before.insert(p, x);
            assert forall|a: int, b: int| 0 <= a < b < after.len() implies after[a].judged_beat().0
                <= after[b].judged_beat().0 by {
                if a < p {
                    assert(after[a] == before[a]);
                } else if a > p {
                    assert(after[a] == before[a - 1]);
                }
                if b < p {
                    assert(after[b] == before[b]);
                } else if b > p {
                    assert(after[b] == before[b - 1]);
                }
            }
            vstd::seq_lib::to_multiset_insert(before, p, x);
            vstd::seq_lib::to_multiset_build(given, x);
            lemma_beat_notes_insert(before, p, x, beat, after.len() as int);
            lemma_beat_notes_agree(given.push(x), given, beat, given.len() as int);
        }
    }
}

/// The offset of the song in milliseconds: that of the first note from
/// `from` on that has a sound and an offset, or zero.
pub open spec fn global_offset(notes: Seq<McNote>, from: int) -> int
    decreases notes.len() - from,
{
    if from >= notes.len() {
        0
    } else if notes[from].sound is Some && notes[from].offset is Some {
        notes[from].offset->Some_0 as int
    } else {
        global_offset(notes, from + 1)
    }
}

/// The greater of two numbers.
pub open spec fn larger(a: int, b: int) -> int {
    if a >= b {
        a
    } else {
        b
    }
}

/// The last beat, in beat units, that any of the first `upto` Malody notes
/// with a column among `columns` begins or ends at; zero if there is none.
pub open spec fn last_beat(notes: Seq<McNote>, columns: int, upto: int) -> int
    decreases upto,
{
    if upto <= 0 {
        0
    } else {
        let before = last_beat(notes, columns, upto - 1);
        let n = notes[upto - 1];
        if n.column is Some && n.column->Some_0 < columns {
            match n.endbeat {
                Some(eb) => larger(larger(before, beat_value(n.beat)), beat_value(eb)),
                None => larger(before, beat_value(n.beat)),
            }
        } else {
            before
        }
    }
}

/// The tempo of the song: that of the first tempo change, or 120 BPM.
pub open spec fn first_bpm(time: Seq<McTime>) -> u32 {
    if time.len() > 0 {
        time[0].bpm
    } else {
        DEFAULT_BPM
    }
}

/// The estimated length of the song in seconds: the time that the last
/// beat takes at the song's tempo, rounded down, and two seconds more.
pub open spec fn estimated_secs(last: int, bpm: int) -> int {
    last * 6 / (100_000 * bpm) + 2
}

impl McNote {
    /// No fraction of the note has a zero denominator.
    pub open spec fn wf(&self) -> bool {
        self.beat[2] != 0 && (self.endbeat matches Some(eb) ==> eb[2] != 0)
    }

    /// Decides [`McNote::wf`].
    pub fn is_valid(&self) -> (r: bool)
        ensures
            r == self.wf(),
    {
        if self.beat[2] == 0 {
            return false;
        }
        match self.endbeat {
            Some(eb) => eb[2] != 0,
            None => true,
        }
    }
}

impl McChart {
    /// Nothing that the conversion divides by is zero: the denominators of
    /// the notes that have one of the chart's columns, the denominators of
    /// the tempo changes, and the first tempo.
    pub open spec fn wf(&self) -> bool {
        &&& forall|i: int|
            0 <= i < self.note@.len() && (#[trigger] self.note@[i]).column is Some
                && self.note@[i].column->Some_0 < self.column ==> self.note@[i].wf()
        &&& forall|i: int| 0 <= i < self.time@.len() ==> (#[trigger] self.time@[i]).beat[2] != 0
        &&& self.time@.len() > 0 ==> self.time@[0].bpm != 0
    }

    /// Decides [`McChart::wf`].
    pub fn is_valid(&self) -> (r: bool)
        ensures
            r == self.wf(),
    {
        let n = self.note.len();
        let mut i: usize = 0;
        while i < n
            invariant
                n == self.note@.len(),
                0 <= i <= n,
                forall|k: int|
                    0 <= k < i && (#[trigger] self.note@[k]).column is Some
                        && self.note@[k].column->Some_0 < self.column ==> self.note@[k].wf(),
            decreases n - i,
        {
            if let Some(c) = self.note[i].column {
                if (c as u32) < self.column && !self.note[i].is_valid() {
                    return false;
                }
            }
            i += 1;
        }
        let m = self.time.len();
        let mut j: usize = 0;
        while j < m
            invariant
                m == self.time@.len(),
                0 <= j <= m,
                forall|k: int|
                    0 <= k < self.note@.len() && (#[trigger] self.note@[k]).column is Some
                        && self.note@[k].column->Some_0 < self.column ==> self.note@[k].wf(),
                forall|k: int| 0 <= k < j ==> (#[trigger] self.time@[k]).beat[2] != 0,
            decreases m - j,
        {
            if self.time[j].beat[2] == 0 {
                return false;
            }
            j += 1;
        }
        if m > 0 && self.time[0].bpm == 0 {
            return false;
        }
        true
    }
}

/// The position of a Malody beat.
pub fn mc_beat(b: [u32; 3]) -> (r: Beat)
    requires
        b[2] != 0,
    ensures
        r.0 == beat_value(b),
        0 <= r.0 <= 8_589_934_590_000_000_000,
{
    let whole: u64 = (b[0] as u64) * 1_000_000_000;
    let part: u64 = (b[1] as u64) * 1_000_000_000 / (b[2] as u64);
    proof {
        let x = b[1] * 1_000_000_000;
        crate::timing::lemma_floor_bounds(x, b[2] as int);
        let q = x / (b[2] as int);
        assert(0 <= q <= x) by (nonlinear_arith)
            requires
                q * b[2] <= x,
                x < q * b[2] + b[2],
                b[2] >= 1,
                x >= 0,
        ;
    }
    Beat((whole + part) as i64)
}

/// Converts one Malody note.
fn convert_note(n: &McNote) -> (r: Note)
    requires
        n.wf(),
    ensures
        r == converted_note(*n),
{
    let start = mc_beat(n.beat);
    match n.endbeat {
        Some(eb) => Note::Hold { start, end: mc_beat(eb) },
        None => Note::Tap { beat: start },
    }
}

/// Puts a note among the notes of a track, behind the notes pressed at its
/// own and at earlier beats.
fn place_note(notes: &mut Vec<Note>, x: Note)
    ensures
        final(notes)@ == old(notes)@.insert(
            note_pos(old(notes)@, x.judged_beat().0 as int, 0),
            x,
        ),
{
    let key = x.beat().0;
    let n = notes.len();
    let mut p: usize = 0;
    while p < n && notes[p].beat().0 <= key
        invariant
            n == notes@.len(),
            0 <= p <= n,
            notes@ == old(notes)@,
            note_pos(notes@, key as int, 0) == note_pos(notes@, key as int, p as int),
        decreases n - p,
    {
        p += 1;
    }
    notes.insert(p, x);
}

/// The offset of the song in milliseconds.
fn find_global_offset(notes: &Vec<McNote>) -> (r: i32)
    ensures
        r == global_offset(notes@, 0),
{
    let n = notes.len();
    let mut i: usize = 0;
    while i < n
        invariant
            n == notes@.len(),
            0 <= i <= n,
            global_offset(notes@, 0) == global_offset(notes@, i as int),
        decreases n - i,
    {
        if notes[i].sound.is_some() {
            if let Some(off) = notes[i].offset {
                return off;
            }
        }
        i += 1;
    }
    0
}

/// Converts a Malody chart: its tempo changes become the tempo map, with
/// the offset of the song; each of its columns becomes a track, numbered
/// from zero, that holds the notes of the column in ascending order; notes
/// without a column, or with a column that the chart does not have, are
/// left out. With the chart comes what is known of the song.
pub fn convert_mc_to_custom(mc: McChart) -> (r: (Chart, SongMeta))
    requires
        mc.wf(),
    ensures
        r.0.meta.charter == mc.creator,
        r.0.meta.level == 0,
        r.0.meta.desc@ == converted_desc(mc.column as nat),
        r.0.timing_map.offset.0 == global_offset(mc.note@, 0) * 1_000_000_000,
        r.0.timing_map.bpm_changes@.len() == mc.time@.len(),
        forall|i: int|
            0 <= i < mc.time@.len() ==> (#[trigger] r.0.timing_map.bpm_changes@[i]) == (BpmChange {
                beat: Beat(beat_value(mc.time@[i].beat) as i64),
                bpm: mc.time@[i].bpm,
            }),
        r.0.tracks@.len() == mc.column,
        forall|c: int|
            0 <= c < mc.column ==> (#[trigger] r.0.tracks@[c]).id == (c % 256) as u8
                && r.0.tracks@[c].notes@ == track_notes(
                mc.note@,
                c,
                mc.column as int,
                mc.note@.len() as int,
            ),
        r.1.title == mc.title,
        r.1.artist == mc.artist,
        r.1.bpm == first_bpm(mc.time@),
        r.1.length == estimated_secs(
            last_beat(mc.note@, mc.column as int, mc.note@.len() as int),
            first_bpm(mc.time@) as int,
        ),
{
    let global_offset_ms = find_global_offset(&mc.note);

    let mut bpm_changes: Vec<BpmChange> = Vec::new();
    let m = mc.time.len();
    let mut t: usize = 0;
    while t < m
        invariant
            mc.wf(),
            m == mc.time@.len(),
            0 <= t <= m,
            bpm_changes@.len() == t,
            forall|i: int|
                0 <= i < t ==> (#[trigger] bpm_changes@[i]) == (BpmChange {
                    beat: Beat(beat_value(mc.time@[i].beat) as i64),
                    bpm: mc.time@[i].bpm,
                }),
        decreases m - t,
    {
        assert(mc.time@[t as int].beat[2] != 0);
        bpm_changes.push(BpmChange { beat: mc_beat(mc.time[t].beat), bpm: mc.time[t].bpm });
        t += 1;
    }

    let column_count = mc.column as usize;
    let mut tracks: Vec<Track> = Vec::new();
    let mut c: usize = 0;
    while c < column_count
        invariant
            0 <= c <= column_count,
            tracks@.len() == c,
            forall|k: int|
                0 <= k < c ==> (#[trigger] tracks@[k]).id == (k % 256) as u8 && tracks@[k].notes@
                    == Seq::<Note>::empty(),
        decreases column_count - c,
    {
        tracks.push(Track { id: (c % 256) as u8, notes: Vec::new() });
        c += 1;
    }

    let mut last: u64 = 0;
    let n = mc.note.len();
    let mut i: usize = 0;
    while i < n
        invariant
            mc.wf(),
            n == mc.note@.len(),
            column_count == mc.column,
            0 <= i <= n,
            tracks@.len() == column_count,
            forall|k: int|
                0 <= k < column_count ==> (#[trigger] tracks@[k]).id == (k % 256) as u8
                    && tracks@[k].notes@ == track_notes(mc.note@, k, column_count as int, i as int),
            last == last_beat(mc.note@, column_count as int, i as int),
            last <= 8_589_934_590_000_000_000,
        decreases n - i,
    {
        let note = &mc.note[i];
        if let Some(col_id) = note.column {
            let col = col_id as usize;
            if col < column_count {
                assert(mc.note@[i as int].wf());
                let x = convert_note(note);
                let start = mc_beat(note.beat);
                if start.0 as u64 > last {
                    last = start.0 as u64;
                }
                if let Some(eb) = note.endbeat {
                    let end = mc_beat(eb);
                    if end.0 as u64 > last {
                        last = end.0 as u64;
                    }
                }
                let ghost before = tracks@;
                place_note(&mut tracks[col].notes, x);
                assert(forall|k: int| 0 <= k < column_count && k != col ==> tracks@[k] == before[k]);
                assert(tracks@[col as int].id == before[col as int].id);
            }
        }
        i += 1;
    }

    let chart = Chart {
        meta: ChartMeta { charter: mc.creator.clone(), level: 0, desc: describe(column_count) },
        timing_map: TimingMap {
            offset: Time((global_offset_ms as i64) * 1_000_000_000),
            bpm_changes,
        },
        tracks,
    };

    let bpm: u32 = if mc.time.len() > 0 { mc.time[0].bpm } else { DEFAULT_BPM };
    assert(bpm != 0) by {
        if mc.time@.len() > 0 {
            assert(mc.time@[0].bpm != 0);
        }
    }
    proof {
        let n = last * 6;
        let d = 100_000 * bpm;
        crate::timing::lemma_floor_bounds(n, d);
        let q = n / d;
        assert(0 <= q <= n) by (nonlinear_arith)
            requires
                q * d <= n,
                n < q * d + d,
                d >= 1,
                n >= 0,
        ;
        assert(q * 100_000 <= n) by (nonlinear_arith)
            requires
                q * d <= n,
                q >= 0,
                d >= 100_000,
        ;
    }
    let secs: u64 = ((last as u128) * 6 / (100_000 * (bpm as u128))) as u64 + LENGTH_MARGIN;
    let song_meta = SongMeta {
        title: mc.title.clone(),
        artist: mc.artist.clone(),
        length: secs,
        bpm,
    };
    (chart, song_meta)
}

} // verus!
