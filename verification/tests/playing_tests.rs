use mug_tui::asset::{AssetLocation, SongAsset};
use mug_tui::chart::{Chart, ChartMeta, Note, Track};
use mug_tui::judge::{JudgeCore, JudgeResult, JudgeWindow, NoteState};
use mug_tui::playing::{KeyInput, PlayingPhase, PlayingState};
use mug_tui::states::StateAction;
use mug_tui::rank::Rank;
use mug_tui::timing::{Beat, BpmChange, Time, TimingMap};

fn ms(n: i64) -> Time {
    Time(n * 1_000_000_000)
}

fn beat(n: i64) -> Beat {
    Beat(n * 1_000_000)
}

fn windows() -> JudgeCore {
    JudgeCore::new(JudgeWindow { perfect: ms(30), good: ms(80) }, ms(8))
}

fn chart(tracks: Vec<Track>) -> Chart {
    Chart {
        meta: ChartMeta { charter: String::from("c"), level: 1, desc: String::new() },
        timing_map: TimingMap {
            offset: ms(0),
            bpm_changes: vec![BpmChange { beat: beat(0), bpm: 60_000 }],
        },
        tracks,
    }
}

fn four_taps() -> Chart {
    chart(vec![
        Track { id: 0, notes: vec![Note::Tap { beat: beat(1000) }, Note::Tap { beat: beat(2000) }] },
        Track { id: 1, notes: vec![Note::Tap { beat: beat(1000) }, Note::Tap { beat: beat(3000) }] },
    ])
}

fn playing(c: Chart, autoplay: bool) -> PlayingState {
    let mut s = PlayingState::new(c, windows(), ms(2000), autoplay, &vec![0, 1]);
    assert_eq!(s.handle_input(KeyInput::Confirm(None), true), StateAction::StartAudio);
    assert_eq!(s.phase, PlayingPhase::Playing);
    assert_eq!(s.current_time(), ms(0));
    s
}

#[test]
fn new_session_counts_down() {
    let s = PlayingState::new(four_taps(), windows(), ms(2000), false, &vec![0, 1]);
    assert_eq!(s.phase, PlayingPhase::Ready);
    assert_eq!(s.current_time(), ms(-2000));
    assert_eq!(s.max_theoretical_score, 4000);
    assert_eq!((s.score, s.combo, s.max_combo), (0, 0, 0));
    assert_eq!((s.perfect_count, s.good_count, s.miss_count), (0, 0, 0));
    assert_eq!(s.key_pressed.len(), 2);
    assert_eq!(s.key_pressed.get(&0), Some(&false));
    assert_eq!(s.key_pressed.get(&1), Some(&false));
    assert_eq!(s.key_pressed.get(&2), None);
    assert_eq!(s.manager.judges.len(), 2);
    assert_eq!(s.remaining_notes(), 4);
    assert!(!s.is_paused());
}

#[test]
fn countdown_ends_at_the_threshold() {
    let mut s = PlayingState::new(four_taps(), windows(), ms(2000), false, &vec![0, 1]);
    assert_eq!(s.tick(1_000_000_000_000, 800, false), StateAction::Idle);
    assert_eq!(s.current_time(), ms(-1000));
    assert_eq!(s.phase, PlayingPhase::Ready);
    assert_eq!(s.tick(1_799_999_999_999, 800, false), StateAction::Idle);
    assert_eq!(s.current_time(), Time(799_999_999_999));
    // The clock is set to the threshold, not to where the frame took it.
    assert_eq!(s.tick(500_000_000_000, 800, false), StateAction::StartAudio);
    assert_eq!(s.current_time(), ms(800));
    assert_eq!(s.phase, PlayingPhase::Playing);
}

#[test]
fn countdown_survives_a_huge_frame() {
    let mut s = PlayingState::new(four_taps(), windows(), ms(2000), false, &vec![0, 1]);
    assert_eq!(s.tick(u64::MAX, -5, false), StateAction::StartAudio);
    assert_eq!(s.current_time(), ms(-5));
}

#[test]
fn clock_follows_the_audio_only_during_play() {
    let mut s = PlayingState::new(four_taps(), windows(), ms(2000), false, &vec![0, 1]);
    s.sync_audio_time(ms(500), 800);
    assert_eq!(s.current_time(), ms(-2000));
    s.handle_input(KeyInput::Confirm(None), true);
    s.sync_audio_time(ms(500), 800);
    assert_eq!(s.current_time(), ms(1300));
    s.sync_audio_time(ms(100), -300);
    assert_eq!(s.current_time(), ms(-200));
    s.toggle_pause();
    assert!(s.is_paused());
    s.sync_audio_time(ms(9000), 800);
    assert_eq!(s.current_time(), ms(-200));
    // A paused session stands still.
    assert_eq!(s.tick(1_000_000_000_000, 800, true), StateAction::Idle);
    assert_eq!(s.current_time(), ms(-200));
    assert_eq!(s.remaining_notes(), 4);
    s.toggle_pause();
    assert_eq!(s.phase, PlayingPhase::Playing);
}

#[test]
fn play_does_not_integrate_frame_time() {
    let mut s = playing(four_taps(), false);
    assert_eq!(s.tick(5_000_000_000_000, 800, false), StateAction::Idle);
    assert_eq!(s.current_time(), ms(0));
    assert_eq!(s.remaining_notes(), 4);
}

#[test]
fn toggle_pause_leaves_other_phases() {
    let mut s = PlayingState::new(four_taps(), windows(), ms(2000), false, &vec![0, 1]);
    s.toggle_pause();
    assert_eq!(s.phase, PlayingPhase::Ready);
}

#[test]
fn keys_score_and_debounce() {
    let mut s = playing(four_taps(), false);
    s.sync_audio_time(ms(1000), 0);
    assert_eq!(s.handle_input(KeyInput::Char(Some(0)), true), StateAction::Idle);
    assert_eq!((s.score, s.combo, s.perfect_count), (1000, 1, 1));
    assert_eq!(s.key_pressed.get(&0), Some(&true));
    // The key is still down: a second press is not a press.
    s.sync_audio_time(ms(1950), 0);
    s.handle_input(KeyInput::Char(Some(0)), true);
    assert_eq!(s.score, 1000);
    assert_eq!(s.manager.judges[0].cursor, 1);
    s.handle_input(KeyInput::Char(Some(0)), false);
    assert_eq!(s.key_pressed.get(&0), Some(&false));
    s.handle_input(KeyInput::Char(Some(0)), true);
    assert_eq!((s.score, s.combo, s.max_combo), (1500, 2, 2));
    assert_eq!((s.perfect_count, s.good_count, s.miss_count), (1, 1, 0));
    // Lane 1 was left alone: its first tap is missed on the next frame.
    assert_eq!(s.tick(0, 0, false), StateAction::Idle);
    assert_eq!((s.combo, s.max_combo, s.miss_count), (0, 2, 1));
    assert_eq!(s.remaining_notes(), 1);
    assert_eq!(s.get_accuracy_pct(), 37_875);
    assert_eq!(s.get_potential_accuracy_pct(), 63_125);
    assert_eq!(s.get_rank(), Rank::D);
    assert_eq!(s.get_potential_rank(), Rank::B);
}

#[test]
fn keys_of_unknown_lanes_and_other_keys_do_nothing() {
    let mut s = playing(four_taps(), false);
    s.sync_audio_time(ms(1000), 0);
    assert_eq!(s.handle_input(KeyInput::Char(Some(9)), true), StateAction::Idle);
    assert_eq!(s.key_pressed.get(&9), Some(&true));
    assert_eq!(s.handle_input(KeyInput::Char(None), true), StateAction::Idle);
    assert_eq!(s.handle_input(KeyInput::Other, true), StateAction::Idle);
    assert_eq!(s.handle_input(KeyInput::Confirm(None), true), StateAction::Idle);
    assert_eq!(s.score, 0);
    assert_eq!(s.remaining_notes(), 4);
    // During play the space bar is a lane key like any other.
    assert_eq!(s.handle_input(KeyInput::Confirm(Some(1)), true), StateAction::Idle);
    assert_eq!(s.score, 1000);
}

#[test]
fn leaving_and_confirming() {
    let mut s = PlayingState::new(four_taps(), windows(), ms(2000), false, &vec![0, 1]);
    assert_eq!(s.handle_input(KeyInput::Quit, false), StateAction::Idle);
    assert_eq!(s.handle_input(KeyInput::Quit, true), StateAction::GoToCollection);
    assert_eq!(s.handle_input(KeyInput::Confirm(Some(0)), false), StateAction::Idle);
    assert_eq!(s.phase, PlayingPhase::Ready);
    assert_eq!(s.handle_input(KeyInput::Confirm(Some(0)), true), StateAction::StartAudio);
    assert_eq!(s.phase, PlayingPhase::Playing);
    assert_eq!(s.current_time(), ms(0));
    assert_eq!(s.handle_input(KeyInput::Quit, true), StateAction::TogglePause);
    assert_eq!(s.phase, PlayingPhase::Playing);
    s.toggle_pause();
    assert_eq!(s.handle_input(KeyInput::Confirm(None), true), StateAction::TogglePause);
    assert_eq!(s.handle_input(KeyInput::Char(Some(0)), true), StateAction::Idle);
    assert_eq!(s.key_pressed.get(&0), Some(&false));
    assert_eq!(s.handle_input(KeyInput::Quit, true), StateAction::GoToCollection);
}

#[test]
fn lane_keys_count_during_the_countdown() {
    let c = chart(vec![Track { id: 0, notes: vec![Note::Tap { beat: beat(-1990) }] }]);
    let mut s = PlayingState::new(c, windows(), ms(2000), false, &vec![0, 1]);
    assert_eq!(s.handle_input(KeyInput::Char(Some(0)), true), StateAction::Idle);
    assert_eq!(s.score, 1000);
}

#[test]
fn finished_audio_ends_the_session() {
    let mut s = playing(four_taps(), false);
    s.sync_audio_time(ms(1000), 0);
    s.handle_input(KeyInput::Char(Some(0)), true);
    s.handle_input(KeyInput::Char(Some(1)), true);
    s.sync_audio_time(ms(2500), 0);
    // The second tap of lane 0 times out in this frame; the last tap is
    // still to come and is missed because the audio is over.
    let action = s.tick(0, 0, true);
    assert_eq!(action, StateAction::ShowResult { score: 2000, rank: Rank::C });
    assert_eq!(s.phase, PlayingPhase::Finished);
    assert_eq!((s.perfect_count, s.good_count, s.miss_count), (2, 0, 2));
    assert_eq!((s.combo, s.max_combo), (0, 2));
    assert_eq!(s.remaining_notes(), 0);
    assert_eq!(s.get_accuracy_pct(), 50_500);
    assert_eq!(s.manager.judges[1].states, vec![NoteState::Hit, NoteState::Missed]);
    // A finished session stands still.
    assert_eq!(s.tick(0, 0, true), StateAction::Idle);
    assert_eq!(s.handle_input(KeyInput::Quit, true), StateAction::Idle);
    assert_eq!(s.miss_count, 2);
}

#[test]
fn automatic_player_plays_everything() {
    let c = chart(vec![
        Track { id: 0, notes: vec![Note::Tap { beat: beat(1000) }] },
        Track { id: 1, notes: vec![Note::Hold { start: beat(1000), end: beat(2000) }] },
    ]);
    let mut s = playing(c, true);
    s.sync_audio_time(ms(999), 0);
    s.tick(0, 0, false);
    assert_eq!(s.score, 0);
    // Keys are ignored while the automatic player is on.
    s.handle_input(KeyInput::Char(Some(0)), true);
    assert_eq!(s.score, 0);
    assert_eq!(s.key_pressed.get(&0), Some(&false));
    s.sync_audio_time(ms(1001), 0);
    s.tick(0, 0, false);
    assert_eq!((s.score, s.perfect_count), (1000, 1));
    assert_eq!(
        s.manager.judges[1].states[0],
        NoteState::Holding(JudgeResult::Perfect(ms(1)))
    );
    s.sync_audio_time(ms(1500), 0);
    s.tick(0, 0, false);
    assert_eq!(s.score, 1000);
    // With less than the good window left the hold is hit and counted.
    s.sync_audio_time(ms(1950), 0);
    s.tick(0, 0, false);
    assert_eq!(s.score, 2000);
    s.sync_audio_time(ms(2000), 0);
    let action = s.tick(0, 0, true);
    assert_eq!(action, StateAction::ShowResult { score: 2000, rank: Rank::SSSP });
    assert_eq!(s.get_accuracy_pct(), 101_000);
    assert_eq!((s.perfect_count, s.combo, s.max_combo), (2, 2, 2));
}

#[test]
fn empty_chart_has_no_accuracy() {
    let mut s = playing(chart(vec![]), false);
    assert_eq!(s.get_accuracy_pct(), 0);
    assert_eq!(s.get_potential_accuracy_pct(), 101_000);
    assert_eq!(s.get_rank(), Rank::D);
    assert_eq!(s.get_potential_rank(), Rank::SSSP);
    assert_eq!(s.tick(0, 0, true), StateAction::ShowResult { score: 0, rank: Rank::D });
}

#[test]
fn rank_thresholds() {
    let table: [(u32, Rank); 14] = [
        (100_500, Rank::SSSP),
        (100_000, Rank::SSS),
        (99_500, Rank::SSP),
        (99_000, Rank::SS),
        (98_000, Rank::SP),
        (97_000, Rank::S),
        (94_000, Rank::AAA),
        (90_000, Rank::AA),
        (80_000, Rank::A),
        (75_000, Rank::BBB),
        (70_000, Rank::BB),
        (60_000, Rank::B),
        (50_000, Rank::C),
        (0, Rank::D),
    ];
    for i in 0..14 {
        let (p, r) = table[i];
        assert_eq!(Rank::from_percentage(p), r);
        if p > 0 {
            assert_eq!(Rank::from_percentage(p - 1), table[i + 1].1);
        }
    }
    assert_eq!(Rank::from_percentage(u32::MAX), Rank::SSSP);
}

#[test]
fn rank_labels() {
    let all = [
        (Rank::SSSP, "SSS+"),
        (Rank::SSS, "SSS"),
        (Rank::SSP, "SS+"),
        (Rank::SS, "SS"),
        (Rank::SP, "S+"),
        (Rank::S, "S"),
        (Rank::AAA, "AAA"),
        (Rank::AA, "AA"),
        (Rank::A, "A"),
        (Rank::BBB, "BBB"),
        (Rank::BB, "BB"),
        (Rank::B, "B"),
        (Rank::C, "C"),
        (Rank::D, "D"),
    ];
    for (r, s) in all {
        assert_eq!(r.label(), s);
    }
}

#[test]
fn local_asset_has_a_path() {
    let a = SongAsset { audio: AssetLocation::Local(String::from("songs/a/song.mp3")) };
    assert_eq!(a.audio.get_local_path(), Some(String::from("songs/a/song.mp3")));
}
