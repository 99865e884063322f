use mug_tui::chart::{Chart, ChartMeta, Note, Track};
use mug_tui::clock::AudioClock;
use mug_tui::judge::{JudgeCore, JudgeWindow};
use mug_tui::playing::PlayingState;
use mug_tui::states::{result_handle_input, CollectionState, MenuKey, StateAction, WelcomeState};
use mug_tui::timing::{Beat, BpmChange, Time, TimingMap};

#[test]
fn welcome_keys() {
    let mut w = WelcomeState;
    assert_eq!(w.handle_input(MenuKey::Quit), StateAction::Quit);
    assert_eq!(w.handle_input(MenuKey::Enter), StateAction::GoToCollection);
    assert_eq!(w.handle_input(MenuKey::Space), StateAction::GoToCollection);
    assert_eq!(w.handle_input(MenuKey::Up), StateAction::Idle);
    assert_eq!(w.handle_input(MenuKey::Other), StateAction::Idle);
}

#[test]
fn result_keys() {
    assert_eq!(result_handle_input(MenuKey::Quit), StateAction::GoToCollection);
    assert_eq!(result_handle_input(MenuKey::Enter), StateAction::Idle);
}

#[test]
fn collection_opens_on_the_first_song() {
    let c = CollectionState::new(3);
    assert_eq!(c.song_cursor, Some(0));
    assert_eq!(c.chart_cursor, 0);
    assert!(!c.is_selecting_chart);
    assert_eq!(CollectionState::new(0).song_cursor, None);
}

#[test]
fn collection_cursor_goes_round() {
    let mut c = CollectionState::new(3);
    c.move_up(3, 2);
    assert_eq!(c.song_cursor, Some(2));
    c.move_down(3, 2);
    assert_eq!(c.song_cursor, Some(0));
    c.move_down(3, 2);
    assert_eq!(c.song_cursor, Some(1));
    assert_eq!(c.handle_input(MenuKey::Up, 3, 2), StateAction::Idle);
    assert_eq!(c.song_cursor, Some(0));
    assert_eq!(c.chart_cursor, 0);
}

#[test]
fn collection_chooses_a_chart() {
    let mut c = CollectionState::new(3);
    c.handle_input(MenuKey::Down, 3, 2);
    // A song without charts cannot be entered.
    assert_eq!(c.handle_input(MenuKey::Enter, 3, 0), StateAction::Idle);
    assert!(!c.is_selecting_chart);
    assert_eq!(c.handle_input(MenuKey::Enter, 3, 2), StateAction::Idle);
    assert!(c.is_selecting_chart);
    assert_eq!(c.handle_input(MenuKey::Up, 3, 2), StateAction::Idle);
    assert_eq!((c.song_cursor, c.chart_cursor), (Some(1), 1));
    assert_eq!(c.handle_input(MenuKey::Down, 3, 2), StateAction::Idle);
    assert_eq!(c.chart_cursor, 0);
    assert_eq!(c.handle_input(MenuKey::Down, 3, 2), StateAction::Idle);
    assert_eq!(c.chart_cursor, 1);
    assert_eq!(
        c.handle_input(MenuKey::Enter, 3, 2),
        StateAction::GoToPlaying { song: 1, chart: 1 }
    );
    assert_eq!(c.handle_input(MenuKey::Quit, 3, 2), StateAction::Idle);
    assert!(!c.is_selecting_chart);
    assert_eq!(c.handle_input(MenuKey::Quit, 3, 2), StateAction::GotoWelcome);
    assert_eq!(c.handle_input(MenuKey::Space, 3, 2), StateAction::Idle);
}

#[test]
fn collection_without_songs_stands_still() {
    let mut c = CollectionState::new(0);
    assert_eq!(c.handle_input(MenuKey::Up, 0, 0), StateAction::Idle);
    assert_eq!(c.handle_input(MenuKey::Down, 0, 0), StateAction::Idle);
    assert_eq!(c.handle_input(MenuKey::Enter, 0, 0), StateAction::Idle);
    assert_eq!(c, CollectionState::new(0));
}

#[test]
fn audio_clock_runs_and_latches() {
    let mut clock = AudioClock::new();
    assert_eq!(clock.get_pos(5_000), 0);
    clock.start(1_000);
    assert!(clock.is_playing);
    assert_eq!(clock.get_pos(1_000), 0);
    assert_eq!(clock.get_pos(4_000), 3_000);
    // A reading from before the start counts as no time at all.
    assert_eq!(clock.get_pos(500), 0);
    clock.pause(6_000);
    assert_eq!(clock.accumulated_time, 5_000);
    assert_eq!(clock.get_pos(6_000), 5_000);
    assert_eq!(clock.get_pos(60_000), 5_000);
    // A second pause changes nothing.
    clock.pause(70_000);
    assert_eq!(clock.get_pos(70_000), 5_000);
    clock.resume(100_000);
    assert_eq!(clock.get_pos(100_000), 5_000);
    assert_eq!(clock.get_pos(100_250), 5_250);
    // A second resume does not move the starting point.
    clock.resume(200_000);
    assert_eq!(clock.get_pos(200_000), 105_000);
    clock.stop();
    assert_eq!(clock, AudioClock::new());
    assert_eq!(clock.get_pos(300_000), 0);
}

#[test]
fn session_lanes_stand_in_order() {
    let tap = |b: i64| vec![Note::Tap { beat: Beat(b) }];
    let chart = Chart {
        meta: ChartMeta { charter: String::new(), level: 0, desc: String::new() },
        timing_map: TimingMap {
            offset: Time(0),
            bpm_changes: vec![BpmChange { beat: Beat(0), bpm: 60_000 }],
        },
        tracks: vec![
            Track { id: 3, notes: tap(1) },
            Track { id: 1, notes: tap(2) },
            Track { id: 2, notes: vec![] },
            Track { id: 1, notes: tap(4) },
        ],
    };
    let core = JudgeCore::new(
        JudgeWindow { perfect: Time(30_000_000_000), good: Time(80_000_000_000) },
        Time(8_000_000_000),
    );
    let s = PlayingState::new(chart, core, Time(3_000_000_000_000), false, &vec![]);
    assert!(s.key_pressed.is_empty());
    let lanes: Vec<(u8, Vec<Note>)> =
        s.manager.judges.iter().map(|j| (j.id, j.notes.clone())).collect();
    assert_eq!(lanes, vec![(1, tap(2)), (1, tap(4)), (2, vec![]), (3, tap(1))]);
    assert_eq!(s.max_theoretical_score, 3000);
    assert_eq!(s.current_time(), Time(-3_000_000_000_000));
}
