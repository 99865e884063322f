use mug_tui::chart::{Note, Track};
use mug_tui::judge::{
    JudgeCore, JudgeInput, JudgeManager, JudgeResult, JudgeWindow, NoteJudge, NoteState,
};
use mug_tui::timing::{Beat, BpmChange, Time, TimingMap};

/// A time given in milliseconds.
fn ms(n: i64) -> Time {
    Time(n * 1_000_000_000)
}

/// A beat given in thousandths.
fn beat(n: i64) -> Beat {
    Beat(n * 1_000_000)
}

fn windows() -> JudgeCore {
    JudgeCore::new(JudgeWindow { perfect: ms(30), good: ms(80) }, ms(8))
}

fn map() -> TimingMap {
    TimingMap { offset: ms(0), bpm_changes: vec![BpmChange { beat: beat(0), bpm: 60_000 }] }
}

fn setup_test(notes: Vec<Note>) -> (NoteJudge, JudgeCore, TimingMap) {
    (NoteJudge::new(Track { id: 0, notes }), windows(), map())
}

fn one_hold() -> Vec<Note> {
    vec![Note::Hold { start: beat(1000), end: beat(2000) }]
}

#[test]
fn test_hold_miss_at_start() {
    let (mut nj, core, map) = setup_test(one_hold());

    nj.update(ms(500), &core, &map);
    assert_eq!(nj.states[0], NoteState::Pending);

    let missed = nj.update(ms(1160), &core, &map);
    assert_eq!(missed.len(), 1);
    assert_eq!(nj.states[0], NoteState::Missed);
    assert_eq!(nj.cursor, 1);
}

#[test]
fn test_hold_success_flow() {
    let (mut nj, core, map) = setup_test(one_hold());

    nj.on_input(ms(1010), true, &core, &map);
    assert!(matches!(nj.states[0], NoteState::Holding(_)));

    let result = nj.update(ms(2200), &core, &map);
    assert!(!result.is_empty());

    if let JudgeResult::Perfect(d) = result[0].1 {
        assert!((d.0 - 10_000_000_000).abs() < 1_000_000);
    } else {
        panic!()
    }
    assert_eq!(nj.states[0], NoteState::Hit);
    assert_eq!(nj.cursor, 1);
}

#[test]
fn test_hold_release_with_delta_early() {
    let (mut nj, core, map) = setup_test(one_hold());
    nj.on_input(ms(1010), true, &core, &map);
    assert!(matches!(nj.states[0], NoteState::Holding(_)));

    let result = nj.update(ms(1950), &core, &map);
    assert!(!result.is_empty());

    if let JudgeResult::Perfect(d) = result[0].1 {
        assert!((d.0 - 10_000_000_000).abs() < 1_000_000);
    } else {
        panic!()
    }
    assert_eq!(nj.states[0], NoteState::Hit);
    assert_eq!(nj.cursor, 1);
}

#[test]
fn test_hold_early_release_miss() {
    let (mut nj, core, map) = setup_test(one_hold());

    nj.on_input(ms(1000), true, &core, &map);

    // Let go far from the end: the hold is first only let go, with the
    // judgment of the press and the time of the release.
    let res = nj.on_input(ms(1500), false, &core, &map);
    assert_eq!(res, None);
    assert_eq!(nj.states[0], NoteState::Releasing(JudgeResult::Perfect(ms(0)), ms(1500)));
    assert_eq!(nj.cursor, 0);

    // Within the tolerance nothing is decided yet.
    let early = nj.update(ms(1508), &core, &map);
    assert!(early.is_empty());
    assert_eq!(nj.cursor, 0);

    // Never taken up again: once the tolerance has passed it is missed.
    let late = nj.update(ms(1509), &core, &map);
    assert_eq!(late, vec![(0, JudgeResult::Miss)]);
    assert_eq!(nj.states[0], NoteState::Missed);
    assert_eq!(nj.cursor, 1);
}

#[test]
fn test_hold_infinite_press_no_miss() {
    let (mut nj, core, map) = setup_test(one_hold());

    nj.on_input(ms(1000), true, &core, &map);

    nj.update(ms(10_000), &core, &map);
    assert_eq!(nj.states[0], NoteState::Hit);
    assert_eq!(nj.cursor, 1);
}

#[test]
fn hold_is_reported_once() {
    let (mut nj, core, map) = setup_test(one_hold());
    nj.on_input(ms(1000), true, &core, &map);
    let first = nj.update(ms(10_000), &core, &map);
    assert_eq!(first, vec![(0, JudgeResult::Perfect(ms(0)))]);
    let second = nj.update(ms(10_001), &core, &map);
    assert!(second.is_empty());
    assert_eq!(nj.cursor, 1);
}

#[test]
fn hold_resolves_exactly_when_less_than_good_is_left() {
    let (mut nj, core, map) = setup_test(one_hold());
    nj.on_input(ms(1000), true, &core, &map);
    // 80 ms left: not less than the good window.
    assert!(nj.update(ms(1920), &core, &map).is_empty());
    assert!(matches!(nj.states[0], NoteState::Holding(_)));
    assert_eq!(nj.update(Time(1_920_000_000_001), &core, &map).len(), 1);
    assert_eq!(nj.states[0], NoteState::Hit);
}

#[test]
fn hold_taken_up_again_keeps_its_judgment() {
    let (mut nj, core, map) = setup_test(one_hold());
    nj.on_input(ms(1050), true, &core, &map);
    assert_eq!(nj.states[0], NoteState::Holding(JudgeResult::Good(ms(50))));
    nj.on_input(ms(1500), false, &core, &map);
    assert_eq!(nj.states[0], NoteState::Releasing(JudgeResult::Good(ms(50)), ms(1500)));
    // A second release changes nothing.
    nj.on_input(ms(1502), false, &core, &map);
    assert_eq!(nj.states[0], NoteState::Releasing(JudgeResult::Good(ms(50)), ms(1500)));
    let r = nj.on_input(ms(1505), true, &core, &map);
    assert_eq!(r, None);
    assert_eq!(nj.states[0], NoteState::Holding(JudgeResult::Good(ms(50))));
    // A second press changes nothing.
    nj.on_input(ms(1506), true, &core, &map);
    assert_eq!(nj.states[0], NoteState::Holding(JudgeResult::Good(ms(50))));
    let end = nj.update(ms(1921), &core, &map);
    assert_eq!(end, vec![(0, JudgeResult::Good(ms(50)))]);
    assert_eq!(nj.states[0], NoteState::Hit);
}

#[test]
fn released_hold_is_hit_near_its_end() {
    let (mut nj, core, map) = setup_test(one_hold());
    nj.on_input(ms(990), true, &core, &map);
    nj.on_input(ms(1930), false, &core, &map);
    // The release itself came with less than the good window left, so the
    // flush before the input had already resolved the hold.
    assert_eq!(nj.states[0], NoteState::Hit);
    assert_eq!(nj.cursor, 1);
}

#[test]
fn hold_press_outside_window_is_ignored() {
    let (mut nj, core, map) = setup_test(one_hold());
    assert_eq!(nj.on_input(ms(900), true, &core, &map), None);
    assert_eq!(nj.states[0], NoteState::Pending);
    assert_eq!(nj.on_input(ms(1000), false, &core, &map), None);
    assert_eq!(nj.states[0], NoteState::Pending);
    assert_eq!(nj.cursor, 0);
}

#[test]
fn tap_times_out() {
    let (mut nj, core, map) = setup_test(vec![Note::Tap { beat: beat(1000) }]);
    // Exactly the good window late: not yet.
    assert!(nj.update(ms(1080), &core, &map).is_empty());
    assert_eq!(nj.states[0], NoteState::Pending);
    let r = nj.update(Time(1_080_000_000_001), &core, &map);
    assert_eq!(r, vec![(0, JudgeResult::Miss)]);
    assert_eq!(nj.states[0], NoteState::Missed);
    assert_eq!(nj.cursor, 1);
    assert!(nj.update(ms(5000), &core, &map).is_empty());
}

#[test]
fn tap_is_hit_by_a_key_down() {
    let (mut nj, core, map) = setup_test(vec![Note::Tap { beat: beat(1000) }]);
    // A key going up never resolves a tap.
    assert_eq!(nj.on_input(ms(1000), false, &core, &map), None);
    assert_eq!(nj.cursor, 0);
    // Outside the good window a key is ignored.
    assert_eq!(nj.on_input(ms(919), true, &core, &map), None);
    assert_eq!(nj.states[0], NoteState::Pending);
    assert_eq!(nj.on_input(ms(960), true, &core, &map), Some(JudgeResult::Good(ms(-40))));
    assert_eq!(nj.states[0], NoteState::Hit);
    assert_eq!(nj.cursor, 1);
    // Nothing is left.
    assert_eq!(nj.on_input(ms(1000), true, &core, &map), None);
}

#[test]
fn stale_notes_resolve_together() {
    let notes = vec![
        Note::Tap { beat: beat(1000) },
        Note::Tap { beat: beat(2000) },
        Note::Hold { start: beat(3000), end: beat(4000) },
        Note::Tap { beat: beat(9000) },
    ];
    let (mut nj, core, map) = setup_test(notes);
    let r = nj.update(ms(5000), &core, &map);
    assert_eq!(
        r,
        vec![(0, JudgeResult::Miss), (1, JudgeResult::Miss), (2, JudgeResult::Miss)]
    );
    assert_eq!(nj.cursor, 3);
    assert_eq!(nj.states[3], NoteState::Pending);
}

#[test]
fn input_flushes_stale_notes_first() {
    let notes = vec![Note::Tap { beat: beat(1000) }, Note::Tap { beat: beat(2000) }];
    let (mut nj, core, map) = setup_test(notes);
    let r = nj.on_input(ms(2010), true, &core, &map);
    assert_eq!(r, Some(JudgeResult::Perfect(ms(10))));
    assert_eq!(nj.states, vec![NoteState::Missed, NoteState::Hit]);
    assert_eq!(nj.cursor, 2);
}

#[test]
fn classify_by_windows() {
    let c = windows();
    assert_eq!(c.result_from_delta(ms(0)), JudgeResult::Perfect(ms(0)));
    assert_eq!(c.result_from_delta(ms(30)), JudgeResult::Perfect(ms(30)));
    assert_eq!(c.result_from_delta(ms(-30)), JudgeResult::Perfect(ms(-30)));
    assert_eq!(c.result_from_delta(ms(31)), JudgeResult::Good(ms(31)));
    assert_eq!(c.result_from_delta(ms(-80)), JudgeResult::Good(ms(-80)));
    assert_eq!(c.result_from_delta(ms(81)), JudgeResult::Miss);
    assert_eq!(c.result_from_delta(Time(i64::MIN)), JudgeResult::Miss);
    assert_eq!(c.result_from_delta(Time(i64::MAX)), JudgeResult::Miss);
}

#[test]
fn judge_by_distance() {
    let c = windows();
    let early = c.judge(JudgeInput { note_time: ms(1000), input_time: ms(950) });
    assert_eq!(early, JudgeResult::Good(ms(-50)));
    let late = c.judge(JudgeInput { note_time: ms(1000), input_time: ms(1020) });
    assert_eq!(late, JudgeResult::Perfect(ms(20)));
    let far = c.judge(JudgeInput { note_time: Time(i64::MIN), input_time: Time(i64::MAX) });
    assert_eq!(far, JudgeResult::Miss);
}

#[test]
fn classification_never_improves_with_distance() {
    fn severity(r: JudgeResult) -> u8 {
        match r {
            JudgeResult::Perfect(_) => 0,
            JudgeResult::Good(_) => 1,
            JudgeResult::Miss => 2,
        }
    }
    let c = windows();
    let mut last = 0;
    for d in 0..200 {
        let s = severity(c.result_from_delta(ms(d)));
        assert!(s >= last);
        assert_eq!(s, severity(c.result_from_delta(ms(-d))));
        last = s;
    }
    assert_eq!(last, 2);
}

#[test]
fn window_validity() {
    assert!(JudgeWindow { perfect: ms(30), good: ms(80) }.is_valid());
    assert!(JudgeWindow { perfect: ms(0), good: ms(0) }.is_valid());
    assert!(!JudgeWindow { perfect: ms(90), good: ms(80) }.is_valid());
    assert!(!JudgeWindow { perfect: ms(-1), good: ms(80) }.is_valid());
}

fn two_lanes() -> JudgeManager {
    let tracks = vec![
        Track { id: 3, notes: vec![Note::Tap { beat: beat(1000) }] },
        Track { id: 7, notes: vec![Note::Hold { start: beat(1000), end: beat(2000) }] },
    ];
    JudgeManager::new(tracks, map(), windows())
}

#[test]
fn manager_clears_and_counts() {
    let mut m = two_lanes();
    assert_eq!(m.clear_and_count_unjudged(), 2);
    assert_eq!(m.judges[0].cursor, m.judges[0].notes.len());
    assert_eq!(m.judges[1].cursor, m.judges[1].notes.len());
    assert_eq!(m.judges[0].states, vec![NoteState::Missed]);
    assert_eq!(m.judges[1].states, vec![NoteState::Missed]);
    assert_eq!(m.clear_and_count_unjudged(), 0);
}

#[test]
fn manager_clear_keeps_resolved_notes() {
    let mut m = two_lanes();
    assert_eq!(m.on_input(3, ms(1000), true), Some(JudgeResult::Perfect(ms(0))));
    m.on_input(7, ms(1000), true);
    assert_eq!(m.clear_and_count_unjudged(), 1);
    assert_eq!(m.judges[0].states, vec![NoteState::Hit]);
    assert_eq!(m.judges[1].states, vec![NoteState::Missed]);
}

#[test]
fn manager_routes_by_lane() {
    let mut m = two_lanes();
    // No judge has lane 5.
    assert_eq!(m.on_input(5, ms(1000), true), None);
    assert_eq!(m.judges[0].cursor, 0);
    assert_eq!(m.judges[1].states[0], NoteState::Pending);
    assert_eq!(m.on_input(7, ms(1020), true), None);
    assert_eq!(m.judges[1].states[0], NoteState::Holding(JudgeResult::Perfect(ms(20))));
    assert_eq!(m.judges[0].states[0], NoteState::Pending);
}

#[test]
fn manager_update_tags_reports() {
    let mut m = two_lanes();
    m.on_input(7, ms(1000), true);
    assert!(m.update(ms(1050)).is_empty());
    let r = m.update(ms(3000));
    assert_eq!(r.len(), 2);
    assert_eq!((r[0].track_idx, r[0].note_idx, r[0].result), (3, 0, JudgeResult::Miss));
    assert_eq!((r[1].track_idx, r[1].note_idx, r[1].result), (7, 0, JudgeResult::Perfect(ms(0))));
    assert!(m.update(ms(3001)).is_empty());
}

#[test]
fn manager_first_judge_of_a_lane_wins() {
    let tracks = vec![
        Track { id: 1, notes: vec![Note::Tap { beat: beat(1000) }] },
        Track { id: 1, notes: vec![Note::Tap { beat: beat(1000) }] },
    ];
    let mut m = JudgeManager::new(tracks, map(), windows());
    assert!(m.on_input(1, ms(1000), true).is_some());
    assert_eq!(m.judges[0].cursor, 1);
    assert_eq!(m.judges[1].cursor, 0);
}

#[test]
fn new_judge_is_all_pending() {
    let (nj, _, _) = setup_test(vec![Note::Tap { beat: beat(1) }, Note::Tap { beat: beat(2) }]);
    assert_eq!(nj.id, 0);
    assert_eq!(nj.cursor, 0);
    assert_eq!(nj.states, vec![NoteState::Pending, NoteState::Pending]);
    let mut nj = nj;
    assert_eq!(nj.clear(), 2);
    assert_eq!(nj.states, vec![NoteState::Missed, NoteState::Missed]);
}
