use mug_tui::chart::{arrange_tracks, Note, Track};
use mug_tui::convert::mc::{convert_mc_to_custom, mc_beat, McChart, McNote, McTime};
use mug_tui::timing::{Beat, Time};

fn beat3(v: &serde_json::Value) -> [u32; 3] {
    let a = v.as_array().unwrap();
    [
        a[0].as_u64().unwrap() as u32,
        a[1].as_u64().unwrap() as u32,
        a[2].as_u64().unwrap() as u32,
    ]
}

/// Reads what a conversion needs out of the text of a Malody chart.
fn read_mc(text: &str) -> McChart {
    let v: serde_json::Value = serde_json::from_str(text).expect("Failed to parse Malody chart");
    let meta = &v["meta"];
    let time = v["time"]
        .as_array()
        .unwrap()
        .iter()
        .map(|t| McTime {
            beat: beat3(&t["beat"]),
            bpm: (t["bpm"].as_f64().unwrap() * 1000.0).round() as u32,
        })
        .collect();
    let note = v["note"]
        .as_array()
        .unwrap()
        .iter()
        .map(|n| McNote {
            beat: beat3(&n["beat"]),
            column: n.get("column").and_then(|c| c.as_u64()).map(|c| c as u8),
            endbeat: n.get("endbeat").map(beat3),
            sound: n.get("sound").and_then(|s| s.as_str()).map(String::from),
            offset: n.get("offset").and_then(|o| o.as_i64()).map(|o| o as i32),
        })
        .collect();
    McChart {
        creator: String::from(meta["creator"].as_str().unwrap()),
        title: String::from(meta["song"]["title"].as_str().unwrap()),
        artist: String::from(meta["song"]["artist"].as_str().unwrap()),
        column: meta["mode_ext"]["column"].as_u64().unwrap() as u32,
        time,
        note,
    }
}

#[test]
fn test_convert_mc_to_custom() {
    let raw_mc = r#"{
            "meta": {
                "$ver": 0, "creator": "test", "background": "b.jpg", "version": "4K",
                "id": 0, "mode": 0, "time": 0,
                "song": { "title": "T", "artist": "A", "id": 0, "titleorg": "T", "artistorg": "A" },
                "mode_ext": { "column": 4, "bar_begin": 0 }
            },
            "time": [{"beat": [0, 0, 1], "bpm": 120.0}],
            "note": [{"beat": [1, 0, 1], "column": 0}]
        }"#;

    let mc = read_mc(raw_mc);
    assert!(mc.is_valid());
    let (chart, meta) = convert_mc_to_custom(mc);

    assert_eq!(chart.tracks.len(), 4);
    assert_eq!(meta.title, "T");

    if let Note::Tap { beat } = &chart.tracks[0].notes[0] {
        assert_eq!(beat.0, 1_000_000_000);
    } else {
        panic!("Note should be a Tap");
    }
}

fn note(beat: [u32; 3], column: Option<u8>, endbeat: Option<[u32; 3]>) -> McNote {
    McNote { beat, column, endbeat, sound: None, offset: None }
}

#[test]
fn conversion_sorts_and_filters() {
    let mc = McChart {
        creator: String::from("someone"),
        title: String::from("Song"),
        artist: String::from("Artist"),
        column: 2,
        time: vec![
            McTime { beat: [0, 0, 1], bpm: 90_000 },
            McTime { beat: [8, 1, 2], bpm: 180_500 },
        ],
        note: vec![
            note([4, 0, 1], Some(0), None),
            McNote {
                beat: [0, 0, 1],
                column: None,
                endbeat: None,
                sound: Some(String::from("song.ogg")),
                offset: Some(-120),
            },
            note([2, 1, 3], Some(0), Some([3, 0, 1])),
            note([2, 1, 3], Some(0), None),
            note([9, 0, 1], Some(2), None),
            note([1, 3, 4], Some(1), None),
            note([30, 0, 1], None, None),
        ],
    };
    assert!(mc.is_valid());
    let (chart, meta) = convert_mc_to_custom(mc);
    assert_eq!(chart.meta.charter, "someone");
    assert_eq!(chart.meta.level, 0);
    assert_eq!(chart.meta.desc, "2K - Converted from Malody");
    assert_eq!(chart.timing_map.offset, Time(-120_000_000_000));
    assert_eq!(chart.timing_map.bpm_changes.len(), 2);
    assert_eq!(chart.timing_map.bpm_changes[0].beat, Beat(0));
    assert_eq!(chart.timing_map.bpm_changes[0].bpm, 90_000);
    assert_eq!(chart.timing_map.bpm_changes[1].beat, Beat(8_500_000_000));
    assert_eq!(chart.timing_map.bpm_changes[1].bpm, 180_500);
    assert_eq!(chart.tracks.len(), 2);
    assert_eq!((chart.tracks[0].id, chart.tracks[1].id), (0, 1));
    assert_eq!(
        chart.tracks[0].notes,
        vec![
            Note::Hold { start: Beat(2_333_333_333), end: Beat(3_000_000_000) },
            Note::Tap { beat: Beat(2_333_333_333) },
            Note::Tap { beat: Beat(4_000_000_000) },
        ]
    );
    assert_eq!(chart.tracks[1].notes, vec![Note::Tap { beat: Beat(1_750_000_000) }]);
    assert_eq!(chart.check(), Ok(()));
    assert_eq!((meta.title.as_str(), meta.artist.as_str()), ("Song", "Artist"));
    assert_eq!(meta.bpm, 90_000);
    // Four beats at 90 BPM last 2.67 s; two seconds are added.
    assert_eq!(meta.length, 4);
}

#[test]
fn conversion_of_an_empty_chart() {
    let mc = McChart {
        creator: String::new(),
        title: String::new(),
        artist: String::new(),
        column: 0,
        time: vec![],
        note: vec![note([400, 0, 1], Some(0), None)],
    };
    let (chart, meta) = convert_mc_to_custom(mc);
    assert!(chart.tracks.is_empty());
    assert_eq!(chart.timing_map.offset, Time(0));
    assert_eq!(chart.meta.desc, "0K - Converted from Malody");
    assert_eq!(meta.bpm, 120_000);
    assert_eq!(meta.length, 2);
    assert!(chart.check().is_err());
}

#[test]
fn malody_beats() {
    assert_eq!(mc_beat([1, 0, 1]), Beat(1_000_000_000));
    assert_eq!(mc_beat([0, 1, 3]), Beat(333_333_333));
    assert_eq!(mc_beat([7, 5, 4]), Beat(8_250_000_000));
    assert_eq!(mc_beat([u32::MAX, u32::MAX, 1]), Beat(8_589_934_590_000_000_000));
    assert!(!note([1, 0, 0], Some(0), None).is_valid());
    assert!(!note([1, 0, 1], Some(0), Some([2, 0, 0])).is_valid());
    let stopped = McChart {
        creator: String::new(),
        title: String::new(),
        artist: String::new(),
        column: 1,
        time: vec![McTime { beat: [0, 0, 1], bpm: 0 }],
        note: vec![],
    };
    assert!(!stopped.is_valid());
}

#[test]
fn conversion_asks_only_for_what_it_divides_by() {
    // Notes without a column, or with a column the chart does not have,
    // are left out before anything is divided; only the first tempo is
    // divided by.
    let mc = McChart {
        creator: String::new(),
        title: String::new(),
        artist: String::new(),
        column: 1,
        time: vec![McTime { beat: [0, 0, 1], bpm: 60_000 }, McTime { beat: [2, 0, 1], bpm: 0 }],
        note: vec![
            note([1, 0, 0], None, None),
            note([1, 0, 0], Some(1), Some([2, 0, 0])),
            note([3, 1, 2], Some(0), None),
        ],
    };
    assert!(mc.is_valid());
    let (chart, meta) = convert_mc_to_custom(mc);
    assert_eq!(chart.tracks.len(), 1);
    assert_eq!(chart.tracks[0].notes, vec![Note::Tap { beat: Beat(3_500_000_000) }]);
    assert_eq!(chart.timing_map.bpm_changes[1].bpm, 0);
    assert_eq!(meta.length, 5);
    let bad_time = McChart {
        creator: String::new(),
        title: String::new(),
        artist: String::new(),
        column: 1,
        time: vec![McTime { beat: [0, 0, 0], bpm: 60_000 }],
        note: vec![],
    };
    assert!(!bad_time.is_valid());
    let bad_note = McChart {
        creator: String::new(),
        title: String::new(),
        artist: String::new(),
        column: 1,
        time: vec![],
        note: vec![note([1, 0, 0], Some(0), None)],
    };
    assert!(!bad_note.is_valid());
}

#[test]
fn tracks_are_arranged_by_lane() {
    let t = |id: u8, b: i64| Track { id, notes: vec![Note::Tap { beat: Beat(b) }] };
    let sorted = arrange_tracks(vec![t(2, 1), t(0, 2), t(1, 3), t(0, 4), t(2, 5)]);
    let seen: Vec<(u8, Note)> = sorted.iter().map(|t| (t.id, t.notes[0])).collect();
    assert_eq!(
        seen,
        vec![
            (0, Note::Tap { beat: Beat(2) }),
            (0, Note::Tap { beat: Beat(4) }),
            (1, Note::Tap { beat: Beat(3) }),
            (2, Note::Tap { beat: Beat(1) }),
            (2, Note::Tap { beat: Beat(5) }),
        ]
    );
    assert!(arrange_tracks(vec![]).is_empty());
}
