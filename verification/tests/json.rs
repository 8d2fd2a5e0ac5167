use skipper::json::{note_payload_from_json, payload_from_json, staged_program_from_response};
use skipper::program::{NotePayload, ProgramNote, StagedProgram};
use skipper::scheduler::NoteEvent;
use skipper::shared::{SharedState, TransportState};

fn parse(text: &str) -> serde_json::Value {
    serde_json::from_str(text).unwrap()
}

const ARPEGGIO: &str = r#"{
    "name": "Arp",
    "version": 7,
    "lengthBars": 1,
    "lengthBeats": 4,
    "notes": [
        {"pitch": 60, "startBeat": 0, "lengthBeats": 1, "velocity": 0.8},
        {"pitch": 64, "startBeat": 1.0, "lengthBeats": 1.0, "velocity": 0.8},
        {"pitch": 67, "startBeat": 2, "lengthBeats": 1, "velocity": 0.8},
        {"pitch": 72, "startBeat": 3, "lengthBeats": 1, "velocity": 0.8}
    ]
}"#;

#[test]
fn program_is_read_from_json() {
    let mut program = StagedProgram::new();
    assert!(program.load_from_json(&parse(ARPEGGIO)));
    assert!(program.is_loaded());
    assert_eq!(program.get_name(), "Arp");
    assert_eq!(program.version(), 1);
    assert_eq!(program.length_bars(), 1_000_000);
    assert_eq!(program.length_beats(), 4_000_000);
    assert_eq!(program.note_count(), 4);
    assert_eq!(
        program.note(1),
        ProgramNote {
            pitch: 64,
            velocity: 800_000,
            start_beat: 1_000_000,
            length_beats: 1_000_000,
            active: true
        }
    );
}

#[test]
fn json_program_plays_block_by_block() {
    let mut state = SharedState::new();
    assert!(state.load_from_json(&parse(ARPEGGIO)));
    assert!(state.has_program());
    let mut events = Vec::new();
    let mut seen = Vec::new();
    for beat in 0..5 {
        let transport = TransportState {
            playing: true,
            pos_beats: Some(beat * 1_000_000),
            ..TransportState::default()
        };
        state.process(transport, &mut events);
        seen.push(events.clone());
    }
    let on = |pitch| NoteEvent::NoteOn { pitch, velocity: 800_000 };
    let off = |pitch| NoteEvent::NoteOff { pitch };
    assert_eq!(
        seen,
        vec![
            vec![on(60)],
            vec![off(60), on(64)],
            vec![off(64), on(67)],
            vec![off(67), on(72)],
            vec![off(72), on(60)],
        ]
    );
}

#[test]
fn json_without_a_notes_array_is_rejected() {
    let mut program = StagedProgram::new();
    assert!(!program.load_from_json(&parse(r#"{"name": "x"}"#)));
    assert!(!program.load_from_json(&parse(r#"{"notes": {"pitch": 1}}"#)));
    assert!(!program.load_from_json(&parse(r#"{"notes": null}"#)));
    assert!(!program.load_from_json(&parse(r#"{"notes": "none"}"#)));
    assert!(!program.load_from_json(&parse(r#"[{"pitch": 1}]"#)));
    assert!(!program.load_from_json(&parse("12")));
    assert!(!program.is_loaded());
    assert_eq!(program.version(), 0);
    assert_eq!(program.get_name(), "");
    assert!(program.load_from_json(&parse(r#"{"notes": []}"#)));
    assert!(program.is_loaded());
    assert_eq!(program.note_count(), 0);
    assert_eq!(program.get_name(), "Staged Program");
    assert_eq!(program.length_beats(), 16_000_000);
}

#[test]
fn json_fields_of_the_wrong_kind_count_as_missing() {
    let json = parse(
        r#"{"name": 5, "lengthBars": "four", "lengthBeats": null,
            "notes": [{"pitch": -3, "startBeat": "0", "lengthBeats": [], "velocity": true},
                      {"pitch": 61.5},
                      7,
                      {"pitch": 300, "startBeat": -1.5, "lengthBeats": 0, "velocity": 2}]}"#,
    );
    let payload = payload_from_json(&json);
    assert_eq!(payload.name, None);
    assert_eq!(payload.length_bars, None);
    assert_eq!(payload.length_beats, None);
    let nothing = NotePayload { pitch: None, start_beat: None, length_beats: None, velocity: None };
    assert_eq!(
        payload.notes,
        Some(vec![
            nothing,
            nothing,
            nothing,
            NotePayload {
                pitch: Some(300),
                start_beat: Some(-1_500_000),
                length_beats: Some(0),
                velocity: Some(2_000_000)
            },
        ])
    );
    let mut program = StagedProgram::new();
    assert!(program.load_from_json(&json));
    let default_note = ProgramNote {
        pitch: 60,
        velocity: 800_000,
        start_beat: 0,
        length_beats: 1_000_000,
        active: true,
    };
    assert_eq!(program.note(0), default_note);
    assert_eq!(program.note(2), default_note);
    assert_eq!(
        program.note(3),
        ProgramNote { pitch: 127, velocity: 1_000_000, start_beat: 0, length_beats: 1, active: true }
    );
}

#[test]
fn json_numbers_become_millionths() {
    let note = note_payload_from_json(&parse(
        r#"{"pitch": 48, "startBeat": 3.5, "lengthBeats": 0.25, "velocity": 0.85}"#,
    ));
    assert_eq!(
        note,
        NotePayload {
            pitch: Some(48),
            start_beat: Some(3_500_000),
            length_beats: Some(250_000),
            velocity: Some(850_000)
        }
    );
    let payload = payload_from_json(&parse(
        r#"{"name": "N", "lengthBars": 2.5, "lengthBeats": 1e300, "notes": []}"#,
    ));
    assert_eq!(payload.name, Some(String::from("N")));
    assert_eq!(payload.length_bars, Some(2_500_000));
    assert_eq!(payload.length_beats, Some(i64::MAX));
    assert_eq!(payload.notes, Some(vec![]));
}

#[test]
fn json_program_beyond_capacity_is_cut() {
    let mut text = String::from(r#"{"notes": ["#);
    for i in 0..400 {
        if i > 0 {
            text.push(',');
        }
        text.push_str(&format!(r#"{{"pitch": {}, "startBeat": {}}}"#, i % 100, i));
    }
    text.push_str("]}");
    let mut program = StagedProgram::new();
    assert!(program.load_from_json(&parse(&text)));
    assert_eq!(program.note_count(), 256);
    assert_eq!(program.note(255).start_beat, 255_000_000);
    assert_eq!(program.note(255).pitch, 55);
}

#[test]
fn staged_program_is_picked_from_a_response() {
    let program = staged_program_from_response(
        r#"{"status": "ok", "program": {"name": "P", "notes": [{"pitch": 62}]}}"#,
    );
    let program = program.unwrap();
    assert_eq!(program, parse(r#"{"name": "P", "notes": [{"pitch": 62}]}"#));
    let mut staged = StagedProgram::new();
    assert!(staged.load_from_json(&program));
    assert_eq!(staged.get_name(), "P");
    assert_eq!(staged.note(0).pitch, 62);

    assert_eq!(staged_program_from_response(r#"{"status": "ok", "program": null}"#), None);
    assert_eq!(staged_program_from_response(r#"{"status": "ok"}"#), None);
    assert_eq!(staged_program_from_response(r#"["program"]"#), None);
    assert_eq!(staged_program_from_response("not json"), None);
    assert_eq!(staged_program_from_response(""), None);
    assert_eq!(
        staged_program_from_response(r#"{"program": 0}"#),
        Some(parse("0"))
    );
}
