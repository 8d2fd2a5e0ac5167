use skipper::active_notes::{ActiveNotes, PITCH_COUNT};
use skipper::builtin::{arpeggio_payload, bass_payload, power_chord_payload, rock_beat_payload};
use skipper::display::{
    bar_and_beat, dark_text_on, minutes_and_seconds, note_is_current, program_bar_and_beat,
    track_kind, BarBeat, MinSec, TrackKind,
};
use skipper::guard::{
    has_program_if_held, load_if_held, load_json_if_held, select_tab_if_held, LoadAttempt,
    SharedCell,
};
use skipper::program::{NotePayload, ProgramNote, ProgramPayload, StagedProgram};
use skipper::registration::{
    is_usable_name, should_register, RegistrationWorker, WorkerStep, POLL_INTERVAL_MS, POLL_LIMIT,
};
use skipper::scheduler::NoteEvent;
use skipper::shared::{SharedState, Tab, TransportState};
use skipper::time::clamp;

#[test]
fn tracker_sets_and_clears_single_pitches() {
    let mut notes = ActiveNotes::new();
    assert_eq!(PITCH_COUNT, 128);
    for pitch in 0..128u8 {
        assert!(!notes.is_playing(pitch));
    }
    for pitch in [0u8, 1, 62, 63, 64, 65, 126, 127] {
        notes.set_playing(pitch, 1_000 + pitch as i64);
    }
    for pitch in 0..128u8 {
        let expected = [0u8, 1, 62, 63, 64, 65, 126, 127].contains(&pitch);
        assert_eq!(notes.is_playing(pitch), expected);
        if expected {
            assert_eq!(notes.end_beat(pitch), 1_000 + pitch as i64);
        }
    }
    notes.set_playing(63, -7);
    assert_eq!(notes.end_beat(63), -7);
    assert_eq!(notes.end_beat(64), 1_064);
    notes.clear_playing(63);
    notes.clear_playing(127);
    notes.clear_playing(5);
    assert!(!notes.is_playing(63));
    assert!(!notes.is_playing(127));
    assert!(notes.is_playing(62));
    assert!(notes.is_playing(64));
    assert!(notes.is_playing(126));
    assert!(notes.is_playing(0));
    let fresh = ActiveNotes::default();
    assert!(!fresh.is_playing(0));
}

#[test]
fn clamp_limits_to_the_range() {
    assert_eq!(clamp(5, 0, 10), 5);
    assert_eq!(clamp(-5, 0, 10), 0);
    assert_eq!(clamp(50, 0, 10), 10);
    assert_eq!(clamp(i64::MIN, -1, -1), -1);
}

fn loaded(payload: ProgramPayload) -> StagedProgram {
    let mut program = StagedProgram::new();
    assert!(program.load(&payload));
    program
}

fn slot(program: &StagedProgram, index: usize) -> (u8, i64, i64, u32) {
    let note = program.note(index);
    assert!(note.active);
    (note.pitch, note.start_beat, note.length_beats, note.velocity)
}

#[test]
fn arpeggio_has_its_eleven_notes() {
    let mut program = StagedProgram::new();
    program.load_test_program();
    assert_eq!(program.get_name(), "C Major Arpeggio");
    assert_eq!(program.version(), 1);
    assert!(program.is_loaded());
    assert_eq!(program.length_bars(), 4_000_000);
    assert_eq!(program.length_beats(), 16_000_000);
    assert_eq!(program.note_count(), 11);
    let expected = [
        (60, 0, 1),
        (64, 1, 1),
        (67, 2, 1),
        (72, 3, 1),
        (74, 4, 1),
        (72, 5, 1),
        (71, 6, 1),
        (69, 7, 1),
        (67, 8, 2),
        (64, 10, 2),
        (60, 12, 4),
    ];
    for (index, (pitch, start, length)) in expected.iter().enumerate() {
        assert_eq!(
            slot(&program, index),
            (*pitch, start * 1_000_000, length * 1_000_000, 800_000)
        );
    }
    assert!(!program.note(11).active);
    let same = loaded(arpeggio_payload());
    assert_eq!(same.note(10), program.note(10));
}

#[test]
fn walking_bass_has_a_note_on_every_beat() {
    let mut program = StagedProgram::new();
    program.load_bass_program();
    assert_eq!(program.get_name(), "Walking Bass C");
    assert_eq!(program.note_count(), 16);
    let pitches = [24, 31, 28, 31, 29, 36, 33, 36, 31, 26, 35, 26, 24, 31, 24, 28];
    let velocities = [9, 7, 7, 7, 9, 7, 7, 7, 9, 7, 7, 7, 9, 7, 7, 8];
    for index in 0..16 {
        assert_eq!(
            slot(&program, index),
            (pitches[index], index as i64 * 1_000_000, 1_000_000, velocities[index] * 100_000)
        );
    }
    assert_eq!(loaded(bass_payload()).note(15), program.note(15));
}

#[test]
fn power_chords_pair_root_and_fifth() {
    let mut program = StagedProgram::new();
    program.load_guitar_program();
    assert_eq!(program.get_name(), "Power Chords 8th");
    assert_eq!(program.note_count(), 64);
    assert_eq!(program.length_beats(), 16_000_000);
    let chords = [(48, 55), (53, 60), (55, 62), (48, 55)];
    for bar in 0..4 {
        for eighth in 0..8 {
            let start = bar as i64 * 4_000_000 + eighth as i64 * 500_000;
            let index = (bar * 8 + eighth) * 2;
            assert_eq!(slot(&program, index), (chords[bar].0, start, 400_000, 850_000));
            assert_eq!(slot(&program, index + 1), (chords[bar].1, start, 400_000, 765_000));
        }
    }
    assert_eq!(loaded(power_chord_payload()).note(63), program.note(63));
}

#[test]
fn rock_beat_alternates_kick_and_snare() {
    let mut program = StagedProgram::new();
    program.load_drums_program();
    assert_eq!(program.get_name(), "Rock Beat C3");
    assert_eq!(program.note_count(), 16);
    for index in 0..16 {
        let velocity = if index % 2 == 0 { 900_000 } else { 850_000 };
        assert_eq!(slot(&program, index), (48, index as i64 * 1_000_000, 250_000, velocity));
    }
    assert_eq!(loaded(rock_beat_payload()).note(0), program.note(0));
    program.load_test_program();
    assert_eq!(program.version(), 2);
    assert_eq!(program.note_count(), 11);
}

const NAMES: [&str; 128] = [
    "C-1", "C#-1", "D-1", "D#-1", "E-1", "F-1", "F#-1", "G-1", "G#-1", "A-1", "A#-1", "B-1", "C0",
    "C#0", "D0", "D#0", "E0", "F0", "F#0", "G0", "G#0", "A0", "A#0", "B0", "C1", "C#1", "D1",
    "D#1", "E1", "F1", "F#1", "G1", "G#1", "A1", "A#1", "B1", "C2", "C#2", "D2", "D#2", "E2", "F2",
    "F#2", "G2", "G#2", "A2", "A#2", "B2", "C3", "C#3", "D3", "D#3", "E3", "F3", "F#3", "G3",
    "G#3", "A3", "A#3", "B3", "C4", "C#4", "D4", "D#4", "E4", "F4", "F#4", "G4", "G#4", "A4",
    "A#4", "B4", "C5", "C#5", "D5", "D#5", "E5", "F5", "F#5", "G5", "G#5", "A5", "A#5", "B5", "C6",
    "C#6", "D6", "D#6", "E6", "F6", "F#6", "G6", "G#6", "A6", "A#6", "B6", "C7", "C#7", "D7",
    "D#7", "E7", "F7", "F#7", "G7", "G#7", "A7", "A#7", "B7", "C8", "C#8", "D8", "D#8", "E8", "F8",
    "F#8", "G8", "G#8", "A8", "A#8", "B8", "C9", "C#9", "D9", "D#9", "E9", "F9", "F#9", "G9",
];

#[test]
fn every_pitch_has_its_name() {
    for pitch in 0..128u8 {
        assert_eq!(StagedProgram::pitch_to_name(pitch), NAMES[pitch as usize]);
    }
    assert_eq!(StagedProgram::pitch_to_name(60), "C4");
    for pitch in 128..=255u8 {
        assert_eq!(StagedProgram::pitch_to_name(pitch), "???");
    }
}

#[test]
fn positions_are_shown_as_bar_and_beat() {
    assert_eq!(bar_and_beat(0, 4), Some(BarBeat { bar: 1, beat: 1_000_000 }));
    assert_eq!(bar_and_beat(5_500_000, 4), Some(BarBeat { bar: 2, beat: 2_500_000 }));
    assert_eq!(bar_and_beat(5_500_000, 3), Some(BarBeat { bar: 2, beat: 3_500_000 }));
    assert_eq!(bar_and_beat(-500_000, 4), Some(BarBeat { bar: 0, beat: 500_000 }));
    assert_eq!(bar_and_beat(-4_000_000, 4), Some(BarBeat { bar: 0, beat: 1_000_000 }));
    assert_eq!(bar_and_beat(1, 0), None);
    assert_eq!(bar_and_beat(1, -4), None);
    assert!(bar_and_beat(i64::MIN, 1).is_some());
    assert!(bar_and_beat(i64::MAX, i32::MAX).is_some());
    assert_eq!(program_bar_and_beat(10_250_000), BarBeat { bar: 3, beat: 3_250_000 });
    assert_eq!(program_bar_and_beat(0), BarBeat { bar: 1, beat: 1_000_000 });
}

#[test]
fn times_are_shown_as_minutes_and_seconds() {
    assert_eq!(minutes_and_seconds(0), MinSec { minutes: 0, micros: 0 });
    assert_eq!(minutes_and_seconds(125_250_000), MinSec { minutes: 2, micros: 5_250_000 });
    assert_eq!(minutes_and_seconds(-1_000_000), MinSec { minutes: -1, micros: -1_000_000 });
}

#[test]
fn track_kind_prefers_master_then_return_then_bus() {
    assert_eq!(track_kind(true, true, true), TrackKind::Master);
    assert_eq!(track_kind(false, true, true), TrackKind::Return);
    assert_eq!(track_kind(false, false, true), TrackKind::Bus);
    assert_eq!(track_kind(false, false, false), TrackKind::Regular);
}

#[test]
fn light_colors_get_dark_text() {
    assert!(dark_text_on(255, 128, 64));
    assert!(dark_text_on(129, 128, 128));
    assert!(!dark_text_on(128, 128, 128));
    assert!(!dark_text_on(0, 0, 0));
    assert!(dark_text_on(255, 255, 255));
}

#[test]
fn note_is_current_inside_its_span() {
    let note = ProgramNote {
        pitch: 60,
        velocity: 1,
        start_beat: 1_000_000,
        length_beats: 500_000,
        active: true,
    };
    assert!(!note_is_current(&note, 999_999));
    assert!(note_is_current(&note, 1_000_000));
    assert!(note_is_current(&note, 1_499_999));
    assert!(!note_is_current(&note, 1_500_000));
}

#[test]
fn worker_waits_until_the_name_is_there() {
    assert_eq!(POLL_LIMIT, 50);
    assert_eq!(POLL_INTERVAL_MS, 100);
    let mut worker = RegistrationWorker::new();
    assert_eq!(worker.polls_left(), 50);
    assert_eq!(worker.poll(false, false), WorkerStep::Wait);
    assert_eq!(worker.polls_left(), 49);
    assert_eq!(worker.poll(true, false), WorkerStep::Register);
    assert_eq!(worker.polls_left(), 0);
    assert_eq!(worker.poll(true, false), WorkerStep::Stop);

    let mut worker = RegistrationWorker::new();
    assert_eq!(worker.poll(true, true), WorkerStep::Stop);
    assert_eq!(worker.polls_left(), 0);
}

#[test]
fn worker_gives_up_after_its_last_look() {
    let mut worker = RegistrationWorker::new();
    for _ in 0..49 {
        assert_eq!(worker.poll(false, true), WorkerStep::Wait);
    }
    assert_eq!(worker.polls_left(), 1);
    assert_eq!(worker.poll(false, false), WorkerStep::Stop);
    assert_eq!(worker.polls_left(), 0);
    assert_eq!(worker.poll(false, false), WorkerStep::Stop);
}

#[test]
fn interface_registers_only_for_a_named_track_without_program() {
    assert!(is_usable_name(Some("Bass")));
    assert!(!is_usable_name(Some("")));
    assert!(!is_usable_name(None));
    assert!(should_register(Some(false), Some("Bass")));
    assert!(!should_register(Some(true), Some("Bass")));
    assert!(!should_register(None, Some("Bass")));
    assert!(!should_register(Some(false), Some("")));
    assert!(!should_register(Some(false), None));
}

fn one_note() -> ProgramPayload {
    ProgramPayload {
        name: None,
        length_bars: None,
        length_beats: None,
        notes: Some(vec![NotePayload {
            pitch: Some(70),
            start_beat: Some(0),
            length_beats: None,
            velocity: Some(500_000),
        }]),
    }
}

#[test]
fn free_record_runs_the_block() {
    let cell = SharedCell::new(SharedState::new());
    assert_eq!(cell.try_has_program(), Some(false));
    assert_eq!(cell.try_load(&one_note()), LoadAttempt::Loaded);
    assert_eq!(cell.try_has_program(), Some(true));
    let mut events = Vec::new();
    let playing = TransportState { playing: true, pos_beats: Some(0), ..TransportState::default() };
    assert!(cell.try_process(playing, &mut events));
    assert_eq!(events, vec![NoteEvent::NoteOn { pitch: 70, velocity: 500_000 }]);
    assert!(cell.try_process(TransportState::default(), &mut events));
    assert_eq!(events, vec![NoteEvent::NoteOff { pitch: 70 }]);
    assert!(cell.try_select_tab(Tab::Info));
    assert_eq!(cell.cell().borrow().current_tab(), Tab::Info);
    assert_eq!(cell.cell().borrow().transport(), TransportState::default());

    let without_notes =
        ProgramPayload { name: None, length_bars: None, length_beats: None, notes: None };
    assert_eq!(cell.try_load(&without_notes), LoadAttempt::Rejected);
    let json: serde_json::Value = serde_json::from_str(r#"{"notes": [{}, {}]}"#).unwrap();
    assert_eq!(cell.try_load_from_json(&json), LoadAttempt::Loaded);
    assert_eq!(cell.cell().borrow().program().note_count(), 2);
    let json: serde_json::Value = serde_json::from_str(r#"{"nodes": []}"#).unwrap();
    assert_eq!(cell.try_load_from_json(&json), LoadAttempt::Rejected);
    assert_eq!(cell.cell().borrow().program().version(), 2);
}

#[test]
fn held_record_skips_the_block() {
    let cell = SharedCell::new(SharedState::new());
    assert_eq!(cell.try_load(&one_note()), LoadAttempt::Loaded);
    let playing = TransportState { playing: true, pos_beats: Some(0), ..TransportState::default() };
    let mut events = vec![NoteEvent::NoteOff { pitch: 1 }];
    {
        let reader = cell.cell().borrow();
        assert!(!cell.try_process(playing, &mut events));
        assert_eq!(events, vec![]);
        assert_eq!(cell.try_has_program(), None);
        assert_eq!(cell.try_load(&one_note()), LoadAttempt::Busy);
        let json: serde_json::Value = serde_json::from_str(r#"{"notes": []}"#).unwrap();
        assert_eq!(cell.try_load_from_json(&json), LoadAttempt::Busy);
        assert!(!cell.try_select_tab(Tab::Program));
        assert_eq!(reader.program().version(), 1);
        assert_eq!(reader.last_program_beat(), -1_000_000);
        assert_eq!(reader.current_tab(), Tab::Live);
    }
    assert!(cell.try_process(playing, &mut events));
    assert_eq!(events, vec![NoteEvent::NoteOn { pitch: 70, velocity: 500_000 }]);
}

#[test]
fn without_the_record_nothing_is_done() {
    let json: serde_json::Value = serde_json::from_str(r#"{"notes": [{}]}"#).unwrap();
    assert_eq!(load_if_held(None, &one_note()), LoadAttempt::Busy);
    assert_eq!(load_json_if_held(None, &json), LoadAttempt::Busy);
    assert_eq!(has_program_if_held(None), None);
    assert!(!select_tab_if_held(None, Tab::Info));
}

#[test]
fn with_the_record_the_attempt_is_carried_out() {
    let mut state = SharedState::new();
    assert_eq!(has_program_if_held(Some(&state)), Some(false));

    let without_notes =
        ProgramPayload { name: None, length_bars: None, length_beats: None, notes: None };
    assert_eq!(load_if_held(Some(&mut state), &without_notes), LoadAttempt::Rejected);
    assert_eq!(state.program().version(), 0);
    assert_eq!(has_program_if_held(Some(&state)), Some(false));

    assert_eq!(load_if_held(Some(&mut state), &one_note()), LoadAttempt::Loaded);
    assert_eq!(state.program().version(), 1);
    assert_eq!(state.program().note(0).pitch, 70);
    assert_eq!(has_program_if_held(Some(&state)), Some(true));

    let json: serde_json::Value =
        serde_json::from_str(r#"{"name": "J", "notes": [{"pitch": 5}, {}]}"#).unwrap();
    assert_eq!(load_json_if_held(Some(&mut state), &json), LoadAttempt::Loaded);
    assert_eq!(state.program().version(), 2);
    assert_eq!(state.program().get_name(), "J");
    assert_eq!(state.program().note_count(), 2);
    let json: serde_json::Value = serde_json::from_str(r#"{"name": "K"}"#).unwrap();
    assert_eq!(load_json_if_held(Some(&mut state), &json), LoadAttempt::Rejected);
    assert_eq!(state.program().version(), 2);
    assert_eq!(state.program().get_name(), "J");

    assert_eq!(state.current_tab(), Tab::Live);
    assert!(select_tab_if_held(Some(&mut state), Tab::Program));
    assert_eq!(state.current_tab(), Tab::Program);
    assert_eq!(state.program().version(), 2);
}

#[test]
fn cell_is_the_one_the_attempts_work_on() {
    let guard = SharedCell::new(SharedState::new());
    assert!(std::ptr::eq(guard.cell(), guard.cell()));
    assert_eq!(guard.try_load(&one_note()), LoadAttempt::Loaded);
    assert!(guard.cell().borrow().has_program());
    assert!(guard.try_select_tab(Tab::Info));
    assert_eq!(guard.cell().borrow().current_tab(), Tab::Info);
    let other = SharedCell::new(SharedState::new());
    assert!(!std::ptr::eq(guard.cell(), other.cell()));
    assert!(!other.cell().borrow().has_program());
}
