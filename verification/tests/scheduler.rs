use skipper::program::{NotePayload, ProgramPayload};
use skipper::scheduler::{flush, run_block, NoteEvent, MAX_BLOCK_EVENTS};
use skipper::shared::{SharedState, TransportState};
use skipper::active_notes::ActiveNotes;
use skipper::program::StagedProgram;
use skipper::time::{program_beat, NO_POSITION};

const BEAT: i64 = 1_000_000;

fn note(pitch: u64, start: i64, length: i64) -> NotePayload {
    NotePayload {
        pitch: Some(pitch),
        start_beat: Some(start),
        length_beats: Some(length),
        velocity: Some(800_000),
    }
}

fn program(length_beats: i64, notes: Vec<NotePayload>) -> ProgramPayload {
    ProgramPayload {
        name: Some(String::from("Test")),
        length_bars: None,
        length_beats: Some(length_beats),
        notes: Some(notes),
    }
}

fn arpeggio() -> ProgramPayload {
    program(
        4 * BEAT,
        vec![
            note(60, 0, BEAT),
            note(64, BEAT, BEAT),
            note(67, 2 * BEAT, BEAT),
            note(72, 3 * BEAT, BEAT),
        ],
    )
}

fn playing_at(ticks: i64) -> TransportState {
    TransportState { playing: true, pos_beats: Some(ticks), ..TransportState::default() }
}

fn stopped() -> TransportState {
    TransportState::default()
}

fn on(pitch: u8) -> NoteEvent {
    NoteEvent::NoteOn { pitch, velocity: 800_000 }
}

fn off(pitch: u8) -> NoteEvent {
    NoteEvent::NoteOff { pitch }
}

fn loaded(payload: &ProgramPayload) -> SharedState {
    let mut state = SharedState::new();
    assert!(state.load_program(payload));
    state
}

fn of_pitch(events: &[NoteEvent], wanted: u8) -> Vec<NoteEvent> {
    let mut kept = Vec::new();
    for event in events {
        let pitch = match event {
            NoteEvent::NoteOn { pitch, .. } => *pitch,
            NoteEvent::NoteOff { pitch } => *pitch,
        };
        if pitch == wanted {
            kept.push(*event);
        }
    }
    kept
}

#[test]
fn four_note_arpeggio_block_by_block() {
    let mut state = loaded(&arpeggio());
    let mut events = Vec::new();

    state.process(playing_at(0), &mut events);
    assert_eq!(events, vec![on(60)]);
    state.process(playing_at(BEAT), &mut events);
    assert_eq!(events, vec![off(60), on(64)]);
    state.process(playing_at(2 * BEAT), &mut events);
    assert_eq!(events, vec![off(64), on(67)]);
    state.process(playing_at(3 * BEAT), &mut events);
    assert_eq!(events, vec![off(67), on(72)]);
    state.process(playing_at(4 * BEAT), &mut events);
    assert_eq!(events, vec![off(72), on(60)]);
    assert_eq!(state.last_program_beat(), 0);
}

#[test]
fn full_pass_pairs_every_note_of_a_pitch() {
    // Three notes of pitch 60 and one of 62, in time order, played in uneven
    // blocks and closed by a stop.
    let payload = program(
        16 * BEAT,
        vec![
            note(60, 0, BEAT),
            note(62, BEAT / 2, 3 * BEAT),
            note(60, BEAT, 2 * BEAT),
            note(60, 8 * BEAT, 8 * BEAT),
        ],
    );
    let mut state = loaded(&payload);
    let mut events = Vec::new();
    let mut all = Vec::new();
    for position in [0, 700_000, 2_500_000, 2_600_000, 9 * BEAT, 15 * BEAT] {
        state.process(playing_at(position), &mut events);
        all.extend(events.iter().copied());
    }
    state.process(stopped(), &mut events);
    all.extend(events.iter().copied());
    assert_eq!(of_pitch(&all, 60), vec![on(60), off(60), on(60), off(60), on(60), off(60)]);
    assert_eq!(of_pitch(&all, 62), vec![on(62), off(62)]);
    assert_eq!(all.len(), 8);
}

#[test]
fn note_spanning_several_blocks_is_triggered_once() {
    let mut state = loaded(&program(8 * BEAT, vec![note(60, BEAT, 4 * BEAT)]));
    let mut events = Vec::new();
    state.process(playing_at(0), &mut events);
    assert_eq!(events, vec![]);
    state.process(playing_at(BEAT), &mut events);
    assert_eq!(events, vec![on(60)]);
    for position in [2 * BEAT, 3 * BEAT, 4 * BEAT] {
        state.process(playing_at(position), &mut events);
        assert_eq!(events, vec![]);
    }
    state.process(playing_at(5 * BEAT), &mut events);
    assert_eq!(events, vec![off(60)]);
}

#[test]
fn stop_emits_one_note_off_per_sounding_pitch() {
    let program = StagedProgram::new();
    let mut active = ActiveNotes::new();
    active.set_playing(127, 5);
    active.set_playing(0, 7);
    active.set_playing(64, 9);
    active.set_playing(63, 9);
    let mut cursor = 3 * BEAT;
    let mut events = vec![on(1)];
    run_block(&program, &mut active, &mut cursor, false, Some(12), &mut events);
    assert_eq!(events, vec![off(0), off(63), off(64), off(127)]);
    assert_eq!(cursor, NO_POSITION);
    for pitch in 0..128u8 {
        assert!(!active.is_playing(pitch));
    }
    run_block(&program, &mut active, &mut cursor, false, None, &mut events);
    assert_eq!(events, vec![]);
}

#[test]
fn flush_appends_to_what_is_there() {
    let mut active = ActiveNotes::new();
    active.set_playing(10, 0);
    let mut events = vec![on(3)];
    flush(&mut active, &mut events);
    assert_eq!(events, vec![on(3), off(10)]);
    assert!(!active.is_playing(10));
}

#[test]
fn fresh_start_triggers_what_has_started() {
    // Position 5.5 of a 4-beat loop is 1.5 within the loop.
    let mut state = loaded(&arpeggio());
    let mut events = Vec::new();
    state.process(playing_at(5 * BEAT + BEAT / 2), &mut events);
    // 60 started and is over, 64 started and sounds, 67 and 72 lie ahead.
    assert_eq!(events, vec![on(60), off(60), on(64)]);
    assert_eq!(state.last_program_beat(), BEAT + BEAT / 2);
    assert!(state.active_notes().is_playing(64));
    assert_eq!(state.active_notes().end_beat(64), 2 * BEAT);
}

#[test]
fn fresh_start_reaches_into_the_trigger_slack() {
    let mut state = loaded(&program(4 * BEAT, vec![note(60, BEAT, BEAT), note(61, BEAT + 1, BEAT)]));
    let mut events = Vec::new();
    state.process(playing_at(BEAT - 10_000), &mut events);
    assert_eq!(events, vec![on(60)]);
}

#[test]
fn fresh_start_flushes_what_was_left_sounding() {
    let program = {
        let mut program = StagedProgram::new();
        assert!(program.load(&arpeggio()));
        program
    };
    let mut active = ActiveNotes::new();
    active.set_playing(99, 123);
    let mut cursor = NO_POSITION;
    let mut events = Vec::new();
    run_block(&program, &mut active, &mut cursor, true, Some(0), &mut events);
    assert_eq!(events, vec![off(99), on(60)]);
}

#[test]
fn loop_wrap_flushes_before_new_triggers() {
    // A 4-beat loop; the last note runs to the loop's end and is still
    // sounding a tenth of a beat before it.
    let mut state = loaded(&arpeggio());
    let mut events = Vec::new();
    state.process(playing_at(4 * BEAT - 100_000), &mut events);
    assert_eq!(events, vec![on(60), off(60), on(64), off(64), on(67), off(67), on(72)]);
    state.process(playing_at(4 * BEAT + 100_000), &mut events);
    assert_eq!(events, vec![off(72), on(60)]);
    assert!(!state.active_notes().is_playing(72));
    assert!(state.active_notes().is_playing(60));
    assert_eq!(state.last_program_beat(), 100_000);
}

#[test]
fn small_step_back_is_no_wrap() {
    let mut state = loaded(&arpeggio());
    let mut events = Vec::new();
    state.process(playing_at(2 * BEAT + 500_000), &mut events);
    assert!(state.active_notes().is_playing(67));
    // Exactly one beat back is still within the margin.
    state.process(playing_at(BEAT + 500_000), &mut events);
    assert_eq!(events, vec![]);
    assert!(state.active_notes().is_playing(67));
    // One tick more is a wrap.
    state.process(playing_at(500_000 - 1), &mut events);
    assert_eq!(events, vec![off(67), on(60)]);
}

#[test]
fn playing_without_program_or_position_is_idle() {
    let mut state = SharedState::new();
    let mut events = vec![on(1)];
    state.process(playing_at(0), &mut events);
    assert_eq!(events, vec![]);
    assert_eq!(state.last_program_beat(), NO_POSITION);

    let mut state = loaded(&arpeggio());
    let transport = TransportState { playing: true, pos_beats: None, ..TransportState::default() };
    state.process(transport, &mut events);
    assert_eq!(events, vec![]);
    assert_eq!(state.last_program_beat(), NO_POSITION);
    assert_eq!(state.transport(), transport);
}

#[test]
fn transport_is_taken_over_whole() {
    let mut state = SharedState::new();
    let mut events = Vec::new();
    let first = TransportState {
        tempo: Some(120_000_000),
        time_sig_numerator: Some(3),
        time_sig_denominator: Some(4),
        pos_samples: Some(48_000),
        pos_beats: Some(2 * BEAT),
        pos_seconds: Some(1_000_000),
        playing: true,
        recording: true,
        loop_active: true,
        loop_start_beats: Some(0),
        loop_end_beats: Some(16 * BEAT),
    };
    state.process(first, &mut events);
    assert_eq!(state.transport(), first);
    state.process(stopped(), &mut events);
    assert_eq!(state.transport(), TransportState::default());
    assert_eq!(state.transport().loop_start_beats, None);
}

#[test]
fn negative_position_stays_negative_within_the_loop() {
    assert_eq!(program_beat(-5 * BEAT - 1, 4 * BEAT), -BEAT - 1);
    assert_eq!(program_beat(9 * BEAT, 4 * BEAT), BEAT);
    assert_eq!(program_beat(0, 1), 0);
    // Every block before zero counts as a first frame.
    let mut state = loaded(&arpeggio());
    let mut events = Vec::new();
    state.process(playing_at(-BEAT), &mut events);
    assert_eq!(events, vec![]);
    assert_eq!(state.last_program_beat(), -BEAT);
    state.process(playing_at(0), &mut events);
    assert_eq!(events, vec![on(60)]);
}

#[test]
fn second_note_of_a_sounding_pitch_is_not_triggered() {
    // Two notes of one pitch that overlap: the tracker holds one per pitch.
    let mut state = loaded(&program(8 * BEAT, vec![note(60, 0, 4 * BEAT), note(60, BEAT, BEAT)]));
    let mut events = Vec::new();
    state.process(playing_at(0), &mut events);
    assert_eq!(events, vec![on(60)]);
    state.process(playing_at(BEAT), &mut events);
    assert_eq!(events, vec![]);
    state.process(playing_at(4 * BEAT), &mut events);
    assert_eq!(events, vec![off(60)]);
}

#[test]
fn reload_leaves_sounding_notes_and_cursor() {
    let mut state = loaded(&arpeggio());
    let mut events = Vec::new();
    state.process(playing_at(0), &mut events);
    assert!(state.active_notes().is_playing(60));
    assert!(state.load_program(&program(4 * BEAT, vec![note(61, 0, BEAT)])));
    assert!(state.active_notes().is_playing(60));
    assert_eq!(state.last_program_beat(), 0);
    assert_eq!(state.program().version(), 2);
}

#[test]
fn fullest_block_fits_the_buffer() {
    // Every pitch sounds, and every slot holds a short note that has started
    // and is over at the position.
    let mut notes = Vec::new();
    for slot in 0..256u64 {
        notes.push(note(slot % 128, 0, 1));
    }
    let program = {
        let mut program = StagedProgram::new();
        assert!(program.load(&program_of(notes)));
        program
    };
    let mut active = ActiveNotes::new();
    for pitch in 0..128u8 {
        active.set_playing(pitch, 0);
    }
    let mut cursor = NO_POSITION;
    let mut events = Vec::with_capacity(MAX_BLOCK_EVENTS);
    run_block(&program, &mut active, &mut cursor, true, Some(BEAT), &mut events);
    assert_eq!(MAX_BLOCK_EVENTS, 640);
    assert_eq!(events.len(), 640);
    assert_eq!(events.capacity(), 640);
    assert_eq!(events[127], off(127));
    assert_eq!(events[128], NoteEvent::NoteOn { pitch: 0, velocity: 800_000 });
    assert_eq!(events[639], off(127));
}

fn program_of(notes: Vec<NotePayload>) -> ProgramPayload {
    program(16 * BEAT, notes)
}

#[test]
fn later_lap_pairs_every_note_like_the_first() {
    // A 5-beat loop whose notes are all over by beat 4.
    let payload = program(
        5 * BEAT,
        vec![note(60, 0, BEAT), note(64, BEAT, BEAT), note(60, 2 * BEAT, 2 * BEAT)],
    );
    let mut state = loaded(&payload);
    let mut events = Vec::new();
    let mut laps: Vec<Vec<NoteEvent>> = Vec::new();
    for lap in 0..3 {
        let mut seen = Vec::new();
        for step in [0, BEAT + 1, 3 * BEAT, 4 * BEAT + 500_000] {
            state.process(playing_at(lap * 5 * BEAT + step), &mut events);
            seen.extend(events.iter().copied());
        }
        laps.push(seen);
    }
    state.process(stopped(), &mut events);
    assert_eq!(events, vec![]);
    for seen in &laps {
        assert_eq!(of_pitch(seen, 60), vec![on(60), off(60), on(60), off(60)]);
        assert_eq!(of_pitch(seen, 64), vec![on(64), off(64)]);
        assert_eq!(seen.len(), 6);
    }
    assert_eq!(laps[0], laps[1]);
    assert_eq!(laps[1], laps[2]);
}

#[test]
fn events_fit_the_tracker_on_any_program() {
    // Overlapping notes, out of slot order, with jumps, stops and restarts.
    let payload = program(
        7 * BEAT + 3,
        vec![
            note(60, 3 * BEAT, 5 * BEAT),
            note(60, 0, 4 * BEAT),
            note(61, BEAT, 1),
            note(60, BEAT, BEAT),
            note(61, 0, 20 * BEAT),
            note(62, 6 * BEAT, 2 * BEAT),
        ],
    );
    let mut state = loaded(&payload);
    let mut events = Vec::new();
    let mut sounding = [false; 128];
    let mut position: i64 = 0;
    let mut seed: u64 = 12345;
    for step in 0..3_000 {
        seed = seed.wrapping_mul(6364136223846793005).wrapping_add(1442695040888963407);
        let roll = (seed >> 33) % 100;
        let transport = if roll < 5 {
            stopped()
        } else {
            if roll < 15 {
                position -= ((seed >> 40) % 3_000_000) as i64;
            } else {
                position += ((seed >> 40) % 1_500_000) as i64;
            }
            playing_at(position)
        };
        state.process(transport, &mut events);
        for event in &events {
            match *event {
                NoteEvent::NoteOn { pitch, .. } => {
                    assert!(!sounding[pitch as usize], "step {step}: {pitch} switched on twice");
                    sounding[pitch as usize] = true;
                }
                NoteEvent::NoteOff { pitch } => {
                    assert!(sounding[pitch as usize], "step {step}: {pitch} switched off twice");
                    sounding[pitch as usize] = false;
                }
            }
        }
        for pitch in 0..128u8 {
            assert_eq!(state.active_notes().is_playing(pitch), sounding[pitch as usize]);
        }
        assert!(events.len() <= MAX_BLOCK_EVENTS);
    }
}
