//! The record that the processing thread and the interface thread share.
//!
//! The processing thread is its only writer while a block runs; the interface
//! reads it and now and then replaces the whole program. Whoever holds the
//! record holds all of it: a block is either run in full or not at all.

use crate::active_notes::{pitches_in_range, ActiveNotes};
use crate::json::payload_of;
use crate::program::{loaded_from, ProgramPayload, ProgramView, StagedProgram};
use crate::scheduler::{block_result, run_block, NoteEvent, MAX_BLOCK_EVENTS};
use crate::time::NO_POSITION;
use vstd::prelude::*;

verus! {

/// A snapshot of the host's transport, taken once per block.
///
/// Beats are in ticks, the tempo in millionths of a beat per minute, seconds
/// in microseconds. A value the host does not report is `None`.
#[derive(Clone, Copy, Debug, PartialEq, Eq)]
pub struct TransportState {
    pub tempo: Option<i64>,
    pub time_sig_numerator: Option<i32>,
    pub time_sig_denominator: Option<i32>,
    pub pos_samples: Option<i64>,
    pub pos_beats: Option<i64>,
    pub pos_seconds: Option<i64>,
    pub playing: bool,
    pub recording: bool,
    pub loop_active: bool,
    pub loop_start_beats: Option<i64>,
    pub loop_end_beats: Option<i64>,
}

impl TransportState {
    /// The transport before the host has reported anything: stopped, with
    /// nothing known.
    pub open spec fn unknown() -> TransportState {
        TransportState {
            tempo: None,
            time_sig_numerator: None,
            time_sig_denominator: None,
            pos_samples: None,
            pos_beats: None,
            pos_seconds: None,
            playing: false,
            recording: false,
            loop_active: false,
            loop_start_beats: None,
            loop_end_beats: None,
        }
    }
}

impl Default for TransportState {
    fn default() -> (transport: TransportState)
        ensures
            transport == TransportState::unknown(),
    {
        TransportState {
            tempo: None,
            time_sig_numerator: None,
            time_sig_denominator: None,
            pos_samples: None,
            pos_beats: None,
            pos_seconds: None,
            playing: false,
            recording: false,
            loop_active: false,
            loop_start_beats: None,
            loop_end_beats: None,
        }
    }
}

/// The tab the interface shows.
#[derive(Clone, Copy, Debug, PartialEq, Eq, Structural)]
pub enum Tab {
    Live,
    Program,
    Info,
}

/// What the shared record holds, apart from how it is laid out.
pub struct SharedView {
    /// The transport as of the last block that ran.
    pub transport: TransportState,
    /// The program.
    pub program: ProgramView,
    /// The sounding pitches, each with its end beat.
    pub sounding: Map<u8, i64>,
    /// The position within the program that the last block ran at; negative
    /// when there is none.
    pub cursor: i64,
    /// The tab the interface shows.
    pub tab: Tab,
}

impl SharedView {
    /// What every record in memory satisfies: its program is valid, and only
    /// pitches the tracker can hold are sounding.
    pub open spec fn valid(self) -> bool {
        self.program.valid() && pitches_in_range(self.sounding)
    }

    /// The record after a block with this transport snapshot.
    pub open spec fn after_block(self, transport: TransportState) -> SharedView {
        let result = block_result(
            self.program,
            self.sounding,
            self.cursor,
            transport.playing,
            transport.pos_beats,
        );
        SharedView { transport, sounding: result.sounding, cursor: result.cursor, ..self }
    }

    /// The events of a block with this transport snapshot.
    pub open spec fn block_events(self, transport: TransportState) -> Seq<NoteEvent> {
        block_result(
            self.program,
            self.sounding,
            self.cursor,
            transport.playing,
            transport.pos_beats,
        ).events
    }
}

/// The shared record: transport mirror, program, sounding notes, cursor and
/// the interface's selection.
pub struct SharedState {
    transport: TransportState,
    current_tab: Tab,
    program: StagedProgram,
    active_notes: ActiveNotes,
    last_program_beat: i64,
}

impl View for SharedState {
    type V = SharedView;

    closed spec fn view(&self) -> SharedView {
        SharedView {
            transport: self.transport,
            program: self.program@,
            sounding: self.active_notes@,
            cursor: self.last_program_beat,
            tab: self.current_tab,
        }
    }
}

impl SharedState {
    /// The record at start-up: nothing loaded, nothing sounding, no previous
    /// position, the live tab selected.
    pub open spec fn initial() -> SharedView {
        SharedView {
            transport: TransportState::unknown(),
            program: ProgramView::initial(),
            sounding: Map::empty(),
            cursor: NO_POSITION,
            tab: Tab::Live,
        }
    }

    /// The record at start-up.
    pub fn new() -> (state: SharedState)
        ensures
            state@ == SharedState::initial(),
    {
        SharedState {
            transport: TransportState::default(),
            current_tab: Tab::Live,
            program: StagedProgram::new(),
            active_notes: ActiveNotes::new(),
            last_program_beat: NO_POSITION,
        }
    }

    /// Runs one processing block: takes over the transport snapshot as a
    /// whole, lets the scheduler run, and leaves the block's events in
    /// `events`.
    pub fn process(&mut self, transport: TransportState, events: &mut Vec<NoteEvent>)
        ensures
            final(self)@ == old(self)@.after_block(transport),
            final(events)@ == old(self)@.block_events(transport),
            final(events)@.len() <= MAX_BLOCK_EVENTS,
            old(self)@.valid(),
            final(self)@.valid(),
    {
        proof {
            use_type_invariant(&self.program);
            self.program.lemma_view_valid();
            self.active_notes.lemma_pitches_in_range();
        }
        self.transport = transport;
        run_block(
            &self.program,
            &mut self.active_notes,
            &mut self.last_program_beat,
            transport.playing,
            transport.pos_beats,
            events,
        );
        proof {
            self.active_notes.lemma_pitches_in_range();
        }
    }

    /// Replaces the program by what `payload` describes. The sounding notes
    /// and the cursor stay as they are.
    pub fn load_program(&mut self, payload: &ProgramPayload) -> (ok: bool)
        ensures
            ok == (payload.notes is Some),
            ok ==> final(self)@ == (SharedView {
                program: loaded_from(old(self)@.program, payload@),
                ..old(self)@
            }),
            !ok ==> final(self)@ == old(self)@,
    {
        self.program.load(payload)
    }

    /// Replaces the program by what the JSON value describes. The sounding
    /// notes and the cursor stay as they are.
    pub fn load_from_json(&mut self, json: &serde_json::Value) -> (ok: bool)
        ensures
            ok == (payload_of(*json).notes is Some),
            ok ==> final(self)@ == (SharedView {
                program: loaded_from(old(self)@.program, payload_of(*json)),
                ..old(self)@
            }),
            !ok ==> final(self)@ == old(self)@,
    {
        self.program.load_from_json(json)
    }

    /// Whether the program holds any note.
    pub fn has_program(&self) -> (present: bool)
        ensures
            present == (self@.program.notes.len() > 0),
    {
        self.program.note_count() > 0
    }

    /// Selects the tab the interface shows.
    pub fn set_current_tab(&mut self, tab: Tab)
        ensures
            final(self)@ == (SharedView { tab, ..old(self)@ }),
    {
        self.current_tab = tab;
    }

    /// The tab the interface shows.
    pub fn current_tab(&self) -> (tab: Tab)
        ensures
            tab == self@.tab,
    {
        self.current_tab
    }

    /// The transport as of the last block that ran.
    pub fn transport(&self) -> (transport: TransportState)
        ensures
            transport == self@.transport,
    {
        self.transport
    }

    /// The program.
    pub fn program(&self) -> (program: &StagedProgram)
        ensures
            program@ == self@.program,
    {
        &self.program
    }

    /// The sounding notes.
    pub fn active_notes(&self) -> (notes: &ActiveNotes)
        ensures
            notes@ == self@.sounding,
    {
        &self.active_notes
    }

    /// The position within the program that the last block ran at; negative
    /// when there is none.
    pub fn last_program_beat(&self) -> (cursor: i64)
        ensures
            cursor == self@.cursor,
    {
        self.last_program_beat
    }
}

impl Default for SharedState {
    fn default() -> (state: SharedState)
        ensures
            state@ == SharedState::initial(),
    {
        SharedState::new()
    }
}

} // verus!
