//! The guard around the shared record.
//!
//! The record lives in an `AtomicRefCell`. Every access from here is an
//! attempt that never waits: the processing thread must not block, so when
//! the record is held elsewhere the block is skipped as a whole, and a load
//! that finds the record held is given up and can be tried again later.

use crate::json::payload_of;
use crate::program::{loaded_from, ProgramPayload};
use crate::scheduler::{NoteEvent, MAX_BLOCK_EVENTS};
use crate::shared::{SharedState, SharedView, Tab, TransportState};
use vstd::prelude::*;

verus! {

/// The cell of `atomic_refcell`, carried without looking inside.
#[verifier::external_type_specification]
#[verifier::external_body]
#[verifier::reject_recursive_types(T)]
pub struct ExAtomicRefCell<T: ?Sized>(atomic_refcell::AtomicRefCell<T>);

/// The exclusive borrow of `atomic_refcell`, carried without looking inside.
#[verifier::external_type_specification]
#[verifier::external_body]
#[verifier::reject_recursive_types(T)]
pub struct ExAtomicRefMut<'b, T: ?Sized + 'b>(atomic_refcell::AtomicRefMut<'b, T>);

/// The error of a failed exclusive borrow, carried without looking inside.
#[verifier::external_type_specification]
#[verifier::external_body]
pub struct ExBorrowMutError(atomic_refcell::BorrowMutError);

/// `AtomicRefCell::new`. Nothing is claimed of the cell.
pub assume_specification<T>[ atomic_refcell::AtomicRefCell::<T>::new ](
    value: T,
) -> atomic_refcell::AtomicRefCell<T>;

/// `AtomicRefCell::try_borrow_mut`. Nothing is claimed of the outcome: whether
/// the borrow succeeds depends on the other threads.
pub assume_specification<T: ?Sized>[ atomic_refcell::AtomicRefCell::<T>::try_borrow_mut ](
    cell: &atomic_refcell::AtomicRefCell<T>,
) -> Result<atomic_refcell::AtomicRefMut<'_, T>, atomic_refcell::BorrowMutError>;

/// Dereferences an exclusive borrow (`DerefMut` of `AtomicRefMut`). Nothing
/// is claimed of the record found there.
#[verifier::external_body]
fn held_state<'a, 'b>(guard: &'a mut atomic_refcell::AtomicRefMut<'b, SharedState>) -> &'a mut SharedState {
    &mut *guard
}

/// How an attempt to load a program ended.
#[derive(Clone, Copy, Debug, PartialEq, Eq, Structural)]
pub enum LoadAttempt {
    /// The record was held elsewhere; nothing was done.
    Busy,
    /// The record was free, but the source has no collection of notes; the
    /// program is as it was.
    Rejected,
    /// The program was replaced.
    Loaded,
}

/// What an attempt to load leaves, for either way the attempt to get hold of
/// the record ends: without the record nothing is done; with it, the program
/// is replaced if the payload has notes and left as it was if not.
pub fn load_if_held(held: Option<&mut SharedState>, payload: &ProgramPayload) -> (attempt:
    LoadAttempt)
    ensures
        held is None ==> attempt == LoadAttempt::Busy,
        held is Some ==> attempt == (if payload.notes is Some {
            LoadAttempt::Loaded
        } else {
            LoadAttempt::Rejected
        }),
        held is Some ==> final(held->0)@ == (if payload.notes is Some {
            SharedView { program: loaded_from(held->0@.program, payload@), ..held->0@ }
        } else {
            held->0@
        }),
{
    match held {
        Some(state) => {
            if state.load_program(payload) {
                LoadAttempt::Loaded
            } else {
                LoadAttempt::Rejected
            }
        },
        None => LoadAttempt::Busy,
    }
}

/// What an attempt to load from JSON leaves, for either way the attempt to
/// get hold of the record ends: without the record nothing is done; with it,
/// the program is replaced if the value has an array of notes and left as it
/// was if not.
pub fn load_json_if_held(held: Option<&mut SharedState>, json: &serde_json::Value) -> (attempt:
    LoadAttempt)
    ensures
        held is None ==> attempt == LoadAttempt::Busy,
        held is Some ==> attempt == (if payload_of(*json).notes is Some {
            LoadAttempt::Loaded
        } else {
            LoadAttempt::Rejected
        }),
        held is Some ==> final(held->0)@ == (if payload_of(*json).notes is Some {
            SharedView { program: loaded_from(held->0@.program, payload_of(*json)), ..held->0@ }
        } else {
            held->0@
        }),
{
    match held {
        Some(state) => {
            if state.load_from_json(json) {
                LoadAttempt::Loaded
            } else {
                LoadAttempt::Rejected
            }
        },
        None => LoadAttempt::Busy,
    }
}

/// Whether the program of the record holds any note, for either way the
/// attempt to get hold of the record ends: `None` without the record.
pub fn has_program_if_held(held: Option<&SharedState>) -> (present: Option<bool>)
    ensures
        present == (match held {
            Some(state) => Some(state@.program.notes.len() > 0),
            None => None,
        }),
{
    match held {
        Some(state) => Some(state.has_program()),
        None => None,
    }
}

/// Selects the tab the interface shows, for either way the attempt to get
/// hold of the record ends: without the record nothing is done.
pub fn select_tab_if_held(held: Option<&mut SharedState>, tab: Tab) -> (done: bool)
    ensures
        done == (held is Some),
        held is Some ==> final(held->0)@ == (SharedView { tab, ..held->0@ }),
{
    match held {
        Some(state) => {
            state.set_current_tab(tab);
            true
        },
        None => false,
    }
}

/// The shared record behind its guard.
pub struct SharedCell {
    cell: atomic_refcell::AtomicRefCell<SharedState>,
}

impl SharedCell {
    /// Puts a record behind a guard.
    ///
    /// Nothing is stated of the guard made: what a cell holds changes under
    /// the hands of other threads, so it is no function of the cell and has
    /// no name in contracts.
    pub fn new(state: SharedState) -> SharedCell {
        SharedCell { cell: atomic_refcell::AtomicRefCell::new(state) }
    }

    /// The cell that this guard keeps the record in.
    pub closed spec fn inner(&self) -> atomic_refcell::AtomicRefCell<SharedState> {
        self.cell
    }

    /// The cell itself, for readers that borrow the record to display it.
    pub fn cell(&self) -> (cell: &atomic_refcell::AtomicRefCell<SharedState>)
        ensures
            *cell == self.inner(),
    {
        &self.cell
    }

    /// One processing block, as the processing thread runs it: if the record
    /// is free, the block runs in full on the record as it is found; if the
    /// record is held elsewhere, nothing is changed and the block has no
    /// events.
    pub fn try_process(&self, transport: TransportState, events: &mut Vec<NoteEvent>) -> (ran: bool)
        ensures
            !ran ==> final(events)@ == Seq::<NoteEvent>::empty(),
            ran ==> exists|found: SharedView|
                found.valid() && final(events)@ == #[trigger] found.block_events(transport),
            final(events)@.len() <= MAX_BLOCK_EVENTS,
    {
        match self.cell.try_borrow_mut() {
            Ok(mut guard) => {
                let state = held_state(&mut guard);
                let ghost found = state@;
                state.process(transport, events);
                assert(found.valid() && events@ == found.block_events(transport));
                true
            },
            Err(_) => {
                events.clear();
                false
            },
        }
    }

    /// Whether the program holds any note; `None` if the record is held
    /// elsewhere. Whether the record is free is for the cell to say, and which
    /// record is found there is not known beforehand; what is answered for
    /// each outcome is stated by `has_program_if_held`.
    pub fn try_has_program(&self) -> (present: Option<bool>) {
        match self.cell.try_borrow_mut() {
            Ok(mut guard) => {
                let state = held_state(&mut guard);
                has_program_if_held(Some(&*state))
            },
            Err(_) => has_program_if_held(None),
        }
    }

    /// Attempts to replace the program by what `payload` describes. Whether
    /// the record is free is for the cell to say; what is done for each
    /// outcome is stated by `load_if_held`.
    pub fn try_load(&self, payload: &ProgramPayload) -> (attempt: LoadAttempt)
        ensures
            attempt == LoadAttempt::Loaded ==> payload.notes is Some,
            attempt == LoadAttempt::Rejected ==> payload.notes is None,
    {
        match self.cell.try_borrow_mut() {
            Ok(mut guard) => load_if_held(Some(held_state(&mut guard)), payload),
            Err(_) => load_if_held(None, payload),
        }
    }

    /// Attempts to replace the program by what the JSON value describes.
    /// Whether the record is free is for the cell to say; what is done for
    /// each outcome is stated by `load_json_if_held`.
    pub fn try_load_from_json(&self, json: &serde_json::Value) -> (attempt: LoadAttempt)
        ensures
            attempt == LoadAttempt::Loaded ==> payload_of(*json).notes is Some,
            attempt == LoadAttempt::Rejected ==> payload_of(*json).notes is None,
    {
        match self.cell.try_borrow_mut() {
            Ok(mut guard) => load_json_if_held(Some(held_state(&mut guard)), json),
            Err(_) => load_json_if_held(None, json),
        }
    }

    /// Attempts to select the tab the interface shows; `false` if the record
    /// is held elsewhere. Whether the record is free is for the cell to say;
    /// what is done for each outcome is stated by `select_tab_if_held`.
    pub fn try_select_tab(&self, tab: Tab) -> (done: bool) {
        match self.cell.try_borrow_mut() {
            Ok(mut guard) => select_tab_if_held(Some(held_state(&mut guard)), tab),
            Err(_) => select_tab_if_held(None, tab),
        }
    }
}

} // verus!
