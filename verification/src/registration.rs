//! When to ask the program source for a program.
//!
//! A freshly started plugin does not know its track yet. A background worker
//! looks for the track name at fixed intervals, a bounded number of times;
//! once the name is there it registers, unless a program has arrived in the
//! meantime, and stops. The interface asks on its own as long as no program
//! is there. The waiting and the asking are done by the caller; what to do
//! next is decided here.

use vstd::prelude::*;

verus! {

/// How often the background worker looks for the track name.
pub const POLL_LIMIT: u32 = 50;

/// How long the background worker waits before each look, in milliseconds.
pub const POLL_INTERVAL_MS: u64 = 100;

/// What the background worker does after a look.
#[derive(Clone, Copy, Debug, PartialEq, Eq, Structural)]
pub enum WorkerStep {
    /// Wait one more interval and look again.
    Wait,
    /// Register with the program source, load what it returns, and stop.
    Register,
    /// Stop.
    Stop,
}

/// The background worker: the number of looks it has left.
pub struct RegistrationWorker {
    polls_left: u32,
}

/// Whether a track name can be registered: it is known and not empty.
pub open spec fn usable_name(name: Option<Seq<char>>) -> bool {
    name matches Some(text) && text.len() > 0
}

/// What the worker does after a look, and how many looks it has left then.
/// With the name at hand it stops, registering first if no program is there;
/// without it, it waits again unless this was its last look.
pub open spec fn after_poll(polls_left: u32, named: bool, has_program: bool) -> (WorkerStep, u32) {
    if polls_left == 0 {
        (WorkerStep::Stop, 0)
    } else if named {
        (
            if has_program {
                WorkerStep::Stop
            } else {
                WorkerStep::Register
            },
            0,
        )
    } else if polls_left == 1 {
        (WorkerStep::Stop, 0)
    } else {
        (WorkerStep::Wait, (polls_left - 1) as u32)
    }
}

/// Whether the interface registers on this redraw: only when the record
/// could be read and shows no program, and the track has a usable name.
pub open spec fn interface_registers(has_program: Option<bool>, name: Option<Seq<char>>) -> bool {
    has_program == Some(false) && usable_name(name)
}

/// Whether a track name can be registered.
pub fn is_usable_name(name: Option<&str>) -> (usable: bool)
    ensures
        usable == usable_name(
            match name {
                Some(text) => Some(text@),
                None => None,
            },
        ),
{
    match name {
        Some(text) => !text.is_empty(),
        None => false,
    }
}

/// Whether the interface registers on this redraw. `has_program` is `None`
/// when the record was held elsewhere; a program is then taken to be there.
pub fn should_register(has_program: Option<bool>, name: Option<&str>) -> (register: bool)
    ensures
        register == interface_registers(
            has_program,
            match name {
                Some(text) => Some(text@),
                None => None,
            },
        ),
{
    match has_program {
        Some(false) => is_usable_name(name),
        _ => false,
    }
}

impl RegistrationWorker {
    /// The looks the worker has left.
    pub closed spec fn remaining(&self) -> u32 {
        self.polls_left
    }

    /// A worker with all its looks left.
    pub fn new() -> (worker: RegistrationWorker)
        ensures
            worker.remaining() == POLL_LIMIT,
    {
        RegistrationWorker { polls_left: POLL_LIMIT }
    }

    /// The looks the worker has left.
    pub fn polls_left(&self) -> (left: u32)
        ensures
            left == self.remaining(),
    {
        self.polls_left
    }

    /// One look, after the caller has waited one interval: `named` says
    /// whether the track has a usable name by now, `has_program` whether a
    /// program is there.
    pub fn poll(&mut self, named: bool, has_program: bool) -> (step: WorkerStep)
        ensures
            (step, final(self).remaining()) == after_poll(old(self).remaining(), named, has_program),
            step == WorkerStep::Wait ==> final(self).remaining() < old(self).remaining(),
            step != WorkerStep::Wait ==> final(self).remaining() == 0,
    {
        if self.polls_left == 0 {
            WorkerStep::Stop
        } else if named {
            self.polls_left = 0;
            if has_program {
                WorkerStep::Stop
            } else {
                WorkerStep::Register
            }
        } else if self.polls_left == 1 {
            self.polls_left = 0;
            WorkerStep::Stop
        } else {
            self.polls_left = self.polls_left - 1;
            WorkerStep::Wait
        }
    }
}

} // verus!
