//! The decisions of the interactive loop: which command a key stroke means,
//! and what each command does to the application state. The loop itself —
//! sampling the process table, drawing, polling input — lives outside the
//! library and feeds plain values in.

use vstd::prelude::*;

use crate::entry::{EntryLayout, EntryView};
use crate::registry::{set_detail_model, Registry};

verus! {

/// What one input event asks for. Unrecognized input is a no-op.
#[derive(Clone, Copy, Debug, PartialEq, Eq, Structural)]
pub enum Command {
    Quit,
    Reset,
    ExpandAll,
    CondenseAll,
    Nop,
}

/// The key bindings: `q` or Ctrl-C quit, `r` resets, `E` expands all,
/// `C` condenses all; anything else does nothing.
pub open spec fn command_of(c: char, ctrl: bool) -> Command {
    if c == 'q' || (c == 'c' && ctrl) {
        Command::Quit
    } else if c == 'r' {
        Command::Reset
    } else if c == 'E' {
        Command::ExpandAll
    } else if c == 'C' {
        Command::CondenseAll
    } else {
        Command::Nop
    }
}

/// Map a pressed character key, with its control-modifier flag, to the
/// command it stands for.
pub fn command_for_key(c: char, ctrl: bool) -> (r: Command)
    ensures
        r == command_of(c, ctrl),
{
    if c == 'q' || (c == 'c' && ctrl) {
        Command::Quit
    } else if c == 'r' {
        Command::Reset
    } else if c == 'E' {
        Command::ExpandAll
    } else if c == 'C' {
        Command::CondenseAll
    } else {
        Command::Nop
    }
}

/// The state the interactive loop threads through its iterations: the
/// registry of records and whether the loop keeps running. It starts
/// running and stops only on the quit command (or a fatal failure outside
/// the library).
pub struct Application {
    pub registry: Registry,
    pub is_running: bool,
}

impl Application {
    /// A running application with an empty registry for `query`.
    pub fn new(query: String) -> (a: Application)
        ensures
            a.registry@ == Seq::<EntryView>::empty(),
            a.registry.query_view() == query@,
            a.registry.wf(),
            a.is_running,
    {
        Application { registry: Registry::new(query), is_running: true }
    }

    /// Leave the running state; the registry is untouched.
    pub fn stop(&mut self)
        ensures
            !final(self).is_running,
            final(self).registry == old(self).registry,
    {
        self.is_running = false;
    }

    /// Execute one command: quit stops the loop, reset clears the
    /// registry, the bulk detail commands overwrite every record's detail
    /// mode, and a no-op changes nothing.
    pub fn handle_command(&mut self, cmd: Command)
        requires
            old(self).registry.wf(),
        ensures
            final(self).registry.wf(),
            final(self).registry.query_view() == old(self).registry.query_view(),
            match cmd {
                Command::Quit => {
                    &&& final(self).registry == old(self).registry
                    &&& !final(self).is_running
                },
                Command::Reset => {
                    &&& final(self).registry@ == Seq::<EntryView>::empty()
                    &&& final(self).is_running == old(self).is_running
                },
                Command::ExpandAll => {
                    &&& final(self).registry@ == set_detail_model(
                        old(self).registry@,
                        EntryLayout::Expanded,
                    )
                    &&& final(self).is_running == old(self).is_running
                },
                Command::CondenseAll => {
                    &&& final(self).registry@ == set_detail_model(
                        old(self).registry@,
                        EntryLayout::Condensed,
                    )
                    &&& final(self).is_running == old(self).is_running
                },
                Command::Nop => *final(self) == *old(self),
            },
    {
        match cmd {
            Command::Quit => self.stop(),
            Command::Reset => self.registry.reset(),
            Command::ExpandAll => self.registry.set_detail_all(EntryLayout::Expanded),
            Command::CondenseAll => self.registry.set_detail_all(EntryLayout::Condensed),
            Command::Nop => {},
        }
    }
}

} // verus!
