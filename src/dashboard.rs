use crate::usage::{resource_usage, usage_of, ResourceUsage};
use vstd::prelude::*;

verus! {

/// Lines of the log panel.
pub const LOG_LINES: usize = 10;

/// Length of one refresh cycle, in milliseconds.
pub const CYCLE_MS: u64 = 1000;

/// How long each cycle waits for a keypress, in milliseconds.
pub const KEY_POLL_MS: u64 = 100;

/// A keypress, as far as the dashboard tells keys apart.
#[derive(Clone, Copy, Debug, PartialEq, Eq, Structural)]
pub enum Key {
    Char(char),
    Esc,
    Other,
}

pub open spec fn quits(k: Key) -> bool {
    k == Key::Char('q') || k == Key::Esc
}

/// Whether `key` asks the dashboard to quit: `q` or escape.
pub fn is_quit_key(key: Key) -> (r: bool)
    ensures
        r == quits(key),
{
    match key {
        Key::Char(c) => c == 'q',
        Key::Esc => true,
        Key::Other => false,
    }
}

#[derive(Clone, Copy, Debug, PartialEq, Eq, Structural)]
pub enum LoopState {
    /// Refreshing the screen once per cycle.
    Running,
    /// Handing the terminal back to the mode it had before the dashboard started.
    ShuttingDown,
    /// The terminal is restored; the process ends.
    Finished,
}

/// What the loop learned since its last step.
#[derive(Clone, Copy, Debug, PartialEq, Eq, Structural)]
pub enum LoopEvent {
    /// The keyboard poll ended, with the key pressed if any.
    Polled(Option<Key>),
    /// A cycle could not complete (the terminal or a status query failed).
    CycleFailed,
    /// The terminal is back in the mode it had before the dashboard started.
    Restored,
}

/// What the loop asks its driver to do.
#[derive(Clone, Copy, Debug, PartialEq, Eq, Structural)]
pub enum LoopAction {
    /// Sample the status, drain new log lines, draw a frame, then sleep out the cycle.
    Refresh,
    /// Leave the alternate screen, show the cursor and end raw input.
    RestoreTerminal,
    /// End the process.
    Exit,
}

/// The loop's transition on one event.
pub open spec fn next(s: LoopState, e: LoopEvent) -> (LoopState, LoopAction) {
    match s {
        LoopState::Running => match e {
            LoopEvent::Polled(Some(k)) => if quits(k) {
                (LoopState::ShuttingDown, LoopAction::RestoreTerminal)
            } else {
                (LoopState::Running, LoopAction::Refresh)
            },
            LoopEvent::Polled(None) => (LoopState::Running, LoopAction::Refresh),
            _ => (LoopState::ShuttingDown, LoopAction::RestoreTerminal),
        },
        LoopState::ShuttingDown => match e {
            LoopEvent::Restored => (LoopState::Finished, LoopAction::Exit),
            _ => (LoopState::ShuttingDown, LoopAction::RestoreTerminal),
        },
        LoopState::Finished => (LoopState::Finished, LoopAction::Exit),
    }
}

/// The actions the loop takes, from state `s`, on `events` in order.
pub open spec fn actions(s: LoopState, events: Seq<LoopEvent>) -> Seq<LoopAction>
    decreases events.len(),
{
    if events.len() == 0 {
        Seq::empty()
    } else {
        let (t, a) = next(s, events[0]);
        seq![a] + actions(t, events.subrange(1, events.len() as int))
    }
}

/// One step of the refresh loop.
pub fn step(state: LoopState, event: LoopEvent) -> (r: (LoopState, LoopAction))
    ensures
        r == next(state, event),
{
    match state {
        LoopState::Running => match event {
            LoopEvent::Polled(Some(k)) => if is_quit_key(k) {
                (LoopState::ShuttingDown, LoopAction::RestoreTerminal)
            } else {
                (LoopState::Running, LoopAction::Refresh)
            },
            LoopEvent::Polled(None) => (LoopState::Running, LoopAction::Refresh),
            _ => (LoopState::ShuttingDown, LoopAction::RestoreTerminal),
        },
        LoopState::ShuttingDown => match event {
            LoopEvent::Restored => (LoopState::Finished, LoopAction::Exit),
            _ => (LoopState::ShuttingDown, LoopAction::RestoreTerminal),
        },
        LoopState::Finished => (LoopState::Finished, LoopAction::Exit),
    }
}

proof fn lemma_actions_len(s: LoopState, events: Seq<LoopEvent>)
    ensures
        actions(s, events).len() == events.len(),
    decreases events.len(),
{
    if events.len() > 0 {
        let (t, a) = next(s, events[0]);
        lemma_actions_len(t, events.subrange(1, events.len() as int));
    }
}

proof fn lemma_exit_witness(s: LoopState, events: Seq<LoopEvent>, j: int) -> (w: (int, int))
    requires
        s != LoopState::Finished,
        0 <= j < events.len(),
        actions(s, events)[j] == LoopAction::Exit,
    ensures
        0 <= w.1 <= j,
        events[w.1] == LoopEvent::Restored,
        s == LoopState::Running ==> 0 <= w.0 < w.1 && actions(s, events)[w.0]
            == LoopAction::RestoreTerminal,
    decreases events.len(),
{
    let (t, a) = next(s, events[0]);
    let rest = events.subrange(1, events.len() as int);
    let acts = actions(s, events);
    lemma_actions_len(t, rest);
    assert(acts == seq![a] + actions(t, rest));
    assert(acts[0] == a);
    if s == LoopState::ShuttingDown && events[0] == LoopEvent::Restored {
        (0, 0)
    } else {
        assert(j > 0);
        assert(acts[j] == actions(t, rest)[j - 1]);
        let v = lemma_exit_witness(t, rest, j - 1);
        assert(events[v.1 + 1] == rest[v.1]);
        if s == LoopState::Running && t == LoopState::Running {
            assert(acts[v.0 + 1] == actions(t, rest)[v.0]);
            (v.0 + 1, v.1 + 1)
        } else {
            (0, v.1 + 1)
        }
    }
}

/// From a running dashboard, whatever happens, the process exits only after
/// the terminal was told to restore and reported that it did.
pub proof fn lemma_restore_before_exit(events: Seq<LoopEvent>)
    ensures
        forall|j: int|
            0 <= j < events.len() && #[trigger] actions(LoopState::Running, events)[j]
                == LoopAction::Exit ==> exists|i: int, m: int|
                0 <= i < m <= j && actions(LoopState::Running, events)[i]
                    == LoopAction::RestoreTerminal && events[m] == LoopEvent::Restored,
{
    assert forall|j: int|
        0 <= j < events.len() && #[trigger] actions(LoopState::Running, events)[j]
            == LoopAction::Exit implies exists|i: int, m: int|
        0 <= i < m <= j && actions(LoopState::Running, events)[i] == LoopAction::RestoreTerminal
            && events[m] == LoopEvent::Restored by {
        let w = lemma_exit_witness(LoopState::Running, events, j);
        assert(0 <= w.0 < w.1 <= j);
    }
}

/// A quit key seen by the poll sends a running dashboard to restore the
/// terminal, and it exits once the terminal reports that it is restored.
pub proof fn lemma_quit_key_restores(k: Key)
    requires
        quits(k),
    ensures
        next(LoopState::Running, LoopEvent::Polled(Some(k))) == (
            LoopState::ShuttingDown,
            LoopAction::RestoreTerminal,
        ),
        next(LoopState::ShuttingDown, LoopEvent::Restored) == (
            LoopState::Finished,
            LoopAction::Exit,
        ),
{
}

/// How long to sleep after a cycle's work took `elapsed_ms`, so that cycles
/// start `cycle_ms` apart; zero when the work overran the cycle.
pub fn remaining_sleep_ms(cycle_ms: u64, elapsed_ms: u64) -> (r: u64)
    ensures
        elapsed_ms < cycle_ms ==> r == cycle_ms - elapsed_ms,
        elapsed_ms >= cycle_ms ==> r == 0,
{
    if elapsed_ms < cycle_ms {
        cycle_ms - elapsed_ms
    } else {
        0
    }
}

/// Whether an effective user id is the superuser's.
pub fn is_privileged(euid: u32) -> (r: bool)
    ensures
        r == (euid == 0),
{
    euid == 0
}

/// One point-in-time view of the server; `None` marks a query that failed.
pub struct StatusSnapshot {
    /// What the server's version query printed on its error stream.
    pub version: Option<String>,
    /// The configuration test's standard output followed by its error output.
    pub config_check: Option<String>,
    /// The contents of the PID file.
    pub pid: Option<String>,
    /// Mean use of the server's processes.
    pub usage: Option<ResourceUsage>,
}

/// Puts together a snapshot from the results of the status queries, each
/// independent of the others; the usage comes from the process listing.
pub fn sample(
    version: Option<String>,
    config_check: Option<String>,
    pid: Option<String>,
    listing: Option<Vec<u8>>,
) -> (r: StatusSnapshot)
    ensures
        r.version == version,
        r.config_check == config_check,
        r.pid == pid,
        r.usage == match listing {
            Some(l) => Some(usage_of(l@)),
            None => None::<ResourceUsage>,
        },
{
    let usage = match listing {
        Some(l) => Some(resource_usage(l.as_slice())),
        None => None,
    };
    StatusSnapshot { version, config_check, pid, usage }
}

} // verus!
