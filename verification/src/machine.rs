//! Confirmation state machine.
//!
//! The surface reduces the events delivered by the rendering collaborator —
//! key presses, periodic ticks, faults — to one terminal outcome. The
//! machine is pure: the surface's event loop feeds it one event at a time
//! and exits with the code of the state it ends in.

use vstd::prelude::*;

verus! {

/// State of one confirmation: awaiting input, or a terminal outcome.
#[derive(Debug, Clone, Copy, PartialEq, Eq, Structural)]
pub enum DialogState {
    /// Waiting for a key press or for the timeout to elapse.
    AwaitingInput,
    /// Terminal: the user confirmed.
    Confirmed,
    /// Terminal: the user denied.
    Denied,
    /// Terminal: the configured timeout elapsed.
    TimedOut,
    /// Terminal: the surface failed.
    Errored,
}

/// One event delivered by the rendering collaborator.
#[derive(Debug, Clone, Copy, PartialEq, Eq, Structural)]
pub enum DialogEvent {
    /// The confirm key (Enter) was pressed.
    KeyConfirm,
    /// The deny key (Escape) was pressed.
    KeyDeny,
    /// Any other key was pressed.
    KeyOther,
    /// A periodic tick, carrying whole seconds elapsed since first display.
    Tick { elapsed_secs: u64 },
    /// The surface closed or faulted before a decision.
    SurfaceFault,
}

/// True of the four terminal states.
pub open spec fn is_terminal(s: DialogState) -> bool {
    s != DialogState::AwaitingInput
}

/// The transition function: confirm and deny keys decide; a tick decides
/// only when a timeout is configured and has elapsed; a fault errors; any
/// other key leaves the machine waiting; terminal states never change.
pub open spec fn spec_step(s: DialogState, timeout_secs: Option<u32>, e: DialogEvent) -> DialogState {
    if s != DialogState::AwaitingInput {
        s
    } else {
        match e {
            DialogEvent::KeyConfirm => DialogState::Confirmed,
            DialogEvent::KeyDeny => DialogState::Denied,
            DialogEvent::KeyOther => DialogState::AwaitingInput,
            DialogEvent::Tick { elapsed_secs } => match timeout_secs {
                Option::Some(t) => {
                    if elapsed_secs >= t as u64 {
                        DialogState::TimedOut
                    } else {
                        DialogState::AwaitingInput
                    }
                },
                Option::None => DialogState::AwaitingInput,
            },
            DialogEvent::SurfaceFault => DialogState::Errored,
        }
    }
}

/// Advance the machine by one event.
pub fn step(s: DialogState, timeout_secs: Option<u32>, e: DialogEvent) -> (next: DialogState)
    ensures
        next == spec_step(s, timeout_secs, e),
{
    if s != DialogState::AwaitingInput {
        s
    } else {
        match e {
            DialogEvent::KeyConfirm => DialogState::Confirmed,
            DialogEvent::KeyDeny => DialogState::Denied,
            DialogEvent::KeyOther => DialogState::AwaitingInput,
            DialogEvent::Tick { elapsed_secs } => match timeout_secs {
                Option::Some(t) => {
                    if elapsed_secs >= t as u64 {
                        DialogState::TimedOut
                    } else {
                        DialogState::AwaitingInput
                    }
                },
                Option::None => DialogState::AwaitingInput,
            },
            DialogEvent::SurfaceFault => DialogState::Errored,
        }
    }
}

/// The state after consuming a sequence of events in order.
pub open spec fn run_events(
    s: DialogState,
    timeout_secs: Option<u32>,
    events: Seq<DialogEvent>,
) -> DialogState
    decreases events.len(),
{
    if events.len() == 0 {
        s
    } else {
        run_events(spec_step(s, timeout_secs, events[0]), timeout_secs, events.skip(1))
    }
}

/// `n` one-second ticks: the i-th carries `i + 1` elapsed seconds.
pub open spec fn one_second_ticks(n: nat) -> Seq<DialogEvent> {
    ticks_from(0, n)
}

/// `n` one-second ticks starting after `start` seconds have already passed.
pub open spec fn ticks_from(start: nat, n: nat) -> Seq<DialogEvent> {
    Seq::new(n, |i: int| DialogEvent::Tick { elapsed_secs: (start + i + 1) as u64 })
}

/// Once terminal, always terminal: no event sequence moves the machine.
pub proof fn lemma_terminal_absorbing(
    s: DialogState,
    timeout_secs: Option<u32>,
    events: Seq<DialogEvent>,
)
    requires
        is_terminal(s),
    ensures
        run_events(s, timeout_secs, events) == s,
    decreases events.len(),
{
    if events.len() > 0 {
        lemma_terminal_absorbing(s, timeout_secs, events.skip(1));
    }
}

proof fn lemma_ticks_reach_timeout(t: u32, start: nat, n: nat)
    requires
        start + n <= u64::MAX,
    ensures
        start + n < t ==> run_events(DialogState::AwaitingInput, Some(t), ticks_from(start, n))
            == DialogState::AwaitingInput,
        n >= 1 && start + n >= t ==> run_events(
            DialogState::AwaitingInput,
            Some(t),
            ticks_from(start, n),
        ) == DialogState::TimedOut,
    decreases n,
{
    if n >= 1 {
        let events = ticks_from(start, n);
        assert(events[0] == DialogEvent::Tick { elapsed_secs: (start + 1) as u64 });
        assert(events.skip(1) =~= ticks_from(start + 1, (n - 1) as nat));
        if start + 1 >= t {
            assert(spec_step(DialogState::AwaitingInput, Some(t), events[0])
                == DialogState::TimedOut);
            lemma_terminal_absorbing(DialogState::TimedOut, Some(t), events.skip(1));
        } else {
            assert(spec_step(DialogState::AwaitingInput, Some(t), events[0])
                == DialogState::AwaitingInput);
            lemma_ticks_reach_timeout(t, start + 1, (n - 1) as nat);
        }
    }
}

/// Timeout firing: with a configured timeout of `t` seconds and no key
/// events, the machine is still awaiting input after fewer than `t`
/// one-second ticks, and has timed out once `t` or more ticks — that is,
/// at least `t` elapsed seconds — have been delivered.
pub proof fn lemma_timeout_fires(t: u32, n: nat)
    requires
        t >= 1,
        n <= u64::MAX,
    ensures
        n < t ==> run_events(DialogState::AwaitingInput, Some(t), one_second_ticks(n))
            == DialogState::AwaitingInput,
        n >= t ==> run_events(DialogState::AwaitingInput, Some(t), one_second_ticks(n))
            == DialogState::TimedOut,
{
    lemma_ticks_reach_timeout(t, 0, n);
}

/// The exit code the surface reports for a state: the four-value contract
/// (0 confirmed, 1 denied, 2 timed out, 3 error). A run that somehow ends
/// without a terminal decision reports the fail-closed default, denial.
pub open spec fn spec_exit_code(s: DialogState) -> i32 {
    match s {
        DialogState::Confirmed => 0,
        DialogState::Denied => 1,
        DialogState::TimedOut => 2,
        DialogState::Errored => 3,
        DialogState::AwaitingInput => 1,
    }
}

/// Exit code for a state.
pub fn exit_code(s: DialogState) -> (r: i32)
    ensures
        r == spec_exit_code(s),
{
    match s {
        DialogState::Confirmed => 0,
        DialogState::Denied => 1,
        DialogState::TimedOut => 2,
        DialogState::Errored => 3,
        DialogState::AwaitingInput => 1,
    }
}

} // verus!
