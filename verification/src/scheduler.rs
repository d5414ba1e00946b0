//! The broadcast scheduler: the server's life from start to shutdown, and the cap on
//! its tick rate. The scheduler decides; the program around it binds the socket,
//! reads the clock and runs the tick.

use vstd::prelude::*;

verus! {

/// The port on which the server listens.
pub const PORT: u16 = 8989;

/// How many clients the server takes at once.
pub const MAX_CLIENTS: usize = 10;

/// The protocol number that client and server must share.
pub const PROTOCOL_ID: u64 = 0;

/// The highest number of ticks in a second.
pub const MAX_TICK_RATE: u64 = 60;

/// The shortest time between two ticks, in microseconds: the sixtieth of a second,
/// rounded up, so that the rate stays under its cap.
pub const TICK_INTERVAL: u64 = 16_667;

/// Where the server is in its life.
#[derive(Clone, Copy, Debug, PartialEq, Eq, Structural)]
pub enum SchedulerState {
    /// Not started.
    Idle,
    /// Waiting for the socket to be bound.
    Connecting,
    /// Ticking. `last_tick` is the time of the last tick, in microseconds, if there
    /// was one.
    Running { last_tick: Option<u64> },
    /// Stopped, for good.
    ShuttingDown,
}

/// What happens to the scheduler.
#[derive(Clone, Copy, Debug, PartialEq, Eq, Structural)]
pub enum SchedulerEvent {
    /// The server is asked to start.
    Start,
    /// The socket is bound.
    Bound,
    /// The socket could not be bound.
    BindFailed,
    /// The loop comes round, at the time `now`, in microseconds.
    Poll { now: u64 },
    /// The server is asked to stop.
    Stop,
}

/// What the program is to do next.
#[derive(Clone, Copy, Debug, PartialEq, Eq, Structural)]
pub enum SchedulerAction {
    /// Bind the socket, and report how that went.
    Bind,
    /// Run one tick.
    Tick,
    /// Do nothing this time.
    Wait,
    /// Give up: the server cannot run. The process ends with a failure.
    Abort,
    /// Close the socket and end.
    Close,
}

/// Whether a tick is due at the time `now`: no tick was run yet, or the last one is
/// at least a tick interval back.
pub open spec fn tick_due(last_tick: Option<u64>, now: u64) -> bool {
    match last_tick {
        Some(last) => now - last >= 16_667,
        None => true,
    }
}

/// The state after an event, and what the program is to do. An event that does not
/// fit the state changes nothing.
pub open spec fn spec_step(state: SchedulerState, event: SchedulerEvent) -> (
    SchedulerState,
    SchedulerAction,
) {
    match (state, event) {
        (SchedulerState::Idle, SchedulerEvent::Start) => (
            SchedulerState::Connecting,
            SchedulerAction::Bind,
        ),
        (SchedulerState::Connecting, SchedulerEvent::Bound) => (
            SchedulerState::Running { last_tick: None },
            SchedulerAction::Wait,
        ),
        (SchedulerState::Connecting, SchedulerEvent::BindFailed) => (
            SchedulerState::ShuttingDown,
            SchedulerAction::Abort,
        ),
        (SchedulerState::Running { last_tick }, SchedulerEvent::Poll { now }) => if tick_due(
            last_tick,
            now,
        ) {
            (SchedulerState::Running { last_tick: Some(now) }, SchedulerAction::Tick)
        } else {
            (state, SchedulerAction::Wait)
        },
        (SchedulerState::Running { .. }, SchedulerEvent::Stop) => (
            SchedulerState::ShuttingDown,
            SchedulerAction::Close,
        ),
        _ => (state, SchedulerAction::Wait),
    }
}

/// Takes the scheduler one event further.
pub fn step(state: SchedulerState, event: SchedulerEvent) -> (next: (SchedulerState, SchedulerAction))
    ensures
        next == spec_step(state, event),
{
    match (state, event) {
        (SchedulerState::Idle, SchedulerEvent::Start) => (
            SchedulerState::Connecting,
            SchedulerAction::Bind,
        ),
        (SchedulerState::Connecting, SchedulerEvent::Bound) => (
            SchedulerState::Running { last_tick: None },
            SchedulerAction::Wait,
        ),
        (SchedulerState::Connecting, SchedulerEvent::BindFailed) => (
            SchedulerState::ShuttingDown,
            SchedulerAction::Abort,
        ),
        (SchedulerState::Running { last_tick }, SchedulerEvent::Poll { now }) => {
            let due = match last_tick {
                Some(last) => now >= last && now - last >= TICK_INTERVAL,
                None => true,
            };
            if due {
                (SchedulerState::Running { last_tick: Some(now) }, SchedulerAction::Tick)
            } else {
                (state, SchedulerAction::Wait)
            }
        },
        (SchedulerState::Running { .. }, SchedulerEvent::Stop) => (
            SchedulerState::ShuttingDown,
            SchedulerAction::Close,
        ),
        _ => (state, SchedulerAction::Wait),
    }
}

/// The time of the last tick after a run of polls, starting from `last_tick`.
pub open spec fn last_tick_after(last_tick: Option<u64>, polls: Seq<u64>) -> Option<u64>
    decreases polls.len(),
{
    if polls.len() == 0 {
        last_tick
    } else {
        let before = last_tick_after(last_tick, polls.drop_last());
        if tick_due(before, polls.last()) {
            Some(polls.last())
        } else {
            before
        }
    }
}

/// How many ticks a run of polls sets off, starting from `last_tick`.
pub open spec fn ticks_in(last_tick: Option<u64>, polls: Seq<u64>) -> nat
    decreases polls.len(),
{
    if polls.len() == 0 {
        0
    } else {
        let before = last_tick_after(last_tick, polls.drop_last());
        ticks_in(last_tick, polls.drop_last()) + (if tick_due(before, polls.last()) {
            1nat
        } else {
            0nat
        })
    }
}

/// The tick rate is capped: however often the loop comes round, a running server
/// whose clock does not go back runs no more ticks than tick intervals fit into the
/// time that has passed, and one more.
pub proof fn lemma_tick_rate_is_capped(start: u64, polls: Seq<u64>)
    requires
        forall|i: int| 0 <= i < polls.len() ==> start <= #[trigger] polls[i],
        forall|i: int, j: int| 0 <= i <= j < polls.len() ==> polls[i] <= polls[j],
    ensures
        last_tick_after(None, polls) matches Some(last) ==> start <= last && (ticks_in(None, polls)
            - 1) * 16_667 <= last - start,
        last_tick_after(None, polls) is None ==> ticks_in(None, polls) == 0,
        polls.len() > 0 ==> last_tick_after(None, polls) is Some && last_tick_after(
            None,
            polls,
        )->0 <= polls.last(),
    decreases polls.len(),
{
    if polls.len() > 0 {
        let earlier = polls.drop_last();
        assert forall|i: int| 0 <= i < earlier.len() implies start <= #[trigger] earlier[i] by {
            assert(earlier[i] == polls[i]);
        }
        assert forall|i: int, j: int| 0 <= i <= j < earlier.len() implies earlier[i]
            <= earlier[j] by {
            assert(earlier[i] == polls[i] && earlier[j] == polls[j]);
        }
        lemma_tick_rate_is_capped(start, earlier);
        if earlier.len() > 0 {
            assert(earlier.last() == polls[polls.len() - 2]);
        }
    }
}

} // verus!
