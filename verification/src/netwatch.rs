//! Debouncing of network change events.
//!
//! Depending on the OS, the network monitor can be very verbose, triggering for
//! each route modification and interface event. As a precaution, these events
//! are "debounced": the callback only fires once no event came for
//! `DEBOUNCE_CUTOFF`, or, so that a system sending an update every second does
//! not starve it, once `MAX_DEBOUNCE_DELAY` passed since the first event of a burst.
//!
//! The decisions are taken here; a thread of the driver waits for events with
//! the timeout asked for and runs the callback when told to.
use vstd::prelude::*;

verus! {

/// How long without an event before the callback fires, in nanoseconds (one second).
pub const DEBOUNCE_CUTOFF: u64 = 1_000_000_000;

/// The longest a burst of events delays the callback, in nanoseconds (five seconds).
pub const MAX_DEBOUNCE_DELAY: u64 = 5_000_000_000;

/// Where the debouncer stands.
#[derive(Debug, PartialEq, Eq, Clone, Copy)]
pub enum DebounceState {
    /// Waiting for the first event of a burst.
    Idle,
    /// A burst started at `start` (nanoseconds on a monotonic clock).
    Armed { start: u64 },
}

/// What the waiting thread observed.
#[derive(Debug, PartialEq, Eq, Clone, Copy)]
pub enum DebounceEvent {
    /// An event arrived.
    Signal,
    /// No event arrived within the timeout.
    TimedOut,
    /// The sending side is gone.
    Disconnected,
}

/// What the waiting thread does next.
#[derive(Debug, PartialEq, Eq, Clone, Copy)]
pub enum DebounceAction {
    /// Wait for an event without a timeout.
    WaitForEvent,
    /// Wait for an event at most this many nanoseconds.
    WaitWithTimeout { timeout: u64 },
    /// Run the callback, then wait for an event without a timeout.
    Fire,
    /// Stop waiting for good.
    Stop,
}

/// The step of the debouncer: from `state`, on `event` observed at `now`.
pub open spec fn debounce_step(state: DebounceState, event: DebounceEvent, now: u64) -> (
    DebounceState,
    DebounceAction,
) {
    match state {
        // The first call (or a failed wait) arms the timer.
        DebounceState::Idle => (
            DebounceState::Armed { start: now },
            DebounceAction::WaitWithTimeout { timeout: DEBOUNCE_CUTOFF },
        ),
        DebounceState::Armed { start } => match event {
            DebounceEvent::Signal => if now < start || now - start < MAX_DEBOUNCE_DELAY {
                (state, DebounceAction::WaitWithTimeout { timeout: DEBOUNCE_CUTOFF })
            } else {
                (DebounceState::Idle, DebounceAction::Fire)
            },
            DebounceEvent::TimedOut => (DebounceState::Idle, DebounceAction::Fire),
            DebounceEvent::Disconnected => (state, DebounceAction::Stop),
        },
    }
}

/// The debouncer, between two events.
#[derive(Debug)]
pub struct Debouncer {
    pub state: DebounceState,
}

impl Debouncer {
    /// A debouncer waiting for the first event.
    pub fn new() -> (d: Debouncer)
        ensures
            d.state == DebounceState::Idle,
    {
        Debouncer { state: DebounceState::Idle }
    }

    /// Takes `event`, observed at `now`, and tells what to do next.
    pub fn on_event(&mut self, event: DebounceEvent, now: u64) -> (action: DebounceAction)
        ensures
            (final(self).state, action) == debounce_step(old(self).state, event, now),
    {
        match self.state {
            DebounceState::Idle => {
                // Keep track of time to trigger on MAX_DEBOUNCE_DELAY
                self.state = DebounceState::Armed { start: now };
                DebounceAction::WaitWithTimeout { timeout: DEBOUNCE_CUTOFF }
            },
            DebounceState::Armed { start } => match event {
                DebounceEvent::Signal => {
                    // Got another call, reset timer (unless we have reached max delay)
                    let elapsed = now.saturating_sub(start);
                    if elapsed < MAX_DEBOUNCE_DELAY {
                        DebounceAction::WaitWithTimeout { timeout: DEBOUNCE_CUTOFF }
                    } else {
                        self.state = DebounceState::Idle;
                        DebounceAction::Fire
                    }
                },
                DebounceEvent::TimedOut => {
                    // Enough time has passed
                    self.state = DebounceState::Idle;
                    DebounceAction::Fire
                },
                DebounceEvent::Disconnected => DebounceAction::Stop,
            },
        }
    }
}

/// The callback fires only from an armed debouncer, and leaves it waiting for
/// the next burst: a burst of events fires the callback at most once.
pub proof fn lemma_fires_once_per_burst(state: DebounceState, event: DebounceEvent, now: u64)
    ensures
        debounce_step(state, event, now).1 == DebounceAction::Fire ==> state is Armed
            && debounce_step(state, event, now).0 == DebounceState::Idle,
        state is Idle ==> debounce_step(state, event, now).1 != DebounceAction::Fire,
{
}

/// In an armed debouncer, the callback fires as soon as no event came within
/// the cutoff, or as soon as an event comes once the maximum delay has passed
/// since the burst started.
pub proof fn lemma_fires_when_due(start: u64, event: DebounceEvent, now: u64)
    requires
        event == DebounceEvent::TimedOut || (event == DebounceEvent::Signal && now >= start
            + MAX_DEBOUNCE_DELAY),
    ensures
        debounce_step(DebounceState::Armed { start }, event, now) == (
            DebounceState::Idle,
            DebounceAction::Fire,
        ),
{
}

} // verus!
