//! Level-triggered cancellation signal.
//!
//! One authoritative "stop" flag is fanned out to a growing set of observers.
//! Firing is idempotent: the first reason to arrive wins and every later call
//! is a no-op. Because the state is a persistent flag rather than a one-shot
//! event, an observer that subscribes after the signal has fired still sees
//! it as already fired.

use vstd::prelude::*;

verus! {

/// The state of the cancellation signal. `reason` is meaningful only once
/// `fired` is true; it records the reason given by the first caller of
/// [`CancelState::fire`].
pub struct CancelState {
    pub fired: bool,
    pub reason: u16,
}

/// The state after one call of `fire(reason)`: a no-op if already fired,
/// otherwise the flag is set and the reason recorded.
pub open spec fn spec_fire(s: CancelState, reason: u16) -> CancelState {
    if s.fired {
        s
    } else {
        CancelState { fired: true, reason }
    }
}

impl CancelState {
    /// A fresh, not-yet-fired signal.
    pub fn new() -> (s: CancelState)
        ensures
            !s.fired,
            s.reason == 0u16,
    {
        CancelState { fired: false, reason: 0 }
    }

    /// Fire the signal. The first caller wins; afterwards the call is a no-op.
    pub fn fire(&mut self, reason: u16)
        ensures
            *final(self) == spec_fire(*old(self), reason),
            final(self).fired,
    {
        if !self.fired {
            self.fired = true;
            self.reason = reason;
        }
    }

    /// Whether the signal has fired. A persistent flag: any observer asking
    /// after a fire sees true, however late it subscribed.
    pub fn is_fired(&self) -> (r: bool)
        ensures
            r == self.fired,
    {
        self.fired
    }

    /// The reason recorded by the first fire; 0 while not fired.
    pub fn reason(&self) -> (r: u16)
        ensures
            r == self.reason,
    {
        self.reason
    }
}

/// Firing twice has the same observable effect as firing once: the second
/// fire, whatever its reason, leaves the state exactly as the first left it.
pub proof fn lemma_fire_idempotent(s: CancelState, r1: u16, r2: u16)
    ensures
        spec_fire(spec_fire(s, r1), r2) == spec_fire(s, r1),
{
}

/// Once fired, the signal stays fired: no call changes an already-fired
/// state, so every later observation, including by components created after
/// the fire, sees it as fired.
pub proof fn lemma_fired_persists(s: CancelState, r: u16)
    requires
        s.fired,
    ensures
        spec_fire(s, r) == s,
{
}

} // verus!
