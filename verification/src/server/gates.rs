//! Flags by which an observer holds a session back or has it send something.
use vstd::prelude::*;

verus! {

/// Holds the session's processing of an install's answer until it is released.
#[derive(Clone, Copy, Debug, PartialEq, Eq, Structural)]
pub struct InstallAckHoldGate {
    pub held: bool,
    /// Those who wait are to be woken.
    pub wake: bool,
}

impl InstallAckHoldGate {
    /// Processing held.
    pub fn new_held() -> (r: InstallAckHoldGate)
        ensures
            r == (InstallAckHoldGate { held: true, wake: false }),
    {
        InstallAckHoldGate { held: true, wake: false }
    }

    /// Whether processing is held.
    pub fn is_held(&self) -> (r: bool)
        ensures
            r == self.held,
    {
        self.held
    }

    /// Lets processing go on and wakes those who wait.
    pub fn release(&mut self)
        ensures
            *final(self) == (InstallAckHoldGate { held: false, wake: true }),
    {
        self.held = false;
        self.wake = true;
    }

    /// Holds processing again.
    pub fn hold_again(&mut self)
        ensures
            *final(self) == (InstallAckHoldGate { held: true, ..*old(self) }),
    {
        self.held = true;
    }
}

/// Has the session send one IGNORE.
#[derive(Clone, Copy, Debug, PartialEq, Eq, Structural)]
pub struct InjectIgnoreGate {
    pub requested: bool,
    pub done: bool,
}

impl Default for InjectIgnoreGate {
    /// Nothing asked for.
    fn default() -> (r: InjectIgnoreGate)
        ensures
            r == (InjectIgnoreGate { requested: false, done: false }),
    {
        InjectIgnoreGate { requested: false, done: false }
    }
}

impl InjectIgnoreGate {
    /// Nothing asked for.
    pub fn new() -> (r: InjectIgnoreGate)
        ensures
            r == (InjectIgnoreGate { requested: false, done: false }),
    {
        Self::default()
    }

    /// Asks for one IGNORE.
    pub fn request(&mut self)
        ensures
            *final(self) == (InjectIgnoreGate { requested: true, done: false }),
    {
        self.done = false;
        self.requested = true;
    }

    /// Takes the request, if there is one.
    pub fn take_requested(&mut self) -> (r: bool)
        ensures
            r == old(self).requested,
            *final(self) == (InjectIgnoreGate { requested: false, ..*old(self) }),
    {
        let r: bool = self.requested;
        self.requested = false;
        r
    }

    /// The IGNORE is staged.
    pub fn mark_done(&mut self)
        ensures
            *final(self) == (InjectIgnoreGate { done: true, ..*old(self) }),
    {
        self.done = true;
    }

    /// Whether the IGNORE is staged.
    pub fn is_done(&self) -> (r: bool)
        ensures
            r == self.done,
    {
        self.done
    }
}

} // verus!
