//! The consumption guard: who may read the byte window.
//!
//! The decoder and the part it has handed out last share one window. The
//! guard counts the handles it has issued and the handles that have read
//! their part to the end. A newer handle makes every older one stale, and a
//! handle that is left behind unfinished makes the whole session dirty, for
//! good.

use vstd::prelude::*;

verus! {

/// What a guard holds, as a value.
pub struct Guard {
    /// The number of handles issued so far; the last one issued bears this
    /// number.
    pub issued: u128,
    /// The number of the last handle that has read its part to the end.
    pub drained: u128,
    /// No handle has been left behind unfinished.
    pub clean: bool,
}

impl Guard {
    /// `handle` is the one that may read: no newer handle exists and the
    /// session is clean.
    pub open spec fn is_current(self, handle: u128) -> bool {
        self.clean && handle == self.issued
    }

    /// Every handle issued so far has read its part to the end.
    pub open spec fn idle(self) -> bool {
        self.issued == self.drained
    }

    /// What `acquire` answers and leaves behind: a clean and idle guard
    /// with a number to spare issues the next handle; a guard that is not
    /// idle, or has no number left, turns dirty.
    pub open spec fn acquired(self) -> (Option<u128>, Guard) {
        if !self.clean {
            (None, self)
        } else if !self.idle() || self.issued == u128::MAX {
            (None, Guard { clean: false, ..self })
        } else {
            let next = (self.issued + 1) as u128;
            (Some(next), Guard { issued: next, ..self })
        }
    }

    /// The guard after `handle` has read its part to the end: recorded for
    /// the current handle, without effect for any other.
    pub open spec fn released(self, handle: u128) -> Guard {
        if self.is_current(handle) {
            Guard { drained: handle, ..self }
        } else {
            self
        }
    }
}

/// Counter of the handles on one byte window. It gives the window to the
/// newest handle only, and remembers when a handle was left behind
/// unfinished.
#[derive(Debug)]
pub struct Safety {
    level: u128,
    drained: u128,
    clean: bool,
}

impl View for Safety {
    type V = Guard;

    closed spec fn view(&self) -> Guard {
        Guard { issued: self.level, drained: self.drained, clean: self.clean }
    }
}

impl Safety {
    /// A clean guard that has issued no handle.
    pub fn new() -> (r: Safety)
        ensures
            r@ == (Guard { issued: 0, drained: 0, clean: true }),
    {
        Safety { level: 0, drained: 0, clean: true }
    }

    /// Whether `handle` may read the window.
    pub fn current(&self, handle: u128) -> (r: bool)
        ensures
            r == self@.is_current(handle),
    {
        self.clean && handle == self.level
    }

    /// Whether no handle has been left behind unfinished.
    pub fn is_clean(&self) -> (r: bool)
        ensures
            r == self@.clean,
    {
        self.clean
    }

    /// Whether every handle issued so far has read its part to the end.
    pub fn is_idle(&self) -> (r: bool)
        ensures
            r == self@.idle(),
    {
        self.level == self.drained
    }

    /// Issues a new handle, which is current from now on. Where the last
    /// handle has not finished, or the counter has no number left, no
    /// handle is issued and the session turns dirty.
    pub fn acquire(&mut self) -> (r: Option<u128>)
        ensures
            (r, final(self)@) == old(self)@.acquired(),
    {
        if !self.clean {
            None
        } else if self.level != self.drained || self.level == u128::MAX {
            self.clean = false;
            None
        } else {
            self.level = self.level + 1;
            Some(self.level)
        }
    }

    /// Records that `handle` has read its part to the end.
    pub fn release(&mut self, handle: u128)
        ensures
            final(self)@ == old(self)@.released(handle),
    {
        if self.clean && handle == self.level {
            self.drained = handle;
        }
    }

    /// Marks the session dirty. Nothing makes it clean again.
    pub fn mark_dirty(&mut self)
        ensures
            final(self)@ == (Guard { clean: false, ..old(self)@ }),
    {
        self.clean = false;
    }
}

} // verus!
