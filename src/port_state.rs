//! The cell that holds the discovered backend port.
use vstd::prelude::*;

verus! {

/// The backend port, 0 while it is not resolved. Once it holds a nonzero
/// port it keeps it: a later resolution is refused.
pub struct BackendPort {
    port: u16,
}

impl View for BackendPort {
    type V = u16;

    closed spec fn view(&self) -> u16 {
        self.port
    }
}

/// The port that a cell holding `current` holds after a resolution to `port`.
pub open spec fn after_resolve(current: u16, port: u16) -> u16 {
    if current == 0 {
        port
    } else {
        current
    }
}

impl BackendPort {
    /// An unresolved cell.
    pub fn new() -> (r: BackendPort)
        ensures
            r@ == 0,
    {
        BackendPort { port: 0 }
    }

    /// The port held now; 0 means not yet resolved.
    pub fn get(&self) -> (r: u16)
        ensures
            r == self@,
    {
        self.port
    }

    /// Stores `port` unless a nonzero port is already held; says whether it
    /// was stored.
    pub fn resolve(&mut self, port: u16) -> (stored: bool)
        ensures
            stored == (old(self)@ == 0),
            final(self)@ == after_resolve(old(self)@, port),
    {
        if self.port == 0 {
            self.port = port;
            true
        } else {
            false
        }
    }
}

} // verus!
