//! How a child is started, and how its startup can fail.
use vstd::prelude::*;
use core::time::Duration;
use async_backplane::Fault;
use crate::spec::{Grace, Haste};

verus! {

/// Why a child failed to start.
#[derive(Clone, Copy, Debug)]
pub enum StartError {
    /// The child failed on its own terms.
    Fault(Fault),
    /// The grace period was exceeded.
    Timeout,
}

/// How a supervisor starts a child: the function that launches it, and the
/// grace its startup is given.
pub struct Start<F> {
    pub fun: F,
    /// How long the startup may take before it is declared timed out.
    pub haste: Haste,
}

impl<F> Start<F> {
    /// Creates a start description that gives the startup five seconds.
    pub fn new(fun: F) -> (r: Self)
        ensures
            r.fun == fun,
            r.haste == crate::spec::default_grace(),
    {
        Start { fun, haste: Haste::Gracefully(Grace::Fixed(Duration::from_secs(5))) }
    }

    /// Replaces the function that launches the child.
    pub fn set_fn(self, fun: F) -> (r: Self)
        ensures
            r.fun == fun,
            r.haste == self.haste,
    {
        Start { fun, haste: self.haste }
    }

    /// Replaces the startup grace.
    pub fn set_haste(self, haste: Haste) -> (r: Self)
        ensures
            r.fun == self.fun,
            r.haste == haste,
    {
        Start { fun: self.fun, haste }
    }
}

} // verus!
