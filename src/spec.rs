//! Declarative descriptions of children and of the supervisor's policies.
use vstd::prelude::*;
use core::time::Duration;
use crate::start::Start;

verus! {

/// Which other children are restarted when one is restarted.
#[derive(Clone, Copy, Debug, PartialEq, Eq, Structural)]
pub enum RecoveryLogic {
    /// No other child is restarted.
    Isolated,
    /// Every child started after the failed one is restarted with it.
    CascadeNewer,
    /// Every child is restarted.
    CascadeAll,
}

/// A period of time permitted for a startup or a shutdown.
#[derive(Clone, Copy, Debug)]
pub enum Grace {
    /// A fixed period of time.
    Fixed(Duration),
    /// As long as needed.
    Forever,
}

/// How patient the supervisor is when it shuts a child down.
#[derive(Clone, Copy, Debug)]
pub enum Haste {
    /// Wait for the child to end, within the given grace.
    Gracefully(Grace),
    /// Send the request and do not wait.
    Quickly,
}

impl Haste {
    /// Whether a child with this haste is waited for during teardown.
    pub open spec fn waits(self) -> bool {
        self is Gracefully
    }
}

/// What a child reports when its startup phase ends successfully.
#[derive(Clone, Copy, Debug, PartialEq, Eq, Structural)]
pub enum Started {
    /// The child has done its work and does not keep running.
    Completed,
    /// The child is running and is to be tracked.
    Running,
}

/// When a supervisor restarts a child that has terminated.
#[derive(Clone, Copy, Debug, PartialEq, Eq, Structural)]
pub enum Restart {
    /// Never: the child is meant to run once.
    Never,
    /// Only when it terminated with a fault.
    Failed,
    /// Whenever it terminates.
    Always,
}

impl Restart {
    /// Whether a child with this policy is restarted after a termination
    /// that carried a fault (`faulted`) or not.
    pub open spec fn wants_restart(self, faulted: bool) -> bool {
        match self {
            Restart::Never => false,
            Restart::Failed => faulted,
            Restart::Always => true,
        }
    }
}

/// How a supervisor starts, restarts and shuts down one child.
pub struct Spec<F> {
    pub start: Start<F>,
    pub restart: Restart,
    pub shutdown: Haste,
}

/// The haste new specifications get, for startup and shutdown alike: five
/// seconds of grace.
pub open spec fn default_grace() -> Haste {
    Haste::Gracefully(Grace::Fixed(crate::outside::duration_from_secs(5)))
}

impl<F> Spec<F> {
    /// Creates a specification that always restarts its child and gives
    /// it five seconds to shut down.
    pub fn new(start: Start<F>) -> (r: Self)
        ensures
            r.start == start,
            r.restart == Restart::Always,
            r.shutdown == default_grace(),
    {
        Spec {
            start,
            restart: Restart::Always,
            shutdown: Haste::Gracefully(Grace::Fixed(Duration::from_secs(5))),
        }
    }

    /// Replaces how the child is started.
    pub fn set_start(self, start: Start<F>) -> (r: Self)
        ensures
            r.start == start,
            r.restart == self.restart,
            r.shutdown == self.shutdown,
    {
        Spec { start, restart: self.restart, shutdown: self.shutdown }
    }

    /// Replaces when the child is restarted.
    pub fn set_restart(self, restart: Restart) -> (r: Self)
        ensures
            r.start == self.start,
            r.restart == restart,
            r.shutdown == self.shutdown,
    {
        Spec { start: self.start, restart, shutdown: self.shutdown }
    }

    /// Replaces how patiently the child is shut down.
    pub fn set_shutdown(self, shutdown: Haste) -> (r: Self)
        ensures
            r.start == self.start,
            r.restart == self.restart,
            r.shutdown == shutdown,
    {
        Spec { start: self.start, restart: self.restart, shutdown }
    }
}

} // verus!
