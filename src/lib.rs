//! The decision core of a task supervisor: child specifications, restart
//! policies, startup bookkeeping, recovery planning, a restart rate limit and
//! ordered teardown.
//!
//! The library decides; a runtime around it starts children, delivers their
//! termination notices, sends shutdown requests and reads the clock.
mod outside;
mod rate;
mod spec;
mod start;
mod supervisor;
mod teardown;

pub use outside::{duration_from_secs, millis_of};
pub use rate::{
    ascending, in_window, lemma_full_window_refuses, lemma_throttle, recent, spaced, RateLimit,
    RateLimiter,
};
pub use spec::{default_grace, Grace, Haste, RecoveryLogic, Restart, Spec, Started};
pub use start::{Start, StartError};
pub use supervisor::{
    ids_distinct, lemma_restart_keeps_indices, plan_for, state_after, Event, Recovery, RestartPlan, Step, SupervisionError,
    Supervisor,
};
pub use teardown::{
    clear_slot, deadline_at, expire_slot, lemma_idle_teardown, lemma_orders_newest_first,
    lemma_torn_down_untracked, shutdown_orders, waiting_slot, ShutdownCollector, ShutdownOrder,
};
