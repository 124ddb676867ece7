//! Scheduling policies and the vocabulary shared between them and the
//! scheduler.

pub mod fair_policy;
pub mod global;
pub mod policy;
pub mod proportional_share;
pub mod round_robin;
pub mod round_robin_policy;
pub mod scheduler;

pub use scheduler::SwitchTrigger;
