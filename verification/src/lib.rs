//! Open-loop load scheduling: exact arrival schedules for linear rate ramps,
//! and the bookkeeping of a run in stages.
//!
//! - [`timeline`]: when each instance of a stage is launched.
//! - [`schedule_laws`]: what holds of every such schedule.
//! - [`executor`]: the dispatch loop and the counters of a run, as steps.
//! - [`task`], [`scenario`]: the work that is launched.
pub mod executor;
pub mod scenario;
pub mod schedule_laws;
pub mod task;
pub mod timeline;
