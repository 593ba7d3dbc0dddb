//! Planning and decision logic for the staged downsizing of a relay chain:
//! core packing, step scheduling, dispatch planning and the read-side
//! interpretation of decoded chain values.

pub mod text;
pub mod sorting;
pub mod config;
pub mod model;
pub mod packing;
pub mod packing_laws;
pub mod value;
pub mod state;
pub mod dispatch;
pub mod dryrun;
pub mod state_store;
pub mod shared;
pub mod scheduler;
pub mod step_run;
pub mod reassert_run;
pub mod providers;
pub mod matrix;
pub mod control;
