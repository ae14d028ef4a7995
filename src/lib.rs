//! Light scheduling for FRITZ!DECT smart plugs: timed on/off entries become
//! a gap-free sequence of state intervals, a timer wakes at each transition,
//! and the box's interface is driven through small, checked decisions.
use vstd::prelude::*;

pub mod api;
pub mod client;
pub mod config;
pub mod devices;
pub mod duration;
pub mod env_config;
pub mod error;
pub mod file_schedule;
pub mod laws;
pub mod schedule;
pub mod stats;
pub mod switch;
pub mod text;
pub mod time;
pub mod timer;
pub mod updater;

verus! {

} // verus!
