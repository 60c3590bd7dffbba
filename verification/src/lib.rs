//! Lock-contention-aware scheduling support: lock algorithms, admission words,
//! condition variables, timing statistics and the width controller, as plain
//! state machines with proved contracts.
pub mod accordin_shared;
pub mod arith;
pub mod classify;
pub mod controller;
pub mod direct_lock;
pub mod epoch;
pub mod errno;
pub mod heatmap;
pub mod install;
pub mod lb_shared;
pub mod loader;
pub mod lock_backend;
pub mod lock_stats;
pub mod mcs;
pub mod mcs_tas;
pub mod mcs_tas_accordin;
pub mod stats_report;
pub mod text;
