//! What every lock backend shares.
pub mod admission;
pub mod arch;
pub mod bpf_counters;
pub mod condvar;
pub mod cpu_affinity;
pub mod direct_runtime;
pub mod env;
pub mod lock_class;
pub mod lock_stats;
pub mod mutex_hook;
pub mod test_support;
pub mod timeslice_extension;
pub mod width_control;
pub mod writer_event;
