//! What the baseline backends share.
pub mod admission;
pub mod arch;
pub mod cpu_affinity;
pub mod mutex_hook;
