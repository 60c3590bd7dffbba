//! CPU affinity as the locks see it. Widths are the scheduler's business, so no
//! affinity is ever set here.
use vstd::prelude::*;

verus! {

pub const MAX_CPUS: usize = 256;

#[derive(Clone, Copy, Debug, PartialEq, Eq, Structural)]
pub struct DynamicCpuAffinityUpdate {
    pub requested_cpus: usize,
    pub applied_cpus: usize,
    pub changed: bool,
}

pub fn configured_cpu_count_env_present() -> (r: bool)
    ensures
        !r,
{
    false
}

pub fn update_dynamic_cpu_count(requested_cpus: usize) -> (r: Result<
    Option<DynamicCpuAffinityUpdate>,
    String,
>)
    ensures
        r is Ok,
        r->Ok_0 is None,
{
    Ok(None)
}

pub fn current_dynamic_cpu_count() -> (r: Option<usize>)
    ensures
        r is None,
{
    None
}

pub fn current_first_numa_available_cpu_count() -> (r: Option<usize>)
    ensures
        r is None,
{
    None
}

pub fn current_available_cpu_count() -> (r: Option<usize>)
    ensures
        r is None,
{
    None
}

} // verus!
