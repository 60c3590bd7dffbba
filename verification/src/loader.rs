//! What a lock library does about the scheduler when it is loaded.
use vstd::prelude::*;

use crate::text;

verus! {

pub open spec fn is_set(value: Option<&str>) -> bool {
    value matches Some(value) && text::is_truthy(value@)
}

/// Whether inactive threads are spread over the CPUs.
pub open spec fn is_distributed(value: Option<&str>) -> bool {
    value matches Some(value) && (text::eq_ignore_case(text::trim(value@), "distributed"@)
        || text::is_truthy(value@))
}

pub fn inactive_pool_distributed(value: Option<&str>) -> (r: bool)
    ensures
        r == is_distributed(value),
{
    match value {
        None => false,
        Some(text_value) => {
            let chars: Vec<char> = text::chars_of(text_value);
            assert(chars@.subrange(0, chars@.len() as int) =~= text_value@);
            let range: (usize, usize) = text::trim_range(&chars, 0, chars.len());
            text::spells(&chars, range.0, range.1, "distributed") || text::flag(value)
        },
    }
}

/// The number of CPUs that the scheduler starts with; 0: all of them. `requested`
/// is `None` where none was asked for, or what was asked for will not do.
pub fn initial_lock_budget_from_env(requested: Option<usize>) -> (r: u32)
    ensures
        r == match requested {
            None => 0,
            Some(cpus) => if cpus > u32::MAX {
                u32::MAX
            } else {
                cpus as u32
            },
        },
{
    match requested {
        None => 0,
        Some(cpus) => if cpus > u32::MAX as usize {
            u32::MAX
        } else {
            cpus as u32
        },
    }
}

/// A budget as it is printed.
pub fn budget_text(budget: u32) -> (r: String)
    ensures
        r@ == if budget == 0 {
            "all"@
        } else {
            text::decimal(budget as nat)
        },
{
    if budget == 0 {
        return "all".to_owned();
    }
    let mut out: String = "".to_owned();
    proof {
        reveal_strlit("");
    }
    text::append_decimal(&mut out, budget as u64);
    assert(out@ =~= text::decimal(budget as nat));
    out
}

/// What the environment says to a hook library.
pub struct LoaderEnv<'a> {
    pub disable_bpf: Option<&'a str>,
    pub stats_only: Option<&'a str>,
    pub debug_counters: Option<&'a str>,
    pub bpf_debug: Option<&'a str>,
    pub inactive_pool: Option<&'a str>,
    /// How many CPUs were asked for.
    pub requested_cpus: Option<usize>,
}

/// What a hook library does when it is loaded.
#[derive(Clone, Copy, Debug, PartialEq, Eq, Structural)]
pub struct LoadPlan {
    pub distributed_inactive_pool: bool,
    pub initial_lock_budget: u32,
    /// The library limits the process to its CPUs itself.
    pub set_affinity: bool,
    /// The scheduler is loaded.
    pub load_scheduler: bool,
    pub debug: bool,
    /// Once it is loaded, the user is told that these are ignored.
    pub note_stats_only: bool,
    pub note_debug_counters: bool,
}

pub fn init_ebpf(env: &LoaderEnv) -> (r: LoadPlan)
    ensures
        ({
            let distributed = is_distributed(env.inactive_pool);
            let load = !is_set(env.disable_bpf);
            &&& r.distributed_inactive_pool == distributed
            &&& r.initial_lock_budget == if distributed && env.requested_cpus is Some {
                if env.requested_cpus->0 > u32::MAX {
                    u32::MAX
                } else {
                    env.requested_cpus->0 as u32
                }
            } else {
                0
            }
            &&& r.set_affinity == !distributed
            &&& r.load_scheduler == load
            &&& r.debug == (load && is_set(env.bpf_debug))
            &&& r.note_stats_only == (load && is_set(env.stats_only))
            &&& r.note_debug_counters == (load && is_set(env.debug_counters))
        }),
{
    let distributed: bool = inactive_pool_distributed(env.inactive_pool);
    let budget: u32 = if distributed {
        initial_lock_budget_from_env(env.requested_cpus)
    } else {
        0
    };
    if text::flag(env.disable_bpf) {
        return LoadPlan {
            distributed_inactive_pool: distributed,
            initial_lock_budget: budget,
            set_affinity: !distributed,
            load_scheduler: false,
            debug: false,
            note_stats_only: false,
            note_debug_counters: false,
        };
    }
    LoadPlan {
        distributed_inactive_pool: distributed,
        initial_lock_budget: budget,
        set_affinity: !distributed,
        load_scheduler: true,
        debug: text::flag(env.bpf_debug),
        note_stats_only: text::flag(env.stats_only),
        note_debug_counters: text::flag(env.debug_counters),
    }
}

/// What a direct library does when it is loaded: `None` where the scheduler is
/// disabled, else whether it only keeps statistics.
pub fn init_direct_ebpf(disable_bpf: Option<&str>, stats_only: Option<&str>) -> (r: Option<bool>)
    ensures
        r == if is_set(disable_bpf) {
            None
        } else {
            Some(is_set(stats_only))
        },
{
    let stats: bool = text::flag(stats_only);
    if text::flag(disable_bpf) {
        None
    } else {
        Some(stats)
    }
}

/// The inactive threads are spread where that is switched on, or asked for by name in any
/// case, with or without white space around it.
pub proof fn law_spreading_is_asked_for_by_name(
    value: &str,
    before: Seq<char>,
    word: Seq<char>,
    after: Seq<char>,
)
    requires
        text::is_blank(before),
        text::is_blank(after),
        text::is_tight(word),
        value@ == before + word + after,
        word.len() == "distributed"@.len(),
        forall|i: int|
            0 <= i < word.len() ==> #[trigger] word[i] == "distributed"@[i] || (word[i] as u32 + 32
                == "distributed"@[i] as u32),
    ensures
        is_distributed(Some(value)),
        !is_distributed(None),
        !is_set(None),
{
    text::law_trimming_leaves_the_text(before, word, after);
    reveal_strlit("distributed");
    text::law_a_small_word_is_spelled_in_any_case(word, "distributed"@);
}

} // verus!
