//! Which CPUs a process limits itself to: as many of the first NUMA node as it
//! asked for.
use vstd::prelude::*;

use crate::text;

verus! {

/// How many CPUs an affinity mask can name.
pub const CPU_SETSIZE: usize = 1024;

// Reading CPU lists.
/// What is wrong with a CPU list.
pub enum CpuListError {
    EmptyEntry,
    InvalidId { value: String },
    Descending { part: String },
}

pub ghost enum CpuListFault {
    EmptyEntry,
    InvalidId { value: Seq<char> },
    Descending { part: Seq<char> },
}

impl View for CpuListError {
    type V = CpuListFault;

    open spec fn view(&self) -> CpuListFault {
        match self {
            CpuListError::EmptyEntry => CpuListFault::EmptyEntry,
            CpuListError::InvalidId { value } => CpuListFault::InvalidId { value: value@ },
            CpuListError::Descending { part } => CpuListFault::Descending { part: part@ },
        }
    }
}

impl CpuListError {
    /// What is wrong, in words.
    pub fn describe(&self) -> (r: &'static str)
        ensures
            r@ == match self {
                CpuListError::EmptyEntry => "empty entry"@,
                CpuListError::InvalidId { .. } => "invalid CPU id"@,
                CpuListError::Descending { .. } => "invalid descending range"@,
            },
    {
        match self {
            CpuListError::EmptyEntry => "empty entry",
            CpuListError::InvalidId { .. } => "invalid CPU id",
            CpuListError::Descending { .. } => "invalid descending range",
        }
    }
}

/// The CPUs from `first` to `last`.
pub open spec fn cpu_range(first: int, last: int) -> Set<usize> {
    Set::new(|cpu: usize| first <= cpu <= last)
}

/// The first and the last CPU that an entry of a list names: a number, or two with
/// a dash between them.
pub open spec fn entry_of(part: Seq<char>) -> Result<(int, int), CpuListFault> {
    let at = text::find_from(part, '-', 0);
    if part.len() == 0 {
        Err(CpuListFault::EmptyEntry)
    } else if at < part.len() {
        let start = part.subrange(0, at);
        let end = part.subrange(at + 1, part.len() as int);
        match (
            text::unsigned(start, usize::MAX as int),
            text::unsigned(end, usize::MAX as int),
        ) {
            (None, _) => Err(CpuListFault::InvalidId { value: start }),
            (_, None) => Err(CpuListFault::InvalidId { value: end }),
            (Some(first), Some(last)) => if first > last {
                Err(CpuListFault::Descending { part })
            } else {
                Ok((first, last))
            },
        }
    } else {
        match text::unsigned(part, usize::MAX as int) {
            None => Err(CpuListFault::InvalidId { value: part }),
            Some(cpu) => Ok((cpu, cpu)),
        }
    }
}

/// The CPUs that the entries name, or what is wrong with the first bad one.
pub open spec fn entries_of(pieces: Seq<Seq<char>>) -> Result<Set<usize>, CpuListFault>
    decreases pieces.len(),
{
    if pieces.len() == 0 {
        Ok(Set::empty())
    } else {
        match entries_of(pieces.drop_last()) {
            Err(fault) => Err(fault),
            Ok(cpus) => match entry_of(text::trim(pieces.last())) {
                Err(fault) => Err(fault),
                Ok((first, last)) => Ok(cpus.union(cpu_range(first, last))),
            },
        }
    }
}

/// The CPUs that a list names.
pub open spec fn cpu_list_of(list: Seq<char>) -> Result<Set<usize>, CpuListFault> {
    let trimmed = text::trim(list);
    if trimmed.len() == 0 {
        Ok(Set::empty())
    } else {
        entries_of(text::split(trimmed, ','))
    }
}

proof fn lemma_first_fault_stays(pieces: Seq<Seq<char>>, n: int)
    requires
        0 <= n <= pieces.len(),
        entries_of(pieces.take(n)) is Err,
    ensures
        entries_of(pieces) == entries_of(pieces.take(n)),
    decreases pieces.len() - n,
{
    if n == pieces.len() {
        assert(pieces.take(n) =~= pieces);
    } else {
        assert(pieces.take(n + 1).drop_last() =~= pieces.take(n));
        lemma_first_fault_stays(pieces, n + 1);
    }
}

/// In order, and none twice.
pub open spec fn ascending(cpus: Seq<usize>) -> bool {
    forall|i: int, j: int| 0 <= i < j < cpus.len() ==> #[trigger] cpus[i] < #[trigger] cpus[j]
}

/// `cpus` are the members of `set`.
pub open spec fn lists(cpus: Seq<usize>, set: Set<usize>) -> bool {
    forall|cpu: usize| #[trigger] cpus.contains(cpu) == set.contains(cpu)
}

/// Adds a CPU to a list, unless it is there.
fn insert_cpu(cpus: &mut Vec<usize>, cpu: usize, Ghost(set): Ghost<Set<usize>>)
    requires
        ascending(old(cpus)@),
        lists(old(cpus)@, set),
    ensures
        ascending(final(cpus)@),
        lists(final(cpus)@, set.insert(cpu)),
{
    let ghost before = cpus@;
    let mut at: usize = cpus.len();
    while at > 0 && cpus[at - 1] > cpu
        invariant
            at <= cpus@.len(),
            cpus@ == before,
            forall|k: int| at <= k < before.len() ==> #[trigger] before[k] > cpu,
        decreases at,
    {
        at -= 1;
    }
    if at > 0 && cpus[at - 1] == cpu {
        proof {
            assert(before[at - 1] == cpu);
            assert(before.contains(cpu));
            assert forall|c: usize| #[trigger] before.contains(c) == set.insert(cpu).contains(
                c,
            ) by {}
        }
        return ;
    }
    cpus.insert(at, cpu);
    proof {
        let after = cpus@;
        assert(after == before.insert(at as int, cpu));
        assert forall|i: int, j: int| 0 <= i < j < after.len() implies #[trigger] after[i]
            < #[trigger] after[j] by {
            if j < at {
                assert(after[i] == before[i] && after[j] == before[j]);
            } else if i < at && j == at {
                assert(after[i] == before[i]);
                assert(before[i] <= before[at - 1]);
            } else if i < at {
                assert(after[i] == before[i] && after[j] == before[j - 1]);
            } else if i == at {
                assert(after[j] == before[j - 1]);
            } else {
                assert(after[i] == before[i - 1] && after[j] == before[j - 1]);
            }
        }
        assert forall|c: usize| #[trigger] after.contains(c) == set.insert(cpu).contains(c) by {
            if after.contains(c) {
                let k = choose|k: int| 0 <= k < after.len() && after[k] == c;
                if k < at {
                    assert(before[k] == c);
                    assert(before.contains(c));
                } else if k > at {
                    assert(before[k - 1] == c);
                    assert(before.contains(c));
                }
            }
            if set.contains(c) {
                assert(before.contains(c));
                let k = choose|k: int| 0 <= k < before.len() && before[k] == c;
                if k < at {
                    assert(after[k] == c);
                } else {
                    assert(after[k + 1] == c);
                }
            }
            if c == cpu {
                assert(after[at as int] == c);
            }
        }
    }
}

/// Adds the CPUs of a range to a list.
fn insert_range(
    cpus: &mut Vec<usize>,
    first: usize,
    last: usize,
    Ghost(set): Ghost<Set<usize>>,
)
    requires
        ascending(old(cpus)@),
        lists(old(cpus)@, set),
        first <= last,
    ensures
        ascending(final(cpus)@),
        lists(final(cpus)@, set.union(cpu_range(first as int, last as int))),
{
    let mut cpu: usize = first;
    let ghost mut seen = set;
    assert(set =~= set.union(cpu_range(first as int, first - 1)));
    loop
        invariant_except_break
            first <= cpu <= last,
            ascending(cpus@),
            lists(cpus@, seen),
            seen == set.union(cpu_range(first as int, cpu - 1)),
        ensures
            ascending(cpus@),
            lists(cpus@, set.union(cpu_range(first as int, last as int))),
        decreases last - cpu,
    {
        insert_cpu(cpus, cpu, Ghost(seen));
        proof {
            assert(seen.insert(cpu) =~= set.union(cpu_range(first as int, cpu as int)));
            seen = set.union(cpu_range(first as int, cpu as int));
        }
        if cpu == last {
            break;
        }
        cpu += 1;
    }
}

/// Reads the range `lo..hi` as a CPU number.
fn parse_cpu_id(list: &str, chars: &Vec<char>, lo: usize, hi: usize) -> (r: Result<
    usize,
    CpuListError,
>)
    requires
        chars@ == list@,
        lo <= hi <= chars@.len(),
    ensures
        ({
            let value = chars@.subrange(lo as int, hi as int);
            match text::unsigned(value, usize::MAX as int) {
                Some(cpu) => r is Ok && r->Ok_0 == cpu,
                None => r is Err && r->Err_0@ == (CpuListFault::InvalidId { value }),
            }
        }),
{
    match text::parse_unsigned(chars, lo, hi, usize::MAX as u64) {
        Some(cpu) => Ok(cpu as usize),
        None => Err(CpuListError::InvalidId { value: list.substring_char(lo, hi).to_owned() }),
    }
}

/// Reads the range `lo..hi` as an entry of a list.
fn parse_entry(list: &str, chars: &Vec<char>, lo: usize, hi: usize) -> (r: Result<
    (usize, usize),
    CpuListError,
>)
    requires
        chars@ == list@,
        lo <= hi <= chars@.len(),
    ensures
        match entry_of(chars@.subrange(lo as int, hi as int)) {
            Ok((first, last)) => r is Ok && (r->Ok_0).0 == first && (r->Ok_0).1 == last && first
                <= last,
            Err(fault) => r is Err && r->Err_0@ == fault,
        },
{
    let ghost part = chars@.subrange(lo as int, hi as int);
    if lo == hi {
        return Err(CpuListError::EmptyEntry);
    }
    match text::find_char(chars, lo, hi, '-') {
        Some(dash) => {
            assert(chars@.subrange(lo as int, dash as int) =~= part.subrange(0, dash - lo));
            assert(chars@.subrange(dash + 1, hi as int) =~= part.subrange(
                dash - lo + 1,
                part.len() as int,
            ));
            let first: usize = match parse_cpu_id(list, chars, lo, dash) {
                Ok(first) => first,
                Err(error) => {
                    return Err(error);
                },
            };
            let last: usize = match parse_cpu_id(list, chars, dash + 1, hi) {
                Ok(last) => last,
                Err(error) => {
                    return Err(error);
                },
            };
            if first > last {
                return Err(
                    CpuListError::Descending { part: list.substring_char(lo, hi).to_owned() },
                );
            }
            Ok((first, last))
        },
        None => match parse_cpu_id(list, chars, lo, hi) {
            Ok(cpu) => Ok((cpu, cpu)),
            Err(error) => Err(error),
        },
    }
}

/// Reads a CPU list: numbers and ranges between commas, in any order.
pub fn parse_cpu_list(list: &str) -> (r: Result<Vec<usize>, CpuListError>)
    ensures
        match cpu_list_of(list@) {
            Ok(set) => r is Ok && ascending(r->Ok_0@) && lists(r->Ok_0@, set),
            Err(fault) => r is Err && r->Err_0@ == fault,
        },
{
    let chars: Vec<char> = text::chars_of(list);
    assert(chars@.subrange(0, chars@.len() as int) =~= list@);
    let trimmed: (usize, usize) = text::trim_range(&chars, 0, chars.len());
    let mut cpus: Vec<usize> = Vec::new();
    if trimmed.0 == trimmed.1 {
        return Ok(cpus);
    }
    let ranges: Vec<(usize, usize)> = text::split_ranges(&chars, trimmed.0, trimmed.1, ',');
    let ghost pieces = text::split(text::trim(list@), ',');
    let ghost mut set: Set<usize> = Set::empty();
    let mut k: usize = 0;
    proof {
        assert(pieces.take(0) =~= Seq::<Seq<char>>::empty());
    }
    while k < ranges.len()
        invariant
            k <= ranges@.len(),
            chars@ == list@,
            cpu_list_of(list@) == entries_of(pieces),
            ranges@.len() == pieces.len(),
            forall|j: int|
                0 <= j < ranges@.len() ==> (#[trigger] ranges@[j]).0 <= ranges@[j].1
                    <= chars@.len() && chars@.subrange(ranges@[j].0 as int, ranges@[j].1 as int)
                    == pieces[j],
            entries_of(pieces.take(k as int)) == Ok::<Set<usize>, CpuListFault>(set),
            ascending(cpus@),
            lists(cpus@, set),
        decreases ranges@.len() - k,
    {
        let range: (usize, usize) = text::trim_range(&chars, ranges[k].0, ranges[k].1);
        proof {
            assert(pieces.take(k as int + 1).drop_last() =~= pieces.take(k as int));
            assert(pieces.take(k as int + 1).last() == pieces[k as int]);
        }
        match parse_entry(list, &chars, range.0, range.1) {
            Ok((first, last)) => {
                insert_range(&mut cpus, first, last, Ghost(set));
                proof {
                    set = set.union(cpu_range(first as int, last as int));
                }
            },
            Err(error) => {
                proof {
                    lemma_first_fault_stays(pieces, k as int + 1);
                }
                return Err(error);
            },
        }
        k += 1;
    }
    assert(pieces.take(k as int) =~= pieces);
    Ok(cpus)
}

// Choosing CPUs.
/// What a variable of the environment holds.
pub enum EnvValue {
    Present(String),
    Missing,
    /// It cannot be read, for a reason.
    Unreadable(String),
}

/// Which variable asks for a number of CPUs.
#[derive(Clone, Copy, Debug, PartialEq, Eq, Structural)]
pub enum CountVariable {
    /// `LB_SIMPLE_CPU_MASK_K`
    MaskK,
    /// `K`
    Short,
}

/// The variable that asks for a number of CPUs, with what it says. The short one
/// counts only where the other is missing; one that cannot be read counts as a
/// value that will not do.
pub fn configured_cpu_count_env(mask_k: EnvValue, short: EnvValue) -> (r: Option<
    (CountVariable, String),
>)
    ensures
        r == match mask_k {
            EnvValue::Present(value) => Some((CountVariable::MaskK, value)),
            EnvValue::Unreadable(reason) => Some((CountVariable::MaskK, reason)),
            EnvValue::Missing => match short {
                EnvValue::Present(value) => Some((CountVariable::Short, value)),
                _ => None,
            },
        },
{
    match mask_k {
        EnvValue::Present(value) => Some((CountVariable::MaskK, value)),
        EnvValue::Unreadable(reason) => Some((CountVariable::MaskK, reason)),
        EnvValue::Missing => match short {
            EnvValue::Present(value) => Some((CountVariable::Short, value)),
            _ => None,
        },
    }
}

/// What is wrong with a number of CPUs that was asked for.
#[derive(Clone, Copy, Debug, PartialEq, Eq, Structural)]
pub enum CpuCountError {
    NotANumber,
    Zero,
}

/// Reads a number of CPUs.
pub fn parse_requested_cpu_count(value: &str) -> (r: Result<usize, CpuCountError>)
    ensures
        match text::unsigned(text::trim(value@), usize::MAX as int) {
            None => r == Err::<usize, CpuCountError>(CpuCountError::NotANumber),
            Some(count) => if count == 0 {
                r == Err::<usize, CpuCountError>(CpuCountError::Zero)
            } else {
                r is Ok && r->Ok_0 == count
            },
        },
{
    let chars: Vec<char> = text::chars_of(value);
    assert(chars@.subrange(0, chars@.len() as int) =~= value@);
    let range: (usize, usize) = text::trim_range(&chars, 0, chars.len());
    match text::parse_unsigned(&chars, range.0, range.1, usize::MAX as u64) {
        None => Err(CpuCountError::NotANumber),
        Some(count) => if count == 0 {
            Err(CpuCountError::Zero)
        } else {
            Ok(count as usize)
        },
    }
}

pub open spec fn is_allowed(allowed: Option<Seq<usize>>, cpu: usize) -> bool {
    match allowed {
        None => true,
        Some(cpus) => cpus.contains(cpu),
    }
}

/// The CPUs of a node that are allowed, in the node's order.
pub open spec fn allowed_of(node: Seq<usize>, allowed: Option<Seq<usize>>) -> Seq<usize>
    decreases node.len(),
{
    if node.len() == 0 {
        Seq::empty()
    } else {
        let before = allowed_of(node.drop_last(), allowed);
        if is_allowed(allowed, node.last()) {
            before.push(node.last())
        } else {
            before
        }
    }
}

pub open spec fn allowed_view(allowed: Option<&Vec<usize>>) -> Option<Seq<usize>> {
    match allowed {
        None => None,
        Some(cpus) => Some(cpus@),
    }
}

proof fn lemma_allowed_grows(node: Seq<usize>, allowed: Option<Seq<usize>>, n: int)
    requires
        0 <= n <= node.len(),
    ensures
        allowed_of(node.take(n), allowed).len() <= allowed_of(node, allowed).len(),
        allowed_of(node, allowed).take(allowed_of(node.take(n), allowed).len() as int)
            == allowed_of(node.take(n), allowed),
    decreases node.len() - n,
{
    if n == node.len() {
        assert(node.take(n) =~= node);
        assert(allowed_of(node, allowed).take(allowed_of(node, allowed).len() as int)
            =~= allowed_of(node, allowed));
    } else {
        lemma_allowed_grows(node, allowed, n + 1);
        assert(node.take(n + 1).drop_last() =~= node.take(n));
        let shorter = allowed_of(node.take(n), allowed);
        let longer = allowed_of(node.take(n + 1), allowed);
        let all = allowed_of(node, allowed);
        assert(shorter =~= longer.take(shorter.len() as int));
        assert(all.take(shorter.len() as int) =~= all.take(longer.len() as int).take(
            shorter.len() as int,
        ));
    }
}

fn contains_cpu(cpus: &Vec<usize>, cpu: usize) -> (r: bool)
    ensures
        r == cpus@.contains(cpu),
{
    let mut i: usize = 0;
    while i < cpus.len()
        invariant
            i <= cpus@.len(),
            forall|k: int| 0 <= k < i ==> cpus@[k] != cpu,
        decreases cpus@.len() - i,
    {
        if cpus[i] == cpu {
            assert(cpus@[i as int] == cpu);
            return true;
        }
        i += 1;
    }
    false
}

/// What is said where fewer CPUs are there than were asked for.
pub open spec fn too_few_text(requested_cpus: int, available: int) -> Seq<char> {
    "requested "@ + text::decimal(requested_cpus as nat)
        + " CPUs from the first NUMA node but only "@ + text::decimal(available as nat)
        + " are available"@
}

/// The first `requested` CPUs of the node that the process may run on.
pub fn select_first_numa_cpus(
    numa_cpus: &Vec<usize>,
    allowed_cpus: Option<&Vec<usize>>,
    requested_cpus: usize,
) -> (r: Result<Vec<usize>, String>)
    ensures
        ({
            let available = allowed_of(numa_cpus@, allowed_view(allowed_cpus));
            if available.len() < requested_cpus {
                r is Err && r->Err_0@ == too_few_text(
                    requested_cpus as int,
                    available.len() as int,
                )
            } else {
                r is Ok && r->Ok_0@ == available.take(requested_cpus as int)
            }
        }),
{
    let ghost allowed = allowed_view(allowed_cpus);
    let mut cpus: Vec<usize> = Vec::new();
    let mut i: usize = 0;
    assert(numa_cpus@.take(0) =~= Seq::<usize>::empty());
    while i < numa_cpus.len() && cpus.len() < requested_cpus
        invariant
            i <= numa_cpus@.len(),
            cpus@.len() <= requested_cpus,
            allowed == allowed_view(allowed_cpus),
            cpus@ == allowed_of(numa_cpus@.take(i as int), allowed),
        decreases numa_cpus@.len() - i,
    {
        let cpu: usize = numa_cpus[i];
        let keep: bool = match allowed_cpus {
            None => true,
            Some(allowed) => contains_cpu(allowed, cpu),
        };
        assert(numa_cpus@.take(i as int + 1).drop_last() =~= numa_cpus@.take(i as int));
        if keep {
            cpus.push(cpu);
        }
        i += 1;
    }
    proof {
        lemma_allowed_grows(numa_cpus@, allowed, i as int);
        if i == numa_cpus@.len() {
            assert(numa_cpus@.take(i as int) =~= numa_cpus@);
        }
        assert(cpus@.take(cpus@.len() as int) =~= cpus@);
    }
    if cpus.len() < requested_cpus {
        return Err(select_error(requested_cpus, cpus.len()));
    }
    Ok(cpus)
}

fn select_error(requested_cpus: usize, available: usize) -> (r: String)
    ensures
        r@ == too_few_text(requested_cpus as int, available as int),
{
    let mut out: String = "requested ".to_owned();
    text::append_decimal(&mut out, requested_cpus as u64);
    out.append(" CPUs from the first NUMA node but only ");
    text::append_decimal(&mut out, available as u64);
    out.append(" are available");
    out
}

/// Which CPUs a process is limited to.
pub enum CpuAffinityState {
    /// All: no number was asked for.
    Disabled,
    Configured { variable: CountVariable, requested_cpus: usize, cpus: Vec<usize> },
    /// What was asked for will not do.
    Invalid { variable: CountVariable, error: AffinityError },
}

/// Why a number of CPUs cannot be had.
pub enum AffinityError {
    Count(CpuCountError),
    /// The CPUs of the node cannot be read.
    NodeUnreadable,
    /// In the words to be printed.
    TooFew(String),
}

/// Decides the CPUs of a process. `configured` is what asks for a number of them,
/// `first_node_cpus` the CPUs of the first node, where they can be read, and
/// `allowed_cpus` those that the process may run on, where that is known.
pub fn load_cpu_affinity_state(
    configured: Option<(CountVariable, String)>,
    first_node_cpus: Option<&Vec<usize>>,
    allowed_cpus: Option<&Vec<usize>>,
) -> (r: CpuAffinityState)
    ensures
        match configured {
            None => r is Disabled,
            Some((variable, value)) => match text::unsigned(
                text::trim(value@),
                usize::MAX as int,
            ) {
                None => r == (CpuAffinityState::Invalid {
                    variable,
                    error: AffinityError::Count(CpuCountError::NotANumber),
                }),
                Some(count) => if count == 0 {
                    r == (CpuAffinityState::Invalid {
                        variable,
                        error: AffinityError::Count(CpuCountError::Zero),
                    })
                } else if first_node_cpus is None {
                    r == (CpuAffinityState::Invalid {
                        variable,
                        error: AffinityError::NodeUnreadable,
                    })
                } else {
                    let available = allowed_of(first_node_cpus->0@, allowed_view(allowed_cpus));
                    match r {
                        CpuAffinityState::Configured { variable: by, requested_cpus, cpus } => {
                            &&& available.len() >= count
                            &&& by == variable
                            &&& requested_cpus == count
                            &&& cpus@ == available.take(count)
                        },
                        CpuAffinityState::Invalid {
                            variable: by,
                            error: AffinityError::TooFew(error),
                        } => {
                            &&& available.len() < count
                            &&& by == variable
                            &&& error@ == too_few_text(count, available.len() as int)
                        },
                        _ => false,
                    }
                },
            },
        },
{
    let (variable, value): (CountVariable, String) = match configured {
        None => {
            return CpuAffinityState::Disabled;
        },
        Some(configured) => configured,
    };
    let requested_cpus: usize = match parse_requested_cpu_count(value.as_str()) {
        Ok(requested_cpus) => requested_cpus,
        Err(error) => {
            return CpuAffinityState::Invalid { variable, error: AffinityError::Count(error) };
        },
    };
    let first_node_cpus: &Vec<usize> = match first_node_cpus {
        Some(cpus) => cpus,
        None => {
            return CpuAffinityState::Invalid { variable, error: AffinityError::NodeUnreadable };
        },
    };
    match select_first_numa_cpus(first_node_cpus, allowed_cpus, requested_cpus) {
        Ok(cpus) => CpuAffinityState::Configured { variable, requested_cpus, cpus },
        Err(error) => CpuAffinityState::Invalid { variable, error: AffinityError::TooFew(error) },
    }
}

/// Numbers with commas between them.
pub open spec fn joined(cpus: Seq<usize>) -> Seq<char>
    decreases cpus.len(),
{
    if cpus.len() == 0 {
        Seq::empty()
    } else if cpus.len() == 1 {
        text::decimal(cpus[0] as nat)
    } else {
        joined(cpus.drop_last()) + ","@ + text::decimal(cpus.last() as nat)
    }
}

pub fn format_cpu_list(cpus: &Vec<usize>) -> (r: String)
    ensures
        r@ == joined(cpus@),
{
    let mut out: String = "".to_owned();
    proof {
        reveal_strlit("");
        assert(cpus@.take(0) =~= Seq::<usize>::empty());
        assert(out@ =~= joined(cpus@.take(0)));
    }
    let mut i: usize = 0;
    while i < cpus.len()
        invariant
            i <= cpus@.len(),
            out@ == joined(cpus@.take(i as int)),
        decreases cpus@.len() - i,
    {
        let ghost before = out@;
        if i > 0 {
            out.append(",");
        }
        text::append_decimal(&mut out, cpus[i] as u64);
        proof {
            let next = cpus@.take(i as int + 1);
            assert(next.drop_last() =~= cpus@.take(i as int));
            assert(next.last() == cpus@[i as int]);
            if i == 0 {
                assert(out@ =~= text::decimal(cpus@[0] as nat));
            }
        }
        i += 1;
    }
    assert(cpus@.take(i as int) =~= cpus@);
    out
}

/// The number of a NUMA node, by the name of its directory.
pub fn numa_node_id(name: &str) -> (r: Option<u32>)
    ensures
        ({
            let rest = name@.subrange(4, name@.len() as int);
            match r {
                Some(id) => name@.len() >= 4 && name@.subrange(0, 4) == "node"@ && text::unsigned(
                    rest,
                    u32::MAX as int,
                ) == Some(id as int),
                None => name@.len() < 4 || name@.subrange(0, 4) != "node"@ || text::unsigned(
                    rest,
                    u32::MAX as int,
                ) is None,
            }
        }),
{
    let chars: Vec<char> = text::chars_of(name);
    proof {
        reveal_strlit("node");
    }
    if chars.len() < 4 || chars[0] != 'n' || chars[1] != 'o' || chars[2] != 'd' || chars[3] != 'e' {
        proof {
            if chars@.len() >= 4 && name@.subrange(0, 4) == "node"@ {
                assert(name@.subrange(0, 4)[0] == 'n');
                assert(name@.subrange(0, 4)[1] == 'o');
                assert(name@.subrange(0, 4)[2] == 'd');
                assert(name@.subrange(0, 4)[3] == 'e');
            }
        }
        return None;
    }
    assert(name@.subrange(0, 4) =~= "node"@);
    match text::parse_unsigned(&chars, 4, chars.len(), u32::MAX as u64) {
        Some(id) => Some(id as u32),
        None => None,
    }
}

/// Whether node `a` is read before node `b`: by number, and in the order in which
/// they were found where two have one number.
pub open spec fn reads_before(ids: Seq<u32>, a: int, b: int) -> bool {
    ids[a] < ids[b] || (ids[a] == ids[b] && a < b)
}

/// Whether a node is still to be read after `last`.
pub open spec fn to_be_read(ids: Seq<u32>, last: Option<usize>, k: int) -> bool {
    match last {
        None => true,
        Some(last) => reads_before(ids, last as int, k),
    }
}

/// `next` is the first of the nodes below `n` that are still to be read.
pub open spec fn is_next(ids: Seq<u32>, last: Option<usize>, next: int, n: int) -> bool {
    &&& 0 <= next < n
    &&& to_be_read(ids, last, next)
    &&& forall|k: int|
        0 <= k < n && k != next && #[trigger] to_be_read(ids, last, k) ==> reads_before(
            ids,
            next,
            k,
        )
}

/// The node that is read after `last`, or first.
pub fn next_node(ids: &Vec<u32>, last: Option<usize>) -> (r: Option<usize>)
    requires
        last is Some ==> last->0 < ids@.len(),
    ensures
        match r {
            Some(next) => is_next(ids@, last, next as int, ids@.len() as int),
            None => forall|k: int| 0 <= k < ids@.len() ==> !#[trigger] to_be_read(ids@, last, k),
        },
{
    let mut best: Option<usize> = None;
    let mut i: usize = 0;
    while i < ids.len()
        invariant
            i <= ids@.len(),
            last is Some ==> last->0 < ids@.len(),
            match best {
                Some(next) => is_next(ids@, last, next as int, i as int),
                None => forall|k: int| 0 <= k < i ==> !#[trigger] to_be_read(ids@, last, k),
            },
        decreases ids@.len() - i,
    {
        let after: bool = match last {
            None => true,
            Some(last) => ids[last] < ids[i] || (ids[last] == ids[i] && last < i),
        };
        assert(after == to_be_read(ids@, last, i as int));
        if after {
            match best {
                None => {
                    best = Some(i);
                },
                Some(next) => {
                    if ids[i] < ids[next] {
                        best = Some(i);
                    }
                },
            }
        }
        i += 1;
    }
    best
}

/// A list of CPUs that can be read.
#[derive(Clone, Copy, Debug, PartialEq, Eq, Structural)]
pub enum NodeList {
    /// That of the node at `index`.
    Node { index: usize },
    /// That of all CPUs that are there.
    Online,
}

/// What reading a list gave.
#[derive(Clone, Copy, Debug, PartialEq, Eq, Structural)]
pub enum ListGave {
    Unreadable,
    Empty,
    Cpus,
}

/// What follows in finding the CPUs of the first node.
#[derive(Clone, Copy, Debug, PartialEq, Eq, Structural)]
pub enum NodeStep {
    /// Read this list next.
    Read { list: NodeList },
    /// The list read last is the one.
    Take,
    /// The list read last stops the search.
    Fail,
}

/// Reads the list of the node that comes after `last`, and that of all CPUs where no
/// node does.
pub open spec fn reads_on(ids: Seq<u32>, last: Option<usize>, step: NodeStep) -> bool {
    match step {
        NodeStep::Read { list: NodeList::Node { index } } => is_next(
            ids,
            last,
            index as int,
            ids.len() as int,
        ),
        NodeStep::Read { list: NodeList::Online } => forall|k: int|
            0 <= k < ids.len() ==> !#[trigger] to_be_read(ids, last, k),
        _ => false,
    }
}

fn read_on(ids: &Vec<u32>, last: Option<usize>) -> (r: NodeStep)
    requires
        last is Some ==> last->0 < ids@.len(),
    ensures
        reads_on(ids@, last, r),
{
    match next_node(ids, last) {
        Some(index) => NodeStep::Read { list: NodeList::Node { index } },
        None => NodeStep::Read { list: NodeList::Online },
    }
}

/// Finds the CPUs of the first node that has any, by the nodes' numbers. `asked` is the
/// list read last, `None` at first, and `gave` what came of it. A list that cannot be
/// read stops the search; where no node has a CPU, all that are there are taken.
pub fn first_numa_node_cpus(ids: &Vec<u32>, asked: Option<NodeList>, gave: ListGave) -> (r: NodeStep)
    requires
        asked matches Some(NodeList::Node { index }) ==> index < ids@.len(),
    ensures
        match asked {
            None => reads_on(ids@, None, r),
            Some(NodeList::Node { index }) => match gave {
                ListGave::Unreadable => r == NodeStep::Fail,
                ListGave::Cpus => r == NodeStep::Take,
                ListGave::Empty => reads_on(ids@, Some(index), r),
            },
            Some(NodeList::Online) => r == if gave == ListGave::Unreadable {
                NodeStep::Fail
            } else {
                NodeStep::Take
            },
        },
{
    match asked {
        None => read_on(ids, None),
        Some(NodeList::Node { index }) => match gave {
            ListGave::Unreadable => NodeStep::Fail,
            ListGave::Cpus => NodeStep::Take,
            ListGave::Empty => read_on(ids, Some(index)),
        },
        Some(NodeList::Online) => if gave == ListGave::Unreadable {
            NodeStep::Fail
        } else {
            NodeStep::Take
        },
    }
}

/// The first CPU that no affinity mask can name.
pub fn cpu_outside_mask(cpus: &Vec<usize>) -> (r: Option<usize>)
    ensures
        match r {
            None => forall|k: int| 0 <= k < cpus@.len() ==> #[trigger] cpus@[k] < CPU_SETSIZE,
            Some(cpu) => cpu >= CPU_SETSIZE && exists|k: int|
                0 <= k < cpus@.len() && #[trigger] cpus@[k] == cpu && forall|j: int|
                    0 <= j < k ==> #[trigger] cpus@[j] < CPU_SETSIZE,
        },
{
    let mut i: usize = 0;
    while i < cpus.len()
        invariant
            i <= cpus@.len(),
            forall|k: int| 0 <= k < i ==> #[trigger] cpus@[k] < CPU_SETSIZE,
        decreases cpus@.len() - i,
    {
        if cpus[i] >= CPU_SETSIZE {
            assert(cpus@[i as int] >= CPU_SETSIZE);
            return Some(cpus[i]);
        }
        i += 1;
    }
    None
}

/// Whether a thread sets its affinity now: once, whether or not that works.
pub fn ensure_current_thread_affinity(configured: bool, applied: &mut bool) -> (r: bool)
    ensures
        r == (configured && !*old(applied)),
        *final(applied) == (*old(applied) || configured),
{
    if !configured || *applied {
        return false;
    }
    *applied = true;
    true
}

/// Every CPU that is selected belongs to the node, and the process may run on it.
pub proof fn law_selected_cpus_are_allowed(
    node: Seq<usize>,
    allowed: Option<Seq<usize>>,
    i: int,
)
    requires
        0 <= i < allowed_of(node, allowed).len(),
    ensures
        node.contains(allowed_of(node, allowed)[i]),
        is_allowed(allowed, allowed_of(node, allowed)[i]),
    decreases node.len(),
{
    let before = allowed_of(node.drop_last(), allowed);
    if i < before.len() {
        law_selected_cpus_are_allowed(node.drop_last(), allowed, i);
        let k = choose|k: int| 0 <= k < node.drop_last().len() && node.drop_last()[k] == before[i];
        assert(node[k] == before[i]);
    } else {
        assert(node[node.len() - 1] == node.last());
    }
}

/// An entry that is a number names that CPU, and two numbers with a dash between them name
/// those from the first to the second, both of them with it. They may not run backwards,
/// and there has to be something.
pub proof fn law_an_entry_names_its_cpus(first: nat, last: nat)
    requires
        first <= usize::MAX,
        last <= usize::MAX,
    ensures
        entry_of(text::decimal(first)) == Ok::<(int, int), CpuListFault>(
            (first as int, first as int),
        ),
        ({
            let range = text::decimal(first) + seq!['-'] + text::decimal(last);
            &&& first <= last ==> entry_of(range) == Ok::<(int, int), CpuListFault>(
                (first as int, last as int),
            )
            &&& first > last ==> entry_of(range) == Err::<(int, int), CpuListFault>(
                CpuListFault::Descending { part: range },
            )
        }),
        entry_of(Seq::empty()) == Err::<(int, int), CpuListFault>(CpuListFault::EmptyEntry),
        forall|cpu: usize|
            #[trigger] cpu_range(first as int, last as int).contains(cpu) == (first <= cpu <= last),
{
    let a = text::decimal(first);
    let b = text::decimal(last);
    text::lemma_decimal(first);
    text::lemma_decimal(last);
    text::law_a_number_reads_as_it_was_written(first, usize::MAX as int);
    text::law_a_number_reads_as_it_was_written(last, usize::MAX as int);
    assert forall|i: int| 0 <= i < a.len() implies a[i] != '-' by {
        assert(text::is_digit(a[i]));
    }
    text::law_a_text_splits_at_its_separators(a, '-', b);
    text::lemma_find_from(a, '-', 0);
    let range = a + seq!['-'] + b;
    assert(range.subrange(0, a.len() as int) =~= a);
    assert(range.subrange(a.len() as int + 1, range.len() as int) =~= b);
}

/// A list that is written out reads back as the CPUs that are in it.
pub proof fn law_a_written_list_reads_back(cpus: Seq<usize>)
    ensures
        cpu_list_of(joined(cpus)) is Ok,
        forall|cpu: usize| #[trigger] cpu_list_of(joined(cpus))->Ok_0.contains(cpu)
            == cpus.contains(cpu),
{
    let empty = Seq::<char>::empty();
    if cpus.len() == 0 {
        text::law_trimming_leaves_the_text(empty, empty, empty);
        assert(joined(cpus) == empty);
    } else {
        lemma_joined_pieces(cpus);
        text::law_trimming_leaves_the_text(empty, joined(cpus), empty);
        let pieces = text::split(joined(cpus), ',');
        lemma_entries_of_numbers(pieces, cpus);
    }
}

proof fn lemma_joined_pieces(cpus: Seq<usize>)
    requires
        cpus.len() > 0,
    ensures
        ({
            let pieces = text::split(joined(cpus), ',');
            &&& pieces.len() == cpus.len()
            &&& forall|i: int|
                0 <= i < cpus.len() ==> #[trigger] pieces[i] == text::decimal(cpus[i] as nat)
        }),
        joined(cpus).len() > 0,
        text::is_tight(joined(cpus)),
    decreases cpus.len(),
{
    let last = text::decimal(cpus.last() as nat);
    text::lemma_decimal(cpus.last() as nat);
    assert forall|i: int| 0 <= i < last.len() implies last[i] != ',' by {
        assert(text::is_digit(last[i]));
    }
    if cpus.len() == 1 {
        text::law_a_text_splits_at_its_separators(last, ',', last);
    } else {
        let before = joined(cpus.drop_last());
        lemma_joined_pieces(cpus.drop_last());
        reveal_strlit(",");
        assert(","@ =~= seq![',']);
        text::law_a_last_piece_comes_last(before, ',', last);
        assert(joined(cpus)[0] == before[0]);
        assert(joined(cpus)[joined(cpus).len() - 1] == last[last.len() - 1]);
    }
}

proof fn lemma_entries_of_numbers(pieces: Seq<Seq<char>>, cpus: Seq<usize>)
    requires
        pieces.len() == cpus.len(),
        forall|i: int|
            0 <= i < cpus.len() ==> #[trigger] pieces[i] == text::decimal(cpus[i] as nat),
    ensures
        entries_of(pieces) is Ok,
        forall|cpu: usize| #[trigger] entries_of(pieces)->Ok_0.contains(cpu) == cpus.contains(cpu),
    decreases pieces.len(),
{
    if pieces.len() > 0 {
        let (before, last) = (cpus.drop_last(), cpus.last());
        lemma_entries_of_numbers(pieces.drop_last(), before);
        let empty = Seq::<char>::empty();
        assert(pieces[pieces.len() - 1] == text::decimal(last as nat));
        text::lemma_decimal(last as nat);
        text::law_trimming_leaves_the_text(empty, text::decimal(last as nat), empty);
        law_an_entry_names_its_cpus(last as nat, last as nat);
        assert forall|cpu: usize| #[trigger] entries_of(pieces)->Ok_0.contains(cpu)
            == cpus.contains(cpu) by {
            if before.contains(cpu) {
                let k = choose|k: int| 0 <= k < before.len() && before[k] == cpu;
                assert(cpus[k] == cpu);
            }
            if cpus.contains(cpu) {
                let k = choose|k: int| 0 <= k < cpus.len() && cpus[k] == cpu;
                if k < before.len() {
                    assert(before[k] == cpu);
                }
            }
            if cpu == last {
                assert(cpus[cpus.len() - 1] == cpu);
            }
        }
    } else {
        assert(cpus =~= Seq::<usize>::empty());
    }
}

/// A list names what its entries name, all together, and one bad entry spoils it.
pub proof fn law_a_list_names_what_its_entries_name(pieces: Seq<Seq<char>>, piece: Seq<char>)
    ensures
        ({
            let before = entries_of(pieces);
            let entry = entry_of(text::trim(piece));
            let all = entries_of(pieces.push(piece));
            &&& before is Err ==> all == before
            &&& before is Ok && entry is Err ==> all is Err && all->Err_0 == entry->Err_0
            &&& before is Ok && entry is Ok ==> all is Ok && forall|cpu: usize| #[trigger]
                all->Ok_0.contains(cpu) == (before->Ok_0.contains(cpu) || (entry->Ok_0).0 <= cpu
                    <= (entry->Ok_0).1)
        }),
{
    assert(pieces.push(piece).drop_last() =~= pieces);
}

/// All CPUs of a node that are allowed can be selected, each as often as it is listed and
/// in the node's order: a node that is put together of two has those of the first, and
/// then those of the second.
pub proof fn law_selected_cpus_keep_the_order_of_the_node(
    first: Seq<usize>,
    second: Seq<usize>,
    allowed: Option<Seq<usize>>,
    cpu: usize,
)
    ensures
        allowed_of(first + second, allowed) == allowed_of(first, allowed) + allowed_of(
            second,
            allowed,
        ),
        allowed_of(seq![cpu], allowed) == if allowed is None || allowed->0.contains(cpu) {
            seq![cpu]
        } else {
            Seq::empty()
        },
    decreases second.len(),
{
    assert(seq![cpu].drop_last() =~= Seq::<usize>::empty());
    assert(allowed_of(seq![cpu].drop_last(), allowed) =~= Seq::<usize>::empty());
    assert(Seq::<usize>::empty().push(cpu) =~= seq![cpu]);
    if second.len() == 0 {
        assert(first + second =~= first);
        assert(allowed_of(first, allowed) + Seq::<usize>::empty() =~= allowed_of(first, allowed));
    } else {
        law_selected_cpus_keep_the_order_of_the_node(first, second.drop_last(), allowed, cpu);
        assert((first + second).drop_last() =~= first + second.drop_last());
        assert((first + second).last() == second.last());
        let before = allowed_of(first, allowed) + allowed_of(second.drop_last(), allowed);
        assert(before.push(second.last()) =~= allowed_of(first, allowed) + allowed_of(
            second.drop_last(),
            allowed,
        ).push(second.last()));
    }
}

/// Nodes are read by their numbers, from the lowest: the first one has none below it, and
/// each further one is the next above the last, so that none is passed over.
pub proof fn law_nodes_are_read_by_number(
    ids: Seq<u32>,
    last: Option<usize>,
    next: int,
    other: int,
)
    requires
        is_next(ids, last, next, ids.len() as int),
        0 <= other < ids.len(),
        last is Some ==> last->0 < ids.len(),
    ensures
        0 <= next < ids.len(),
        last is None ==> ids[next] <= ids[other],
        last is Some ==> ids[last->0 as int] <= ids[next],
        last is Some && ids[other] > ids[last->0 as int] ==> ids[next] <= ids[other],
        last is Some && ids[other] == ids[last->0 as int] && other > last->0 ==> ids[next]
            == ids[other] && next <= other,
        last is Some ==> next != last->0,
{
    assert(to_be_read(ids, last, next));
    if other != next && to_be_read(ids, last, other) {
        assert(reads_before(ids, next, other));
    }
}

/// A list that was read is in order, with no CPU twice, and has all CPUs that were named.
pub proof fn law_a_list_is_in_order(
    cpus: Seq<usize>,
    set: Set<usize>,
    i: int,
    j: int,
    cpu: usize,
)
    requires
        ascending(cpus),
        lists(cpus, set),
        0 <= i < j < cpus.len(),
    ensures
        cpus[i] < cpus[j],
        set.contains(cpus[i]),
        set.contains(cpu) ==> exists|k: int| 0 <= k < cpus.len() && cpus[k] == cpu,
{
    assert(cpus.contains(cpus[i]));
    assert(cpus.contains(cpu) == set.contains(cpu));
}

} // verus!
