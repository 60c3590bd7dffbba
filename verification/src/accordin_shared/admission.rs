//! One admission episode covers all locks that a thread holds at a time.
//!
//! A thread shows the scheduler one word: the number of its request, and
//! whether it waits for a slot, has one, or holds a lock. The scheduler shows
//! which request each CPU currently serves.
use vstd::prelude::*;

verus! {

pub const HELD: u32 = 1;

pub const WAITING: u32 = 2;

pub const SPINNING: u32 = 3;

pub const FLAGS: u32 = 3;

pub const MAX_CPUS: usize = 256;

/// What the scheduler shows.
pub struct SchedulerAdmission {
    pub enabled: u32,
    pub owners: [u64; MAX_CPUS],
}

/// The word of a thread, and how many locks it holds or is taking.
pub struct AdmissionState {
    pub word: u32,
    pub depth: u32,
}

/// A word taken apart: the request's number, in the bits above the flags, and
/// the flags.
pub struct WordView {
    pub request: u32,
    pub flags: u32,
}

pub open spec fn word_view(word: u32) -> WordView {
    WordView { request: word & !FLAGS, flags: word & FLAGS }
}

pub proof fn lemma_word_parts(word: u32, flags: u32)
    requires
        flags <= FLAGS,
    ensures
        word_view((word & !FLAGS) | flags) == (WordView { request: word & !FLAGS, flags }),
        (word & !FLAGS) & !FLAGS == word & !FLAGS,
        (word & !FLAGS) & FLAGS == 0,
        (word | WAITING) & !FLAGS == word & !FLAGS,
        word & FLAGS <= FLAGS,
{
    assert(((word & !3u32) | flags) & !3u32 == word & !3u32 && ((word & !3u32) | flags) & 3u32
        == flags) by (bit_vector)
        requires
            flags <= 3,
    ;
    assert((word & !3u32) & !3u32 == word & !3u32 && (word & !3u32) & 3 == 0 && (word | 2) & !3u32
        == word & !3u32 && word & 3 <= 3) by (bit_vector);
}

/// The number after the request of `word`, in the same bits.
pub open spec fn next_request(word: u32) -> u32 {
    (word & !FLAGS).wrapping_add(4)
}

proof fn lemma_next_request(word: u32)
    ensures
        next_request(word) & !FLAGS == next_request(word),
        next_request(word) & FLAGS == 0,
        next_request(word) != word & !FLAGS,
{
    let base = word & !3u32;
    let next = base.wrapping_add(4);
    assert(next == if base + 4 > u32::MAX {
        (base + 4 - 0x1_0000_0000) as u32
    } else {
        (base + 4) as u32
    });
    assert(base & 3 == 0 && base <= 0xffff_fffc) by (bit_vector)
        requires
            base == word & !3u32,
    ;
    if base == 0xffff_fffc {
        assert(0u32 & !3u32 == 0 && 0u32 & 3u32 == 0) by (bit_vector);
    } else {
        assert(next & !3u32 == next && next & 3u32 == 0) by (bit_vector)
            requires
                base & 3 == 0,
                base < 0xffff_fffc,
                next == base + 4,
        ;
    }
}

impl View for AdmissionState {
    type V = WordView;

    open spec fn view(&self) -> WordView {
        word_view(self.word)
    }
}

impl AdmissionState {
    pub fn new() -> (r: Self)
        ensures
            r.word == 0,
            r.depth == 0,
    {
        AdmissionState { word: 0, depth: 0 }
    }
}

/// Opens an acquisition, and reports whether it is a managed outermost one.
/// Only that one takes part in admission: nested ones must keep running so that
/// they can release their outer locks. It gets a number of its own, even if the
/// scheduler never saw the last one end.
pub fn begin(state: &mut AdmissionState, enabled: bool) -> (r: bool)
    requires
        old(state).depth < u32::MAX,
    ensures
        r == (enabled && old(state).depth == 0),
        final(state).depth == old(state).depth + 1,
        final(state).word == if r {
            next_request(old(state).word)
        } else {
            old(state).word
        },
        r ==> final(state)@.request != old(state)@.request && final(state)@.flags == 0,
{
    let outer: bool = state.depth == 0;
    state.depth += 1;
    let managed: bool = outer && enabled;
    if managed {
        proof {
            lemma_next_request(state.word);
        }
        state.word = (state.word & !FLAGS).wrapping_add(FLAGS + 1);
    }
    managed
}

/// The ticket under which the scheduler grants a request.
pub open spec fn ticket_of(request: u32, tid: u32) -> u64 {
    ((request as u64) << 32) | tid as u64
}

/// Asks for a slot, and returns the ticket to look for.
pub fn wait_begin(state: &mut AdmissionState, tid: u32) -> (r: u64)
    ensures
        final(state).word == old(state).word | WAITING,
        final(state).depth == old(state).depth,
        final(state)@.request == old(state)@.request,
        r == ticket_of(old(state)@.request, tid),
{
    let request: u32 = state.word & !FLAGS;
    proof {
        lemma_word_parts(state.word, 0);
    }
    state.word = state.word | WAITING;
    ((request as u64) << 32) | tid as u64
}

/// Whether a wait for `ticket` is over: the slot of the CPU that the thread
/// runs on was granted to it, or the scheduler does not manage slots.
pub fn wait_over(scheduler: &Option<SchedulerAdmission>, cpu: usize, ticket: u64) -> (r: bool)
    ensures
        r == match *scheduler {
            Some(scheduler) => scheduler.enabled == 0 || (cpu < MAX_CPUS
                && scheduler.owners@[cpu as int] == ticket),
            None => true,
        },
{
    match scheduler {
        Some(scheduler) => scheduler.enabled == 0 || (cpu < MAX_CPUS && scheduler.owners[cpu]
            == ticket),
        None => true,
    }
}

/// The slot is granted: from here on the thread spins for the lock.
pub fn wait(state: &mut AdmissionState)
    ensures
        final(state)@ == (WordView { request: old(state)@.request, flags: SPINNING }),
        final(state).depth == old(state).depth,
{
    proof {
        lemma_word_parts(state.word, SPINNING);
    }
    state.word = (state.word & !FLAGS) | SPINNING;
}

pub open spec fn held_word(word: u32) -> u32 {
    (word & !FLAGS) | HELD
}

/// The lock is taken. `outer` is what opening the acquisition reported.
pub fn enter(state: &mut AdmissionState, outer: bool)
    ensures
        final(state).word == if outer {
            held_word(old(state).word)
        } else {
            old(state).word
        },
        final(state)@ == if outer {
            WordView { request: old(state)@.request, flags: HELD }
        } else {
            old(state)@
        },
        final(state).depth == old(state).depth,
{
    if outer {
        proof {
            lemma_word_parts(state.word, HELD);
        }
        state.word = (state.word & !FLAGS) | HELD;
    }
}

/// A lock is released. The thread stays marked as holding until the last one,
/// in whatever order they are released.
pub fn finish(state: &mut AdmissionState, enabled: bool)
    requires
        old(state).depth > 0,
    ensures
        final(state).depth == old(state).depth - 1,
        final(state).word == if old(state).depth == 1 && enabled {
            old(state).word & !FLAGS
        } else {
            old(state).word
        },
        final(state)@ == if old(state).depth == 1 && enabled {
            WordView { flags: 0, ..old(state)@ }
        } else {
            old(state)@
        },
{
    let held: u32 = state.depth;
    state.depth = held - 1;
    if held == 1 && enabled {
        proof {
            lemma_word_parts(state.word, 0);
        }
        state.word = state.word & !FLAGS;
    }
}

pub fn state_for_test(state: &AdmissionState) -> (r: u32)
    ensures
        r == state@.flags,
{
    state.word & FLAGS
}

pub fn reset_for_test(state: &mut AdmissionState)
    ensures
        final(state).word == 0,
        final(state).depth == 0,
{
    state.word = 0;
    state.depth = 0;
}

/// The word once an outermost acquisition is opened, waits for its slot, takes
/// the lock and releases it.
pub open spec fn after_episode(word: u32) -> u32 {
    held_word(next_request(word)) & !FLAGS
}

/// A grant for one acquisition is never one for the next: their tickets differ,
/// whether or not the scheduler saw the release in between.
pub proof fn law_a_new_acquisition_cannot_reuse_an_old_grant(word: u32, tid: u32)
    ensures
        ({
            let first = next_request(word);
            let second = next_request(after_episode(word));
            &&& first & !FLAGS == first
            &&& second & !FLAGS == second
            &&& first != second
            &&& ticket_of(first, tid) != ticket_of(second, tid)
        }),
{
    let first = next_request(word);
    lemma_next_request(word);
    lemma_word_parts(first, HELD);
    lemma_next_request(after_episode(word));
    assert(after_episode(word) == first);
    let second = next_request(first);
    assert(first != second);
    assert((((first as u64) << 32) | tid as u64) != (((second as u64) << 32) | tid as u64))
        by (bit_vector)
        requires
            first != second,
    ;
}

/// The number of a request is what the word holds above its two lowest bits. Each new one
/// is one more, until they start over; holding the lock leaves it as it is, and it makes
/// the upper half of the ticket, with the thread's id as the lower one.
pub proof fn law_requests_are_numbered_in_order(word: u32, tid: u32)
    ensures
        next_request(word) == ((word as int / 4 + 1) * 4) % 0x1_0000_0000,
        held_word(word) == word as int / 4 * 4 + 1,
        after_episode(word) == next_request(word),
        ticket_of(word, tid) == word * 0x1_0000_0000 + tid,
        word_view(word).request == word as int / 4 * 4,
        word_view(word).flags == word as int % 4,
{
    assert(word & !3u32 == (word / 4) * 4 && word & 3u32 == word % 4 && (word & !3u32) | 1 == (word
        / 4) * 4 + 1) by (bit_vector);
    let base = word & !3u32;
    assert(base.wrapping_add(4) == if base + 4 > u32::MAX {
        (base + 4 - 0x1_0000_0000) as u32
    } else {
        (base + 4) as u32
    });
    lemma_next_request(word);
    lemma_word_parts(next_request(word), HELD);
    let (high, low) = (word as u64, tid as u64);
    assert((high << 32) | low == high * 0x1_0000_0000 + low) by (bit_vector)
        requires
            high <= 0xffff_ffff,
            low <= 0xffff_ffff,
    ;
}

} // verus!
