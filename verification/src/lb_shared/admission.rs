//! The word a thread shows the scheduler: whether it is inside a critical
//! section, and whether it is about to queue for one.
use vstd::prelude::*;

verus! {

pub const IN_CRITICAL_SECTION: u32 = 1;

pub const SLOW_PATH_PENDING: u32 = 2;

/// What the word says. Its other bits are never touched.
pub struct WordFlags {
    pub in_critical_section: bool,
    pub slow_path_pending: bool,
    pub rest: u32,
}

pub open spec fn flags_of(word: u32) -> WordFlags {
    WordFlags {
        in_critical_section: word & IN_CRITICAL_SECTION != 0,
        slow_path_pending: word & SLOW_PATH_PENDING != 0,
        rest: word & !3u32,
    }
}

/// The admission word of one thread.
pub struct UserAdmissionWord {
    pub word: u32,
}

impl View for UserAdmissionWord {
    type V = WordFlags;

    open spec fn view(&self) -> WordFlags {
        flags_of(self.word)
    }
}

pub fn new_word() -> (r: UserAdmissionWord)
    ensures
        r.word == 0,
{
    UserAdmissionWord { word: 0 }
}

pub fn mark_slow_path_pending(state: &mut UserAdmissionWord)
    ensures
        final(state)@ == (WordFlags { slow_path_pending: true, ..old(state)@ }),
        final(state).word == old(state).word | SLOW_PATH_PENDING,
{
    let value: u32 = state.word;
    assert((value | 2) & 1 == value & 1 && (value | 2) & 2 != 0 && (value | 2) & !3u32 == value
        & !3u32) by (bit_vector);
    state.word = value | SLOW_PATH_PENDING;
}

pub fn mark_critical_section_entered(state: &mut UserAdmissionWord)
    ensures
        final(state)@ == (WordFlags {
            in_critical_section: true,
            slow_path_pending: false,
            ..old(state)@
        }),
        final(state).word == (old(state).word | IN_CRITICAL_SECTION) & !SLOW_PATH_PENDING,
{
    let value: u32 = state.word;
    assert(((value | 1) & !2u32) & 1 != 0 && ((value | 1) & !2u32) & 2 == 0 && ((value | 1)
        & !2u32) & !3u32 == value & !3u32) by (bit_vector);
    state.word = (value | IN_CRITICAL_SECTION) & !SLOW_PATH_PENDING;
}

pub fn mark_critical_section_exit(state: &mut UserAdmissionWord)
    ensures
        final(state)@ == (WordFlags { in_critical_section: false, ..old(state)@ }),
        final(state).word == old(state).word & !IN_CRITICAL_SECTION,
{
    let value: u32 = state.word;
    assert((value & !1u32) & 1 == 0 && (value & !1u32) & 2 == value & 2 && (value & !1u32) & !3u32
        == value & !3u32) by (bit_vector);
    state.word = value & !IN_CRITICAL_SECTION;
}

pub fn reset_state(state: &mut UserAdmissionWord)
    ensures
        final(state).word == 0,
{
    state.word = 0;
}

pub fn word_for_test(state: &UserAdmissionWord) -> (r: u32)
    ensures
        r == state.word,
{
    state.word
}

/// Entering and leaving a critical section leaves nothing of the two flags,
/// whatever the word said before.
pub proof fn law_an_episode_clears_both_flags(
    before: WordFlags,
    entered: WordFlags,
    left: WordFlags,
)
    requires
        entered == (WordFlags { in_critical_section: true, slow_path_pending: false, ..before }),
        left == (WordFlags { in_critical_section: false, ..entered }),
    ensures
        !left.in_critical_section,
        !left.slow_path_pending,
        left.rest == before.rest,
{
}

/// The two flags are the two lowest bits of the word, and what is above them is left alone.
pub proof fn law_the_flags_are_the_lowest_bits(word: u32)
    ensures
        flags_of(word).in_critical_section == (word % 2 == 1),
        flags_of(word).slow_path_pending == (word % 4 >= 2),
        flags_of(word).rest == word - word % 4,
{
    assert((word & 1 != 0) == (word % 2 == 1) && (word & 2 != 0) == (word % 4 >= 2) && word & !3u32
        == word - word % 4) by (bit_vector);
}

} // verus!
