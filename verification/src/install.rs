//! How the first users of a mutex or a condition variable agree on its state.
//!
//! The word of a mutex holds nothing or its state: every contender builds a state
//! and one of them is published. The word of a condition variable says in between
//! that a state is being built, and the others wait for it.
use vstd::prelude::*;

use crate::errno::EINVAL;

verus! {

/// What a word holds before its state is installed.
pub const NO_STATE: usize = 0;

/// What a word holds while its state is being installed.
pub const INSTALLING: usize = 1;

/// What a contender finds in the word of a mutex.
#[derive(Clone, Copy, Debug, PartialEq, Eq, Structural)]
pub enum Lookup {
    /// The state to use.
    Found { state: usize },
    /// Nothing: a state has to be built and offered.
    Absent,
}

/// Looks a mutex up, by its address and its word.
pub fn ensure_state(mutex: usize, word: usize) -> (r: Result<Lookup, i32>)
    ensures
        r == if mutex == 0 {
            Err::<Lookup, i32>(EINVAL)
        } else if word != NO_STATE {
            Ok(Lookup::Found { state: word })
        } else {
            Ok(Lookup::Absent)
        },
{
    if mutex == 0 {
        return Err(EINVAL);
    }
    if word != NO_STATE {
        return Ok(Lookup::Found { state: word });
    }
    Ok(Lookup::Absent)
}

/// The word after a state was offered: the first one offered stays.
pub open spec fn offered(word: usize, candidate: usize) -> usize {
    if word == NO_STATE {
        candidate
    } else {
        word
    }
}

/// Offers a state for a mutex that had none. Returns the state to use; where it
/// is not the candidate, somebody else's came first and the candidate is to be
/// given back.
pub fn offer_state(word: &mut usize, candidate: usize) -> (r: usize)
    requires
        candidate != NO_STATE,
    ensures
        *final(word) == offered(*old(word), candidate),
        r == *final(word),
{
    if *word == NO_STATE {
        *word = candidate;
    }
    *word
}

/// How far a thread got in finding or installing the state of a word that says
/// when one is being built.
#[derive(Clone, Copy, Debug, PartialEq, Eq, Structural)]
pub enum InstallPhase {
    /// About to look at the word.
    Look,
    /// Found the word empty: about to claim it.
    Claim,
    /// Claimed the word: building the state.
    Build,
    /// Has the state.
    Done { state: usize },
}

/// One access to the word. `built` is the state that a thread in `Build` made.
pub open spec fn install_stepped(word: usize, phase: InstallPhase, built: usize) -> (
    usize,
    InstallPhase,
) {
    match phase {
        InstallPhase::Look => (
            word,
            if word > INSTALLING {
                InstallPhase::Done { state: word }
            } else if word == INSTALLING {
                InstallPhase::Look
            } else {
                InstallPhase::Claim
            },
        ),
        InstallPhase::Claim => if word == NO_STATE {
            (INSTALLING, InstallPhase::Build)
        } else {
            (word, InstallPhase::Look)
        },
        InstallPhase::Build => (built, InstallPhase::Done { state: built }),
        InstallPhase::Done { state } => (word, phase),
    }
}

pub fn install_step(word: &mut usize, phase: InstallPhase, built: usize) -> (r: InstallPhase)
    requires
        phase == InstallPhase::Build ==> built > INSTALLING,
    ensures
        (*final(word), r) == install_stepped(*old(word), phase, built),
{
    match phase {
        InstallPhase::Look => if *word > INSTALLING {
            InstallPhase::Done { state: *word }
        } else if *word == INSTALLING {
            InstallPhase::Look
        } else {
            InstallPhase::Claim
        },
        InstallPhase::Claim => if *word == NO_STATE {
            *word = INSTALLING;
            InstallPhase::Build
        } else {
            InstallPhase::Look
        },
        InstallPhase::Build => {
            *word = built;
            InstallPhase::Done { state: built }
        },
        InstallPhase::Done { state } => InstallPhase::Done { state },
    }
}

/// The state that a destroyed mutex or condition variable leaves to be dropped.
/// The word is empty afterwards, unless it never held one.
pub fn take_state(word: &mut usize, installing_counts: bool) -> (r: Option<usize>)
    ensures
        ({
            let empty = if installing_counts {
                *old(word) <= INSTALLING
            } else {
                *old(word) == NO_STATE
            };
            if empty {
                r is None && *final(word) == *old(word)
            } else {
                r == Some(*old(word)) && *final(word) == NO_STATE
            }
        }),
{
    let value: usize = *word;
    let empty: bool = if installing_counts {
        value <= INSTALLING
    } else {
        value == NO_STATE
    };
    if empty {
        None
    } else {
        *word = NO_STATE;
        Some(value)
    }
}

/// A word with what every thread is doing about it.
pub struct Install {
    pub word: usize,
    pub phases: Seq<InstallPhase>,
}

pub open spec fn install_moved(i: Install, p: int, built: usize) -> Install {
    let (word, phase) = install_stepped(i.word, i.phases[p], built);
    Install { word, phases: i.phases.update(p, phase) }
}

/// At most one thread builds a state, it does so exactly while the word says so,
/// and who is done has the state in the word.
pub open spec fn agreed(i: Install) -> bool {
    &&& forall|p: int|
        0 <= p < i.phases.len() ==> match #[trigger] i.phases[p] {
            InstallPhase::Build => i.word == INSTALLING,
            InstallPhase::Done { state } => state == i.word && i.word > INSTALLING,
            _ => true,
        }
    &&& forall|a: int, b: int|
        0 <= a < b < i.phases.len() ==> !(#[trigger] i.phases[a] == InstallPhase::Build
            && #[trigger] i.phases[b] == InstallPhase::Build)
}

/// Whatever thread goes on next, all agree on the state, and nobody builds a
/// second one.
pub proof fn law_threads_agree_on_the_state(i: Install, p: int, built: usize)
    requires
        agreed(i),
        0 <= p < i.phases.len(),
        i.phases[p] == InstallPhase::Build ==> built > INSTALLING,
    ensures
        agreed(install_moved(i, p, built)),
{
    let after = install_moved(i, p, built);
    assert forall|q: int| 0 <= q < after.phases.len() implies match #[trigger] after.phases[q] {
        InstallPhase::Build => after.word == INSTALLING,
        InstallPhase::Done { state } => state == after.word && after.word > INSTALLING,
        _ => true,
    } by {
        let before = i.phases[q];
        if q != p && i.phases[p] == InstallPhase::Build && before == InstallPhase::Build {
            if q < p {
                assert(!(i.phases[q] == InstallPhase::Build && i.phases[p]
                    == InstallPhase::Build));
            } else {
                assert(!(i.phases[p] == InstallPhase::Build && i.phases[q]
                    == InstallPhase::Build));
            }
        }
    }
    assert forall|a: int, b: int| 0 <= a < b < after.phases.len() implies !(
    #[trigger] after.phases[a] == InstallPhase::Build && #[trigger] after.phases[b]
        == InstallPhase::Build) by {
        let x = i.phases[a];
        let y = i.phases[b];
    }
}

/// A thread that offered a state uses the one that the word holds after any
/// number of later offers.
pub proof fn law_contenders_use_one_state(word: usize, candidate: usize, later: Seq<usize>)
    requires
        candidate != NO_STATE,
    ensures
        later.fold_left(offered(word, candidate), |w: usize, c: usize| offered(w, c)) == offered(
            word,
            candidate,
        ),
    decreases later.len(),
{
    let step = |w: usize, c: usize| offered(w, c);
    if later.len() > 0 {
        law_contenders_use_one_state(word, candidate, later.drop_last());
    }
}

/// A thread that finds the word empty claims it and installs what it built. One that finds
/// a state uses that, and one that finds another at work looks again.
pub proof fn law_a_state_is_installed_or_found(word: usize, built: usize)
    ensures
        word == 0 ==> {
            let (w1, p1) = install_stepped(word, InstallPhase::Look, built);
            let (w2, p2) = install_stepped(w1, p1, built);
            let (w3, p3) = install_stepped(w2, p2, built);
            &&& w1 == 0 && w2 == 1
            &&& p2 == InstallPhase::Build
            &&& (w3, p3) == (built, InstallPhase::Done { state: built })
        },
        word == 1 ==> install_stepped(word, InstallPhase::Look, built) == (
            word,
            InstallPhase::Look,
        ),
        word > 1 ==> install_stepped(word, InstallPhase::Look, built) == (
            word,
            InstallPhase::Done { state: word },
        ),
        word != 0 ==> install_stepped(word, InstallPhase::Claim, built) == (
            word,
            InstallPhase::Look,
        ),
{
}

/// The first state that is offered for an empty word stays, and what a word holds is kept.
pub proof fn law_the_first_offer_stays(word: usize, candidate: usize)
    ensures
        offered(0, candidate) == candidate,
        word != 0 ==> offered(word, candidate) == word,
{
}

} // verus!
