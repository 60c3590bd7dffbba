//! Asking the kernel for a little more time while a thread is inside a critical
//! section, through the thread's rseq area.
use vstd::prelude::*;

use crate::errno::EINVAL;
use crate::text;

verus! {

pub const EOPNOTSUPP: i32 = 95;

pub const ENOSYS: i32 = 38;

/// The kernel's own number for an operation that it does not support.
pub const KERNEL_ENOTSUPP: i32 = 524;

pub const RSEQ_CS_FLAG_SLICE_EXT_AVAILABLE: u32 = 16;

pub const PR_RSEQ_SLICE_EXT_ENABLE: u32 = 1;

/// How large an rseq area is that has the words used here.
pub const RSEQ_SLICE_CTRL_END: u32 = 32;

#[derive(Clone, Copy, Debug, PartialEq, Eq, Structural)]
pub enum TimesliceExtensionMode {
    Off,
    Auto,
    Require,
}

impl TimesliceExtensionMode {
    pub fn as_str(self) -> (r: &'static str)
        ensures
            r@ == match self {
                TimesliceExtensionMode::Off => "off"@,
                TimesliceExtensionMode::Auto => "auto"@,
                TimesliceExtensionMode::Require => "require"@,
            },
    {
        match self {
            TimesliceExtensionMode::Off => "off",
            TimesliceExtensionMode::Auto => "auto",
            TimesliceExtensionMode::Require => "require",
        }
    }
}

/// Why a thread cannot ask for more time.
#[derive(Clone, Copy, Debug, PartialEq, Eq, Structural)]
pub enum Reason {
    NoYield,
    NotRegistered,
    AreaTooSmall,
    NotAdvertised,
    GetFailed,
    SetFailed,
    YieldUnavailable,
}

impl Reason {
    pub fn as_str(self) -> (r: &'static str)
        ensures
            r@ == self.text(),
    {
        match self {
            Reason::NoYield => "user-space headers do not expose rseq_slice_yield",
            Reason::NotRegistered => "glibc did not register rseq for this thread",
            Reason::AreaTooSmall =>
                "glibc rseq area is too small to expose slice_ctrl (need 32 bytes)",
            Reason::NotAdvertised => "kernel did not advertise rseq slice extension",
            Reason::GetFailed => "prctl(PR_RSEQ_SLICE_EXTENSION_GET) failed",
            Reason::SetFailed => "prctl(PR_RSEQ_SLICE_EXTENSION_SET) failed",
            Reason::YieldUnavailable => "rseq_slice_yield is unavailable",
        }
    }

    pub open spec fn text(self) -> Seq<char> {
        match self {
            Reason::NoYield => "user-space headers do not expose rseq_slice_yield"@,
            Reason::NotRegistered => "glibc did not register rseq for this thread"@,
            Reason::AreaTooSmall =>
                "glibc rseq area is too small to expose slice_ctrl (need 32 bytes)"@,
            Reason::NotAdvertised => "kernel did not advertise rseq slice extension"@,
            Reason::GetFailed => "prctl(PR_RSEQ_SLICE_EXTENSION_GET) failed"@,
            Reason::SetFailed => "prctl(PR_RSEQ_SLICE_EXTENSION_SET) failed"@,
            Reason::YieldUnavailable => "rseq_slice_yield is unavailable"@,
        }
    }
}

/// Whether a thread can ask for more time, or why not.
#[derive(Clone, Copy, Debug, PartialEq, Eq, Structural)]
pub struct TimesliceExtensionStatus {
    pub enabled: bool,
    pub reason: Option<Reason>,
    pub error_number: i32,
}

pub open spec fn no_status() -> TimesliceExtensionStatus {
    TimesliceExtensionStatus { enabled: false, reason: None, error_number: 0 }
}

impl Default for TimesliceExtensionStatus {
    fn default() -> (r: Self)
        ensures
            r == no_status(),
    {
        TimesliceExtensionStatus { enabled: false, reason: None, error_number: 0 }
    }
}

/// The word through which a thread asks, in its lowest byte, and the kernel
/// grants, in the next one.
#[derive(Clone, Copy, Debug, PartialEq, Eq, Structural)]
pub struct RseqSliceCtrl {
    pub all: u32,
}

pub open spec fn request_of(all: u32) -> u32 {
    all & 0xff
}

pub open spec fn granted_of(all: u32) -> u32 {
    (all >> 8) & 0xff
}

/// The word with another request.
pub open spec fn with_request(all: u32, request: u8) -> u32 {
    (all & 0xffff_ff00) | (request as u32)
}

impl RseqSliceCtrl {
    pub fn granted(&self) -> (r: u8)
        ensures
            r == granted_of(self.all),
    {
        let all: u32 = self.all;
        assert((all >> 8) & 0xff <= 0xff) by (bit_vector);
        ((all >> 8) & 0xff) as u8
    }

    /// Writes the request alone.
    pub fn request(&mut self, value: u8)
        ensures
            final(self).all == with_request(old(self).all, value),
            request_of(final(self).all) == value,
            granted_of(final(self).all) == granted_of(old(self).all),
    {
        let all: u32 = self.all;
        let byte: u32 = value as u32;
        assert(((all & 0xffff_ff00) | byte) & 0xff == byte && ((all & 0xffff_ff00) | byte) >> 8
            == all >> 8) by (bit_vector)
            requires
                byte <= 0xff,
        ;
        self.all = (all & 0xffff_ff00) | byte;
    }
}

/// What is used of an rseq area.
#[derive(Clone, Copy, Debug, PartialEq, Eq, Structural)]
pub struct RseqWithSliceCtrl {
    pub flags: u32,
    pub slice_ctrl: RseqSliceCtrl,
}

/// What a thread found out about itself.
#[derive(Clone, Copy, Debug, PartialEq, Eq, Structural)]
pub struct TimesliceThreadState {
    pub initialized: bool,
    pub enabled: bool,
    pub error_number: i32,
    pub reason: Option<Reason>,
}

pub open spec fn fresh_state() -> TimesliceThreadState {
    TimesliceThreadState { initialized: false, enabled: false, error_number: 0, reason: None }
}

pub open spec fn refused(reason: Reason, error_number: i32) -> TimesliceThreadState {
    TimesliceThreadState {
        initialized: true,
        enabled: false,
        error_number,
        reason: Some(reason),
    }
}

pub open spec fn granted_state() -> TimesliceThreadState {
    TimesliceThreadState { initialized: true, enabled: true, error_number: 0, reason: None }
}

impl TimesliceThreadState {
    /// Once a thread has found out, it either can ask for more time or knows why it
    /// cannot, and one that can has met no error.
    pub open spec fn wf(self) -> bool {
        self.initialized ==> {
            &&& self.enabled == (self.reason is None)
            &&& self.enabled ==> self.error_number == 0
        }
    }

    pub fn new() -> (r: Self)
        ensures
            r == fresh_state(),
            r.wf(),
    {
        TimesliceThreadState { initialized: false, enabled: false, error_number: 0, reason: None }
    }

    fn refuse(reason: Reason, error_number: i32) -> (r: Self)
        ensures
            r == refused(reason, error_number),
    {
        TimesliceThreadState {
            initialized: true,
            enabled: false,
            error_number,
            reason: Some(reason),
        }
    }
}

/// How far a thread got in finding out.
#[derive(Clone, Copy, Debug, PartialEq, Eq, Structural)]
pub enum InitStage {
    /// About to look at the rseq area.
    Look,
    /// The kernel is asked whether the extension is on.
    Query,
    /// The kernel is asked to turn it on.
    Enable,
    /// Known.
    Known { state: TimesliceThreadState },
}

/// What a thread can see without asking the kernel: whether it can yield, how
/// large glibc's rseq area is, and the area itself, where it has an address.
#[derive(Clone, Copy, Debug, PartialEq, Eq, Structural)]
pub struct RseqFacts {
    pub can_yield: bool,
    pub size: u32,
    pub area: Option<RseqWithSliceCtrl>,
}

/// What looking at the rseq area tells.
pub open spec fn looked(facts: RseqFacts) -> InitStage {
    if !facts.can_yield {
        InitStage::Known { state: refused(Reason::NoYield, 0) }
    } else if facts.size == 0 {
        InitStage::Known { state: refused(Reason::NotRegistered, 0) }
    } else if facts.size < RSEQ_SLICE_CTRL_END || facts.area is None {
        InitStage::Known { state: refused(Reason::AreaTooSmall, 0) }
    } else if facts.area->0.flags & RSEQ_CS_FLAG_SLICE_EXT_AVAILABLE == 0 {
        InitStage::Known { state: refused(Reason::NotAdvertised, 0) }
    } else {
        InitStage::Query
    }
}

/// What a thread knows after the answer to its last question.
pub open spec fn found_out(
    stage: InitStage,
    facts: RseqFacts,
    answer: i32,
    error_number: i32,
) -> InitStage {
    match stage {
        InitStage::Look => looked(facts),
        InitStage::Query => if answer == -1 {
            InitStage::Known { state: refused(Reason::GetFailed, error_number) }
        } else if (answer as u32) & PR_RSEQ_SLICE_EXT_ENABLE == 0 {
            InitStage::Enable
        } else {
            InitStage::Known { state: granted_state() }
        },
        InitStage::Enable => if answer == -1 {
            InitStage::Known { state: refused(Reason::SetFailed, error_number) }
        } else {
            InitStage::Known { state: granted_state() }
        },
        InitStage::Known { state } => stage,
    }
}

/// Finds out whether a thread can ask for more time, one question at a time.
/// `answer` and `error_number` are what the kernel said to the last one. A thread
/// that can has asked for none yet: its word is cleared.
pub fn init_timeslice_thread_state(
    stage: InitStage,
    facts: &RseqFacts,
    answer: i32,
    error_number: i32,
    ctrl: &mut RseqSliceCtrl,
) -> (r: InitStage)
    ensures
        final(ctrl).all == if !(stage is Known) && r == (InitStage::Known {
            state: granted_state(),
        }) {
            0
        } else {
            old(ctrl).all
        },
        r == found_out(stage, *facts, answer, error_number),
        !(stage is Known) && r is Known ==> r->state.initialized && r->state.wf(),
{
    match stage {
        InitStage::Look => {
            if !facts.can_yield {
                return InitStage::Known {
                    state: TimesliceThreadState::refuse(Reason::NoYield, 0),
                };
            }
            if facts.size == 0 {
                return InitStage::Known {
                    state: TimesliceThreadState::refuse(Reason::NotRegistered, 0),
                };
            }
            match facts.area {
                Some(area) => if facts.size < RSEQ_SLICE_CTRL_END {
                    InitStage::Known {
                        state: TimesliceThreadState::refuse(Reason::AreaTooSmall, 0),
                    }
                } else if area.flags & RSEQ_CS_FLAG_SLICE_EXT_AVAILABLE == 0 {
                    InitStage::Known {
                        state: TimesliceThreadState::refuse(Reason::NotAdvertised, 0),
                    }
                } else {
                    InitStage::Query
                },
                None => InitStage::Known {
                    state: TimesliceThreadState::refuse(Reason::AreaTooSmall, 0),
                },
            }
        },
        InitStage::Query => if answer == -1 {
            InitStage::Known {
                state: TimesliceThreadState::refuse(Reason::GetFailed, error_number),
            }
        } else if (answer as u32) & PR_RSEQ_SLICE_EXT_ENABLE == 0 {
            InitStage::Enable
        } else {
            ctrl.all = 0;
            InitStage::Known {
                state: TimesliceThreadState {
                    initialized: true,
                    enabled: true,
                    error_number: 0,
                    reason: None,
                },
            }
        },
        InitStage::Enable => if answer == -1 {
            InitStage::Known {
                state: TimesliceThreadState::refuse(Reason::SetFailed, error_number),
            }
        } else {
            ctrl.all = 0;
            InitStage::Known {
                state: TimesliceThreadState {
                    initialized: true,
                    enabled: true,
                    error_number: 0,
                    reason: None,
                },
            }
        },
        InitStage::Known { state } => InitStage::Known { state },
    }
}

pub open spec fn unsupported(err: i32) -> bool {
    err == EOPNOTSUPP || err == ENOSYS || err == EINVAL || err == KERNEL_ENOTSUPP
}

pub fn is_unsupported_errno(err: i32) -> (r: bool)
    ensures
        r == unsupported(err),
{
    err == EOPNOTSUPP || err == ENOSYS || err == EINVAL || err == KERNEL_ENOTSUPP
}

/// A thread's state after a yield that returned `rc`, with the error `err` where
/// that is not 0. One that the kernel does not support turns the extension off.
pub open spec fn yielded(state: TimesliceThreadState, rc: i64, err: i32) -> TimesliceThreadState {
    if rc != 0 && unsupported(err) {
        TimesliceThreadState {
            enabled: false,
            error_number: err,
            reason: Some(Reason::YieldUnavailable),
            ..state
        }
    } else {
        state
    }
}

/// Why a process that requires the extension ends.
#[derive(Clone, Copy, Debug, PartialEq, Eq, Structural)]
pub struct Abort {
    pub reason: Option<Reason>,
    pub error_number: i32,
}

/// The extension as one kind of lock uses it.
#[derive(Clone, Copy, Debug, PartialEq, Eq, Structural)]
pub struct CriticalSectionTimesliceExtension {
    pub mode: TimesliceExtensionMode,
}

impl CriticalSectionTimesliceExtension {
    pub fn new(mode: TimesliceExtensionMode) -> (r: Self)
        ensures
            r.mode == mode,
    {
        CriticalSectionTimesliceExtension { mode }
    }

    /// Whether the process ends because the extension is required and a thread
    /// does not have it.
    pub fn prepare_thread(&self, state: &TimesliceThreadState) -> (r: Option<Abort>)
        ensures
            r == if self.mode == TimesliceExtensionMode::Require && !state.enabled {
                Some(Abort { reason: state.reason, error_number: state.error_number })
            } else {
                None
            },
    {
        if self.mode == TimesliceExtensionMode::Off {
            return None;
        }
        if !state.enabled && self.mode == TimesliceExtensionMode::Require {
            Some(Abort { reason: state.reason, error_number: state.error_number })
        } else {
            None
        }
    }

    /// Asks for more time.
    pub fn on_critical_section_enter(
        &self,
        state: &TimesliceThreadState,
        ctrl: &mut RseqSliceCtrl,
    )
        ensures
            self.mode == TimesliceExtensionMode::Off || !state.enabled ==> *final(ctrl) == *old(
                ctrl,
            ),
            self.mode != TimesliceExtensionMode::Off && state.enabled ==> final(ctrl).all
                == with_request(old(ctrl).all, 1),
    {
        if self.mode == TimesliceExtensionMode::Off || !state.enabled {
            return ;
        }
        ctrl.request(1);
    }

    /// Takes the request back, and reports whether the thread owes the kernel a
    /// yield for time that it was granted.
    pub fn on_critical_section_exit(
        &self,
        state: &TimesliceThreadState,
        ctrl: &mut RseqSliceCtrl,
    ) -> (r: bool)
        ensures
            r == (self.mode != TimesliceExtensionMode::Off && state.enabled && granted_of(
                old(ctrl).all,
            ) != 0),
            self.mode == TimesliceExtensionMode::Off || !state.enabled ==> *final(ctrl) == *old(
                ctrl,
            ),
            self.mode != TimesliceExtensionMode::Off && state.enabled ==> final(ctrl).all
                == with_request(old(ctrl).all, 0),
    {
        if self.mode == TimesliceExtensionMode::Off || !state.enabled {
            return false;
        }
        ctrl.request(0);
        ctrl.granted() != 0
    }

    /// Goes on after the yield. One that the kernel does not support turns the
    /// extension off for the thread, and ends a process that requires it.
    pub fn after_yield(&self, state: &mut TimesliceThreadState, rc: i64, err: i32) -> (r: Option<
        Abort,
    >)
        ensures
            *final(state) == yielded(*old(state), rc, err),
            old(state).wf() ==> final(state).wf(),
            r == if rc != 0 && unsupported(err) && self.mode == TimesliceExtensionMode::Require {
                Some(Abort { reason: Some(Reason::YieldUnavailable), error_number: err })
            } else {
                None
            },
    {
        if rc == 0 || !is_unsupported_errno(err) {
            return None;
        }
        state.enabled = false;
        state.error_number = err;
        state.reason = Some(Reason::YieldUnavailable);
        if self.mode == TimesliceExtensionMode::Require {
            Some(Abort { reason: Some(Reason::YieldUnavailable), error_number: err })
        } else {
            None
        }
    }
}

/// What a thread's state comes to under a mode.
pub open spec fn status_of(
    mode: TimesliceExtensionMode,
    state: TimesliceThreadState,
) -> TimesliceExtensionStatus {
    if mode == TimesliceExtensionMode::Off {
        no_status()
    } else {
        TimesliceExtensionStatus {
            enabled: state.enabled,
            reason: state.reason,
            error_number: state.error_number,
        }
    }
}

pub fn current_thread_timeslice_extension_status(
    mode: TimesliceExtensionMode,
    state: &TimesliceThreadState,
) -> (r: TimesliceExtensionStatus)
    ensures
        r == status_of(mode, *state),
        mode != TimesliceExtensionMode::Off && state.initialized && state.wf() ==> {
            &&& r.enabled == (r.reason is None)
            &&& r.enabled ==> r.error_number == 0
        },
{
    if mode == TimesliceExtensionMode::Off {
        return TimesliceExtensionStatus::default();
    }
    TimesliceExtensionStatus {
        enabled: state.enabled,
        reason: state.reason,
        error_number: state.error_number,
    }
}

pub open spec fn signed_text(n: int) -> Seq<char> {
    if n < 0 {
        "-"@ + text::decimal(-n as nat)
    } else {
        text::decimal(n as nat)
    }
}

/// What is printed before a process ends for want of the extension.
pub open spec fn abort_text(
    context: Seq<char>,
    reason: Seq<char>,
    error_number: int,
    error_text: Seq<char>,
) -> Seq<char> {
    let head = "timeslice extension "@ + context + " failed: "@ + reason;
    if error_number == 0 {
        head
    } else {
        head + " (errno="@ + signed_text(error_number) + ", "@ + error_text + ")"@
    }
}

/// `context` is what failed, and `error_text` what the system says of the error
/// number.
pub fn abort_message(context: &str, abort: &Abort, error_text: &str) -> (r: String)
    ensures
        r@ == abort_text(
            context@,
            match abort.reason {
                Some(reason) => reason.text(),
                None => "unknown failure"@,
            },
            abort.error_number as int,
            error_text@,
        ),
{
    let mut out: String = "timeslice extension ".to_owned();
    out.append(context);
    out.append(" failed: ");
    match abort.reason {
        Some(reason) => out.append(reason.as_str()),
        None => out.append("unknown failure"),
    }
    if abort.error_number != 0 {
        out.append(" (errno=");
        let ghost before = out@;
        if abort.error_number < 0 {
            out.append("-");
            text::append_decimal(&mut out, (-(abort.error_number as i64)) as u64);
        } else {
            text::append_decimal(&mut out, abort.error_number as u64);
        }
        assert(out@ =~= before + signed_text(abort.error_number as int));
        out.append(", ");
        out.append(error_text);
        out.append(")");
    }
    out
}

/// A thread's state after a row of yields, each with what it returned and its error.
pub open spec fn after_yields(
    state: TimesliceThreadState,
    yields: Seq<(i64, i32)>,
) -> TimesliceThreadState
    decreases yields.len(),
{
    if yields.len() == 0 {
        state
    } else {
        let before = after_yields(state, yields.drop_last());
        yielded(before, yields.last().0, yields.last().1)
    }
}

/// Whatever a thread found out, and whatever its yields came to since, its status
/// says either that it can ask for more time, with no reason and no error, or why
/// it cannot. Where the extension is off, it says nothing.
pub proof fn law_a_status_is_enabled_or_has_a_reason(
    mode: TimesliceExtensionMode,
    stage: InitStage,
    facts: RseqFacts,
    answer: i32,
    error_number: i32,
    yields: Seq<(i64, i32)>,
)
    requires
        !(stage is Known),
        found_out(stage, facts, answer, error_number) is Known,
    ensures
        ({
            let known = found_out(stage, facts, answer, error_number)->state;
            let status = status_of(mode, after_yields(known, yields));
            &&& after_yields(known, yields).initialized
            &&& mode == TimesliceExtensionMode::Off ==> status == no_status()
            &&& mode != TimesliceExtensionMode::Off ==> status.enabled == (status.reason is None)
            &&& status.enabled ==> status.error_number == 0
        }),
{
    law_changes_keep_a_state_in_order(
        found_out(stage, facts, answer, error_number)->state,
        yields,
    );
}

/// No row of yields puts a state out of order.
pub proof fn law_changes_keep_a_state_in_order(
    state: TimesliceThreadState,
    yields: Seq<(i64, i32)>,
)
    requires
        state.wf(),
    ensures
        after_yields(state, yields).wf(),
        after_yields(state, yields).initialized == state.initialized,
    decreases yields.len(),
{
    if yields.len() > 0 {
        law_changes_keep_a_state_in_order(state, yields.drop_last());
    }
}

/// Asking for time and taking the request back leaves the kernel's grant alone,
/// and leaves nothing asked for.
pub proof fn law_a_critical_section_leaves_no_request(all: u32)
    ensures
        request_of(with_request(all, 1)) == 1,
        granted_of(with_request(all, 1)) == granted_of(all),
        request_of(with_request(with_request(all, 1), 0)) == 0,
        granted_of(with_request(with_request(all, 1), 0)) == granted_of(all),
{
    let asked = with_request(all, 1);
    let done = with_request(asked, 0);
    assert(asked & 0xff == 1 && (asked >> 8) & 0xff == (all >> 8) & 0xff && done & 0xff == 0 && (done
        >> 8) & 0xff == (all >> 8) & 0xff) by (bit_vector)
        requires
            asked == (all & 0xffff_ff00) | 1,
            done == (asked & 0xffff_ff00) | 0,
    ;
}

/// The kernel is asked only where the thread can give time back, glibc registered an area
/// that is large enough, and the kernel advertises the extension in it; otherwise the
/// first of these that is missing is the reason.
pub proof fn law_only_an_advertised_extension_is_asked_for(
    facts: RseqFacts,
    answer: i32,
    error_number: i32,
)
    ensures
        ({
            let next = found_out(InitStage::Look, facts, answer, error_number);
            let large = facts.size >= 32 && facts.area is Some;
            let advertised = facts.area->0.flags & 16 != 0;
            let missing = if !facts.can_yield {
                Reason::NoYield
            } else if facts.size == 0 {
                Reason::NotRegistered
            } else if !large {
                Reason::AreaTooSmall
            } else {
                Reason::NotAdvertised
            };
            &&& next == InitStage::Query <==> facts.can_yield && large && advertised
            &&& next != InitStage::Query ==> next is Known && next->state.initialized
                && !next->state.enabled && next->state.reason == Some(missing)
                && next->state.error_number == 0
        }),
{
}

/// A kernel that says that the extension is on, or that turns it on, is taken at its word.
/// One that fails to answer is not asked again, and its error is kept.
pub proof fn law_the_extension_is_on_where_the_kernel_says_so(
    facts: RseqFacts,
    answer: i32,
    error_number: i32,
)
    ensures
        ({
            let asked = found_out(InitStage::Query, facts, answer, error_number);
            let set = found_out(InitStage::Enable, facts, answer, error_number);
            &&& answer == -1 ==> asked is Known && !asked->state.enabled
                && asked->state.error_number == error_number && asked->state.reason == Some(
                Reason::GetFailed,
            )
            &&& answer == -1 ==> set is Known && !set->state.enabled && set->state.error_number
                == error_number && set->state.reason == Some(Reason::SetFailed)
            &&& answer != -1 ==> set is Known && set->state.enabled && set->state.reason is None
            &&& answer >= 0 && answer % 2 == 0 ==> asked == InitStage::Enable
            &&& answer >= 0 && answer % 2 == 1 ==> asked is Known && asked->state.enabled
                && asked->state.reason is None
        }),
{
    if answer >= 0 {
        let word = answer as u32;
        assert(word & 1 == word % 2) by (bit_vector);
    }
}

/// A yield that the kernel does not support turns the extension off for good; any other
/// outcome changes nothing.
pub proof fn law_an_unsupported_yield_turns_the_extension_off(
    state: TimesliceThreadState,
    rc: i64,
    err: i32,
    next_rc: i64,
    next_err: i32,
)
    ensures
        ({
            let after = yielded(state, rc, err);
            let off = rc != 0 && (err == 95 || err == 38 || err == 22 || err == 524);
            &&& off ==> !after.enabled && after.error_number == err && after.reason == Some(
                Reason::YieldUnavailable,
            ) && !yielded(after, next_rc, next_err).enabled
            &&& !off ==> after == state
            &&& after.initialized == state.initialized
        }),
{
}

/// A status is that of the thread, but where the extension is off it is nobody's.
pub proof fn law_a_status_is_that_of_the_thread(
    mode: TimesliceExtensionMode,
    state: TimesliceThreadState,
)
    ensures
        ({
            let status = status_of(mode, state);
            &&& mode != TimesliceExtensionMode::Off ==> status.enabled == state.enabled
                && status.reason == state.reason && status.error_number == state.error_number
            &&& mode == TimesliceExtensionMode::Off ==> !status.enabled && status.reason is None
                && status.error_number == 0
        }),
{
}

/// The request is the lowest byte of the word, the grant the next one, and writing the one
/// leaves everything above it.
pub proof fn law_request_and_grant_are_bytes_of_the_word(all: u32, request: u8)
    ensures
        request_of(all) == all % 256,
        granted_of(all) == (all / 256) % 256,
        with_request(all, request) == all - all % 256 + request,
{
    let byte = request as u32;
    assert(all & 0xff == all % 256 && (all >> 8) & 0xff == (all / 256) % 256) by (bit_vector);
    assert((all & 0xffff_ff00) | byte == (all - all % 256) + byte) by (bit_vector)
        requires
            byte <= 0xff,
    ;
}

/// A thread that has not found out yet has nothing enabled and no reason why, so that its
/// status is as good as none under every mode.
pub proof fn law_a_fresh_thread_knows_nothing(mode: TimesliceExtensionMode)
    ensures
        !fresh_state().initialized,
        !fresh_state().enabled,
        fresh_state().reason is None,
        fresh_state().error_number == 0,
        status_of(mode, fresh_state()) == no_status(),
{
}

} // verus!
