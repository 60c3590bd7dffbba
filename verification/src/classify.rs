//! Which tasks spend their time waiting for locks.
//!
//! A task is normal, a candidate, or lock-intensive, by the share of time that it
//! waited for locks in the last epochs.
use vstd::prelude::*;

verus! {

pub const TASK_NORMAL: u32 = 0;

pub const TASK_CANDIDATE: u32 = 1;

pub const TASK_LOCK_INTENSIVE: u32 = 2;

/// What is known of a task.
#[derive(Clone, Copy, Debug, PartialEq, Eq, Structural)]
pub struct TaskState {
    pub pid: u32,
    pub tgid: u32,
    pub cls: u32,
    /// Hot epochs in a row.
    pub hot_epochs: u32,
    /// Cool epochs in a row.
    pub cool_epochs: u32,
    /// The last epoch that counted.
    pub last_epoch: u32,
}

impl TaskState {
    pub fn new(pid: u32, tgid: u32) -> (r: Self)
        ensures
            r == (TaskState {
                pid,
                tgid,
                cls: TASK_NORMAL,
                hot_epochs: 0,
                cool_epochs: 0,
                last_epoch: 0,
            }),
    {
        TaskState { pid, tgid, cls: TASK_NORMAL, hot_epochs: 0, cool_epochs: 0, last_epoch: 0 }
    }
}

#[derive(Clone, Copy, Debug, PartialEq, Eq, Structural)]
pub struct ClassifyConfig {
    pub enter_threshold_pct: u32,
    pub exit_threshold_pct: u32,
    pub min_contended_acq: u64,
    pub hot_epochs_needed: u32,
    pub cool_epochs_needed: u32,
}

/// What one epoch showed of a task.
pub struct EpochSignal {
    pub wait_ns: u64,
    pub runtime_ns: u64,
    pub contended_acq: u64,
    pub epoch_id: u32,
}

/// The time waited, in percent of the time run.
pub open spec fn wait_ratio_pct(signal: EpochSignal) -> int {
    signal.wait_ns * 100 / (signal.runtime_ns as int)
}

pub open spec fn is_hot(signal: EpochSignal, cfg: ClassifyConfig) -> bool {
    wait_ratio_pct(signal) >= cfg.enter_threshold_pct && signal.contended_acq
        >= cfg.min_contended_acq
}

pub open spec fn is_cool(signal: EpochSignal, cfg: ClassifyConfig) -> bool {
    wait_ratio_pct(signal) <= cfg.exit_threshold_pct
}

/// Whether an epoch counts: the task ran, and the epoch is a new one.
pub open spec fn counts(state: TaskState, signal: EpochSignal) -> bool {
    signal.runtime_ns != 0 && signal.epoch_id != state.last_epoch
}

/// A task after an epoch.
pub open spec fn classified(
    state: TaskState,
    signal: EpochSignal,
    cfg: ClassifyConfig,
) -> TaskState {
    let seen = TaskState { last_epoch: signal.epoch_id, ..state };
    if !counts(state, signal) {
        state
    } else if state.cls == TASK_NORMAL || state.cls == TASK_CANDIDATE {
        if is_hot(signal, cfg) {
            TaskState {
                hot_epochs: (state.hot_epochs + 1) as u32,
                cool_epochs: 0,
                cls: if state.hot_epochs + 1 >= cfg.hot_epochs_needed {
                    TASK_LOCK_INTENSIVE
                } else {
                    TASK_CANDIDATE
                },
                ..seen
            }
        } else {
            TaskState { hot_epochs: 0, cls: TASK_NORMAL, ..seen }
        }
    } else if state.cls == TASK_LOCK_INTENSIVE {
        if is_cool(signal, cfg) {
            TaskState {
                cool_epochs: (state.cool_epochs + 1) as u32,
                hot_epochs: 0,
                cls: if state.cool_epochs + 1 >= cfg.cool_epochs_needed {
                    TASK_NORMAL
                } else {
                    state.cls
                },
                ..seen
            }
        } else {
            TaskState { cool_epochs: 0, ..seen }
        }
    } else {
        seen
    }
}

/// Whether an epoch can be taken into account: where it counts, its ratio can be
/// computed, and the count that it raises can be raised.
pub open spec fn has_room(state: TaskState, signal: EpochSignal, cfg: ClassifyConfig) -> bool {
    counts(state, signal) ==> {
        &&& signal.wait_ns * 100 <= u64::MAX
        &&& (state.cls == TASK_NORMAL || state.cls == TASK_CANDIDATE) && is_hot(signal, cfg)
            ==> state.hot_epochs < u32::MAX
        &&& state.cls == TASK_LOCK_INTENSIVE && is_cool(signal, cfg) ==> state.cool_epochs
            < u32::MAX
    }
}

/// Takes an epoch into account, and returns the task's class.
pub fn classify_task(
    state: &mut TaskState,
    wait_ns: u64,
    epoch_runtime_ns: u64,
    contended_acq: u64,
    epoch_id: u32,
    cfg: &ClassifyConfig,
) -> (r: u32)
    requires
        has_room(
            *old(state),
            (EpochSignal { wait_ns, runtime_ns: epoch_runtime_ns, contended_acq, epoch_id }),
            *cfg,
        ),
    ensures
        *final(state) == classified(
            *old(state),
            (EpochSignal { wait_ns, runtime_ns: epoch_runtime_ns, contended_acq, epoch_id }),
            *cfg,
        ),
        r == final(state).cls,
{
    if epoch_runtime_ns == 0 || epoch_id == state.last_epoch {
        return state.cls;
    }
    state.last_epoch = epoch_id;
    let ratio_pct: u64 = (wait_ns * 100) / epoch_runtime_ns;
    if state.cls == TASK_NORMAL || state.cls == TASK_CANDIDATE {
        if ratio_pct >= cfg.enter_threshold_pct as u64 && contended_acq >= cfg.min_contended_acq {
            state.hot_epochs = state.hot_epochs + 1;
            state.cool_epochs = 0;
            if state.hot_epochs >= cfg.hot_epochs_needed {
                state.cls = TASK_LOCK_INTENSIVE;
            } else {
                state.cls = TASK_CANDIDATE;
            }
        } else {
            state.hot_epochs = 0;
            state.cls = TASK_NORMAL;
        }
    } else if state.cls == TASK_LOCK_INTENSIVE {
        if ratio_pct <= cfg.exit_threshold_pct as u64 {
            state.cool_epochs = state.cool_epochs + 1;
            state.hot_epochs = 0;
            if state.cool_epochs >= cfg.cool_epochs_needed {
                state.cls = TASK_NORMAL;
            }
        } else {
            state.cool_epochs = 0;
        }
    }
    state.cls
}

/// The same epoch counts once.
pub proof fn law_an_epoch_counts_once(state: TaskState, signal: EpochSignal, cfg: ClassifyConfig)
    ensures
        classified(classified(state, signal, cfg), signal, cfg) == classified(state, signal, cfg),
{
}

/// A task after a row of epochs.
pub open spec fn classified_all(
    state: TaskState,
    signals: Seq<EpochSignal>,
    cfg: ClassifyConfig,
) -> TaskState
    decreases signals.len(),
{
    if signals.len() == 0 {
        state
    } else {
        classified(classified_all(state, signals.drop_last(), cfg), signals.last(), cfg)
    }
}

/// Every epoch in the row counts after the one before it.
pub open spec fn all_count(state: TaskState, signals: Seq<EpochSignal>) -> bool {
    &&& forall|i: int| 0 <= i < signals.len() ==> (#[trigger] signals[i]).runtime_ns != 0
    &&& signals.len() > 0 ==> signals[0].epoch_id != state.last_epoch
    &&& forall|i: int, j: int|
        0 <= i && j == i + 1 && j < signals.len() ==> (#[trigger] signals[i]).epoch_id != (
        #[trigger] signals[j]).epoch_id
}

/// A normal task turns lock-intensive with the last of the hot epochs in a row
/// that this takes, and is a candidate until then.
pub proof fn law_enough_hot_epochs_promote(
    state: TaskState,
    signals: Seq<EpochSignal>,
    cfg: ClassifyConfig,
)
    requires
        state.cls == TASK_NORMAL,
        state.hot_epochs == 0,
        0 < signals.len() <= cfg.hot_epochs_needed,
        all_count(state, signals),
        forall|i: int| 0 <= i < signals.len() ==> is_hot(#[trigger] signals[i], cfg),
    ensures
        ({
            let after = classified_all(state, signals, cfg);
            &&& after.hot_epochs == signals.len()
            &&& after.last_epoch == signals.last().epoch_id
            &&& after.cls == if signals.len() == cfg.hot_epochs_needed {
                TASK_LOCK_INTENSIVE
            } else {
                TASK_CANDIDATE
            }
        }),
    decreases signals.len(),
{
    let before = signals.drop_last();
    let n = signals.len() as int;
    assert(is_hot(signals[n - 1], cfg));
    if n > 1 {
        assert forall|i: int| 0 <= i < before.len() implies is_hot(#[trigger] before[i], cfg)
            && before[i].runtime_ns != 0 by {
            assert(before[i] == signals[i]);
        }
        assert forall|i: int, j: int| 0 <= i && j == i + 1 && j < before.len() implies (
        #[trigger] before[i]).epoch_id != (#[trigger] before[j]).epoch_id by {
            assert(before[i] == signals[i] && before[j] == signals[j]);
        }
        law_enough_hot_epochs_promote(state, before, cfg);
        assert(before.last() == signals[n - 2]);
        assert(signals[n - 2].epoch_id != signals[n - 1].epoch_id);
    } else {
        assert(before =~= Seq::<EpochSignal>::empty());
        assert(classified_all(state, before, cfg) == state);
    }
}

/// The last epoch that counted, after a row of epochs. An epoch in which the task did
/// not run counts for nothing.
pub open spec fn last_counted(start: u32, signals: Seq<EpochSignal>) -> u32
    decreases signals.len(),
{
    if signals.len() == 0 {
        start
    } else if signals.last().runtime_ns != 0 {
        signals.last().epoch_id
    } else {
        last_counted(start, signals.drop_last())
    }
}

/// Whether the last epoch of a row counts: the task ran, and the epoch is not the
/// one that counted last.
pub open spec fn last_counts(start: u32, signals: Seq<EpochSignal>) -> bool {
    signals.len() > 0 && signals.last().runtime_ns != 0 && signals.last().epoch_id != last_counted(
        start,
        signals.drop_last(),
    )
}

/// The epochs of a row that count, without those that are skipped.
pub open spec fn counted(start: u32, signals: Seq<EpochSignal>) -> Seq<EpochSignal>
    decreases signals.len(),
{
    if signals.len() == 0 {
        Seq::empty()
    } else {
        let before = counted(start, signals.drop_last());
        if last_counts(start, signals) {
            before.push(signals.last())
        } else {
            before
        }
    }
}

/// Whether the last `n` of a row of epochs are hot.
pub open spec fn ends_hot(signals: Seq<EpochSignal>, n: int, cfg: ClassifyConfig) -> bool {
    &&& n <= signals.len()
    &&& forall|i: int| signals.len() - n <= i < signals.len() ==> is_hot(#[trigger] signals[i], cfg)
}

/// How many epochs at the end of a row are hot.
pub open spec fn hot_at_end(signals: Seq<EpochSignal>, cfg: ClassifyConfig) -> nat
    decreases signals.len(),
{
    if signals.len() == 0 || !is_hot(signals.last(), cfg) {
        0
    } else {
        hot_at_end(signals.drop_last(), cfg) + 1
    }
}

proof fn lemma_hot_at_end(signals: Seq<EpochSignal>, n: int, cfg: ClassifyConfig)
    requires
        n >= 1,
    ensures
        hot_at_end(signals, cfg) <= signals.len(),
        hot_at_end(signals, cfg) >= n <==> ends_hot(signals, n, cfg),
    decreases signals.len(),
{
    let k = signals.len() as int;
    if k > 0 {
        let before = signals.drop_last();
        if is_hot(signals.last(), cfg) {
            if n == 1 {
                lemma_hot_at_end(before, 1, cfg);
                assert forall|i: int| k - 1 <= i < k implies is_hot(#[trigger] signals[i], cfg) by {
                    assert(signals[i] == signals.last());
                }
            } else {
                lemma_hot_at_end(before, n - 1, cfg);
                if ends_hot(before, n - 1, cfg) {
                    assert forall|i: int| k - n <= i < k implies is_hot(
                        #[trigger] signals[i],
                        cfg,
                    ) by {
                        if i < k - 1 {
                            assert(before[i] == signals[i]);
                        }
                    }
                }
                if ends_hot(signals, n, cfg) {
                    assert forall|i: int| before.len() - (n - 1) <= i < before.len() implies is_hot(
                        #[trigger] before[i],
                        cfg,
                    ) by {
                        assert(before[i] == signals[i]);
                    }
                }
            }
        } else if ends_hot(signals, n, cfg) {
            assert(is_hot(signals[k - 1], cfg));
        }
    }
}

/// Whether a task is never lock-intensive after any of a row of epochs but the last.
pub open spec fn never_intensive_before(
    state: TaskState,
    signals: Seq<EpochSignal>,
    cfg: ClassifyConfig,
) -> bool {
    forall|k: int|
        0 <= k < signals.len() ==> #[trigger] classified_all(state, signals.take(k), cfg).cls
            != TASK_LOCK_INTENSIVE
}

/// Until a task is lock-intensive, its count is that of the hot epochs at the end of
/// those that count.
proof fn lemma_count_of_hot_epochs(
    state: TaskState,
    signals: Seq<EpochSignal>,
    cfg: ClassifyConfig,
)
    requires
        state.cls == TASK_NORMAL,
        state.hot_epochs == 0,
        cfg.hot_epochs_needed >= 1,
        never_intensive_before(state, signals, cfg),
    ensures
        ({
            let after = classified_all(state, signals, cfg);
            let hot = hot_at_end(counted(state.last_epoch, signals), cfg);
            &&& after.last_epoch == last_counted(state.last_epoch, signals)
            &&& after.hot_epochs == hot
            &&& hot <= cfg.hot_epochs_needed
            &&& after.cls == if hot >= cfg.hot_epochs_needed {
                TASK_LOCK_INTENSIVE
            } else if hot > 0 {
                TASK_CANDIDATE
            } else {
                TASK_NORMAL
            }
        }),
    decreases signals.len(),
{
    if signals.len() > 0 {
        let before = signals.drop_last();
        assert(before =~= signals.take(signals.len() - 1));
        assert forall|k: int| 0 <= k < before.len() implies #[trigger] classified_all(
            state,
            before.take(k),
            cfg,
        ).cls != TASK_LOCK_INTENSIVE by {
            assert(before.take(k) =~= signals.take(k));
        }
        lemma_count_of_hot_epochs(state, before, cfg);
        let done = counted(state.last_epoch, before);
        if last_counts(state.last_epoch, signals) {
            assert(done.push(signals.last()).drop_last() =~= done);
        }
    }
}

/// A task that has not been lock-intensive becomes so with an epoch that counts if,
/// and only if, that epoch and those before it that count were hot, as many in a row
/// as this takes. An epoch that is not hot starts the row over, and epochs that are
/// skipped neither count nor break it.
pub proof fn law_a_row_of_hot_epochs_decides(
    state: TaskState,
    signals: Seq<EpochSignal>,
    cfg: ClassifyConfig,
)
    requires
        state.cls == TASK_NORMAL,
        state.hot_epochs == 0,
        cfg.hot_epochs_needed >= 1,
        last_counts(state.last_epoch, signals),
        never_intensive_before(state, signals, cfg),
    ensures
        classified_all(state, signals, cfg).cls == TASK_LOCK_INTENSIVE <==> ends_hot(
            counted(state.last_epoch, signals),
            cfg.hot_epochs_needed as int,
            cfg,
        ),
        counts(classified_all(state, signals.drop_last(), cfg), signals.last()),
{
    lemma_count_of_hot_epochs(state, signals, cfg);
    lemma_hot_at_end(
        counted(state.last_epoch, signals),
        cfg.hot_epochs_needed as int,
        cfg,
    );
    let before = signals.drop_last();
    assert forall|k: int| 0 <= k < before.len() implies #[trigger] classified_all(
        state,
        before.take(k),
        cfg,
    ).cls != TASK_LOCK_INTENSIVE by {
        assert(before.take(k) =~= signals.take(k));
    }
    lemma_count_of_hot_epochs(state, before, cfg);
}

/// An epoch that is skipped leaves the task, and the row of those that count, as they
/// were.
pub proof fn law_skipped_epochs_change_nothing(
    state: TaskState,
    signals: Seq<EpochSignal>,
    cfg: ClassifyConfig,
)
    requires
        signals.len() > 0,
        !counts(classified_all(state, signals.drop_last(), cfg), signals.last()),
    ensures
        classified_all(state, signals, cfg) == classified_all(state, signals.drop_last(), cfg),
        counted(state.last_epoch, signals) == counted(state.last_epoch, signals.drop_last()),
{
    lemma_last_counted(state, signals.drop_last(), cfg);
}

proof fn lemma_last_counted(state: TaskState, signals: Seq<EpochSignal>, cfg: ClassifyConfig)
    ensures
        classified_all(state, signals, cfg).last_epoch == last_counted(state.last_epoch, signals),
    decreases signals.len(),
{
    if signals.len() > 0 {
        lemma_last_counted(state, signals.drop_last(), cfg);
    }
}

/// Any epoch that is not hot makes a task that is not lock-intensive start over.
pub proof fn law_a_cold_epoch_starts_over(
    state: TaskState,
    signal: EpochSignal,
    cfg: ClassifyConfig,
)
    requires
        state.cls == TASK_NORMAL || state.cls == TASK_CANDIDATE,
        counts(state, signal),
        !is_hot(signal, cfg),
    ensures
        classified(state, signal, cfg).cls == TASK_NORMAL,
        classified(state, signal, cfg).hot_epochs == 0,
{
}

/// A lock-intensive task stays so until enough cool epochs in a row.
pub proof fn law_a_lock_intensive_task_cools_down_slowly(
    state: TaskState,
    signal: EpochSignal,
    cfg: ClassifyConfig,
)
    requires
        state.cls == TASK_LOCK_INTENSIVE,
        !is_cool(signal, cfg) || state.cool_epochs + 1 < cfg.cool_epochs_needed,
    ensures
        classified(state, signal, cfg).cls == TASK_LOCK_INTENSIVE,
        counts(state, signal) ==> classified(state, signal, cfg).cool_epochs == if is_cool(
            signal,
            cfg,
        ) {
            state.cool_epochs + 1
        } else {
            0
        },
{
}

/// What keeps the counts small: they never pass what a change of class takes.
pub open spec fn within_bounds(state: TaskState, cfg: ClassifyConfig) -> bool {
    &&& state.hot_epochs <= cfg.hot_epochs_needed || state.hot_epochs <= 1
    &&& state.cool_epochs <= cfg.cool_epochs_needed || state.cool_epochs <= 1
    &&& state.cls != TASK_LOCK_INTENSIVE ==> state.hot_epochs < cfg.hot_epochs_needed
        || state.hot_epochs == 0
    &&& state.cls == TASK_LOCK_INTENSIVE ==> state.cool_epochs < cfg.cool_epochs_needed
        || state.cool_epochs == 0
}

/// Whatever epochs come, the counts of a task stay within bounds.
pub proof fn law_counts_stay_within_bounds(
    state: TaskState,
    signal: EpochSignal,
    cfg: ClassifyConfig,
)
    requires
        within_bounds(state, cfg),
        cfg.hot_epochs_needed < u32::MAX,
        cfg.cool_epochs_needed < u32::MAX,
    ensures
        within_bounds(classified(state, signal, cfg), cfg),
        signal.wait_ns * 100 <= u64::MAX ==> has_room(state, signal, cfg),
{
}

/// The ratio reaches a percentage where the time waited does, of the time run.
proof fn lemma_ratio(signal: EpochSignal, pct: int)
    requires
        signal.runtime_ns > 0,
    ensures
        wait_ratio_pct(signal) >= pct <==> 100 * signal.wait_ns >= pct * signal.runtime_ns,
{
    let total = signal.wait_ns * 100;
    let run = signal.runtime_ns as int;
    let ratio = wait_ratio_pct(signal);
    vstd::arithmetic::div_mod::lemma_fundamental_div_mod(total, run);
    vstd::arithmetic::div_mod::lemma_mod_bound(total, run);
    assert(run * ratio <= total < run * (ratio + 1)) by (nonlinear_arith)
        requires
            total == run * ratio + total % run,
            0 <= total % run < run,
    ;
    if ratio >= pct {
        assert(pct * run <= run * ratio) by (nonlinear_arith)
            requires
                ratio >= pct,
                run > 0,
        ;
    } else {
        assert(run * (ratio + 1) <= pct * run) by (nonlinear_arith)
            requires
                ratio + 1 <= pct,
                run > 0,
        ;
    }
}

/// A task that is not lock-intensive counts an epoch as hot exactly where it waited at
/// least the entering share of the time it ran, and was kept waiting often enough; any
/// other epoch makes it a normal one.
pub proof fn law_an_epoch_is_hot_by_its_share_of_waiting(
    state: TaskState,
    signal: EpochSignal,
    cfg: ClassifyConfig,
)
    requires
        state.cls == TASK_NORMAL || state.cls == TASK_CANDIDATE,
        state.hot_epochs < u32::MAX,
        signal.runtime_ns > 0,
        signal.epoch_id != state.last_epoch,
    ensures
        ({
            let hot = 100 * signal.wait_ns >= cfg.enter_threshold_pct * signal.runtime_ns
                && signal.contended_acq >= cfg.min_contended_acq;
            let after = classified(state, signal, cfg);
            &&& after.last_epoch == signal.epoch_id
            &&& hot ==> {
                &&& after.hot_epochs == state.hot_epochs + 1
                &&& after.cool_epochs == 0
                &&& after.cls == if state.hot_epochs + 1 >= cfg.hot_epochs_needed {
                    TASK_LOCK_INTENSIVE
                } else {
                    TASK_CANDIDATE
                }
            }
            &&& !hot ==> {
                &&& after.hot_epochs == 0
                &&& after.cool_epochs == state.cool_epochs
                &&& after.cls == TASK_NORMAL
            }
        }),
{
    lemma_ratio(signal, cfg.enter_threshold_pct as int);
}

/// A lock-intensive task counts an epoch as cool exactly where it waited less than one
/// percent more than the leaving share of the time it ran; enough of them in a row make
/// it a normal task, and any other epoch starts the row over.
pub proof fn law_an_epoch_is_cool_by_its_share_of_waiting(
    state: TaskState,
    signal: EpochSignal,
    cfg: ClassifyConfig,
)
    requires
        state.cls == TASK_LOCK_INTENSIVE,
        state.cool_epochs < u32::MAX,
        signal.runtime_ns > 0,
        signal.epoch_id != state.last_epoch,
    ensures
        ({
            let cool = 100 * signal.wait_ns < (cfg.exit_threshold_pct + 1) * signal.runtime_ns;
            let after = classified(state, signal, cfg);
            &&& after.last_epoch == signal.epoch_id
            &&& cool ==> {
                &&& after.cool_epochs == state.cool_epochs + 1
                &&& after.hot_epochs == 0
                &&& after.cls == if state.cool_epochs + 1 >= cfg.cool_epochs_needed {
                    TASK_NORMAL
                } else {
                    TASK_LOCK_INTENSIVE
                }
            }
            &&& !cool ==> {
                &&& after.cool_epochs == 0
                &&& after.hot_epochs == state.hot_epochs
                &&& after.cls == TASK_LOCK_INTENSIVE
            }
        }),
{
    lemma_ratio(signal, cfg.exit_threshold_pct + 1);
}

/// Two epochs in which a task waited for the same share of its time, and as often, are
/// the same to it, however long they were.
pub proof fn law_the_length_of_an_epoch_does_not_matter(
    state: TaskState,
    a: EpochSignal,
    b: EpochSignal,
    cfg: ClassifyConfig,
)
    requires
        a.runtime_ns > 0,
        b.runtime_ns > 0,
        a.wait_ns * b.runtime_ns == b.wait_ns * a.runtime_ns,
        a.contended_acq == b.contended_acq,
        a.epoch_id == b.epoch_id,
    ensures
        classified(state, a, cfg) == classified(state, b, cfg),
{
    lemma_same_share(a, b, cfg.enter_threshold_pct as int);
    lemma_same_share(a, b, cfg.exit_threshold_pct + 1);
    lemma_ratio(a, cfg.enter_threshold_pct as int);
    lemma_ratio(b, cfg.enter_threshold_pct as int);
    lemma_ratio(a, cfg.exit_threshold_pct + 1);
    lemma_ratio(b, cfg.exit_threshold_pct + 1);
}

proof fn lemma_same_share(a: EpochSignal, b: EpochSignal, pct: int)
    requires
        a.runtime_ns > 0,
        b.runtime_ns > 0,
        a.wait_ns * b.runtime_ns == b.wait_ns * a.runtime_ns,
    ensures
        100 * a.wait_ns >= pct * a.runtime_ns <==> 100 * b.wait_ns >= pct * b.runtime_ns,
{
    let (x, r, y, s) = (
        a.wait_ns as int,
        a.runtime_ns as int,
        b.wait_ns as int,
        b.runtime_ns as int,
    );
    assert((100 * x >= pct * r) <==> (100 * x * s >= pct * r * s)) by (nonlinear_arith)
        requires
            s > 0,
    ;
    assert((100 * y >= pct * s) <==> (100 * y * r >= pct * s * r)) by (nonlinear_arith)
        requires
            r > 0,
    ;
    assert(100 * x * s == 100 * y * r) by (nonlinear_arith)
        requires
            x * s == y * r,
    ;
    assert(pct * r * s == pct * s * r) by (nonlinear_arith);
}

/// More waiting in an epoch never leaves a task in a lower class than less of it would.
pub proof fn law_more_waiting_never_lowers_the_class(
    state: TaskState,
    less: EpochSignal,
    more: EpochSignal,
    cfg: ClassifyConfig,
)
    requires
        state.cls <= TASK_LOCK_INTENSIVE,
        state.hot_epochs < u32::MAX,
        state.cool_epochs < u32::MAX,
        less.runtime_ns == more.runtime_ns,
        less.epoch_id == more.epoch_id,
        less.wait_ns <= more.wait_ns,
        less.contended_acq <= more.contended_acq,
    ensures
        classified(state, less, cfg).cls <= classified(state, more, cfg).cls,
        classified(state, less, cfg).pid == state.pid,
        classified(state, less, cfg).tgid == state.tgid,
{
    if less.runtime_ns > 0 {
        lemma_ratio(less, cfg.enter_threshold_pct as int);
        lemma_ratio(more, cfg.enter_threshold_pct as int);
        lemma_ratio(less, cfg.exit_threshold_pct + 1);
        lemma_ratio(more, cfg.exit_threshold_pct + 1);
    }
}

/// An epoch without a run, or one that was counted last, changes nothing at all.
pub proof fn law_an_epoch_without_news_changes_nothing(
    state: TaskState,
    signal: EpochSignal,
    cfg: ClassifyConfig,
)
    requires
        signal.runtime_ns == 0 || signal.epoch_id == state.last_epoch,
    ensures
        classified(state, signal, cfg) == state,
{
}

} // verus!
