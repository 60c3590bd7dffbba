use accordin::accordin_shared::condvar::CondRelock;
use accordin::accordin_shared::mutex_hook::{writer_event_field_values, HookCounters};
use accordin::accordin_shared::writer_event::{
    checked_ref, event_init, event_wait_code, EventStep, EventWait, RouteTakeback, WakeReason,
    WriterEvent, COMPLETED, LEADER, WAITING,
};
use accordin::errno::{EAGAIN, EINTR, EINVAL};

fn counting() -> HookCounters {
    let mut counters = HookCounters::new();
    counters.enabled = true;
    counters
}

#[test]
fn an_event_initializes_in_place_as_unreleased() {
    let mut event = WriterEvent {
        state: LEADER,
        armed_value: 9,
        armed_word: 7,
        relock_admitted: true,
    };
    event.init_in_place();

    assert_eq!(event.state, WAITING);
    assert_eq!(event.armed_word, 0);
    assert_eq!(event, WriterEvent::new());
}

#[test]
fn a_reason_published_before_the_wait_ends_it_without_sleeping() {
    let mut counters = counting();
    let mut event = WriterEvent::new();
    event.arm();
    event.post_leader(&mut counters);

    let (wait, step) = event.wait(true);
    assert_eq!(step, EventStep::Finish);
    assert_eq!(
        event.finish(&wait, false, &mut counters),
        WakeReason::BecomeLeader
    );
    assert_eq!(event.relock_mode(), CondRelock::Normal);
    assert_eq!(counters.writer_event.arms, 0);
    assert_eq!(counters.writer_event.leader_posts, 1);
}

#[test]
fn a_completed_reason_retires_the_sleep_state_into_a_release() {
    let mut counters = counting();
    let mut event = WriterEvent::new();
    event.arm();
    event.state = COMPLETED;

    let (wait, step) = event.wait(true);
    assert_eq!(step, EventStep::Finish);
    assert_eq!(event.finish(&wait, true, &mut counters), WakeReason::Completed);
    assert_eq!(event.relock_mode(), CondRelock::Normal);
    assert_eq!(
        counters.writer_event.completed_misroutes, 0,
        "a wait that published nothing has nothing to retire"
    );

    let mut wait = EventWait { routed: true, slept: false };
    assert_eq!(
        event.woken(&mut wait, 0, &mut counters),
        EventStep::RetireToReleased
    );
    assert_eq!(event.finish(&wait, true, &mut counters), WakeReason::Completed);
    assert_eq!(counters.writer_event.completed_misroutes, 1);
    assert_eq!(event.relock_mode(), CondRelock::Normal);
}

#[test]
fn an_unscoped_backend_publishes_no_sleep_state() {
    let mut counters = counting();
    let mut event = WriterEvent::new();
    event.arm();
    let (mut wait, step) = event.wait(false);
    assert_eq!(step, EventStep::Sleep);
    assert!(!event.publish_sleep_state(false, Some((64, 3)), &mut counters));
    assert_eq!(event.armed_word, 0);
    event.state = LEADER;

    assert_eq!(event.woken(&mut wait, 0, &mut counters), EventStep::Finish);
    assert_eq!(
        event.finish(&wait, false, &mut counters),
        WakeReason::BecomeLeader
    );
    assert_eq!(counters.writer_event.arms, 0);
}

#[test]
fn a_blocked_leader_wake_relocks_on_the_routed_decision() {
    let mut counters = counting();
    let mut event = WriterEvent::new();
    event.arm();
    let (mut wait, step) = event.wait(true);
    assert_eq!(step, EventStep::Publish);
    assert_eq!(
        event.published(&mut wait, Some((64, 3)), &mut counters),
        EventStep::Sleep
    );
    assert_eq!(counters.writer_event.arms, 1);

    event.woken(&mut wait, EAGAIN, &mut counters);
    assert!(!wait.slept);
    event.woken(&mut wait, EINTR, &mut counters);
    assert!(wait.slept);
    assert_eq!(counters.writer_event.spurious_wakes, 1);

    event.post_leader(&mut counters);
    assert_eq!(
        event.woken(&mut wait, 0, &mut counters),
        EventStep::RetireToPending { slept: true }
    );
    assert_eq!(counters.writer_event.spurious_wakes, 1);
    assert_eq!(
        event.finish(&wait, false, &mut counters),
        WakeReason::BecomeLeader
    );
    assert_eq!(event.take_relock_mode(&mut counters), CondRelock::AlreadyAdmitted);
    assert_eq!(counters.writer_event.relocks_admitted, 1);
}

#[test]
fn a_completed_post_takes_the_routed_state_back_from_the_waiter() {
    let mut counters = counting();
    let mut event = WriterEvent::new();
    event.arm();
    event.publish_sleep_state(true, Some((64, 3)), &mut counters);

    assert_eq!(
        event.route_handle(),
        Some((64, 3)),
        "a sleeping waiter publishes the handle its waker retires through"
    );
    assert_eq!(event.take_route_back(true), RouteTakeback::Taken);
    assert_eq!(
        event.take_route_back(false),
        RouteTakeback::Lost,
        "a second attempt finds a word that no longer carries the armed value"
    );

    event.post_completed(false, &mut counters);
    assert_eq!(event.state, COMPLETED);
    assert_eq!(counters.writer_event.route_takeback_lost, 1);
    event.post_completed(true, &mut counters);
    assert_eq!(counters.writer_event.route_takebacks, 1);
}

#[test]
fn wakes_without_a_reason_do_not_undo_a_takeback() {
    const SPURIOUS_WAKES: u32 = 200;

    let mut counters = counting();
    let mut event = WriterEvent::new();
    event.arm();
    let (mut wait, _) = event.wait(true);
    event.published(&mut wait, Some((64, 3)), &mut counters);
    assert_eq!(event.take_route_back(true), RouteTakeback::Taken);

    for _ in 0..SPURIOUS_WAKES {
        assert_eq!(
            event.woken(&mut wait, 0, &mut counters),
            EventStep::Sleep,
            "a wake carrying no reason must leave the retired word alone"
        );
    }
    assert_eq!(counters.writer_event.spurious_wakes, 200);
    assert_eq!(counters.writer_event.arms, 1);

    event.post_completed(false, &mut counters);
    assert_eq!(
        event.woken(&mut wait, 0, &mut counters),
        EventStep::RetireToReleased
    );
    assert_eq!(event.finish(&wait, false, &mut counters), WakeReason::Completed);
    assert_eq!(counters.writer_event.completed_misroutes, 0);
}

#[test]
fn a_word_that_could_not_be_changed_routes_nothing() {
    let mut counters = counting();
    let mut event = WriterEvent::new();
    event.arm();
    let (mut wait, _) = event.wait(true);
    assert_eq!(event.published(&mut wait, None, &mut counters), EventStep::Sleep);
    event.post_leader(&mut counters);
    assert_eq!(event.woken(&mut wait, 0, &mut counters), EventStep::Finish);
    assert_eq!(
        event.finish(&wait, false, &mut counters),
        WakeReason::BecomeLeader
    );
    assert_eq!(event.relock_mode(), CondRelock::Normal);
}

#[test]
fn a_stale_armed_value_leaves_the_word_untouched() {
    let mut counters = counting();
    let mut event = WriterEvent::new();
    assert!(event.publish_sleep_state(true, Some((64, 3)), &mut counters));
    let armed = event.armed_value;

    // The owner leaves the sleep early and rewrites its own word.
    let rewritten = 5u32;
    assert_ne!(rewritten, armed);

    assert_eq!(
        event.take_route_back(rewritten == armed),
        RouteTakeback::Lost,
        "the exchange sees a changed word"
    );
    assert_eq!(event.route_handle(), Some((64, armed)));
}

#[test]
fn a_handle_naming_nothing_retires_nothing() {
    let mut counters = counting();
    let mut event = WriterEvent::new();
    assert_eq!(event.route_handle(), None);
    assert_eq!(event.take_route_back(true), RouteTakeback::Unpublished);
    event.post_completed(true, &mut counters);
    assert_eq!(counters.writer_event.route_takeback_unpublished, 1);

    assert!(!event.publish_sleep_state(true, None, &mut counters));
    assert_eq!(counters.writer_event.arms, 0);
}

#[test]
fn every_completed_post_counts_once() {
    let mut counters = counting();
    let mut event = WriterEvent::new();
    event.post_completed(false, &mut counters);
    event.publish_sleep_state(true, Some((64, 3)), &mut counters);
    event.post_completed(true, &mut counters);
    event.post_completed(false, &mut counters);
    assert_eq!(
        writer_event_field_values(&counters),
        [1, 0, 3, 0, 1, 1, 1, 0, 0, 0]
    );
}

#[test]
fn a_relock_without_a_decision_is_counted_as_normal() {
    let mut counters = counting();
    let event = WriterEvent::default();
    assert_eq!(event.take_relock_mode(&mut counters), CondRelock::Normal);
    assert_eq!(counters.writer_event.relocks_normal, 1);
}

#[test]
fn event_calls_refuse_null() {
    assert_eq!(checked_ref(0), Err(EINVAL));
    assert_eq!(checked_ref(64), Ok(64));
    assert_eq!(event_init(0, 8), EINVAL);
    assert_eq!(event_init(8, 0), EINVAL);
    assert_eq!(event_init(8, 8), 0);
    assert_eq!(event_wait_code(None), -1);
    assert_eq!(event_wait_code(Some(WakeReason::Completed)), 0);
    assert_eq!(event_wait_code(Some(WakeReason::BecomeLeader)), 1);
}
