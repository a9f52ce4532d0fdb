use contraflow::breaker::CircuitBreaker;
use contraflow::contraflow::Callback;
use contraflow::scheduler::Scheduler;
use contraflow::scheduler::SchedulerEvent;
use contraflow::scheduler::Step;

#[test]
fn a_fresh_source_pulls_under_one() {
    let s = Scheduler::new(false);
    assert_eq!(s.pull_counter, 0);
    assert!(!s.awaiting);
    assert_eq!(s.next(CircuitBreaker::Closed), Step::Pull(1));
}

#[test]
fn pulls_are_numbered_upwards() {
    let mut s = Scheduler::new(false);
    for expected in 1..=5u64 {
        assert_eq!(s.next(CircuitBreaker::Closed), Step::Pull(expected));
        s.on_event(SchedulerEvent::Sent);
    }
    assert_eq!(s.pull_counter, 5);
    // a pull that gave no data uses up no number
    assert_eq!(s.next(CircuitBreaker::Closed), Step::Pull(6));
    assert_eq!(s.next(CircuitBreaker::Closed), Step::Pull(6));
}

#[test]
fn no_pull_while_the_breaker_is_open() {
    let mut s = Scheduler::new(false);
    s.on_event(SchedulerEvent::Sent);
    assert_eq!(s.next(CircuitBreaker::Open), Step::Defer);
    s.on_event(SchedulerEvent::Settled);
    assert_eq!(s.next(CircuitBreaker::Open), Step::Defer);
    s.on_event(SchedulerEvent::Sent);
    assert_eq!(s.next(CircuitBreaker::Open), Step::Defer);
    assert_eq!(s.next(CircuitBreaker::Closed), Step::Pull(3));
}

#[test]
fn a_strict_source_waits_for_each_answer() {
    let mut s = Scheduler::new(true);
    assert_eq!(s.next(CircuitBreaker::Closed), Step::Pull(1));
    s.on_event(SchedulerEvent::Sent);
    assert!(s.awaiting);
    assert_eq!(s.next(CircuitBreaker::Closed), Step::Defer);
    assert_eq!(s.next(CircuitBreaker::Open), Step::Defer);
    s.on_event(SchedulerEvent::Settled);
    assert_eq!(s.next(CircuitBreaker::Closed), Step::Pull(2));
}

#[test]
fn callbacks_settle_what_is_in_flight() {
    let mut s = Scheduler::new(true);
    s.on_event(SchedulerEvent::Sent);
    s.on_callback(Callback::CbOpen);
    assert!(s.awaiting);
    s.on_callback(Callback::CbClose);
    assert!(s.awaiting);
    s.on_callback(Callback::Fail { stream_id: 0, pull_id: 1 });
    assert!(!s.awaiting);
    s.on_event(SchedulerEvent::Sent);
    s.on_callback(Callback::Ack { stream_id: 0, pull_id: 2 });
    assert!(!s.awaiting);
    assert_eq!(s.pull_counter, 2);
}

#[test]
fn a_lenient_source_pulls_with_units_in_flight() {
    let mut s = Scheduler::new(false);
    s.on_event(SchedulerEvent::Sent);
    s.on_event(SchedulerEvent::Sent);
    assert!(!s.awaiting);
    assert_eq!(s.next(CircuitBreaker::Closed), Step::Pull(3));
}

#[test]
fn no_pull_when_the_numbers_have_run_out() {
    let mut s = Scheduler::new(false);
    s.pull_counter = u64::MAX - 1;
    assert_eq!(s.next(CircuitBreaker::Closed), Step::Pull(u64::MAX));
    s.on_event(SchedulerEvent::Sent);
    assert_eq!(s.pull_counter, u64::MAX);
    assert_eq!(s.next(CircuitBreaker::Closed), Step::Defer);
    s.on_event(SchedulerEvent::Sent);
    assert_eq!(s.pull_counter, u64::MAX);
}
