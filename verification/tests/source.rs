use contraflow::breaker::CircuitBreaker;
use contraflow::config::Config;
use contraflow::origin::EventOriginUri;
use contraflow::received::max_of;
use contraflow::received::ReceivedCbs;
use contraflow::source::CbSource;
use contraflow::source::Completion;
use contraflow::source::Input;
use contraflow::source::Pull;
use contraflow::source::ShutdownMode;
use contraflow::source::SourceError;
use contraflow::source::SourceReply;
use contraflow::source::DEFAULT_STREAM_ID;

fn source(timeout: u64, expect_batched: bool) -> CbSource {
    let config = Config { path: Some("in.json".to_string()), timeout, expect_batched };
    CbSource::new(&config, "cb", "my-host".to_string()).unwrap()
}

fn origin() -> EventOriginUri {
    EventOriginUri {
        scheme: "tremor-cb".to_string(),
        host: "my-host".to_string(),
        port: None,
        path: vec![],
    }
}

fn line(s: &str) -> Input {
    Input::Line(s.as_bytes().to_vec())
}

#[test]
fn received_count_and_max() {
    let r = ReceivedCbs { ack: vec![3, 9, 4], fail: vec![7, 1], trigger: 0, restore: 0 };
    assert_eq!(r.count(), 5);
    assert_eq!(r.max(), Some(9));
    let r = ReceivedCbs { ack: vec![3], fail: vec![7, 1], trigger: 0, restore: 0 };
    assert_eq!(r.max(), Some(7));
    let r = ReceivedCbs { ack: vec![], fail: vec![0], trigger: 0, restore: 0 };
    assert_eq!(r.max(), Some(0));
    assert_eq!(r.count(), 1);
    let r = ReceivedCbs { ack: vec![5, 5], fail: vec![], trigger: 0, restore: 0 };
    assert_eq!(r.max(), Some(5));
    assert_eq!(r.count(), 2);
    let r = ReceivedCbs::default();
    assert_eq!(r.max(), None);
    assert_eq!(r.count(), 0);
}

#[test]
fn max_of_a_vector() {
    assert_eq!(max_of(&vec![]), None);
    assert_eq!(max_of(&vec![4]), Some(4));
    assert_eq!(max_of(&vec![4, 8, 2, 8, 1]), Some(8));
    assert_eq!(max_of(&vec![u64::MAX, 0]), Some(u64::MAX));
}

#[test]
fn a_line_is_sent_as_data() {
    let mut s = source(0, false);
    let r = s.pull_data(1, line("{\"a\":1}"));
    assert_eq!(
        r,
        Ok(Pull::Reply(SourceReply::Data {
            origin_uri: origin(),
            data: b"{\"a\":1}".to_vec(),
            meta: None,
            stream: Some(DEFAULT_STREAM_ID),
            port: None,
            codec_overwrite: None,
        }))
    );
    assert_eq!(DEFAULT_STREAM_ID, 0);
    assert_eq!(s.num_sent(), 1);
    assert_eq!(s.last_sent(), 1);
    assert!(!s.finished());
}

#[test]
fn last_sent_is_the_highest_pull() {
    let mut s = source(0, false);
    let _ = s.pull_data(5, line("a"));
    let _ = s.pull_data(3, line("b"));
    assert_eq!(s.num_sent(), 2);
    assert_eq!(s.last_sent(), 5);
    let _ = s.pull_data(6, line("c"));
    assert_eq!(s.last_sent(), 6);
}

#[test]
fn a_line_that_fails_is_not_counted() {
    let mut s = source(0, false);
    let _ = s.pull_data(1, line("a"));
    assert_eq!(s.pull_data(4, Input::Failed), Err(SourceError::Read));
    assert_eq!(s.num_sent(), 1);
    assert_eq!(s.last_sent(), 1);
    assert!(!s.finished());
    assert_eq!(s.received_cbs().count(), 0);
}

#[test]
fn a_failed_read_does_not_stand_in_the_way_of_completion() {
    let mut s = source(0, false);
    let _ = s.pull_data(1, line("a"));
    let _ = s.pull_data(2, Input::Failed);
    let _ = s.pull_data(2, line("b"));
    let _ = s.pull_data(3, Input::Exhausted);
    s.ack(0, 1);
    s.ack(0, 2);
    assert_eq!(s.num_sent(), 2);
    assert!(s.did_receive_all());
}

#[test]
fn the_callbacks_move_the_circuit_breaker() {
    let mut s = source(0, false);
    assert_eq!(s.breaker(), CircuitBreaker::Closed);
    assert!(s.may_pull());
    s.on_cb_close();
    assert_eq!(s.breaker(), CircuitBreaker::Open);
    assert!(!s.may_pull());
    s.ack(0, 1);
    s.on_cb_close();
    assert_eq!(s.breaker(), CircuitBreaker::Open);
    s.on_cb_open();
    assert_eq!(s.breaker(), CircuitBreaker::Closed);
    assert!(s.may_pull());
    s.on_cb_open();
    assert_eq!(s.breaker(), CircuitBreaker::Closed);
    assert_eq!(s.received_cbs().trigger, 2);
    assert_eq!(s.received_cbs().restore, 2);
}

#[test]
fn a_pull_leaves_the_circuit_breaker_alone() {
    let mut s = source(0, false);
    s.on_cb_close();
    let _ = s.pull_data(1, line("a"));
    let _ = s.pull_data(2, Input::Failed);
    let _ = s.pull_data(2, Input::Exhausted);
    let _ = s.pull_data(2, Input::Exhausted);
    assert_eq!(s.breaker(), CircuitBreaker::Open);
    assert_eq!(s.received_cbs().trigger, 1);
}

#[test]
fn the_source_drains_as_configured() {
    let s = source(77, true);
    assert_eq!(s.config().timeout, 77);
    assert!(s.config().expect_batched);
    assert_eq!(s.config().path, Some("in.json".to_string()));
}

#[test]
fn the_stream_ends_once_and_then_the_source_finishes() {
    let mut s = source(0, false);
    let _ = s.pull_data(1, line("a"));
    assert_eq!(
        s.pull_data(2, Input::Exhausted),
        Ok(Pull::Reply(SourceReply::EndStream { origin_uri: origin(), stream: 0, meta: None }))
    );
    assert!(s.finished());
    assert_eq!(s.num_sent(), 1);
    assert_eq!(s.last_sent(), 1);
    assert_eq!(
        s.pull_data(2, Input::Exhausted),
        Ok(Pull::Finished(Completion {
            all_received: false,
            last_sent: 1,
            shutdown: ShutdownMode::Graceful,
        }))
    );
    s.ack(0, 1);
    assert_eq!(
        s.pull_data(2, Input::Exhausted),
        Ok(Pull::Finished(Completion {
            all_received: true,
            last_sent: 1,
            shutdown: ShutdownMode::Graceful,
        }))
    );
}

#[test]
fn a_source_with_a_timeout_drains_while_callbacks_are_missing() {
    let mut s = source(250, false);
    let _ = s.pull_data(1, line("a"));
    let _ = s.pull_data(2, Input::Exhausted);
    assert_eq!(s.pull_data(2, Input::Exhausted), Ok(Pull::Drain(250)));
    assert_eq!(
        s.finish(),
        Completion { all_received: false, last_sent: 1, shutdown: ShutdownMode::Graceful }
    );
    s.fail(0, 1);
    assert_eq!(
        s.pull_data(2, Input::Exhausted),
        Ok(Pull::Finished(Completion {
            all_received: true,
            last_sent: 1,
            shutdown: ShutdownMode::Graceful,
        }))
    );
}

#[test]
fn nothing_is_complete_before_the_stream_ends() {
    let mut s = source(0, false);
    assert!(!s.did_receive_all());
    let _ = s.pull_data(1, line("a"));
    s.ack(0, 1);
    assert!(!s.did_receive_all());
    let _ = s.pull_data(2, Input::Exhausted);
    assert!(s.did_receive_all());
}

#[test]
fn an_empty_file_is_complete_unbatched_only() {
    let mut s = source(0, false);
    let _ = s.pull_data(1, Input::Exhausted);
    assert!(s.did_receive_all());
    let mut s = source(0, true);
    let _ = s.pull_data(1, Input::Exhausted);
    assert!(!s.did_receive_all());
}

#[test]
fn unbatched_completion_counts_acks_and_fails() {
    let mut s = source(0, false);
    for id in 1..=5u64 {
        let _ = s.pull_data(id, line("x"));
    }
    let _ = s.pull_data(6, Input::Exhausted);
    s.ack(0, 2);
    s.fail(0, 1);
    s.ack(0, 5);
    s.ack(0, 3);
    assert!(!s.did_receive_all());
    s.fail(0, 4);
    assert_eq!(s.received_cbs().count(), 5);
    assert_eq!(s.received_cbs().count(), s.num_sent());
    assert_eq!(s.received_cbs().ack, vec![2, 5, 3]);
    assert_eq!(s.received_cbs().fail, vec![1, 4]);
    assert!(s.did_receive_all());
}

#[test]
fn batched_completion_needs_only_the_last_pull() {
    let mut batched = source(0, true);
    let mut unbatched = source(0, false);
    for id in 1..=4u64 {
        let _ = batched.pull_data(id, line("x"));
        let _ = unbatched.pull_data(id, line("x"));
    }
    let _ = batched.pull_data(5, Input::Exhausted);
    let _ = unbatched.pull_data(5, Input::Exhausted);
    assert!(!batched.did_receive_all());
    batched.ack(0, 4);
    unbatched.ack(0, 4);
    assert!(batched.did_receive_all());
    assert!(!unbatched.did_receive_all());
}

#[test]
fn batched_completion_takes_a_failure_too() {
    let mut s = source(0, true);
    for id in 1..=3u64 {
        let _ = s.pull_data(id, line("x"));
    }
    let _ = s.pull_data(4, Input::Exhausted);
    s.ack(0, 2);
    assert!(!s.did_receive_all());
    s.fail(0, 3);
    assert!(s.did_receive_all());
}

#[test]
fn batched_completion_fails_on_a_pull_that_was_never_sent() {
    let mut s = source(0, true);
    for id in 1..=3u64 {
        let _ = s.pull_data(id, line("x"));
    }
    let _ = s.pull_data(4, Input::Exhausted);
    s.ack(0, 3);
    assert!(s.did_receive_all());
    s.ack(0, 9);
    assert!(!s.did_receive_all());
}

#[test]
fn duplicates_are_recorded_and_counted() {
    let mut s = source(0, false);
    let _ = s.pull_data(1, line("x"));
    let _ = s.pull_data(2, line("x"));
    let _ = s.pull_data(3, Input::Exhausted);
    s.ack(0, 1);
    s.ack(0, 1);
    assert_eq!(s.received_cbs().ack, vec![1, 1]);
    assert!(s.did_receive_all());
    s.ack(0, 2);
    assert_eq!(s.received_cbs().count(), 3);
    assert!(!s.did_receive_all());
}

#[test]
fn circuit_breaker_events_are_counted() {
    let mut s = source(0, false);
    s.on_cb_close();
    s.on_cb_close();
    s.on_cb_open();
    assert_eq!(s.received_cbs().trigger, 2);
    assert_eq!(s.received_cbs().restore, 1);
    assert_eq!(s.received_cbs().count(), 0);
    assert_eq!(s.num_sent(), 0);
}

#[test]
fn a_source_without_a_path_is_refused() {
    let config = Config { path: None, timeout: 0, expect_batched: false };
    assert!(CbSource::new(&config, "cb", "my-host".to_string()).is_err());
}

#[test]
fn the_origin_names_the_scheme_and_the_host() {
    let s = source(0, false);
    assert_eq!(s.origin_uri(), &origin());
    assert_eq!(EventOriginUri::new("tremor-cb".to_string(), "my-host".to_string()), origin());
    let with_path = EventOriginUri {
        scheme: "s".to_string(),
        host: "h".to_string(),
        port: Some(9200),
        path: vec!["a".to_string(), "b".to_string()],
    };
    assert_eq!(with_path.clone(), with_path);
}
