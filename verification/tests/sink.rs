use contraflow::breaker::CbAction;
use contraflow::event::Event;
use contraflow::event_id::EventId;
use contraflow::sink::has_token;
use contraflow::sink::reply_to;
use contraflow::sink::CbSink;
use contraflow::sink::SinkAck;
use contraflow::sink::SinkReply;
use contraflow::value::Value;

fn text(s: &str) -> Value {
    Value::Str(s.to_string())
}

fn list(tokens: &[&str]) -> Value {
    Value::Array(tokens.iter().map(|t| text(t)).collect())
}

fn object(fields: Vec<(&str, Value)>) -> Value {
    Value::Object(fields.into_iter().map(|(k, v)| (k.to_string(), v)).collect())
}

fn event_with(value: Value, meta: Value) -> Event {
    Event::new(EventId::new(0, 0, 1), value, meta, true)
}

fn reply_of(value: Value, meta: Value) -> SinkReply {
    CbSink::new().on_event("in", &event_with(value, meta))
}

#[test]
fn cb_open_string() {
    let r = reply_of(object(vec![("cb", text("open"))]), Value::Null);
    assert_eq!(r, SinkReply { ack: SinkAck::Nothing, cb: CbAction::Open });
}

#[test]
fn cb_ack_and_close_array() {
    let r = reply_of(object(vec![("cb", list(&["ack", "close"]))]), Value::Null);
    assert_eq!(r, SinkReply { ack: SinkAck::Ack, cb: CbAction::Close });
}

#[test]
fn cb_absent_is_none() {
    let r = reply_of(object(vec![("snot", text("badger"))]), object(vec![]));
    assert_eq!(r, SinkReply::none());
    assert_eq!(r, SinkReply { ack: SinkAck::Nothing, cb: CbAction::Nothing });
    assert_eq!(reply_of(Value::Null, Value::Null), SinkReply::none());
    assert_eq!(reply_of(text("cb"), list(&["cb"])), SinkReply::none());
}

#[test]
fn every_token_is_recognised() {
    assert_eq!(reply_to(&text("ack")), SinkReply { ack: SinkAck::Ack, cb: CbAction::Nothing });
    assert_eq!(reply_to(&text("fail")), SinkReply { ack: SinkAck::Fail, cb: CbAction::Nothing });
    assert_eq!(reply_to(&text("close")), SinkReply { ack: SinkAck::Nothing, cb: CbAction::Close });
    assert_eq!(reply_to(&text("trigger")), SinkReply { ack: SinkAck::Nothing, cb: CbAction::Close });
    assert_eq!(reply_to(&text("open")), SinkReply { ack: SinkAck::Nothing, cb: CbAction::Open });
    assert_eq!(reply_to(&text("restore")), SinkReply { ack: SinkAck::Nothing, cb: CbAction::Open });
    assert_eq!(reply_to(&list(&["fail", "restore"])), SinkReply { ack: SinkAck::Fail, cb: CbAction::Open });
    assert_eq!(reply_to(&list(&["trigger", "fail"])), SinkReply { ack: SinkAck::Fail, cb: CbAction::Close });
}

#[test]
fn unknown_tokens_say_nothing() {
    assert_eq!(reply_to(&text("acknowledge")), SinkReply::none());
    assert_eq!(reply_to(&text("ACK")), SinkReply::none());
    assert_eq!(reply_to(&text("")), SinkReply::none());
    assert_eq!(reply_to(&list(&[])), SinkReply::none());
    assert_eq!(reply_to(&list(&["snot", "badger"])), SinkReply::none());
    assert_eq!(reply_to(&Value::Int(1)), SinkReply::none());
    assert_eq!(reply_to(&Value::Null), SinkReply::none());
    assert_eq!(reply_to(&Value::Bool(true)), SinkReply::none());
    assert_eq!(reply_to(&object(vec![("ack", text("ack"))])), SinkReply::none());
}

#[test]
fn ack_wins_over_fail() {
    assert_eq!(reply_to(&list(&["fail", "ack"])).ack, SinkAck::Ack);
    assert_eq!(reply_to(&list(&["ack", "fail"])).ack, SinkAck::Ack);
}

#[test]
fn close_wins_over_open() {
    assert_eq!(reply_to(&list(&["open", "close"])).cb, CbAction::Close);
    assert_eq!(reply_to(&list(&["close", "open"])).cb, CbAction::Close);
    assert_eq!(reply_to(&list(&["restore", "trigger"])).cb, CbAction::Close);
    assert_eq!(reply_to(&list(&["open", "trigger"])).cb, CbAction::Close);
}

#[test]
fn array_items_that_are_no_strings_are_skipped() {
    let cb = Value::Array(vec![Value::Int(7), text("ack"), Value::Null, list(&["close"])]);
    assert_eq!(reply_to(&cb), SinkReply { ack: SinkAck::Ack, cb: CbAction::Nothing });
    assert!(has_token(&cb, "ack"));
    assert!(!has_token(&cb, "close"));
}

#[test]
fn meta_is_read_before_value() {
    let r = reply_of(object(vec![("cb", text("fail"))]), object(vec![("cb", text("ack"))]));
    assert_eq!(r, SinkReply { ack: SinkAck::Ack, cb: CbAction::Nothing });
    let r = reply_of(object(vec![("cb", text("fail"))]), object(vec![("other", text("ack"))]));
    assert_eq!(r, SinkReply { ack: SinkAck::Fail, cb: CbAction::Nothing });
}

#[test]
fn a_field_that_names_no_command_still_decides() {
    // the metadata has the field, so the value is not looked at
    let r = reply_of(object(vec![("cb", text("fail"))]), object(vec![("cb", Value::Int(3))]));
    assert_eq!(r, SinkReply::none());
}

#[test]
fn first_unit_with_a_field_decides_for_a_batch() {
    let mut batch = event_with(object(vec![("a", Value::Int(1))]), Value::Null).into_batch();
    batch.push(Event::new(
        EventId::new(0, 0, 2),
        object(vec![("cb", list(&["fail", "trigger"]))]),
        Value::Null,
        true,
    ));
    batch.push(Event::new(EventId::new(0, 0, 3), object(vec![("cb", text("ack"))]), Value::Null, true));
    let r = CbSink::new().on_event("in", &batch);
    assert_eq!(r, SinkReply { ack: SinkAck::Fail, cb: CbAction::Close });
}

#[test]
fn empty_batch_says_nothing() {
    let mut e = event_with(object(vec![("cb", text("ack"))]), Value::Null).into_batch();
    e.data.clear();
    assert_eq!(CbSink::new().on_event("in", &e), SinkReply::none());
}

#[test]
fn the_sink_does_not_auto_ack() {
    assert!(!CbSink::new().auto_ack());
}

#[test]
fn plain_replies() {
    assert_eq!(SinkReply::ack(), SinkReply { ack: SinkAck::Ack, cb: CbAction::Nothing });
    assert_eq!(SinkReply::fail(), SinkReply { ack: SinkAck::Fail, cb: CbAction::Nothing });
}
