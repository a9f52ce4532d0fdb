use contraflow::batch::merge_meta;
use contraflow::batch::reconcile;
use contraflow::batch::reversed;
use contraflow::batch::route_item;
use contraflow::batch::Delivery;
use contraflow::batch::ItemOutcome;
use contraflow::batch::Rejection;
use contraflow::batch::Routed;
use contraflow::breaker::CbAction;
use contraflow::contraflow::route;
use contraflow::contraflow::Callback;
use contraflow::event::Event;
use contraflow::event::ValueAndMeta;
use contraflow::event_id::EventId;
use contraflow::event_id::PullId;
use contraflow::sink::SinkAck;
use contraflow::sink::SinkReply;
use contraflow::value::Value;

fn text(s: &str) -> Value {
    Value::Str(s.to_string())
}

fn obj(fields: Vec<(&str, Value)>) -> Value {
    Value::Object(fields.into_iter().map(|(k, v)| (k.to_string(), v)).collect())
}

fn doc(n: i64) -> Value {
    obj(vec![("field1", Value::Int(n))])
}

fn item_meta(n: i64) -> Value {
    obj(vec![("correlation", Value::Int(n))])
}

fn three_items() -> Event {
    let mut batch = Event::new(EventId::new(0, 0, 1), doc(1), item_meta(1), true).into_batch();
    batch.push(Event::new(EventId::new(0, 0, 2), doc(2), item_meta(2), true));
    batch.push(Event::new(EventId::new(0, 0, 3), doc(3), item_meta(3), true));
    batch
}

fn stored(id: &str) -> Value {
    obj(vec![("elastic", obj(vec![("_id", text(id)), ("_index", text("my_index"))]))])
}

#[test]
fn a_batch_holds_the_units_and_the_merged_id() {
    let batch = three_items();
    assert!(batch.is_batch);
    assert!(batch.transactional);
    assert_eq!(batch.len(), 3);
    assert_eq!(
        batch.id,
        EventId::new(0, 0, 3).merge(&EventId::new(0, 0, 1)).merge(&EventId::new(0, 0, 2))
    );
    assert_eq!(batch.data[1], ValueAndMeta { value: doc(2), meta: item_meta(2) });
    let single = Event::new(EventId::new(0, 0, 1), doc(1), item_meta(1), false);
    assert!(!single.is_batch);
    assert!(!single.transactional);
    assert_eq!(single.len(), 1);
}

#[test]
fn a_batch_is_transactional_if_a_part_is() {
    let mut batch = Event::new(EventId::new(0, 0, 1), doc(1), Value::Null, false).into_batch();
    assert!(!batch.transactional);
    batch.push(Event::new(EventId::new(0, 0, 2), doc(2), Value::Null, true));
    assert!(batch.transactional);
    batch.push(Event::new(EventId::new(0, 0, 3), doc(3), Value::Null, false));
    assert!(batch.transactional);
}

#[test]
fn batch_partial_failure() {
    let delivery = Delivery::Accepted(vec![
        ItemOutcome::Accepted(stored("1")),
        ItemOutcome::Rejected("mapper_parsing_exception".to_string()),
        ItemOutcome::Accepted(stored("3")),
    ]);
    let r = reconcile(three_items(), delivery);
    assert_eq!(r.reply, SinkReply { ack: SinkAck::Ack, cb: CbAction::Nothing });
    assert_eq!(r.routed.len(), 3);
    assert_eq!(
        r.routed[0],
        Routed::Success(ValueAndMeta {
            value: doc(1),
            meta: obj(vec![
                ("elastic", obj(vec![("_id", text("1")), ("_index", text("my_index"))])),
                ("correlation", Value::Int(1)),
            ]),
        })
    );
    assert_eq!(
        r.routed[1],
        Routed::Failure(Rejection {
            value: doc(2),
            meta: item_meta(2),
            reason: "mapper_parsing_exception".to_string(),
        })
    );
    assert!(matches!(&r.routed[2], Routed::Success(out) if out.value == doc(3)));
    // one callback goes back for each pull of the batch, all of them acknowledgments
    assert_eq!(
        route(0, &r.id, r.reply),
        vec![
            Callback::Ack { stream_id: 0, pull_id: 1 },
            Callback::Ack { stream_id: 0, pull_id: 2 },
            Callback::Ack { stream_id: 0, pull_id: 3 },
        ]
    );
}

#[test]
fn batch_transport_failure() {
    let r = reconcile(three_items(), Delivery::Unreachable);
    assert_eq!(r.reply, SinkReply { ack: SinkAck::Fail, cb: CbAction::Nothing });
    assert!(r.routed.is_empty());
    assert_eq!(
        r.id.to_vec(),
        vec![
            PullId { source_id: 0, stream_id: 0, pull_id: 1 },
            PullId { source_id: 0, stream_id: 0, pull_id: 2 },
            PullId { source_id: 0, stream_id: 0, pull_id: 3 },
        ]
    );
    assert_eq!(
        route(0, &r.id, r.reply),
        vec![
            Callback::Fail { stream_id: 0, pull_id: 1 },
            Callback::Fail { stream_id: 0, pull_id: 2 },
            Callback::Fail { stream_id: 0, pull_id: 3 },
        ]
    );
}

#[test]
fn a_batch_of_rejections_is_still_acknowledged() {
    let delivery = Delivery::Accepted(vec![
        ItemOutcome::Rejected("a".to_string()),
        ItemOutcome::Rejected("b".to_string()),
        ItemOutcome::Rejected("c".to_string()),
    ]);
    let r = reconcile(three_items(), delivery);
    assert_eq!(r.reply, SinkReply::ack());
    assert!(r.routed.iter().all(|x| matches!(x, Routed::Failure(_))));
}

#[test]
fn a_rejection_always_has_a_reason() {
    let routed = route_item(
        ValueAndMeta { value: doc(1), meta: item_meta(1) },
        ItemOutcome::Rejected(String::new()),
    );
    assert_eq!(
        routed,
        Routed::Failure(Rejection {
            value: doc(1),
            meta: item_meta(1),
            reason: "rejected without a reason".to_string(),
        })
    );
}

#[test]
fn an_item_without_an_answer_goes_to_the_error_path() {
    let delivery = Delivery::Accepted(vec![
        ItemOutcome::Rejected("first".to_string()),
        ItemOutcome::Accepted(Value::Null),
    ]);
    let r = reconcile(three_items(), delivery);
    assert_eq!(r.reply, SinkReply::ack());
    assert_eq!(r.routed.len(), 3);
    assert_eq!(
        r.routed[0],
        Routed::Failure(Rejection { value: doc(1), meta: item_meta(1), reason: "first".to_string() })
    );
    assert_eq!(r.routed[1], Routed::Success(ValueAndMeta { value: doc(2), meta: item_meta(2) }));
    assert_eq!(
        r.routed[2],
        Routed::Failure(Rejection {
            value: doc(3),
            meta: item_meta(3),
            reason: "no answer for this item".to_string(),
        })
    );
    let r = reconcile(three_items(), Delivery::Accepted(vec![]));
    assert_eq!(r.reply, SinkReply::ack());
    assert_eq!(r.routed.len(), 3);
    assert!(r.routed.iter().all(|x| matches!(x, Routed::Failure(_))));
}

#[test]
fn an_answer_without_an_item_routes_nothing() {
    let single = Event::new(EventId::new(0, 0, 1), doc(1), item_meta(1), true);
    let delivery =
        Delivery::Accepted(vec![ItemOutcome::Accepted(Value::Null), ItemOutcome::Accepted(Value::Null)]);
    let r = reconcile(single, delivery);
    assert_eq!(r.routed, vec![Routed::Success(ValueAndMeta { value: doc(1), meta: item_meta(1) })]);
}

#[test]
fn merged_metadata() {
    assert_eq!(
        merge_meta(
            obj(vec![("a", Value::Int(1)), ("b", Value::Int(2)), ("c", Value::Int(4))]),
            obj(vec![("b", Value::Int(3))])
        ),
        obj(vec![("b", Value::Int(3)), ("a", Value::Int(1)), ("c", Value::Int(4))])
    );
    assert_eq!(
        merge_meta(obj(vec![("a", Value::Int(1)), ("b", Value::Int(2))]), obj(vec![("b", Value::Int(3))]))
            .get("b"),
        Some(&Value::Int(3))
    );
    assert_eq!(
        merge_meta(
            obj(vec![("x", Value::Int(1)), ("y", Value::Int(2))]),
            obj(vec![("y", Value::Null), ("x", text("new"))])
        ),
        obj(vec![("y", Value::Null), ("x", text("new"))])
    );
    assert_eq!(merge_meta(Value::Null, obj(vec![("b", Value::Int(3))])), obj(vec![("b", Value::Int(3))]));
    assert_eq!(merge_meta(obj(vec![("a", Value::Int(1))]), Value::Null), obj(vec![("a", Value::Int(1))]));
    assert_eq!(merge_meta(obj(vec![("a", Value::Int(1))]), obj(vec![])), obj(vec![("a", Value::Int(1))]));
    assert_eq!(merge_meta(text("m"), Value::Int(4)), text("m"));
    assert_eq!(merge_meta(obj(vec![]), obj(vec![])), obj(vec![]));
}

#[test]
fn reversed_turns_a_vector_round() {
    assert_eq!(reversed(vec![1, 2, 3]), vec![3, 2, 1]);
    assert_eq!(reversed(Vec::<u8>::new()), Vec::<u8>::new());
    assert_eq!(reversed(vec!["a"]), vec!["a"]);
}
