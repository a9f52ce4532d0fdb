//! Reconciling a batch with what the downstream system said of it.
//!
//! A request that the downstream system accepted is acknowledged as a
//! whole, however many of its items were rejected: a rejected item goes to
//! the error path with the reason, and is not delivered again. Only a
//! request that could not be handed over at all fails.

use vstd::prelude::*;
use crate::breaker::CbAction;
use crate::event::Event;
use crate::event::ValueAndMeta;
use crate::event_id::EventId;
use crate::sink::SinkAck;
use crate::sink::SinkReply;
use crate::value::Value;
use crate::value::distinct_names;
use crate::value::has_field;
use crate::value::has_name;
use crate::value::lemma_lookup_concat;
use crate::value::lemma_lookup_has_name;
use crate::value::lookup;

verus! {

/// What the downstream system said of one item of a request that it
/// accepted.
#[derive(Debug, PartialEq, Eq)]
pub enum ItemOutcome {
    /// The item was taken. The value is the metadata that the connector
    /// assigns to the result.
    Accepted(Value),
    /// The item was turned down, for this reason.
    Rejected(String),
}

/// What came of sending a request.
#[derive(Debug, PartialEq, Eq)]
pub enum Delivery {
    /// The downstream system could not be reached.
    Unreachable,
    /// The downstream system took the request and answered for its items,
    /// in their order.
    Accepted(Vec<ItemOutcome>),
}

/// An item that was turned down.
#[derive(Debug, PartialEq, Eq)]
pub struct Rejection {
    pub value: Value,
    pub meta: Value,
    /// Why; never empty.
    pub reason: String,
}

/// Where an item goes after the request.
#[derive(Debug, PartialEq, Eq)]
pub enum Routed {
    /// To the primary output, with the merged metadata.
    Success(ValueAndMeta),
    /// To the error output.
    Failure(Rejection),
}

/// What a sink makes of one request.
#[derive(Debug)]
pub struct Reconciled {
    /// The identifier of the event that the request was made for.
    pub id: EventId,
    /// The one reply that goes back for the whole event.
    pub reply: SinkReply,
    /// The items in their order, each with its path.
    pub routed: Vec<Routed>,
}

/// The fields of `own` whose name is not among `new`, in their order.
pub open spec fn without(own: Seq<(String, Value)>, new: Seq<(String, Value)>) -> Seq<
    (String, Value),
>
    decreases own.len(),
{
    if own.len() == 0 {
        Seq::empty()
    } else {
        let before = without(own.drop_last(), new);
        if has_name(new, own.last().0@) {
            before
        } else {
            before.push(own.last())
        }
    }
}

/// `merged` is the metadata of an item combined with what the connector
/// assigned. Where both are objects, it holds the assigned fields and,
/// after them, those of the item's own fields that were not assigned: an
/// assigned field replaces the item's field of the same name. Where only
/// one is an object, it is that one; else the item's own.
pub open spec fn is_merged(merged: Value, meta: Value, assigned: Value) -> bool {
    match assigned {
        Value::Object(new) => match meta {
            Value::Object(own) => match merged {
                Value::Object(all) => all@ == new@ + without(own@, new@),
                _ => false,
            },
            _ => merged == assigned,
        },
        _ => merged == meta,
    }
}

/// The reason that is reported for a rejection: the one given, or a stock
/// phrase where none was given.
pub open spec fn reported_reason(reason: Seq<char>) -> Seq<char> {
    if reason.len() == 0 {
        "rejected without a reason"@
    } else {
        reason
    }
}

/// `routed` is where `unit` goes when the downstream system gave no
/// answer for it: to the error path, saying so.
pub open spec fn is_unanswered(routed: Routed, unit: ValueAndMeta) -> bool {
    match routed {
        Routed::Failure(rejection) => {
            &&& rejection.value == unit.value
            &&& rejection.meta == unit.meta
            &&& rejection.reason@ == "no answer for this item"@
        },
        _ => false,
    }
}

/// `routed` is where `unit` goes after `outcome`.
pub open spec fn is_routed(routed: Routed, unit: ValueAndMeta, outcome: ItemOutcome) -> bool {
    match outcome {
        ItemOutcome::Accepted(assigned) => match routed {
            Routed::Success(out) => out.value == unit.value && is_merged(
                out.meta,
                unit.meta,
                assigned,
            ),
            _ => false,
        },
        ItemOutcome::Rejected(reason) => match routed {
            Routed::Failure(rejection) => {
                &&& rejection.value == unit.value
                &&& rejection.meta == unit.meta
                &&& rejection.reason@ == reported_reason(reason@)
            },
            _ => false,
        },
    }
}

/// Every field that is kept is one of the item's own, and its name was
/// not assigned.
pub proof fn lemma_without_member(own: Seq<(String, Value)>, new: Seq<(String, Value)>, i: int) -> (j:
    int)
    requires
        0 <= i < without(own, new).len(),
    ensures
        0 <= j < own.len(),
        own[j] == without(own, new)[i],
        !has_name(new, own[j].0@),
    decreases own.len(),
{
    let before = without(own.drop_last(), new);
    if i < before.len() {
        let j = lemma_without_member(own.drop_last(), new, i);
        assert(own[j] == own.drop_last()[j]);
        j
    } else {
        own.len() - 1
    }
}

/// Merging keeps objects well formed: where neither the assigned fields
/// nor the item's own hold a name twice, the merged fields hold none
/// twice.
pub proof fn lemma_merged_distinct(own: Seq<(String, Value)>, new: Seq<(String, Value)>)
    requires
        distinct_names(own),
        distinct_names(new),
    ensures
        distinct_names(without(own, new)),
        distinct_names(new + without(own, new)),
    decreases own.len(),
{
    let kept = without(own, new);
    if own.len() > 0 {
        let short = own.drop_last();
        let before = without(short, new);
        assert(distinct_names(short)) by {
            assert forall|i: int, j: int| 0 <= i < j < short.len() implies (#[trigger] short[i]).0@
                != (#[trigger] short[j]).0@ by {
                assert(short[i] == own[i] && short[j] == own[j]);
            }
        }
        lemma_merged_distinct(short, new);
        assert forall|i: int, j: int| 0 <= i < j < kept.len() implies (#[trigger] kept[i]).0@ != (
        #[trigger] kept[j]).0@ by {
            if j < before.len() {
                assert(kept[i] == before[i] && kept[j] == before[j]);
            } else {
                let k = lemma_without_member(short, new, i);
                assert(kept[i] == short[k]);
                assert(short[k] == own[k]);
                assert(kept[j] == own[own.len() - 1]);
            }
        }
    }
    let all = new + kept;
    assert forall|i: int, j: int| 0 <= i < j < all.len() implies (#[trigger] all[i]).0@ != (
    #[trigger] all[j]).0@ by {
        if j < new.len() {
            assert(all[i] == new[i] && all[j] == new[j]);
        } else if i >= new.len() {
            assert(all[i] == kept[i - new.len()] && all[j] == kept[j - new.len()]);
        } else {
            let k = lemma_without_member(own, new, j - new.len());
            assert(all[j] == own[k]);
            assert(all[i] == new[i]);
        }
    }
}

/// In merged metadata an assigned field is found as assigned, and every
/// field of the item that was not assigned is found as the item had it.
pub proof fn lemma_merged_lookup(new: Seq<(String, Value)>, own: Seq<(String, Value)>, key: Seq<char>)
    ensures
        lookup(without(own, new), key) == if has_name(new, key) {
            None
        } else {
            lookup(own, key)
        },
        lookup(new + without(own, new), key) == match lookup(new, key) {
            Some(v) => Some(v),
            None => lookup(own, key),
        },
    decreases own.len(),
{
    let kept = without(own, new);
    if own.len() > 0 {
        let short = own.drop_last();
        let last = own.last();
        let before = without(short, new);
        lemma_merged_lookup(new, short, key);
        assert(own =~= short + seq![last]);
        lemma_lookup_concat(short, seq![last], key);
        assert(seq![last].skip(1) =~= Seq::<(String, Value)>::empty());
        assert(seq![last][0] == last);
        assert(lookup(Seq::<(String, Value)>::empty(), key) is None);
        assert(lookup(seq![last].skip(1), key) is None);
        assert(lookup(seq![last], key) == if last.0@ == key {
            Some(last.1)
        } else {
            None
        });
        if !has_name(new, last.0@) {
            assert(kept =~= before + seq![last]);
            lemma_lookup_concat(before, seq![last], key);
        }
    }
    lemma_lookup_concat(new, kept, key);
    lemma_lookup_has_name(new, key);
}

/// Combines the metadata of an item with what the connector assigned.
pub fn merge_meta(meta: Value, assigned: Value) -> (merged: Value)
    ensures
        is_merged(merged, meta, assigned),
        meta.wf() && assigned.wf() ==> merged.wf(),
{
    match assigned {
        Value::Object(new) => match meta {
            Value::Object(own) => {
                let ghost own_fields = own@;
                let ghost new_fields = new@;
                let assigned_len = new.len();
                let mut all = new;
                let mut rest = reversed(own);
                assert(own_fields.take(0) =~= Seq::<(String, Value)>::empty());
                assert(all@ =~= new_fields + without(own_fields.take(0), new_fields));
                while rest.len() > 0
                    invariant
                        rest@.len() <= own_fields.len(),
                        assigned_len == new_fields.len(),
                        forall|k: int|
                            0 <= k < rest@.len() ==> #[trigger] rest@[k] == own_fields[own_fields.len()
                                - 1 - k],
                        all@ == new_fields + without(
                            own_fields.take(own_fields.len() - rest@.len()),
                            new_fields,
                        ),
                    decreases rest@.len(),
                {
                    let ghost i = own_fields.len() - rest@.len();
                    let ghost top = rest@[rest@.len() - 1];
                    assert(top == own_fields[i]);
                    proof {
                        let next = own_fields.take(i + 1);
                        assert(next.drop_last() =~= own_fields.take(i));
                        assert(next.last() == own_fields[i]);
                        assert(all@.take(assigned_len as int) =~= new_fields);
                    }
                    match rest.pop() {
                        Some(field) => {
                            if !has_field(&all, assigned_len, &field.0) {
                                all.push(field);
                            }
                            assert(all@ =~= new_fields + without(
                                own_fields.take(i + 1),
                                new_fields,
                            ));
                        },
                        None => {},
                    }
                }
                assert(own_fields.take(own_fields.len() as int) =~= own_fields);
                let merged = Value::Object(all);
                proof {
                    if meta.wf() && assigned.wf() {
                        lemma_merged_distinct(own_fields, new_fields);
                        assert forall|i: int| 0 <= i < all@.len() implies (#[trigger] all@[i]).1.wf() by {
                            if i < new_fields.len() {
                                assert(all@[i] == new_fields[i]);
                            } else {
                                let k = lemma_without_member(
                                    own_fields,
                                    new_fields,
                                    i - new_fields.len(),
                                );
                                assert(all@[i] == own_fields[k]);
                            }
                        }
                    }
                }
                merged
            },
            _ => Value::Object(new),
        },
        other => meta,
    }
}

/// The same items from the last to the first.
pub fn reversed<T>(v: Vec<T>) -> (r: Vec<T>)
    ensures
        r@.len() == v@.len(),
        forall|i: int| 0 <= i < r@.len() ==> #[trigger] r@[i] == v@[v@.len() - 1 - i],
{
    let mut v = v;
    let ghost all = v@;
    let mut r: Vec<T> = Vec::new();
    while v.len() > 0
        invariant
            v@.len() + r@.len() == all.len(),
            v@ == all.take(v@.len() as int),
            forall|i: int| 0 <= i < r@.len() ==> #[trigger] r@[i] == all[all.len() - 1 - i],
        decreases v@.len(),
    {
        let ghost n = v@.len();
        match v.pop() {
            Some(x) => {
                assert(x == all[n - 1]);
                r.push(x);
                assert(v@ =~= all.take(n - 1));
            },
            None => {},
        }
    }
    r
}

/// Sends one item on its path.
pub fn route_item(unit: ValueAndMeta, outcome: ItemOutcome) -> (routed: Routed)
    ensures
        is_routed(routed, unit, outcome),
{
    let ValueAndMeta { value, meta } = unit;
    match outcome {
        ItemOutcome::Accepted(assigned) => Routed::Success(
            ValueAndMeta { value, meta: merge_meta(meta, assigned) },
        ),
        ItemOutcome::Rejected(reason) => {
            let reason = if reason.as_str().is_empty() {
                "rejected without a reason".to_owned()
            } else {
                reason
            };
            Routed::Failure(Rejection { value, meta, reason })
        },
    }
}

/// Settles the request that was made for `event`.
///
/// Where the downstream system could not be reached, the event fails and
/// nothing is sent on. Where it took the request, the event is
/// acknowledged, and every item goes on one of the two paths: by the
/// answer given for it, or to the error path where no answer was given
/// for it. An answer beyond the last item has nothing to route.
pub fn reconcile(event: Event, delivery: Delivery) -> (r: Reconciled)
    ensures
        r.id == event.id,
        r.reply.cb == CbAction::Nothing,
        match delivery {
            Delivery::Unreachable => r.reply.ack == SinkAck::Fail && r.routed@.len() == 0,
            Delivery::Accepted(outcomes) => {
                &&& r.reply.ack == SinkAck::Ack
                &&& r.routed@.len() == event.data@.len()
                &&& forall|i: int|
                    0 <= i < r.routed@.len() ==> if i < outcomes@.len() {
                        is_routed(#[trigger] r.routed@[i], event.data@[i], outcomes@[i])
                    } else {
                        is_unanswered(r.routed@[i], event.data@[i])
                    }
            },
        },
{
    let Event { id, data, transactional: _, is_batch: _ } = event;
    match delivery {
        Delivery::Unreachable => Reconciled { id, reply: SinkReply::fail(), routed: Vec::new() },
        Delivery::Accepted(outcomes) => {
            let ghost units = data@;
            let ghost answers = outcomes@;
            let mut rest_units = reversed(data);
            let mut rest_answers = reversed(outcomes);
            let mut routed: Vec<Routed> = Vec::new();
            while rest_units.len() > 0
                invariant
                    rest_units@.len() + routed@.len() == units.len(),
                    rest_answers@.len() == if routed@.len() < answers.len() {
                        answers.len() - routed@.len()
                    } else {
                        0
                    },
                    forall|k: int|
                        0 <= k < rest_units@.len() ==> #[trigger] rest_units@[k] == units[units.len()
                            - 1 - k],
                    forall|k: int|
                        0 <= k < rest_answers@.len() ==> #[trigger] rest_answers@[k]
                            == answers[answers.len() - 1 - k],
                    forall|i: int|
                        0 <= i < routed@.len() ==> if i < answers.len() {
                            is_routed(#[trigger] routed@[i], units[i], answers[i])
                        } else {
                            is_unanswered(routed@[i], units[i])
                        },
                decreases rest_units@.len(),
            {
                let ghost i = routed@.len() as int;
                let ghost before = routed@;
                let ghost top_unit = rest_units@[rest_units@.len() - 1];
                assert(top_unit == units[i]);
                proof {
                    if rest_answers@.len() > 0 {
                        assert(rest_answers@[rest_answers@.len() - 1] == answers[i]);
                    }
                }
                match rest_units.pop() {
                    Some(unit) => {
                        let next = match rest_answers.pop() {
                            Some(outcome) => route_item(unit, outcome),
                            None => {
                                let ValueAndMeta { value, meta } = unit;
                                Routed::Failure(
                                    Rejection {
                                        value,
                                        meta,
                                        reason: "no answer for this item".to_owned(),
                                    },
                                )
                            },
                        };
                        routed.push(next);
                        assert forall|j: int| 0 <= j < routed@.len() implies if j < answers.len() {
                            is_routed(#[trigger] routed@[j], units[j], answers[j])
                        } else {
                            is_unanswered(routed@[j], units[j])
                        } by {
                            if j < i {
                                assert(routed@[j] == before[j]);
                            }
                        }
                    },
                    None => {},
                }
            }
            Reconciled { id, reply: SinkReply::ack(), routed }
        },
    }
}

} // verus!
