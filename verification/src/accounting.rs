//! What holds of a source's bookkeeping over a whole run: pulls, the end
//! of the stream and callbacks, in whatever order they come.

use vstd::prelude::*;
use crate::breaker::CircuitBreaker;
use crate::contraflow::Callback;
use crate::contraflow::after;
use crate::received::is_max;
use crate::scheduler::Scheduler;
use crate::scheduler::Step;
use crate::source::SourceState;

verus! {

/// One thing that happens to a source.
pub enum SourceEvent {
    /// A unit was sent under this pull.
    Pulled(u64),
    /// The end of the stream was reported.
    Ended,
    /// Contraflow made this call.
    Called(Callback),
}

/// The bookkeeping after one event.
pub open spec fn step(state: SourceState, event: SourceEvent) -> SourceState {
    match event {
        SourceEvent::Pulled(pull_id) => state.pulled(pull_id),
        SourceEvent::Ended => state.ended(),
        SourceEvent::Called(cb) => after(state, cb),
    }
}

/// The bookkeeping after a run of events.
pub open spec fn run(state: SourceState, events: Seq<SourceEvent>) -> SourceState
    decreases events.len(),
{
    if events.len() == 0 {
        state
    } else {
        step(run(state, events.drop_last()), events.last())
    }
}

/// The pulls under which units were sent during a run, in order.
pub open spec fn pulled(events: Seq<SourceEvent>) -> Seq<u64>
    decreases events.len(),
{
    if events.len() == 0 {
        Seq::empty()
    } else {
        match events.last() {
            SourceEvent::Pulled(pull_id) => pulled(events.drop_last()).push(pull_id),
            _ => pulled(events.drop_last()),
        }
    }
}

/// The pulls that were acknowledged or failed during a run, in order.
pub open spec fn settled(events: Seq<SourceEvent>) -> Seq<u64>
    decreases events.len(),
{
    if events.len() == 0 {
        Seq::empty()
    } else {
        match events.last() {
            SourceEvent::Called(Callback::Ack { stream_id, pull_id }) => settled(
                events.drop_last(),
            ).push(pull_id),
            SourceEvent::Called(Callback::Fail { stream_id, pull_id }) => settled(
                events.drop_last(),
            ).push(pull_id),
            _ => settled(events.drop_last()),
        }
    }
}

/// The source has a record of an acknowledgment or a failure of `pull_id`.
pub open spec fn recorded(state: SourceState, pull_id: u64) -> bool {
    (state.acks + state.fails).contains(pull_id)
}

/// The end of the stream was reported during the run.
pub open spec fn has_ended(events: Seq<SourceEvent>) -> bool {
    exists|i: int| 0 <= i < events.len() && #[trigger] events[i] == SourceEvent::Ended
}

/// The bookkeeping never shrinks: after any run a source has sent at least
/// as much as before, what it had recorded is still there in the same
/// order, and a stream that had ended has still ended.
pub proof fn lemma_run_monotonic(state: SourceState, events: Seq<SourceEvent>)
    ensures
        state.num_sent <= run(state, events).num_sent,
        state.last_sent <= run(state, events).last_sent,
        state.acks.is_prefix_of(run(state, events).acks),
        state.fails.is_prefix_of(run(state, events).fails),
        state.trigger <= run(state, events).trigger,
        state.restore <= run(state, events).restore,
        state.finished ==> run(state, events).finished,
        run(state, events).config == state.config,
        run(state, events).origin == state.origin,
    decreases events.len(),
{
    if events.len() > 0 {
        lemma_run_monotonic(state, events.drop_last());
    }
}

/// A run is accounted for in full: every unit sent is counted, every
/// acknowledgment and failure is recorded, and the highest pull sent is
/// remembered.
pub proof fn lemma_run_accounts(state: SourceState, events: Seq<SourceEvent>)
    ensures
        run(state, events).num_sent == state.num_sent + pulled(events).len(),
        run(state, events).count() == state.count() + settled(events).len(),
        forall|x: u64| #[trigger]
            recorded(run(state, events), x) <==> recorded(state, x) || settled(events).contains(x),
        forall|i: int|
            0 <= i < pulled(events).len() ==> #[trigger] pulled(events)[i] <= run(
                state,
                events,
            ).last_sent,
        run(state, events).last_sent == state.last_sent || pulled(events).contains(
            run(state, events).last_sent,
        ),
        run(state, events).finished == (state.finished || has_ended(events)),
    decreases events.len(),
{
    if events.len() == 0 {
        assert(!has_ended(events));
        assert forall|x: u64| !settled(events).contains(x) by {
            if settled(events).contains(x) {
                let k = settled(events).lemma_contains_to_index(x);
            }
        }
    } else {
        let before = events.drop_last();
        let last = events.last();
        let mid = run(state, before);
        let end = run(state, events);
        lemma_run_accounts(state, before);
        lemma_run_monotonic(state, before);
        // what the last event adds to the recorded callbacks
        assert forall|x: u64| #[trigger]
            recorded(end, x) <==> recorded(state, x) || settled(events).contains(x) by {
            assert(recorded(mid, x) <==> recorded(state, x) || settled(before).contains(x));
            lemma_concat_contains(end.acks, end.fails, x);
            lemma_concat_contains(mid.acks, mid.fails, x);
            match last {
                SourceEvent::Called(Callback::Ack { stream_id, pull_id }) => {
                    lemma_push_contains_u64(mid.acks, pull_id, x);
                    lemma_push_contains_u64(settled(before), pull_id, x);
                },
                SourceEvent::Called(Callback::Fail { stream_id, pull_id }) => {
                    lemma_push_contains_u64(mid.fails, pull_id, x);
                    lemma_push_contains_u64(settled(before), pull_id, x);
                },
                _ => {},
            }
        }
        // the highest pull
        match last {
            SourceEvent::Pulled(pull_id) => {
                let p = pulled(events);
                assert(p == pulled(before).push(pull_id));
                assert(p[p.len() - 1] == pull_id);
                assert forall|i: int| 0 <= i < p.len() implies #[trigger] p[i] <= end.last_sent by {
                    if i < p.len() - 1 {
                        assert(p[i] == pulled(before)[i]);
                    }
                }
                if end.last_sent != state.last_sent {
                    if end.last_sent == pull_id {
                        assert(p[p.len() - 1] == end.last_sent);
                    } else {
                        let k = pulled(before).lemma_contains_to_index(end.last_sent);
                        assert(p[k] == end.last_sent);
                    }
                }
            },
            _ => {},
        }
        // the end of the stream
        if has_ended(before) {
            let i = choose|i: int| 0 <= i < before.len() && #[trigger] before[i] == SourceEvent::Ended;
            assert(events[i] == SourceEvent::Ended);
        }
        if last == SourceEvent::Ended {
            assert(events[events.len() - 1] == SourceEvent::Ended);
        }
        if has_ended(events) {
            let i = choose|i: int| 0 <= i < events.len() && #[trigger] events[i] == SourceEvent::Ended;
            if i < events.len() - 1 {
                assert(before[i] == SourceEvent::Ended);
            }
        }
    }
}

/// What a sequence of pulls holds after one more was appended.
pub proof fn lemma_push_contains_u64(s: Seq<u64>, e: u64, x: u64)
    ensures
        s.push(e).contains(x) <==> s.contains(x) || x == e,
{
    if s.contains(x) {
        let k = s.lemma_contains_to_index(x);
        assert(s.push(e)[k] == x);
    }
    if x == e {
        assert(s.push(e)[s.len() as int] == x);
    }
    if s.push(e).contains(x) {
        let k = s.push(e).lemma_contains_to_index(x);
        if k < s.len() {
            assert(s[k] == x);
        }
    }
}

/// What two sequences of pulls hold when put one after the other.
pub proof fn lemma_concat_contains(a: Seq<u64>, b: Seq<u64>, x: u64)
    ensures
        (a + b).contains(x) <==> a.contains(x) || b.contains(x),
{
    if a.contains(x) {
        let k = a.lemma_contains_to_index(x);
        assert((a + b)[k] == x);
    }
    if b.contains(x) {
        let k = b.lemma_contains_to_index(x);
        assert((a + b)[a.len() + k] == x);
    }
    if (a + b).contains(x) {
        let k = (a + b).lemma_contains_to_index(x);
        if k < a.len() {
            assert(a[k] == x);
        } else {
            assert(b[k - a.len()] == x);
        }
    }
}

/// Unbatched completion: where every unit that a fresh source sent was
/// acknowledged or failed exactly once, and the stream has ended, as many
/// callbacks are recorded as units were sent, and the source is complete.
pub proof fn lemma_unbatched_completion(start: SourceState, events: Seq<SourceEvent>)
    requires
        start.fresh(),
        !start.config.expect_batched,
        settled(events).to_multiset() == pulled(events).to_multiset(),
        has_ended(events),
    ensures
        run(start, events).count() == pulled(events).len(),
        run(start, events).count() == run(start, events).num_sent,
        run(start, events).complete(),
{
    lemma_run_accounts(start, events);
    lemma_run_monotonic(start, events);
    settled(events).to_multiset_ensures();
    pulled(events).to_multiset_ensures();
}

/// Batched completion: where the stream of a fresh source has ended and
/// of all its pulls only the highest, `last`, was acknowledged or failed,
/// the source is complete if it expects batches. If it does not, it is
/// complete only where it sent a single unit.
pub proof fn lemma_batched_completion(start: SourceState, last: u64, events: Seq<SourceEvent>)
    requires
        start.fresh(),
        is_max(pulled(events), last),
        settled(events) == seq![last],
        has_ended(events),
    ensures
        start.config.expect_batched ==> run(start, events).complete(),
        !start.config.expect_batched ==> (run(start, events).complete() <==> pulled(events).len()
            == 1),
{
    let batched = run(start, events);
    lemma_run_accounts(start, events);
    lemma_run_monotonic(start, events);
    let k = pulled(events).lemma_contains_to_index(last);
    assert(batched.last_sent == last) by {
        assert(pulled(events)[k] <= batched.last_sent);
        if batched.last_sent != 0 {
            let j = pulled(events).lemma_contains_to_index(batched.last_sent);
        }
    }
    let all = batched.acks + batched.fails;
    assert(seq![last][0] == last);
    assert(settled(events).contains(last));
    assert(recorded(batched, last));
    assert forall|i: int| 0 <= i < all.len() implies #[trigger] all[i] <= last by {
        assert(all.contains(all[i]));
        assert(recorded(batched, all[i]));
        assert(!recorded(start, all[i])) by {
            assert((start.acks + start.fails).len() == 0);
        }
        let j = settled(events).lemma_contains_to_index(all[i]);
    }
}

/// No event of the run restores the circuit breaker.
pub open spec fn none_opens(events: Seq<SourceEvent>) -> bool {
    forall|i: int|
        0 <= i < events.len() ==> #[trigger] events[i] != SourceEvent::Called(Callback::CbOpen)
}

/// No event of the run triggers the circuit breaker.
pub open spec fn none_closes(events: Seq<SourceEvent>) -> bool {
    forall|i: int|
        0 <= i < events.len() ==> #[trigger] events[i] != SourceEvent::Called(Callback::CbClose)
}

/// After the circuit breaker of a source was triggered, the source does
/// not pull until the breaker is restored, whatever else happens to it
/// meanwhile and whatever state its pull loop is in.
pub proof fn lemma_closed_until_opened(
    state: SourceState,
    events: Seq<SourceEvent>,
    scheduler: Scheduler,
)
    requires
        none_opens(events),
    ensures
        run(state.closed(), events).breaker == CircuitBreaker::Open,
        !run(state.closed(), events).may_pull(),
        scheduler.spec_next(run(state.closed(), events).breaker) == Step::Defer,
    decreases events.len(),
{
    if events.len() > 0 {
        let before = events.drop_last();
        assert forall|i: int| 0 <= i < before.len() implies #[trigger] before[i]
            != SourceEvent::Called(Callback::CbOpen) by {
            assert(before[i] == events[i]);
        }
        lemma_closed_until_opened(state, before, scheduler);
        assert(events[events.len() - 1] != SourceEvent::Called(Callback::CbOpen));
    }
}

/// After the circuit breaker of a source was restored, the source may
/// pull until the breaker is triggered again: it does not open by itself.
pub proof fn lemma_opened_until_closed(state: SourceState, events: Seq<SourceEvent>)
    requires
        none_closes(events),
    ensures
        run(state.opened(), events).breaker == CircuitBreaker::Closed,
        run(state.opened(), events).may_pull(),
    decreases events.len(),
{
    if events.len() > 0 {
        let before = events.drop_last();
        assert forall|i: int| 0 <= i < before.len() implies #[trigger] before[i]
            != SourceEvent::Called(Callback::CbClose) by {
            assert(before[i] == events[i]);
        }
        lemma_opened_until_closed(state, before);
        assert(events[events.len() - 1] != SourceEvent::Called(Callback::CbClose));
    }
}

} // verus!
