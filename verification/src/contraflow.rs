//! Contraflow: what a sink replied travels back to the sources that the
//! event stems from.
//!
//! A reply to an event becomes, for each source, a list of callbacks: an
//! acknowledgment or a failure for each pull of that source that the event
//! stems from, and the circuit-breaker instruction if there is one.

use vstd::prelude::*;
use crate::breaker::CbAction;
use crate::breaker::CircuitBreaker;
use crate::event_id::EventId;
use crate::event_id::PullId;
use crate::event_id::ascending;
use crate::event_id::pull_lt;
use crate::sink::SinkAck;
use crate::sink::SinkReply;
use crate::source::CbSource;
use crate::source::SourceState;

verus! {

/// One call that contraflow makes on a source.
#[derive(Clone, Copy, Debug, PartialEq, Eq, Structural)]
pub enum Callback {
    /// The unit of this pull was delivered.
    Ack { stream_id: u64, pull_id: u64 },
    /// The unit of this pull could not be delivered.
    Fail { stream_id: u64, pull_id: u64 },
    /// Pulling may go on.
    CbOpen,
    /// Pulling is to stop.
    CbClose,
}

/// The reply that counts: where the sink has no opinion and acknowledges
/// automatically, an acknowledgment stands in.
pub open spec fn resolved(reply: SinkReply, auto_ack: bool) -> SinkReply {
    if reply.ack == SinkAck::Nothing && auto_ack {
        SinkReply { ack: SinkAck::Ack, cb: reply.cb }
    } else {
        reply
    }
}

/// What `ack` means for the pull `p`, if anything.
pub open spec fn answer(ack: SinkAck, p: PullId) -> Option<Callback> {
    match ack {
        SinkAck::Ack => Some(Callback::Ack { stream_id: p.stream_id, pull_id: p.pull_id }),
        SinkAck::Fail => Some(Callback::Fail { stream_id: p.stream_id, pull_id: p.pull_id }),
        SinkAck::Nothing => None,
    }
}

/// The acknowledgments or failures that the source `source_id` is owed for
/// `pulls`: one for each of its own pulls, in their order.
pub open spec fn answers(source_id: u64, pulls: Seq<PullId>, ack: SinkAck) -> Seq<Callback>
    decreases pulls.len(),
{
    if pulls.len() == 0 {
        Seq::empty()
    } else {
        let before = answers(source_id, pulls.drop_last(), ack);
        match answer(ack, pulls.last()) {
            Some(cb) => if pulls.last().source_id == source_id {
                before.push(cb)
            } else {
                before
            },
            None => before,
        }
    }
}

/// The callback that carries a circuit-breaker instruction.
pub open spec fn instruction(action: CbAction) -> Seq<Callback> {
    match action {
        CbAction::Close => seq![Callback::CbClose],
        CbAction::Open => seq![Callback::CbOpen],
        CbAction::Nothing => Seq::empty(),
    }
}

/// Everything that the source `source_id` is called with for `reply` to an
/// event that stems from `pulls`: first the acknowledgments or failures,
/// then the circuit-breaker instruction.
pub open spec fn callbacks(source_id: u64, pulls: Seq<PullId>, reply: SinkReply) -> Seq<Callback> {
    answers(source_id, pulls, reply.ack) + instruction(reply.cb)
}

/// The bookkeeping of a source after one callback.
pub open spec fn after(state: SourceState, cb: Callback) -> SourceState {
    match cb {
        Callback::Ack { stream_id, pull_id } => state.acked(pull_id),
        Callback::Fail { stream_id, pull_id } => state.failed(pull_id),
        Callback::CbOpen => state.opened(),
        Callback::CbClose => state.closed(),
    }
}

/// The bookkeeping of a source after a run of callbacks.
pub open spec fn after_all(state: SourceState, cbs: Seq<Callback>) -> SourceState
    decreases cbs.len(),
{
    if cbs.len() == 0 {
        state
    } else {
        after(after_all(state, cbs.drop_last()), cbs.last())
    }
}

/// The reply that counts under the sink's automatic acknowledgment policy.
pub fn resolve(reply: SinkReply, auto_ack: bool) -> (r: SinkReply)
    ensures
        r == resolved(reply, auto_ack),
{
    match reply.ack {
        SinkAck::Nothing => {
            if auto_ack {
                SinkReply { ack: SinkAck::Ack, cb: reply.cb }
            } else {
                reply
            }
        },
        _ => reply,
    }
}

/// The callbacks that the source `source_id` is owed for `reply` to the
/// event `id`.
pub fn route(source_id: u64, id: &EventId, reply: SinkReply) -> (r: Vec<Callback>)
    ensures
        r@ == callbacks(source_id, id.triples(), reply),
{
    let mut out: Vec<Callback> = Vec::new();
    let n = id.len();
    let mut i: usize = 0;
    let ghost pulls = id.triples();
    while i < n
        invariant
            i <= n,
            n == pulls.len(),
            pulls == id.triples(),
            out@ == answers(source_id, pulls.take(i as int), reply.ack),
        decreases n - i,
    {
        let p = id.get(i);
        proof {
            let next = pulls.take(i + 1);
            assert(next.drop_last() =~= pulls.take(i as int));
            assert(next.last() == p);
        }
        if p.source_id == source_id {
            match reply.ack {
                SinkAck::Ack => {
                    out.push(Callback::Ack { stream_id: p.stream_id, pull_id: p.pull_id });
                },
                SinkAck::Fail => {
                    out.push(Callback::Fail { stream_id: p.stream_id, pull_id: p.pull_id });
                },
                SinkAck::Nothing => {},
            }
        }
        i += 1;
    }
    assert(pulls.take(i as int) =~= pulls);
    let ghost gd = out@;
    match reply.cb {
        CbAction::Close => {
            out.push(Callback::CbClose);
        },
        CbAction::Open => {
            out.push(Callback::CbOpen);
        },
        CbAction::Nothing => {},
    }
    assert(out@ =~= gd + instruction(reply.cb));
    out
}

/// How many acknowledgments and failures `cbs` holds.
pub open spec fn count_answers(cbs: Seq<Callback>) -> nat
    decreases cbs.len(),
{
    if cbs.len() == 0 {
        0
    } else {
        count_answers(cbs.drop_last()) + match cbs.last() {
            Callback::Ack { .. } => 1nat,
            Callback::Fail { .. } => 1nat,
            _ => 0nat,
        }
    }
}

/// How many instructions to stop pulling `cbs` holds.
pub open spec fn count_closes(cbs: Seq<Callback>) -> nat
    decreases cbs.len(),
{
    if cbs.len() == 0 {
        0
    } else {
        count_closes(cbs.drop_last()) + if cbs.last() == Callback::CbClose {
            1nat
        } else {
            0nat
        }
    }
}

/// How many instructions to go on pulling `cbs` holds.
pub open spec fn count_opens(cbs: Seq<Callback>) -> nat
    decreases cbs.len(),
{
    if cbs.len() == 0 {
        0
    } else {
        count_opens(cbs.drop_last()) + if cbs.last() == Callback::CbOpen {
            1nat
        } else {
            0nat
        }
    }
}

/// The source has room to record `cbs`.
pub open spec fn has_room(state: SourceState, cbs: Seq<Callback>) -> bool {
    &&& state.count() + count_answers(cbs) <= usize::MAX
    &&& state.trigger + count_closes(cbs) <= u64::MAX
    &&& state.restore + count_opens(cbs) <= u64::MAX
}

/// Applies one callback to a source.
pub fn call(source: &mut CbSource, cb: Callback)
    requires
        old(source).wf(),
        has_room(old(source)@, seq![cb]),
    ensures
        final(source).wf(),
        final(source)@ == after(old(source)@, cb),
{
    proof {
        let one = seq![cb];
        assert(one.drop_last() =~= Seq::<Callback>::empty());
        assert(one.last() == cb);
        assert(count_answers(one.drop_last()) == 0);
        assert(count_closes(one.drop_last()) == 0);
        assert(count_opens(one.drop_last()) == 0);
    }
    match cb {
        Callback::Ack { stream_id, pull_id } => source.ack(stream_id, pull_id),
        Callback::Fail { stream_id, pull_id } => source.fail(stream_id, pull_id),
        Callback::CbOpen => source.on_cb_open(),
        Callback::CbClose => source.on_cb_close(),
    }
}

/// What recording callbacks does to the counts of a source.
pub proof fn lemma_after_all_counts(state: SourceState, cbs: Seq<Callback>)
    ensures
        after_all(state, cbs).count() == state.count() + count_answers(cbs),
        after_all(state, cbs).trigger == state.trigger + count_closes(cbs),
        after_all(state, cbs).restore == state.restore + count_opens(cbs),
        after_all(state, cbs).num_sent == state.num_sent,
        after_all(state, cbs).last_sent == state.last_sent,
        after_all(state, cbs).finished == state.finished,
        state.acks.is_prefix_of(after_all(state, cbs).acks),
        state.fails.is_prefix_of(after_all(state, cbs).fails),
        after_all(state, cbs).config == state.config,
        after_all(state, cbs).origin == state.origin,
    decreases cbs.len(),
{
    if cbs.len() > 0 {
        lemma_after_all_counts(state, cbs.drop_last());
    }
}

/// Applies a run of callbacks to a source, in order.
pub fn call_all(source: &mut CbSource, cbs: &Vec<Callback>)
    requires
        old(source).wf(),
        has_room(old(source)@, cbs@),
    ensures
        final(source).wf(),
        final(source)@ == after_all(old(source)@, cbs@),
{
    let mut i: usize = 0;
    let ghost start = source@;
    while i < cbs.len()
        invariant
            i <= cbs.len(),
            source.wf(),
            start == old(source)@,
            has_room(start, cbs@),
            source@ == after_all(start, cbs@.take(i as int)),
        decreases cbs.len() - i,
    {
        proof {
            let done = cbs@.take(i as int);
            let next = cbs@.take(i + 1);
            assert(next.drop_last() =~= done);
            assert(next.last() == cbs@[i as int]);
            lemma_after_all_counts(start, done);
            lemma_counts_grow(cbs@, i + 1);
            let one = seq![cbs@[i as int]];
            assert(one.drop_last() =~= Seq::<Callback>::empty());
            assert(count_answers(one.drop_last()) == 0);
            assert(count_closes(one.drop_last()) == 0);
            assert(count_opens(one.drop_last()) == 0);
        }
        call(source, cbs[i]);
        i += 1;
    }
    assert(cbs@.take(i as int) =~= cbs@);
}

/// A prefix of a run holds no more callbacks of a kind than the run.
pub proof fn lemma_counts_grow(cbs: Seq<Callback>, n: int)
    requires
        0 <= n <= cbs.len(),
    ensures
        count_answers(cbs.take(n)) <= count_answers(cbs),
        count_closes(cbs.take(n)) <= count_closes(cbs),
        count_opens(cbs.take(n)) <= count_opens(cbs),
    decreases cbs.len(),
{
    if n == cbs.len() {
        assert(cbs.take(n) =~= cbs);
    } else {
        assert(cbs.drop_last().take(n) =~= cbs.take(n));
        lemma_counts_grow(cbs.drop_last(), n);
    }
}

/// Delivers `reply` to the event `id` to the source `source_id`.
pub fn deliver(source: &mut CbSource, source_id: u64, id: &EventId, reply: SinkReply)
    requires
        old(source).wf(),
        has_room(old(source)@, callbacks(source_id, id.triples(), reply)),
    ensures
        final(source).wf(),
        final(source)@ == after_all(old(source)@, callbacks(source_id, id.triples(), reply)),
{
    let cbs = route(source_id, id, reply);
    call_all(source, &cbs);
}

/// Whether the source has room to record `cbs`.
pub fn room_for(source: &CbSource, cbs: &Vec<Callback>) -> (r: bool)
    requires
        source.wf(),
    ensures
        r == has_room(source@, cbs@),
{
    let mut answers: usize = 0;
    let mut closes: usize = 0;
    let mut opens: usize = 0;
    let mut i: usize = 0;
    while i < cbs.len()
        invariant
            i <= cbs.len(),
            answers == count_answers(cbs@.take(i as int)),
            closes == count_closes(cbs@.take(i as int)),
            opens == count_opens(cbs@.take(i as int)),
            answers <= i,
            closes <= i,
            opens <= i,
        decreases cbs.len() - i,
    {
        proof {
            let next = cbs@.take(i + 1);
            assert(next.drop_last() =~= cbs@.take(i as int));
            assert(next.last() == cbs@[i as int]);
        }
        match cbs[i] {
            Callback::Ack { .. } => {
                answers += 1;
            },
            Callback::Fail { .. } => {
                answers += 1;
            },
            Callback::CbClose => {
                closes += 1;
            },
            Callback::CbOpen => {
                opens += 1;
            },
        }
        i += 1;
    }
    assert(cbs@.take(i as int) =~= cbs@);
    let received = source.received_cbs();
    answers <= usize::MAX - received.count() && closes as u64 <= u64::MAX - received.trigger
        && opens as u64 <= u64::MAX - received.restore
}

/// Delivers `reply` to the event `id` to the source `source_id` if the
/// source has room to record it, and says whether it did. Where it did
/// not, the source is as it was.
pub fn try_deliver(source: &mut CbSource, source_id: u64, id: &EventId, reply: SinkReply) -> (done:
    bool)
    requires
        old(source).wf(),
    ensures
        final(source).wf(),
        done == has_room(old(source)@, callbacks(source_id, id.triples(), reply)),
        final(source)@ == if done {
            after_all(old(source)@, callbacks(source_id, id.triples(), reply))
        } else {
            old(source)@
        },
{
    let cbs = route(source_id, id, reply);
    if room_for(source, &cbs) {
        call_all(source, &cbs);
        true
    } else {
        false
    }
}

/// The pull of the source `source_id` that a callback answers.
pub open spec fn answered(source_id: u64, cb: Callback) -> Option<PullId> {
    match cb {
        Callback::Ack { stream_id, pull_id } => Some(PullId { source_id, stream_id, pull_id }),
        Callback::Fail { stream_id, pull_id } => Some(PullId { source_id, stream_id, pull_id }),
        _ => None,
    }
}

/// A reply without an opinion is passed on to no pull.
pub proof fn lemma_no_opinion_no_answers(source_id: u64, pulls: Seq<PullId>)
    ensures
        answers(source_id, pulls, SinkAck::Nothing) == Seq::<Callback>::empty(),
    decreases pulls.len(),
{
    if pulls.len() > 0 {
        lemma_no_opinion_no_answers(source_id, pulls.drop_last());
    }
}

/// One reply to a merged event reaches every pull of the source that the
/// event stems from.
pub proof fn lemma_every_pull_answered(source_id: u64, pulls: Seq<PullId>, ack: SinkAck, p: PullId)
    requires
        pulls.contains(p),
        p.source_id == source_id,
        ack != SinkAck::Nothing,
    ensures
        answer(ack, p) is Some,
        answers(source_id, pulls, ack).contains(answer(ack, p).unwrap()),
    decreases pulls.len(),
{
    let k = pulls.lemma_contains_to_index(p);
    let all = answers(source_id, pulls, ack);
    let before = answers(source_id, pulls.drop_last(), ack);
    if k == pulls.len() - 1 {
        assert(all == before.push(answer(ack, p).unwrap()));
        assert(all[all.len() - 1] == answer(ack, p).unwrap());
    } else {
        assert(pulls.drop_last()[k] == p);
        lemma_every_pull_answered(source_id, pulls.drop_last(), ack, p);
        let j = before.lemma_contains_to_index(answer(ack, p).unwrap());
        assert(all[j] == before[j]);
    }
}

/// A source is called for its own pulls only, and only for pulls that
/// the event stems from.
pub proof fn lemma_only_own_pulls_answered(
    source_id: u64,
    pulls: Seq<PullId>,
    ack: SinkAck,
    i: int,
) -> (p: PullId)
    requires
        0 <= i < answers(source_id, pulls, ack).len(),
    ensures
        pulls.contains(p),
        p.source_id == source_id,
        answer(ack, p) == Some(answers(source_id, pulls, ack)[i]),
        answered(source_id, answers(source_id, pulls, ack)[i]) == Some(p),
    decreases pulls.len(),
{
    let all = answers(source_id, pulls, ack);
    let before = answers(source_id, pulls.drop_last(), ack);
    if i < before.len() {
        let p = lemma_only_own_pulls_answered(source_id, pulls.drop_last(), ack, i);
        let k = pulls.drop_last().lemma_contains_to_index(p);
        assert(pulls[k] == p);
        assert(all[i] == before[i]);
        p
    } else {
        assert(pulls[pulls.len() - 1] == pulls.last());
        pulls.last()
    }
}

/// Contraflow does not reorder: the answers to an event come in the
/// order of its pulls, so within one stream in the order of the pulls.
pub proof fn lemma_answers_in_order(
    source_id: u64,
    pulls: Seq<PullId>,
    ack: SinkAck,
    i: int,
    j: int,
)
    requires
        ascending(pulls),
        0 <= i < j < answers(source_id, pulls, ack).len(),
    ensures
        answered(source_id, answers(source_id, pulls, ack)[i]) is Some,
        answered(source_id, answers(source_id, pulls, ack)[j]) is Some,
        pull_lt(
            answered(source_id, answers(source_id, pulls, ack)[i]).unwrap(),
            answered(source_id, answers(source_id, pulls, ack)[j]).unwrap(),
        ),
    decreases pulls.len(),
{
    let all = answers(source_id, pulls, ack);
    let short = pulls.drop_last();
    let before = answers(source_id, short, ack);
    assert(ascending(short)) by {
        assert forall|a: int, b: int| 0 <= a < b < short.len() implies pull_lt(
            #[trigger] short[a],
            #[trigger] short[b],
        ) by {
            assert(pull_lt(pulls[a], pulls[b]));
        }
    }
    if j < before.len() {
        lemma_answers_in_order(source_id, short, ack, i, j);
        assert(all[i] == before[i]);
        assert(all[j] == before[j]);
    } else {
        let p = lemma_only_own_pulls_answered(source_id, short, ack, i);
        let k = short.lemma_contains_to_index(p);
        assert(all[i] == before[i]);
        assert(pull_lt(pulls[k], pulls[pulls.len() - 1]));
    }
}

/// A source is called at most once for each pull that the event stems
/// from.
pub proof fn lemma_answers_bounded(source_id: u64, pulls: Seq<PullId>, ack: SinkAck)
    ensures
        answers(source_id, pulls, ack).len() <= pulls.len(),
        count_answers(answers(source_id, pulls, ack)) == answers(source_id, pulls, ack).len(),
    decreases pulls.len(),
{
    if pulls.len() > 0 {
        lemma_answers_bounded(source_id, pulls.drop_last(), ack);
        let all = answers(source_id, pulls, ack);
        let before = answers(source_id, pulls.drop_last(), ack);
        if all.len() > before.len() {
            assert(all.drop_last() =~= before);
        }
    }
}

/// A reply that tells to stop pulling leaves the circuit breaker of the
/// source open, and one that tells to go on leaves it closed, whatever
/// the reply says of the delivery.
pub proof fn lemma_instruction_sets_breaker(
    state: SourceState,
    source_id: u64,
    pulls: Seq<PullId>,
    reply: SinkReply,
)
    ensures
        reply.cb == CbAction::Close ==> after_all(state, callbacks(source_id, pulls, reply)).breaker
            == CircuitBreaker::Open,
        reply.cb == CbAction::Open ==> after_all(state, callbacks(source_id, pulls, reply)).breaker
            == CircuitBreaker::Closed,
        reply.cb == CbAction::Nothing ==> after_all(
            state,
            callbacks(source_id, pulls, reply),
        ).breaker == state.breaker,
{
    let gd = answers(source_id, pulls, reply.ack);
    let all = callbacks(source_id, pulls, reply);
    lemma_answers_keep_breaker(state, source_id, pulls, reply.ack);
    if reply.cb == CbAction::Nothing {
        assert(all =~= gd);
    } else {
        assert(all.drop_last() =~= gd);
    }
}

/// Acknowledgments and failures do not touch the circuit breaker.
pub proof fn lemma_answers_keep_breaker(
    state: SourceState,
    source_id: u64,
    pulls: Seq<PullId>,
    ack: SinkAck,
)
    ensures
        after_all(state, answers(source_id, pulls, ack)).breaker == state.breaker,
    decreases pulls.len(),
{
    if pulls.len() > 0 {
        lemma_answers_keep_breaker(state, source_id, pulls.drop_last(), ack);
        let all = answers(source_id, pulls, ack);
        let before = answers(source_id, pulls.drop_last(), ack);
        if all.len() > before.len() {
            assert(all.drop_last() =~= before);
        }
    }
}

/// An acknowledgment that is among the callbacks is among the source's
/// acknowledgments afterwards.
pub proof fn lemma_ack_is_recorded(state: SourceState, cbs: Seq<Callback>, i: int)
    requires
        0 <= i < cbs.len(),
        cbs[i] is Ack,
    ensures
        after_all(state, cbs).acks.contains(cbs[i]->Ack_pull_id),
    decreases cbs.len(),
{
    let end = after_all(state, cbs);
    let mid = after_all(state, cbs.drop_last());
    if i == cbs.len() - 1 {
        assert(end.acks == mid.acks.push(cbs[i]->Ack_pull_id));
        assert(end.acks[end.acks.len() - 1] == cbs[i]->Ack_pull_id);
    } else {
        assert(cbs.drop_last()[i] == cbs[i]);
        lemma_ack_is_recorded(state, cbs.drop_last(), i);
        let k = mid.acks.lemma_contains_to_index(cbs[i]->Ack_pull_id);
        match cbs.last() {
            Callback::Ack { stream_id, pull_id } => {
                assert(end.acks == mid.acks.push(pull_id));
                assert(end.acks[k] == mid.acks[k]);
            },
            _ => {
                assert(end.acks == mid.acks);
            },
        }
    }
}

/// An acknowledged identifier tracks each pull that it holds, and the
/// source of that pull records the acknowledgment for it.
pub proof fn lemma_tracked_pull_is_acked(
    state: SourceState,
    id: EventId,
    pull: EventId,
    p: PullId,
    reply: SinkReply,
)
    requires
        pull@ == set![p],
        pull@.subset_of(id@),
        reply.ack == SinkAck::Ack,
    ensures
        crate::event_id::tracks(id@, pull@),
        after_all(state, callbacks(p.source_id, id.triples(), reply)).acks.contains(p.pull_id),
{
    crate::event_id::lemma_superset_tracks(id, pull);
    let gd = answers(p.source_id, id.triples(), reply.ack);
    let all = callbacks(p.source_id, id.triples(), reply);
    assert(pull@.contains(p));
    assert(id@.contains(p));
    assert(id.triples().contains(p));
    lemma_every_pull_answered(p.source_id, id.triples(), reply.ack, p);
    let want = Callback::Ack { stream_id: p.stream_id, pull_id: p.pull_id };
    let i = gd.lemma_contains_to_index(want);
    assert(all[i] == want);
    lemma_ack_is_recorded(state, all, i);
}

} // verus!
