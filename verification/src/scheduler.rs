//! When a source pulls: its circuit breaker comes first, then the strict
//! backpressure of a source that waits for each acknowledgment, then the
//! numbering of its pulls.

use vstd::prelude::*;
use crate::breaker::CircuitBreaker;
use crate::contraflow::Callback;

verus! {

/// What the pull loop of a source does next.
#[derive(Clone, Copy, Debug, PartialEq, Eq, Structural)]
pub enum Step {
    /// Pull now. A unit of data that comes of it goes under this pull.
    Pull(u64),
    /// Do not pull; ask again after the next callback.
    Defer,
}

/// What happens to the pull loop of a source.
#[derive(Clone, Copy, Debug, PartialEq, Eq, Structural)]
pub enum SchedulerEvent {
    /// A pull gave a unit of data.
    Sent,
    /// An acknowledgment or a failure arrived.
    Settled,
}

/// The state of the pull loop of one source. The circuit breaker is not
/// part of it: that is the source's own, and is asked for at each step.
#[derive(Clone, Copy, Debug, PartialEq, Eq, Structural)]
pub struct Scheduler {
    /// The last pull under which a unit was sent; zero where none was.
    pub pull_counter: u64,
    /// The source waits for each unit's acknowledgment before the next pull.
    pub strict: bool,
    /// A unit of a strict source is in flight.
    pub awaiting: bool,
}

/// What a callback means to the pull loop, if anything.
pub open spec fn event_of(cb: Callback) -> Option<SchedulerEvent> {
    match cb {
        Callback::Ack { .. } => Some(SchedulerEvent::Settled),
        Callback::Fail { .. } => Some(SchedulerEvent::Settled),
        _ => None,
    }
}

impl Scheduler {
    /// What the pull loop does next, given the circuit breaker of the
    /// source. It pulls only while the breaker is closed, a strict source
    /// has nothing in flight, and there is a pull number left.
    pub open spec fn spec_next(self, breaker: CircuitBreaker) -> Step {
        if breaker.spec_may_pull() && !(self.strict && self.awaiting) && self.pull_counter
            < u64::MAX {
            Step::Pull((self.pull_counter + 1) as u64)
        } else {
            Step::Defer
        }
    }

    /// The state after a pull gave a unit of data: the pull number is used
    /// up, and a strict source has a unit in flight.
    pub open spec fn sent(self) -> Scheduler {
        Scheduler {
            pull_counter: if self.pull_counter < u64::MAX {
                (self.pull_counter + 1) as u64
            } else {
                self.pull_counter
            },
            awaiting: self.strict,
            ..self
        }
    }

    /// The state after an acknowledgment or a failure arrived.
    pub open spec fn settled(self) -> Scheduler {
        Scheduler { awaiting: false, ..self }
    }

    /// The state after one event.
    pub open spec fn step(self, event: SchedulerEvent) -> Scheduler {
        match event {
            SchedulerEvent::Sent => self.sent(),
            SchedulerEvent::Settled => self.settled(),
        }
    }

    /// The state after a callback reached the source.
    pub open spec fn called(self, cb: Callback) -> Scheduler {
        match event_of(cb) {
            Some(event) => self.step(event),
            None => self,
        }
    }

    /// The state after a run of events.
    pub open spec fn run(self, events: Seq<SchedulerEvent>) -> Scheduler
        decreases events.len(),
    {
        if events.len() == 0 {
            self
        } else {
            self.run(events.drop_last()).step(events.last())
        }
    }

    /// The pull loop of a source that has not pulled yet. `asynchronous`
    /// says whether the source waits for each unit's acknowledgment.
    pub fn new(asynchronous: bool) -> (s: Scheduler)
        ensures
            s == (Scheduler { pull_counter: 0, strict: asynchronous, awaiting: false }),
    {
        Scheduler { pull_counter: 0, strict: asynchronous, awaiting: false }
    }

    /// What the pull loop does next, given the circuit breaker of the
    /// source.
    pub fn next(&self, breaker: CircuitBreaker) -> (step: Step)
        ensures
            step == self.spec_next(breaker),
    {
        if breaker.may_pull() && !(self.strict && self.awaiting) && self.pull_counter < u64::MAX {
            Step::Pull(self.pull_counter + 1)
        } else {
            Step::Defer
        }
    }

    /// Takes one event.
    pub fn on_event(&mut self, event: SchedulerEvent)
        ensures
            *final(self) == old(self).step(event),
    {
        match event {
            SchedulerEvent::Sent => {
                if self.pull_counter < u64::MAX {
                    self.pull_counter = self.pull_counter + 1;
                }
                self.awaiting = self.strict;
            },
            SchedulerEvent::Settled => {
                self.awaiting = false;
            },
        }
    }

    /// Takes note of a callback that reached the source: an acknowledgment
    /// or a failure settles what was in flight, an instruction for the
    /// circuit breaker changes nothing here.
    pub fn on_callback(&mut self, cb: Callback)
        ensures
            *final(self) == old(self).called(cb),
    {
        match cb {
            Callback::Ack { .. } => self.on_event(SchedulerEvent::Settled),
            Callback::Fail { .. } => self.on_event(SchedulerEvent::Settled),
            _ => {},
        }
    }
}

/// While the circuit breaker of its source is open, no pull loop pulls.
pub proof fn lemma_open_breaker_defers(s: Scheduler)
    ensures
        s.spec_next(CircuitBreaker::Open) == Step::Defer,
{
}

/// The pulls of a source are numbered upwards: no run of events lowers
/// the counter, and each unit sent raises it while numbers are left.
pub proof fn lemma_pull_ids_ascend(s: Scheduler, events: Seq<SchedulerEvent>)
    ensures
        s.pull_counter <= s.run(events).pull_counter,
        s.run(events).strict == s.strict,
        s.run(events).pull_counter < u64::MAX ==> s.run(events).sent().pull_counter > s.run(
            events,
        ).pull_counter,
    decreases events.len(),
{
    if events.len() > 0 {
        lemma_pull_ids_ascend(s, events.drop_last());
    }
}

/// A strict source has at most one unit in flight: once it has sent a
/// unit it does not pull again before an acknowledgment or a failure,
/// whatever its circuit breaker says.
pub proof fn lemma_strict_waits(s: Scheduler, breaker: CircuitBreaker)
    requires
        s.strict,
    ensures
        s.sent().spec_next(breaker) == Step::Defer,
{
}

} // verus!
