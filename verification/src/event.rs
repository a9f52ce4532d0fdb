//! Events: what a source emits and a sink receives.

use vstd::prelude::*;
use crate::event_id::EventId;
use crate::value::Value;

verus! {

/// The payload of one unit of data together with its metadata.
#[derive(Debug, PartialEq, Eq)]
pub struct ValueAndMeta {
    pub value: Value,
    pub meta: Value,
}

/// One event on its way through a pipeline. A batch carries the units of
/// several events under one merged identifier.
#[derive(Debug)]
pub struct Event {
    pub id: EventId,
    pub data: Vec<ValueAndMeta>,
    pub transactional: bool,
    pub is_batch: bool,
}

impl Event {
    /// The identifier is well formed, and an event that is no batch carries
    /// exactly one unit.
    pub open spec fn wf(&self) -> bool {
        &&& self.id.wf()
        &&& !self.is_batch ==> self.data@.len() == 1
    }

    /// A single event.
    pub fn new(id: EventId, value: Value, meta: Value, transactional: bool) -> (e: Event)
        requires
            id.wf(),
        ensures
            e.wf(),
            e.id == id,
            e.data@ == seq![ValueAndMeta { value, meta }],
            e.transactional == transactional,
            !e.is_batch,
    {
        let mut data: Vec<ValueAndMeta> = Vec::new();
        data.push(ValueAndMeta { value, meta });
        assert(data@ =~= seq![ValueAndMeta { value, meta }]);
        Event { id, data, transactional, is_batch: false }
    }

    /// The same units as a batch, to which further events can be added.
    pub fn into_batch(self) -> (e: Event)
        requires
            self.wf(),
        ensures
            e.wf(),
            e.is_batch,
            e.id == self.id,
            e.data == self.data,
            e.transactional == self.transactional,
    {
        Event { id: self.id, data: self.data, transactional: self.transactional, is_batch: true }
    }

    /// Adds the units of `other` to this batch. The batch then stems from the
    /// pulls of both, and is transactional if either was.
    pub fn push(&mut self, other: Event)
        requires
            old(self).wf(),
            old(self).is_batch,
            other.wf(),
        ensures
            final(self).wf(),
            final(self).is_batch,
            final(self).id@ == old(self).id@.union(other.id@),
            final(self).data@ == old(self).data@ + other.data@,
            final(self).transactional == (old(self).transactional || other.transactional),
    {
        let Event { id, data, transactional, is_batch: _ } = other;
        let mut data = data;
        self.id = self.id.merge(&id);
        self.data.append(&mut data);
        self.transactional = self.transactional || transactional;
    }

    /// The number of units that the event carries.
    pub fn len(&self) -> (n: usize)
        ensures
            n == self.data@.len(),
    {
        self.data.len()
    }
}

} // verus!
