//! The sink side: what a sink replies to an event, and the reference sink
//! that takes its reply from the event itself.

use vstd::prelude::*;
use crate::breaker::CbAction;
use crate::event::Event;
use crate::event::ValueAndMeta;
use crate::value::Value;

verus! {

/// A sink's opinion on the delivery of an event.
#[derive(Clone, Copy, Debug, PartialEq, Eq, Structural)]
pub enum SinkAck {
    /// No opinion: the automatic acknowledgment policy decides.
    Nothing,
    /// The event was delivered.
    Ack,
    /// The event could not be delivered.
    Fail,
}

/// What a sink answers to one event.
#[derive(Clone, Copy, Debug, PartialEq, Eq, Structural)]
pub struct SinkReply {
    pub ack: SinkAck,
    pub cb: CbAction,
}

/// The reply that says nothing: no opinion and no instruction.
pub open spec fn no_reply() -> SinkReply {
    SinkReply { ack: SinkAck::Nothing, cb: CbAction::Nothing }
}

impl SinkReply {
    /// The reply that says nothing.
    pub fn none() -> (r: SinkReply)
        ensures
            r == no_reply(),
    {
        SinkReply { ack: SinkAck::Nothing, cb: CbAction::Nothing }
    }

    /// The reply that only acknowledges.
    pub fn ack() -> (r: SinkReply)
        ensures
            r.ack == SinkAck::Ack,
            r.cb == CbAction::Nothing,
    {
        SinkReply { ack: SinkAck::Ack, cb: CbAction::Nothing }
    }

    /// The reply that only reports a failure.
    pub fn fail() -> (r: SinkReply)
        ensures
            r.ack == SinkAck::Fail,
            r.cb == CbAction::Nothing,
    {
        SinkReply { ack: SinkAck::Fail, cb: CbAction::Nothing }
    }
}

/// `cb` names the command `token`: it is that string, or an array that holds
/// that string.
pub open spec fn mentions(cb: Value, token: Seq<char>) -> bool {
    match cb {
        Value::Array(items) => exists|i: int|
            0 <= i < items@.len() && (#[trigger] items@[i]).spec_str() == Some(token),
        Value::Str(s) => s@ == token,
        _ => false,
    }
}

/// The reply that a command field asks for. Where both are named, `ack` wins
/// over `fail`, and `close` or `trigger` over `open` or `restore`.
pub open spec fn reply_for(cb: Value) -> SinkReply {
    SinkReply {
        ack: if mentions(cb, "ack"@) {
            SinkAck::Ack
        } else if mentions(cb, "fail"@) {
            SinkAck::Fail
        } else {
            SinkAck::Nothing
        },
        cb: if mentions(cb, "close"@) || mentions(cb, "trigger"@) {
            CbAction::Close
        } else if mentions(cb, "open"@) || mentions(cb, "restore"@) {
            CbAction::Open
        } else {
            CbAction::Nothing
        },
    }
}

/// The command field of one unit: the field `cb` of its metadata, or else of
/// its value.
pub open spec fn cb_field(unit: ValueAndMeta) -> Option<Value> {
    match unit.meta.spec_get("cb"@) {
        Some(cb) => Some(cb),
        None => unit.value.spec_get("cb"@),
    }
}

/// The reply to an event with the given units: the one that the first unit
/// with a command field asks for, and the empty reply where no unit has one.
pub open spec fn derive_reply(units: Seq<ValueAndMeta>) -> SinkReply
    decreases units.len(),
{
    if units.len() == 0 {
        no_reply()
    } else {
        match cb_field(units[0]) {
            Some(cb) => reply_for(cb),
            None => derive_reply(units.skip(1)),
        }
    }
}

/// Whether `cb` names the command `token`.
pub fn has_token(cb: &Value, token: &str) -> (r: bool)
    ensures
        r == mentions(*cb, token@),
{
    let wanted = token.to_owned();
    match cb {
        Value::Array(items) => {
            let mut i: usize = 0;
            while i < items.len()
                invariant
                    i <= items.len(),
                    wanted@ == token@,
                    *cb == Value::Array(*items),
                    forall|k: int| 0 <= k < i ==> (#[trigger] items@[k]).spec_str() != Some(token@),
                decreases items.len() - i,
            {
                match &items[i] {
                    Value::Str(s) => {
                        if *s == wanted {
                            assert(items@[i as int].spec_str() == Some(token@));
                            return true;
                        }
                    },
                    _ => {},
                }
                i += 1;
            }
            false
        },
        Value::Str(s) => *s == wanted,
        _ => false,
    }
}

/// The reply that the command field `cb` asks for.
pub fn reply_to(cb: &Value) -> (r: SinkReply)
    ensures
        r == reply_for(*cb),
{
    let ack = if has_token(cb, "ack") {
        SinkAck::Ack
    } else if has_token(cb, "fail") {
        SinkAck::Fail
    } else {
        SinkAck::Nothing
    };
    let action = if has_token(cb, "close") || has_token(cb, "trigger") {
        CbAction::Close
    } else if has_token(cb, "open") || has_token(cb, "restore") {
        CbAction::Open
    } else {
        CbAction::Nothing
    };
    SinkReply { ack, cb: action }
}

/// The reference sink: it does nothing with an event but answer as the event
/// itself asks, which lets a pipeline be driven through every reply.
#[derive(Debug)]
pub struct CbSink {}

impl CbSink {
    pub fn new() -> CbSink {
        CbSink {  }
    }

    /// Answers `event` from the command field of its first unit that has one.
    pub fn on_event(&mut self, input: &str, event: &Event) -> (r: SinkReply)
        ensures
            r == derive_reply(event.data@),
    {
        let mut i: usize = 0;
        assert(event.data@.skip(0) =~= event.data@);
        while i < event.data.len()
            invariant
                i <= event.data.len(),
                derive_reply(event.data@) == derive_reply(event.data@.skip(i as int)),
            decreases event.data.len() - i,
        {
            let ghost rest = event.data@.skip(i as int);
            assert(rest[0] == event.data@[i as int]);
            assert(rest.skip(1) =~= event.data@.skip(i + 1));
            let unit = &event.data[i];
            let found = match unit.meta.get("cb") {
                Some(cb) => Some(cb),
                None => unit.value.get("cb"),
            };
            match found {
                Some(cb) => {
                    assert(cb_field(rest[0]) == Some(*cb));
                    return reply_to(cb);
                },
                None => {
                    assert(cb_field(rest[0]) is None);
                },
            }
            i += 1;
        }
        SinkReply::none()
    }

    /// This sink leaves nothing to the automatic acknowledgment policy.
    pub fn auto_ack(&self) -> (r: bool)
        ensures
            !r,
    {
        false
    }
}

} // verus!
