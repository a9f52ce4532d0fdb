//! The reference source: it emits the lines of a file as events and keeps
//! account of what comes back for them.
//!
//! Reading the file and waiting are left to the caller. The source decides:
//! it is told what the last read gave and says what to do next.

use vstd::prelude::*;
use crate::breaker::CircuitBreaker;
use crate::config::Config;
use crate::config::ConfigView;
use crate::errors::ConnectorError;
use crate::origin::EventOriginUri;
use crate::origin::OriginView;
use crate::received::ReceivedCbs;
use crate::received::is_max;
use crate::value::Value;

verus! {

/// The stream on which a source emits when it has only one.
pub const DEFAULT_STREAM_ID: u64 = 0;

/// How the enclosing process is asked to stop.
#[derive(Clone, Copy, Debug, PartialEq, Eq, Structural)]
pub enum ShutdownMode {
    /// Outstanding acknowledgments are drained first, for a bounded time.
    Graceful,
    /// Halt at once and give up whatever is in flight.
    Forceful,
}

/// What a pull hands to the pipeline.
#[derive(Debug, PartialEq, Eq)]
#[allow(inconsistent_fields)]
pub enum SourceReply {
    /// One unit of data.
    Data {
        origin_uri: EventOriginUri,
        data: Vec<u8>,
        meta: Option<Value>,
        stream: Option<u64>,
        port: Option<String>,
        codec_overwrite: Option<String>,
    },
    /// The stream has come to its end.
    EndStream { origin_uri: EventOriginUri, stream: u64, meta: Option<Value> },
    /// The source will emit nothing more.
    Finished,
}

/// What the last read from the file gave.
#[derive(Debug, PartialEq, Eq)]
pub enum Input {
    /// One more line.
    Line(Vec<u8>),
    /// There was a line, but reading it failed.
    Failed,
    /// The file has no more lines.
    Exhausted,
}

/// Why a pull failed.
#[derive(Clone, Copy, Debug, PartialEq, Eq, Structural)]
pub enum SourceError {
    /// A line of the file could not be read.
    Read,
}

/// What a source reports when it finishes. Shutdown is requested whether or
/// not everything was received.
#[derive(Clone, Copy, Debug, PartialEq, Eq, Structural)]
pub struct Completion {
    /// Whether every expected callback has arrived.
    pub all_received: bool,
    /// The highest pull that was sent.
    pub last_sent: u64,
    /// How the enclosing process is to stop.
    pub shutdown: ShutdownMode,
}

/// What the caller of a pull is to do.
#[derive(Debug, PartialEq, Eq)]
pub enum Pull {
    /// Hand this on.
    Reply(SourceReply),
    /// Wait for so many nanoseconds, or until everything is received if
    /// that is sooner, then call `finish`.
    Drain(u64),
    /// Report this, request the shutdown and hand on
    /// `SourceReply::Finished`.
    Finished(Completion),
}

/// `reply` is the data `bytes` from `origin`, on the default stream, with
/// no metadata, on no particular port and with the configured codec.
pub open spec fn is_data(reply: SourceReply, origin: OriginView, bytes: Vec<u8>) -> bool {
    match reply {
        SourceReply::Data { origin_uri, data, meta, stream, port, codec_overwrite } => {
            &&& origin_uri@ == origin
            &&& data == bytes
            &&& meta is None
            &&& stream == Some(DEFAULT_STREAM_ID)
            &&& port is None
            &&& codec_overwrite is None
        },
        _ => false,
    }
}

/// `reply` is the end of the default stream from `origin`.
pub open spec fn is_end_of_stream(reply: SourceReply, origin: OriginView) -> bool {
    match reply {
        SourceReply::EndStream { origin_uri, stream, meta } => {
            &&& origin_uri@ == origin
            &&& stream == DEFAULT_STREAM_ID
            &&& meta is None
        },
        _ => false,
    }
}

/// The bookkeeping of a source as plain data.
pub struct SourceState {
    /// How many units were sent.
    pub num_sent: nat,
    /// The highest pull that was sent.
    pub last_sent: u64,
    /// The acknowledged pulls, in the order of arrival.
    pub acks: Seq<u64>,
    /// The failed pulls, in the order of arrival.
    pub fails: Seq<u64>,
    /// How often the circuit breaker was triggered.
    pub trigger: nat,
    /// How often the circuit breaker was restored.
    pub restore: nat,
    /// Whether the end of the stream was reported.
    pub finished: bool,
    /// The circuit breaker of the source.
    pub breaker: CircuitBreaker,
    /// What the source was configured with.
    pub config: ConfigView,
    /// Where its events come from.
    pub origin: OriginView,
}

impl SourceState {
    /// A source that has sent and received nothing and may pull.
    pub open spec fn initial(config: ConfigView, origin: OriginView) -> SourceState {
        SourceState {
            num_sent: 0,
            last_sent: 0,
            acks: Seq::empty(),
            fails: Seq::empty(),
            trigger: 0,
            restore: 0,
            finished: false,
            breaker: CircuitBreaker::Closed,
            config,
            origin,
        }
    }

    /// The source has sent and received nothing and may pull.
    pub open spec fn fresh(self) -> bool {
        self == SourceState::initial(self.config, self.origin)
    }

    /// After one more unit was sent under `pull_id`.
    pub open spec fn pulled(self, pull_id: u64) -> SourceState {
        SourceState {
            num_sent: self.num_sent + 1,
            last_sent: if pull_id > self.last_sent {
                pull_id
            } else {
                self.last_sent
            },
            ..self
        }
    }

    /// After the end of the stream was reported.
    pub open spec fn ended(self) -> SourceState {
        SourceState { finished: true, ..self }
    }

    /// After `pull_id` was acknowledged.
    pub open spec fn acked(self, pull_id: u64) -> SourceState {
        SourceState { acks: self.acks.push(pull_id), ..self }
    }

    /// After `pull_id` failed.
    pub open spec fn failed(self, pull_id: u64) -> SourceState {
        SourceState { fails: self.fails.push(pull_id), ..self }
    }

    /// After the circuit breaker was triggered: pulling is suspended.
    pub open spec fn closed(self) -> SourceState {
        SourceState { trigger: self.trigger + 1, breaker: CircuitBreaker::Open, ..self }
    }

    /// After the circuit breaker was restored: pulling is permitted.
    pub open spec fn opened(self) -> SourceState {
        SourceState { restore: self.restore + 1, breaker: CircuitBreaker::Closed, ..self }
    }

    /// Whether the source may pull.
    pub open spec fn may_pull(self) -> bool {
        self.breaker.spec_may_pull()
    }

    /// The number of acknowledgments and failures together.
    pub open spec fn count(self) -> nat {
        self.acks.len() + self.fails.len()
    }

    /// Everything that is expected has come back. Unbatched, one callback
    /// is expected for each unit sent. Batched, only the highest pull sent
    /// has to be the highest one that came back.
    pub open spec fn all_received(self) -> bool {
        if self.config.expect_batched {
            is_max(self.acks + self.fails, self.last_sent)
        } else {
            self.count() == self.num_sent
        }
    }

    /// The stream has ended and everything that is expected has come back.
    pub open spec fn complete(self) -> bool {
        self.finished && self.all_received()
    }

    /// What the source reports when it finishes in this state.
    pub open spec fn completion(self) -> Completion {
        Completion {
            all_received: self.complete(),
            last_sent: self.last_sent,
            shutdown: ShutdownMode::Graceful,
        }
    }

    /// Whether a finishing source has to wait first.
    pub open spec fn must_drain(self) -> bool {
        self.config.timeout > 0 && !self.complete()
    }
}

/// The reference source.
#[derive(Debug)]
pub struct CbSource {
    num_sent: usize,
    last_sent: u64,
    received_cbs: ReceivedCbs,
    finished: bool,
    breaker: CircuitBreaker,
    config: Config,
    origin_uri: EventOriginUri,
}

impl View for CbSource {
    type V = SourceState;

    closed spec fn view(&self) -> SourceState {
        SourceState {
            num_sent: self.num_sent as nat,
            last_sent: self.last_sent,
            acks: self.received_cbs.ack@,
            fails: self.received_cbs.fail@,
            trigger: self.received_cbs.trigger as nat,
            restore: self.received_cbs.restore as nat,
            finished: self.finished,
            breaker: self.breaker,
            config: self.config@,
            origin: self.origin_uri@,
        }
    }
}

impl CbSource {
    /// The counters are within what the machine can hold.
    pub open spec fn wf(&self) -> bool {
        &&& self@.num_sent <= usize::MAX
        &&& self@.count() <= usize::MAX
        &&& self@.trigger <= u64::MAX
        &&& self@.restore <= u64::MAX
    }

    /// A source for the connector `alias`, running on `host`, that has
    /// sent and received nothing. It needs a path to read from.
    pub fn new(config: &Config, alias: &str, host: String) -> (r: Result<CbSource, ConnectorError>)
        ensures
            match r {
                Ok(source) => {
                    &&& config@.path is Some
                    &&& source.wf()
                    &&& source@ == SourceState::initial(
                        config@,
                        OriginView::of("tremor-cb"@, host@),
                    )
                },
                Err(e) => {
                    &&& config@.path is None
                    &&& e.is_invalid_definition(alias@, "Missing path key."@)
                },
            },
    {
        if config.path.is_some() {
            let source = CbSource {
                num_sent: 0,
                last_sent: 0,
                received_cbs: ReceivedCbs::default(),
                finished: false,
                breaker: CircuitBreaker::new(),
                config: config.clone(),
                origin_uri: EventOriginUri::new("tremor-cb".to_owned(), host),
            };
            assert(source@.acks =~= Seq::<u64>::empty());
            assert(source@.fails =~= Seq::<u64>::empty());
            Ok(source)
        } else {
            Err(
                ConnectorError::InvalidConnectorDefinition(
                    alias.to_owned(),
                    "Missing path key.".to_owned(),
                ),
            )
        }
    }

    /// Whether the stream has ended and everything expected has come back.
    pub fn did_receive_all(&self) -> (r: bool)
        requires
            self.wf(),
        ensures
            r == self@.complete(),
    {
        let all_received = if self.config.expect_batched {
            match self.received_cbs.max() {
                Some(m) => {
                    proof {
                        let all = self.received_cbs.ack@ + self.received_cbs.fail@;
                        if is_max(all, self.last_sent) {
                            let i = all.lemma_contains_to_index(self.last_sent);
                            let j = all.lemma_contains_to_index(m);
                            assert(all[i] <= m && all[j] <= self.last_sent);
                        }
                    }
                    m == self.last_sent
                },
                None => {
                    assert((self.received_cbs.ack@ + self.received_cbs.fail@).len() == 0);
                    false
                },
            }
        } else {
            self.received_cbs.count() == self.num_sent
        };
        self.finished && all_received
    }

    /// What the source reports when it finishes now.
    pub fn finish(&self) -> (c: Completion)
        requires
            self.wf(),
        ensures
            c == self@.completion(),
    {
        Completion {
            all_received: self.did_receive_all(),
            last_sent: self.last_sent,
            shutdown: ShutdownMode::Graceful,
        }
    }

    /// Takes what the last read gave and says what to do next.
    ///
    /// A line is sent as data on the default stream and counted. A line
    /// that could not be read is an error and sends nothing, so the
    /// bookkeeping stays as it was. When the file has run out, the end of
    /// the stream is reported once. After that the source finishes: at once where no
    /// timeout is set or everything has come back, and else after a wait.
    pub fn pull_data(&mut self, pull_id: u64, input: Input) -> (r: Result<Pull, SourceError>)
        requires
            old(self).wf(),
            input is Line ==> old(self)@.num_sent < usize::MAX,
        ensures
            final(self).wf(),
            match input {
                Input::Line(bytes) => {
                    &&& final(self)@ == old(self)@.pulled(pull_id)
                    &&& r matches Ok(Pull::Reply(reply)) && is_data(
                        reply,
                        old(self)@.origin,
                        bytes,
                    )
                },
                Input::Failed => {
                    &&& final(self)@ == old(self)@
                    &&& r == Err::<Pull, SourceError>(SourceError::Read)
                },
                Input::Exhausted => if !old(self)@.finished {
                    &&& final(self)@ == old(self)@.ended()
                    &&& r matches Ok(Pull::Reply(reply)) && is_end_of_stream(
                        reply,
                        old(self)@.origin,
                    )
                } else {
                    &&& final(self)@ == old(self)@
                    &&& r == Ok::<Pull, SourceError>(
                        if old(self)@.must_drain() {
                            Pull::Drain(old(self)@.config.timeout)
                        } else {
                            Pull::Finished(old(self)@.completion())
                        },
                    )
                },
            },
    {
        match input {
            Input::Line(bytes) => {
                self.num_sent += 1;
                if pull_id > self.last_sent {
                    self.last_sent = pull_id;
                }
                Ok(
                    Pull::Reply(
                        SourceReply::Data {
                            origin_uri: self.origin_uri.clone(),
                            data: bytes,
                            meta: None,
                            stream: Some(DEFAULT_STREAM_ID),
                            port: None,
                            codec_overwrite: None,
                        },
                    ),
                )
            },
            Input::Failed => Err(SourceError::Read),
            Input::Exhausted => {
                if self.finished {
                    if self.config.timeout > 0 && !self.did_receive_all() {
                        Ok(Pull::Drain(self.config.timeout))
                    } else {
                        Ok(Pull::Finished(self.finish()))
                    }
                } else {
                    self.finished = true;
                    Ok(
                        Pull::Reply(
                            SourceReply::EndStream {
                                origin_uri: self.origin_uri.clone(),
                                stream: DEFAULT_STREAM_ID,
                                meta: None,
                            },
                        ),
                    )
                }
            },
        }
    }

    /// The circuit breaker was triggered: the source counts it and may not
    /// pull until the breaker is restored.
    pub fn on_cb_close(&mut self)
        requires
            old(self).wf(),
            old(self)@.trigger < u64::MAX,
        ensures
            final(self).wf(),
            final(self)@ == old(self)@.closed(),
    {
        self.received_cbs.trigger += 1;
        self.breaker = CircuitBreaker::Open;
    }

    /// The circuit breaker was restored: the source counts it and may pull
    /// again.
    pub fn on_cb_open(&mut self)
        requires
            old(self).wf(),
            old(self)@.restore < u64::MAX,
        ensures
            final(self).wf(),
            final(self)@ == old(self)@.opened(),
    {
        self.received_cbs.restore += 1;
        self.breaker = CircuitBreaker::Closed;
    }

    /// The event of `pull_id` was delivered. Recorded also where
    /// it was recorded before.
    pub fn ack(&mut self, stream_id: u64, pull_id: u64)
        requires
            old(self).wf(),
            old(self)@.count() < usize::MAX,
        ensures
            final(self).wf(),
            final(self)@ == old(self)@.acked(pull_id),
    {
        self.received_cbs.ack.push(pull_id);
    }

    /// The event of `pull_id` could not be delivered. Recorded also where
    /// it was recorded before.
    pub fn fail(&mut self, stream_id: u64, pull_id: u64)
        requires
            old(self).wf(),
            old(self)@.count() < usize::MAX,
        ensures
            final(self).wf(),
            final(self)@ == old(self)@.failed(pull_id),
    {
        self.received_cbs.fail.push(pull_id);
    }

    /// Every unit that this source emits is to be acknowledged or failed.
    pub fn is_transactional(&self) -> (r: bool)
        ensures
            r,
    {
        true
    }

    /// This source need not wait for one unit's acknowledgment before it
    /// emits the next.
    pub fn asynchronous(&self) -> (r: bool)
        ensures
            !r,
    {
        false
    }

    /// What has come back so far.
    pub fn received_cbs(&self) -> (r: &ReceivedCbs)
        ensures
            r.ack@ == self@.acks,
            r.fail@ == self@.fails,
            r.trigger == self@.trigger,
            r.restore == self@.restore,
    {
        &self.received_cbs
    }

    /// How many units were sent.
    pub fn num_sent(&self) -> (n: usize)
        ensures
            n == self@.num_sent,
    {
        self.num_sent
    }

    /// The highest pull that was sent.
    pub fn last_sent(&self) -> (n: u64)
        ensures
            n == self@.last_sent,
    {
        self.last_sent
    }

    /// Whether the end of the stream was reported.
    pub fn finished(&self) -> (b: bool)
        ensures
            b == self@.finished,
    {
        self.finished
    }

    /// The circuit breaker of the source.
    pub fn breaker(&self) -> (b: CircuitBreaker)
        ensures
            b == self@.breaker,
    {
        self.breaker
    }

    /// Whether the source may pull.
    pub fn may_pull(&self) -> (ok: bool)
        ensures
            ok == self@.may_pull(),
    {
        self.breaker.may_pull()
    }

    /// Where the events of the source come from.
    pub fn origin_uri(&self) -> (uri: &EventOriginUri)
        ensures
            uri@ == self@.origin,
    {
        &self.origin_uri
    }

    /// The configuration that the source was made with.
    pub fn config(&self) -> (c: &Config)
        ensures
            c@ == self@.config,
    {
        &self.config
    }
}

} // verus!
