//! The reference connector and its builder.

use vstd::prelude::*;
use crate::config::Config;
use crate::errors::ConnectorError;
use crate::origin::OriginView;
use crate::sink::CbSink;
use crate::source::CbSource;
use crate::source::SourceState;
use crate::value::Value;

verus! {

/// What a connector asks of the codec setting.
#[derive(Clone, Copy, Debug, PartialEq, Eq)]
pub enum CodecReq {
    /// The connector handles structured data and takes no codec.
    Structured,
    /// A codec has to be configured.
    Required,
    /// A codec may be configured; this one is used where none is.
    Optional(&'static str),
}

/// How a connector is declared.
#[derive(Debug)]
pub struct ConnectorConfig {
    /// The kind of connector.
    pub connector_type: String,
    /// The connector's own settings, in raw form.
    pub config: Option<Value>,
}

/// Builds connectors of the kind `cb`.
#[derive(Debug)]
pub struct Builder {}

impl Builder {
    pub fn new() -> Builder {
        Builder {  }
    }

    /// The kind of connector that this builds.
    pub fn connector_type(&self) -> (t: String)
        ensures
            t@ == "cb"@,
    {
        "cb".to_owned()
    }

    /// Builds the connector `alias` from its declaration. The declaration
    /// has to hold settings, and they have to be valid.
    pub fn build(&self, alias: &str, config: &ConnectorConfig) -> (r: Result<Cb, ConnectorError>)
        ensures
            match r {
                Ok(cb) => match config.config {
                    Some(raw) => crate::config::parse_config(raw) == Ok::<
                        crate::config::ConfigView,
                        crate::config::ConfigError,
                    >(cb.config@),
                    None => false,
                },
                Err(e) => match config.config {
                    Some(raw) => match crate::config::parse_config(raw) {
                        Err(cause) => e.is_invalid_configuration(alias@, cause),
                        Ok(_) => false,
                    },
                    None => e.is_missing_configuration(alias@),
                },
            },
    {
        match &config.config {
            Some(raw) => match Config::new(raw) {
                Ok(config) => Ok(Cb { config }),
                Err(cause) => Err(ConnectorError::InvalidConfiguration(alias.to_owned(), cause)),
            },
            None => Err(ConnectorError::MissingConfiguration(alias.to_owned())),
        }
    }
}

/// A connector for testing what a pipeline does with acknowledgments and
/// circuit-breaker events.
///
/// Its source takes events from a file and expects an acknowledgment or a
/// failure for each of them. Its sink answers each event as the field `cb`
/// of the event asks.
///
/// Where the pipeline drops an event, nothing comes back for it. Where the
/// pipeline branches and an event reaches two sinks, more than one callback
/// may come back for it.
#[derive(Debug)]
pub struct Cb {
    pub config: Config,
}

impl Cb {
    /// Data is decoded as JSON unless a codec is configured.
    pub fn codec_requirements(&self) -> (r: CodecReq)
        ensures
            r == CodecReq::Optional("json"),
    {
        CodecReq::Optional("json")
    }

    /// The source of the connector `alias`, running on `host`.
    pub fn create_source(&mut self, alias: &str, host: String) -> (r: Result<
        CbSource,
        ConnectorError,
    >)
        ensures
            *final(self) == *old(self),
            match r {
                Ok(source) => {
                    &&& old(self).config@.path is Some
                    &&& source.wf()
                    &&& source@ == SourceState::initial(
                        old(self).config@,
                        OriginView::of("tremor-cb"@, host@),
                    )
                },
                Err(e) => {
                    &&& old(self).config@.path is None
                    &&& e.is_invalid_definition(alias@, "Missing path key."@)
                },
            },
    {
        CbSource::new(&self.config, alias, host)
    }

    /// The sink of the connector.
    pub fn create_sink(&mut self) -> (sink: CbSink)
        ensures
            *final(self) == *old(self),
    {
        CbSink::new()
    }
}

} // verus!
