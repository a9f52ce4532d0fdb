//! Why a connector could not be set up.

use vstd::prelude::*;
use crate::config::ConfigError;

verus! {

/// A fault found while a connector is built, before any pull.
#[derive(Debug, PartialEq, Eq)]
pub enum ConnectorError {
    /// The connector named here was given no configuration.
    MissingConfiguration(String),
    /// The configuration of the connector named here was turned down.
    InvalidConfiguration(String, ConfigError),
    /// The connector named here cannot work as defined, for the reason
    /// given.
    InvalidConnectorDefinition(String, String),
}

impl ConnectorError {
    /// The error says that the connector `alias` was given no configuration.
    pub open spec fn is_missing_configuration(self, alias: Seq<char>) -> bool {
        match self {
            ConnectorError::MissingConfiguration(a) => a@ == alias,
            _ => false,
        }
    }

    /// The error says that the configuration of the connector `alias` was
    /// turned down for `cause`.
    pub open spec fn is_invalid_configuration(self, alias: Seq<char>, cause: ConfigError) -> bool {
        match self {
            ConnectorError::InvalidConfiguration(a, c) => a@ == alias && c == cause,
            _ => false,
        }
    }

    /// The error says that the connector `alias` cannot work, for `reason`.
    pub open spec fn is_invalid_definition(self, alias: Seq<char>, reason: Seq<char>) -> bool {
        match self {
            ConnectorError::InvalidConnectorDefinition(a, r) => a@ == alias && r@ == reason,
            _ => false,
        }
    }
}

} // verus!
