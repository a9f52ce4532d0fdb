//! The configuration of the reference connector.

use vstd::prelude::*;
use crate::value::Value;
use crate::value::lookup;

verus! {

/// The drain timeout that holds where none is configured: ten seconds, in
/// nanoseconds.
pub const DEFAULT_TIMEOUT: u64 = 10_000_000_000;

/// Ten seconds, in nanoseconds.
pub fn default_timeout() -> (t: u64)
    ensures
        t == DEFAULT_TIMEOUT,
{
    DEFAULT_TIMEOUT
}

/// The default of a switch that is off unless configured.
pub fn default_false() -> (b: bool)
    ensures
        !b,
{
    false
}

/// Why a raw configuration was turned down.
#[derive(Clone, Copy, Debug, PartialEq, Eq, Structural)]
pub enum ConfigError {
    /// The configuration is no object.
    NotAnObject,
    /// The configuration has a field that is none of `path`, `timeout`,
    /// `expect_batched`.
    UnknownField,
    /// `path` is neither a string nor null.
    InvalidPath,
    /// `timeout` is no integer, or a negative one.
    InvalidTimeout,
    /// `expect_batched` is no boolean.
    InvalidExpectBatched,
}

/// What the reference connector is configured with.
#[derive(Debug)]
pub struct Config {
    /// The file to load data from.
    pub path: Option<String>,
    /// How long to wait for outstanding acknowledgments when the data has
    /// run out, in nanoseconds. Zero means no wait.
    pub timeout: u64,
    /// Expect only the last event of a run to be acknowledged.
    pub expect_batched: bool,
}

/// A configuration as plain data.
pub struct ConfigView {
    pub path: Option<Seq<char>>,
    pub timeout: u64,
    pub expect_batched: bool,
}

impl View for Config {
    type V = ConfigView;

    open spec fn view(&self) -> ConfigView {
        ConfigView {
            path: match self.path {
                Some(p) => Some(p@),
                None => None,
            },
            timeout: self.timeout,
            expect_batched: self.expect_batched,
        }
    }
}

/// `name` is one of the fields that a configuration may have.
pub open spec fn known_field(name: Seq<char>) -> bool {
    name == "path"@ || name == "timeout"@ || name == "expect_batched"@
}

/// What the field `path` stands for.
pub open spec fn path_of(field: Option<Value>) -> Result<Option<Seq<char>>, ConfigError> {
    match field {
        None => Ok(None),
        Some(Value::Null) => Ok(None),
        Some(Value::Str(s)) => Ok(Some(s@)),
        Some(_) => Err(ConfigError::InvalidPath),
    }
}

/// What the field `timeout` stands for.
pub open spec fn timeout_of(field: Option<Value>) -> Result<u64, ConfigError> {
    match field {
        None => Ok(DEFAULT_TIMEOUT),
        Some(Value::Int(n)) => if n >= 0 {
            Ok(n as u64)
        } else {
            Err(ConfigError::InvalidTimeout)
        },
        Some(Value::Uint(n)) => Ok(n),
        Some(_) => Err(ConfigError::InvalidTimeout),
    }
}

/// What the field `expect_batched` stands for.
pub open spec fn expect_batched_of(field: Option<Value>) -> Result<bool, ConfigError> {
    match field {
        None => Ok(false),
        Some(Value::Bool(b)) => Ok(b),
        Some(_) => Err(ConfigError::InvalidExpectBatched),
    }
}

/// What a raw configuration stands for. It has to be an object with no
/// fields but the known ones; a field that is left out has its default. Of
/// several faults the first of this list is reported: an unknown field, then
/// `path`, `timeout`, `expect_batched`.
pub open spec fn parse_config(raw: Value) -> Result<ConfigView, ConfigError> {
    match raw {
        Value::Object(fields) => {
            if exists|i: int| 0 <= i < fields@.len() && !known_field(#[trigger] fields@[i].0@) {
                Err(ConfigError::UnknownField)
            } else {
                match path_of(lookup(fields@, "path"@)) {
                    Err(e) => Err(e),
                    Ok(path) => match timeout_of(lookup(fields@, "timeout"@)) {
                        Err(e) => Err(e),
                        Ok(timeout) => match expect_batched_of(lookup(fields@, "expect_batched"@)) {
                            Err(e) => Err(e),
                            Ok(expect_batched) => Ok(ConfigView { path, timeout, expect_batched }),
                        },
                    },
                }
            }
        },
        _ => Err(ConfigError::NotAnObject),
    }
}

/// Whether `name` is one of the fields that a configuration may have.
pub fn is_known_field(name: &String) -> (r: bool)
    ensures
        r == known_field(name@),
{
    let path = "path".to_owned();
    let timeout = "timeout".to_owned();
    let expect_batched = "expect_batched".to_owned();
    *name == path || *name == timeout || *name == expect_batched
}

impl Config {
    /// Reads a configuration from its raw form.
    pub fn new(raw: &Value) -> (r: Result<Config, ConfigError>)
        ensures
            match r {
                Ok(c) => parse_config(*raw) == Ok::<ConfigView, ConfigError>(c@),
                Err(e) => parse_config(*raw) == Err::<ConfigView, ConfigError>(e),
            },
    {
        match raw {
            Value::Object(fields) => {
                let mut i: usize = 0;
                while i < fields.len()
                    invariant
                        i <= fields.len(),
                        *raw == Value::Object(*fields),
                        forall|k: int| 0 <= k < i ==> known_field(#[trigger] fields@[k].0@),
                    decreases fields.len() - i,
                {
                    if !is_known_field(&fields[i].0) {
                        return Err(ConfigError::UnknownField);
                    }
                    i += 1;
                }
                let path = match raw.get("path") {
                    None => None,
                    Some(Value::Null) => None,
                    Some(Value::Str(s)) => Some(s.clone()),
                    Some(_) => {
                        return Err(ConfigError::InvalidPath);
                    },
                };
                let timeout: u64 = match raw.get("timeout") {
                    None => default_timeout(),
                    Some(Value::Int(n)) => {
                        if *n >= 0 {
                            *n as u64
                        } else {
                            return Err(ConfigError::InvalidTimeout);
                        }
                    },
                    Some(Value::Uint(n)) => *n,
                    Some(_) => {
                        return Err(ConfigError::InvalidTimeout);
                    },
                };
                let expect_batched = match raw.get("expect_batched") {
                    None => default_false(),
                    Some(Value::Bool(b)) => *b,
                    Some(_) => {
                        return Err(ConfigError::InvalidExpectBatched);
                    },
                };
                Ok(Config { path, timeout, expect_batched })
            },
            _ => Err(ConfigError::NotAnObject),
        }
    }
}

impl Clone for Config {
    fn clone(&self) -> (c: Config)
        ensures
            c@ == self@,
    {
        let path = match &self.path {
            Some(p) => Some(p.clone()),
            None => None,
        };
        Config { path, timeout: self.timeout, expect_batched: self.expect_batched }
    }
}

} // verus!
