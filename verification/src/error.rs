//! The error type shared by the library.

use vstd::prelude::*;
use vstd::string::StringExecFns;
use crate::text::owned;

verus! {

/// Every error the library reports; each carries its message.
#[derive(Debug, PartialEq, Eq)]
pub enum VaultError {
    /// The configuration file could not be read: its path and the reason.
    ConfigRead(String, String),
    ConfigParse(String),
    Validation(String),
    InvalidInput(String),
    InvalidFormat(String),
    NotFound(String),
    AlreadyExists(String),
    PolicyViolation(String),
    Io(String),
    Parse(String),
    Serialization(String),
    Deserialization(String),
    Config(String),
    Crypto(String),
    Generic(String),
}

impl VaultError {
    /// The message carried by the error (for `ConfigRead`, the reason).
    pub open spec fn msg(self) -> Seq<char> {
        match self {
            VaultError::ConfigRead(_, m) => m@,
            VaultError::ConfigParse(m) => m@,
            VaultError::Validation(m) => m@,
            VaultError::InvalidInput(m) => m@,
            VaultError::InvalidFormat(m) => m@,
            VaultError::NotFound(m) => m@,
            VaultError::AlreadyExists(m) => m@,
            VaultError::PolicyViolation(m) => m@,
            VaultError::Io(m) => m@,
            VaultError::Parse(m) => m@,
            VaultError::Serialization(m) => m@,
            VaultError::Deserialization(m) => m@,
            VaultError::Config(m) => m@,
            VaultError::Crypto(m) => m@,
            VaultError::Generic(m) => m@,
        }
    }

    /// The text shown for the error: the configuration errors say what they
    /// concern, every other error is shown as its message.
    pub open spec fn shown(self) -> Seq<char> {
        match self {
            VaultError::ConfigRead(path, reason) => "Failed to read config file '"@ + path@ + "': "@ + reason@,
            VaultError::ConfigParse(m) => "Failed to parse config TOML: "@ + m@,
            VaultError::Validation(m) => "Config validation error: "@ + m@,
            _ => self.msg(),
        }
    }

    /// The text shown for the error (see `shown`).
    pub fn message(&self) -> (r: String)
        ensures
            r@ == self.shown(),
    {
        match self {
            VaultError::ConfigRead(path, reason) => String::from_str("Failed to read config file '").concat(
                path.as_str(),
            ).concat("': ").concat(reason.as_str()),
            VaultError::ConfigParse(m) => String::from_str("Failed to parse config TOML: ").concat(m.as_str()),
            VaultError::Validation(m) => String::from_str("Config validation error: ").concat(m.as_str()),
            VaultError::InvalidInput(m) => owned(m.as_str()),
            VaultError::InvalidFormat(m) => owned(m.as_str()),
            VaultError::NotFound(m) => owned(m.as_str()),
            VaultError::AlreadyExists(m) => owned(m.as_str()),
            VaultError::PolicyViolation(m) => owned(m.as_str()),
            VaultError::Io(m) => owned(m.as_str()),
            VaultError::Parse(m) => owned(m.as_str()),
            VaultError::Serialization(m) => owned(m.as_str()),
            VaultError::Deserialization(m) => owned(m.as_str()),
            VaultError::Config(m) => owned(m.as_str()),
            VaultError::Crypto(m) => owned(m.as_str()),
            VaultError::Generic(m) => owned(m.as_str()),
        }
    }
}

} // verus!
