//! Errors that the decoder reports.

use vstd::prelude::*;
use vstd::string::StringExecFns;

verus! {

/// A line that does not follow the grammar of a code with bracketed groups.
#[derive(Debug, PartialEq, Eq)]
pub struct DecodeError {
    /// The offending line.
    pub line: String,
}

impl DecodeError {
    /// The error for `line`.
    pub fn new(line: &str) -> (e: DecodeError)
        ensures
            e.line@ == line@,
    {
        DecodeError { line: line.to_owned() }
    }

    /// A sentence for a log.
    pub fn message(&self) -> (m: String)
        ensures
            m@ == "Invalid string '"@ + self.line@ + "'"@,
    {
        String::from_str("Invalid string '").concat(self.line.as_str()).concat("'")
    }
}

/// The serial line gave no more bytes: the session is over.
#[derive(Debug, Clone, Copy, PartialEq, Eq, Structural)]
pub struct StreamClosed;

impl StreamClosed {
    /// A sentence for a log.
    pub fn message(&self) -> (m: String)
        ensures
            m@ == "While reading from serial port"@,
    {
        String::from_str("While reading from serial port")
    }
}

/// What is wrong with a table of OBIS codes.
#[derive(Debug, PartialEq, Eq)]
pub enum ConfigError {
    /// A record that does not have exactly four fields.
    WrongFieldCount {
        /// The record.
        line: String,
    },
    /// A record whose third field names no value type.
    UnknownType {
        /// The third field.
        token: String,
    },
}

/// A [`ConfigError`] with its texts as character sequences.
pub enum ConfigErrorModel {
    /// A record that does not have exactly four fields.
    WrongFieldCount {
        /// The record.
        line: Seq<char>,
    },
    /// A record whose third field names no value type.
    UnknownType {
        /// The third field.
        token: Seq<char>,
    },
}

impl View for ConfigError {
    type V = ConfigErrorModel;

    open spec fn view(&self) -> ConfigErrorModel {
        match self {
            ConfigError::WrongFieldCount { line } => ConfigErrorModel::WrongFieldCount {
                line: line@,
            },
            ConfigError::UnknownType { token } => ConfigErrorModel::UnknownType { token: token@ },
        }
    }
}

impl ConfigError {
    /// A sentence for a log.
    pub fn message(&self) -> (m: String)
        ensures
            m@ == match self@ {
                ConfigErrorModel::WrongFieldCount { line } => "wrong OBIS code definition '"@
                    + line + "'"@,
                ConfigErrorModel::UnknownType { token } => "cannot parse "@ + token
                    + " into a type"@,
            },
    {
        match self {
            ConfigError::WrongFieldCount { line } => String::from_str(
                "wrong OBIS code definition '",
            ).concat(line.as_str()).concat("'"),
            ConfigError::UnknownType { token } => String::from_str("cannot parse ").concat(
                token.as_str(),
            ).concat(" into a type"),
        }
    }
}

} // verus!
