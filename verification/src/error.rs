use vstd::prelude::*;
use vstd::string::*;

verus! {

/// Failures of a data source.
#[derive(Debug)]
pub enum SourceError {
    Connection(String),
    Comm(String),
    Protocol(String),
    Timeout(String),
    Write(String),
    NotConnected,
}

impl SourceError {
    /// The text that describes this error.
    pub open spec fn text(&self) -> Seq<char> {
        match self {
            SourceError::Connection(s) => "Connection failed: "@ + s@,
            SourceError::Comm(s) => "Communication error: "@ + s@,
            SourceError::Protocol(s) => "Protocol error: "@ + s@,
            SourceError::Timeout(s) => "Timeout: "@ + s@,
            SourceError::Write(s) => "Write failed: "@ + s@,
            SourceError::NotConnected => "Not connected"@,
        }
    }

    /// The text that describes this error.
    pub fn message(&self) -> (r: String)
        ensures
            r@ == self.text(),
    {
        match self {
            SourceError::Connection(s) => String::from_str("Connection failed: ").concat(s.as_str()),
            SourceError::Comm(s) => String::from_str("Communication error: ").concat(s.as_str()),
            SourceError::Protocol(s) => String::from_str("Protocol error: ").concat(s.as_str()),
            SourceError::Timeout(s) => String::from_str("Timeout: ").concat(s.as_str()),
            SourceError::Write(s) => String::from_str("Write failed: ").concat(s.as_str()),
            SourceError::NotConnected => String::from_str("Not connected"),
        }
    }
}

impl Clone for SourceError {
    /// The same error.
    fn clone(&self) -> (r: Self)
        ensures
            r == *self,
    {
        match self {
            SourceError::Connection(s) => SourceError::Connection(s.clone()),
            SourceError::Comm(s) => SourceError::Comm(s.clone()),
            SourceError::Protocol(s) => SourceError::Protocol(s.clone()),
            SourceError::Timeout(s) => SourceError::Timeout(s.clone()),
            SourceError::Write(s) => SourceError::Write(s.clone()),
            SourceError::NotConnected => SourceError::NotConnected,
        }
    }
}

/// Failures reported to the front end.
#[derive(Debug)]
pub enum IpcError {
    NotFound(String),
    Validation(String),
    Runtime(String),
    Internal(String),
}

impl IpcError {
    /// The text that describes this error.
    pub open spec fn text(&self) -> Seq<char> {
        match self {
            IpcError::NotFound(s) => "Not found: "@ + s@,
            IpcError::Validation(s) => "Validation error: "@ + s@,
            IpcError::Runtime(s) => "Runtime error: "@ + s@,
            IpcError::Internal(s) => "Internal error: "@ + s@,
        }
    }

    /// The text that describes this error.
    pub fn message(&self) -> (r: String)
        ensures
            r@ == self.text(),
    {
        match self {
            IpcError::NotFound(s) => String::from_str("Not found: ").concat(s.as_str()),
            IpcError::Validation(s) => String::from_str("Validation error: ").concat(s.as_str()),
            IpcError::Runtime(s) => String::from_str("Runtime error: ").concat(s.as_str()),
            IpcError::Internal(s) => String::from_str("Internal error: ").concat(s.as_str()),
        }
    }
}

} // verus!
