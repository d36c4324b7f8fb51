//! The error values of the crate and the text each one is reported with.

use vstd::prelude::*;
use vstd::string::StringExecFns;

verus! {

/// A failure of the exchange with the remote store.
#[derive(Debug)]
pub enum SupabaseError {
    /// The request did not reach the store or no answer came back.
    Http(String),
    /// A record could not be written as, or read from, its wire form.
    Serde(String),
    /// No answer came in time.
    Timeout,
    /// A setting that the client needs is missing.
    Config(String),
    /// The store answered with a failure status.
    Api(String),
    /// Anything else.
    Other(String),
}

/// A failure anywhere in the application.
#[derive(Debug)]
pub enum SynapseError {
    /// Reading or writing a file failed.
    Io(String),
    /// The local store refused an operation.
    Db(String),
    /// A record could not be written as, or read from, its stored form.
    Serde(String),
    /// The clock gave an instant that lies before one it gave earlier.
    Time(String),
    /// The configuration is missing or malformed.
    Config(String),
    /// A probe of the operating system failed.
    Platform(String),
    /// Anything else.
    Other(String),
    /// The exchange with the remote store failed.
    Supabase(SupabaseError),
}

/// The text of the clock error: the instant asked about lies after the one
/// it is measured from.
pub open spec fn clock_error_text() -> Seq<char> {
    "second time provided was later than self"@
}

impl SupabaseError {
    /// The text with which the error is reported.
    pub open spec fn text(self) -> Seq<char> {
        match self {
            SupabaseError::Http(detail) => "HTTP error: "@ + detail@,
            SupabaseError::Serde(detail) => "Serialization error: "@ + detail@,
            SupabaseError::Timeout => "Timeout occurred"@,
            SupabaseError::Config(detail) => "Configuration error: "@ + detail@,
            SupabaseError::Api(detail) => "API error: "@ + detail@,
            SupabaseError::Other(detail) => "Other error: "@ + detail@,
        }
    }

    /// The text with which the error is reported.
    pub fn message(&self) -> (text: String)
        ensures
            text@ == self.text(),
    {
        match self {
            SupabaseError::Http(detail) => String::from_str("HTTP error: ").concat(detail.as_str()),
            SupabaseError::Serde(detail) => String::from_str("Serialization error: ").concat(
                detail.as_str(),
            ),
            SupabaseError::Timeout => String::from_str("Timeout occurred"),
            SupabaseError::Config(detail) => String::from_str("Configuration error: ").concat(
                detail.as_str(),
            ),
            SupabaseError::Api(detail) => String::from_str("API error: ").concat(detail.as_str()),
            SupabaseError::Other(detail) => String::from_str("Other error: ").concat(
                detail.as_str(),
            ),
        }
    }
}

impl SynapseError {
    /// The text with which the error is reported.
    pub open spec fn text(self) -> Seq<char> {
        match self {
            SynapseError::Io(detail) => "IO error: "@ + detail@,
            SynapseError::Db(detail) => "Database error: "@ + detail@,
            SynapseError::Serde(detail) => "Serialization error: "@ + detail@,
            SynapseError::Time(detail) => "Time error: "@ + detail@,
            SynapseError::Config(detail) => "Config error: "@ + detail@,
            SynapseError::Platform(detail) => "Platform error: "@ + detail@,
            SynapseError::Other(detail) => "Other error: "@ + detail@,
            SynapseError::Supabase(inner) => "Supabase error: "@ + inner.text(),
        }
    }

    /// The text with which the error is reported.
    pub fn message(&self) -> (text: String)
        ensures
            text@ == self.text(),
    {
        match self {
            SynapseError::Io(detail) => String::from_str("IO error: ").concat(detail.as_str()),
            SynapseError::Db(detail) => String::from_str("Database error: ").concat(
                detail.as_str(),
            ),
            SynapseError::Serde(detail) => String::from_str("Serialization error: ").concat(
                detail.as_str(),
            ),
            SynapseError::Time(detail) => String::from_str("Time error: ").concat(detail.as_str()),
            SynapseError::Config(detail) => String::from_str("Config error: ").concat(
                detail.as_str(),
            ),
            SynapseError::Platform(detail) => String::from_str("Platform error: ").concat(
                detail.as_str(),
            ),
            SynapseError::Other(detail) => String::from_str("Other error: ").concat(
                detail.as_str(),
            ),
            SynapseError::Supabase(inner) => {
                let inner_text = inner.message();
                String::from_str("Supabase error: ").concat(inner_text.as_str())
            },
        }
    }

    /// The error that wraps a failure of the remote exchange.
    pub fn from_supabase(inner: SupabaseError) -> (error: SynapseError)
        ensures
            error == SynapseError::Supabase(inner),
    {
        SynapseError::Supabase(inner)
    }

    /// The error for a clock that ran backwards.
    pub fn clock() -> (error: SynapseError)
        ensures
            error matches SynapseError::Time(detail) && detail@ == clock_error_text(),
    {
        SynapseError::Time(String::from_str("second time provided was later than self"))
    }
}

} // verus!
