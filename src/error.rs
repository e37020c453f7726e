//! The library's error type.

use vstd::prelude::*;

verus! {

/// std's I/O error, carried through unchanged.
#[verifier::external_type_specification]
#[verifier::external_body]
pub struct ExIoError(std::io::Error);

/// What can go wrong while collecting and summarising the reports.
#[derive(Debug)]
pub enum WrError {
    /// Reading or writing a file failed.
    IoError(std::io::Error),
    /// The mail server refused a request.
    ImapError(String),
    /// The search expression could not be built.
    QueryError(String),
    /// The configuration could not be read.
    ConfigError(String),
    /// The statistics could not be serialised.
    SerializationError(String),
    /// The dashboard server failed.
    ServerError(String),
    /// A fetched message lacks a mandatory field or holds a malformed one.
    MailParseError(String),
}

impl WrError {
    /// The label that a message about this kind of error starts with.
    pub open spec fn label(&self) -> Seq<char> {
        match self {
            WrError::IoError(_) => "IO error: "@,
            WrError::ImapError(_) => "IMAP error: "@,
            WrError::QueryError(_) => "Query error: "@,
            WrError::ConfigError(_) => "Config error: "@,
            WrError::SerializationError(_) => "Serialization error: "@,
            WrError::ServerError(_) => "Server error: "@,
            WrError::MailParseError(_) => "Mail parse error: "@,
        }
    }

    /// The detail carried by every kind but an I/O error.
    pub open spec fn detail(&self) -> Option<Seq<char>> {
        match self {
            WrError::IoError(_) => None,
            WrError::ImapError(s) => Some(s@),
            WrError::QueryError(s) => Some(s@),
            WrError::ConfigError(s) => Some(s@),
            WrError::SerializationError(s) => Some(s@),
            WrError::ServerError(s) => Some(s@),
            WrError::MailParseError(s) => Some(s@),
        }
    }

    /// A one-line description: the kind's label, then its detail.
    pub fn message(&self) -> (r: String)
        ensures
            r@.len() >= self.label().len(),
            r@.subrange(0, self.label().len() as int) == self.label(),
            self.detail() matches Some(d) ==> r@ == self.label() + d,
    {
        let (label, detail): (&str, String) = match self {
            WrError::IoError(e) => ("IO error: ", e.to_string()),
            WrError::ImapError(s) => ("IMAP error: ", s.clone()),
            WrError::QueryError(s) => ("Query error: ", s.clone()),
            WrError::ConfigError(s) => ("Config error: ", s.clone()),
            WrError::SerializationError(s) => ("Serialization error: ", s.clone()),
            WrError::ServerError(s) => ("Server error: ", s.clone()),
            WrError::MailParseError(s) => ("Mail parse error: ", s.clone()),
        };
        let r = String::from_str(label).concat(detail.as_str());
        assert(r@.subrange(0, self.label().len() as int) =~= self.label());
        r
    }
}

impl From<std::io::Error> for WrError {
    fn from(error: std::io::Error) -> (r: Self)
        ensures
            r == WrError::IoError(error),
    {
        WrError::IoError(error)
    }
}

impl vstd::std_specs::convert::FromSpecImpl<std::io::Error> for WrError {
    open spec fn obeys_from_spec() -> bool {
        true
    }

    open spec fn from_spec(v: std::io::Error) -> Self {
        WrError::IoError(v)
    }
}

} // verus!
