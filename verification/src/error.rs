//! The crate's error type: a closed union of the failure kinds that the
//! retrieval engine can report.

use vstd::prelude::*;

verus! {

/// Every failure of the engine falls under one of these kinds.
/// The payload carries the cause's text.
#[derive(Debug)]
pub enum RagmcpError {
    /// Storage-engine failure.
    Database(String),
    /// Filesystem failure.
    Io(String),
    /// Configuration failure.
    Config(String),
    /// Embedding provider, network or dimension failure.
    Embedding(String),
    /// No document stored under the given path.
    DocumentNotFound(String),
    /// No chunk stored under the given identifier.
    ChunkNotFound(String),
    /// A document could not be parsed.
    Parse(String),
    /// A protocol request was malformed.
    Protocol(String),
    /// A search could not be executed.
    Search(String),
    /// A caller-supplied value was rejected.
    InvalidInput(String),
}

impl RagmcpError {
    /// Human-readable description, in the shape `<kind>: <cause>`.
    pub fn message(&self) -> (r: String)
        ensures
            r@.len() >= self.cause()@.len(),
    {
        let (label, cause): (&str, &String) = match self {
            RagmcpError::Database(s) => ("Database error: ", s),
            RagmcpError::Io(s) => ("IO error: ", s),
            RagmcpError::Config(s) => ("Configuration error: ", s),
            RagmcpError::Embedding(s) => ("Embedding API error: ", s),
            RagmcpError::DocumentNotFound(s) => ("Document not found: ", s),
            RagmcpError::ChunkNotFound(s) => ("Chunk not found: ", s),
            RagmcpError::Parse(s) => ("Parse error: ", s),
            RagmcpError::Protocol(s) => ("MCP protocol error: ", s),
            RagmcpError::Search(s) => ("Search error: ", s),
            RagmcpError::InvalidInput(s) => ("Invalid input: ", s),
        };
        let mut out = label.to_owned();
        out.append(cause.as_str());
        out
    }

    /// The cause text that the error carries.
    pub open spec fn cause(&self) -> String {
        match self {
            RagmcpError::Database(s) => *s,
            RagmcpError::Io(s) => *s,
            RagmcpError::Config(s) => *s,
            RagmcpError::Embedding(s) => *s,
            RagmcpError::DocumentNotFound(s) => *s,
            RagmcpError::ChunkNotFound(s) => *s,
            RagmcpError::Parse(s) => *s,
            RagmcpError::Protocol(s) => *s,
            RagmcpError::Search(s) => *s,
            RagmcpError::InvalidInput(s) => *s,
        }
    }
}

} // verus!
