use vstd::prelude::*;

verus! {

/// System startup phases.
#[derive(Debug, Clone, PartialEq, Eq, Structural)]
pub enum LaunchStage {
    ConfigLoad,
    ConfigParse,
    ConfigResolve,
}

/// Runtime error marker.
#[derive(Debug, Clone, PartialEq, Eq, Structural)]
pub struct RuntimeError {}

/// Decoding failed: the payload is not a well-formed response document.
/// Decoding is all-or-nothing, so no partial response accompanies this value.
#[derive(Debug, Clone, PartialEq, Eq, Structural)]
pub struct DecodeError {}

/// The terminal error taxonomy of one fetch call.  Exactly one of these is
/// returned per failed call; none is retried internally.
#[derive(Debug, Clone, PartialEq)]
pub enum FetchError {
    /// The request parameters are malformed; rejected before any transport work.
    UriConstruction,
    /// The transport reported a connection, DNS or TLS failure.
    Transport(String),
    /// The timer won the race against the transport.
    Timeout,
    /// A body arrived but does not decode into a response document.
    Decode,
}

/// Error categories raised during startup.
#[derive(Debug, Clone, PartialEq)]
pub enum ErrorKind {
    Launch(LaunchStage),
    ConfigLoad(String),
}

impl From<LaunchStage> for ErrorKind {
    /// A startup phase that failed maps to the `Launch` category.
    fn from(v: LaunchStage) -> (r: Self)
        ensures
            r == ErrorKind::Launch(v),
    {
        ErrorKind::Launch(v)
    }
}

impl vstd::std_specs::convert::FromSpecImpl<LaunchStage> for ErrorKind {
    open spec fn obeys_from_spec() -> bool {
        true
    }

    open spec fn from_spec(v: LaunchStage) -> Self {
        ErrorKind::Launch(v)
    }
}

} // verus!
