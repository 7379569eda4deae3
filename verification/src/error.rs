//! The service's error type.
use vstd::prelude::*;

verus! {

/// An error of the configuration service; each variant carries its message.
#[derive(Debug)]
pub enum Error {
    /// A plugin could not be found, parsed or reached.
    Plugin(String),
    /// The state could not be read or changed as asked.
    State(String),
    /// A path is locked by another plugin.
    Lock(String),
    /// A document could not be decoded.
    Decode(String),
}

/// The model of an error: its variant and message.
pub enum ErrorV {
    Plugin(Seq<char>),
    State(Seq<char>),
    Lock(Seq<char>),
    Decode(Seq<char>),
}

impl View for Error {
    type V = ErrorV;

    open spec fn view(&self) -> ErrorV {
        match self {
            Error::Plugin(s) => ErrorV::Plugin(s@),
            Error::State(s) => ErrorV::State(s@),
            Error::Lock(s) => ErrorV::Lock(s@),
            Error::Decode(s) => ErrorV::Decode(s@),
        }
    }
}

} // verus!
