//! The error taxonomy of the orchestrator, with its mathematical view.

use vstd::prelude::*;
use crate::artefact::{Endpoint, EndpointV};
use crate::loader::SourceKind;

verus! {

/// Every failure a management operation or the startup sequence can report.
#[derive(Debug)]
pub enum Error {
    /// A referenced artefact or servant id is absent.
    NotFound,
    /// A duplicate publish, or a link of an already linked binding.
    Conflict,
    /// An unpublish was blocked by live servants; carries their servant ids.
    InUse(Vec<String>),
    /// A binding references a missing or mismatched-kind endpoint.
    Validation(Endpoint),
    /// A multi-step link was aborted partway and rolled back.
    PartialFailure,
    /// A servant with the same identity is already running.
    AlreadyRunning,
    /// A servant could not be constructed from its definition.
    Construction,
    /// A startup source file failed to apply; carries the file path.
    FileLoad(String),
    /// A startup source file is in a dialect not valid for its load phase;
    /// carries the file path and the dialect that was recognized.
    UnsupportedFileType(String, SourceKind),
}

/// Mathematical view of an [`Error`].
#[verifier::ext_equal]
pub enum ErrorV {
    NotFound,
    Conflict,
    InUse(Seq<Seq<char>>),
    Validation(EndpointV),
    PartialFailure,
    AlreadyRunning,
    Construction,
    FileLoad(Seq<char>),
    UnsupportedFileType(Seq<char>, SourceKind),
}

impl View for Error {
    type V = ErrorV;

    open spec fn view(&self) -> ErrorV {
        match self {
            Error::NotFound => ErrorV::NotFound,
            Error::Conflict => ErrorV::Conflict,
            Error::InUse(sids) => ErrorV::InUse(sids.deep_view()),
            Error::Validation(ep) => ErrorV::Validation(ep@),
            Error::PartialFailure => ErrorV::PartialFailure,
            Error::AlreadyRunning => ErrorV::AlreadyRunning,
            Error::Construction => ErrorV::Construction,
            Error::FileLoad(path) => ErrorV::FileLoad(path@),
            Error::UnsupportedFileType(path, kind) => ErrorV::UnsupportedFileType(path@, *kind),
        }
    }
}

} // verus!
