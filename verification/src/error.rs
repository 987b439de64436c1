//! What can go wrong.

use vstd::prelude::*;

verus! {

#[derive(Debug)]
pub enum Error {
    /// A projection name that is not known.
    InvalidProjection(String),
    /// A mapped tensor that cannot be used, by its coordinate.
    UnsupportedTensor { coordinate: String, reason: String },
    /// Two tensors for one coordinate.
    DuplicateTensor(String),
    /// A coordinate without a tensor.
    MissingTensor(String),
    /// A model without a usable map of tensors.
    UnsupportedArchitecture(String),
    /// A model backend that failed, in its own words.
    Backend(String),
    /// A file that could not be read or written, in the system's words.
    Io(String),
    /// A text that is not the JSON it should be, in the reader's words.
    Json(String),
    /// A probe with nothing in a field that must hold something.
    EmptyProbeField { probe: String, field: &'static str },
    /// No probes at all.
    EmptyProbeSet,
    /// Two probes of one name.
    DuplicateProbe(String),
    /// An answer that has no token.
    EmptyAnswerToken { probe: String },
    /// An answer of several tokens where one is asked for.
    AmbiguousAnswerToken { probe: String, count: usize },
    /// Measurements that cannot be used.
    MeasurementMismatch(String),
    /// A search that cannot be run as asked.
    InvalidSearch(String),
    /// A search that was asked to stop.
    SearchCancelled,
    /// A checkpoint of another search.
    IncompatibleCheckpoint(String),
    /// A model that could not be brought back to its former state.
    RestorationFailed { operation: String, source: Box<Error> },
    /// A regular expression without a group to capture.
    MissingRegexCapture(String),
    /// A patch of a form that is not known.
    InvalidPatch(String),
    /// A coordinate that a patch names twice.
    DuplicateFlip(String),
    /// A row that the tensor does not have.
    RowOutOfBounds { coordinate: String, row: usize, rows: usize },
    /// A patch for another architecture.
    ArchitectureMismatch { expected: String, actual: String },
    /// Patches that cannot be composed.
    IncompatiblePatches(String),
}

/// An error with its texts as sequences of characters.
pub enum ErrorModel {
    InvalidProjection(Seq<char>),
    UnsupportedTensor { coordinate: Seq<char>, reason: Seq<char> },
    DuplicateTensor(Seq<char>),
    MissingTensor(Seq<char>),
    UnsupportedArchitecture(Seq<char>),
    Backend(Seq<char>),
    Io(Seq<char>),
    Json(Seq<char>),
    EmptyProbeField { probe: Seq<char>, field: Seq<char> },
    EmptyProbeSet,
    DuplicateProbe(Seq<char>),
    EmptyAnswerToken { probe: Seq<char> },
    AmbiguousAnswerToken { probe: Seq<char>, count: nat },
    MeasurementMismatch(Seq<char>),
    InvalidSearch(Seq<char>),
    SearchCancelled,
    IncompatibleCheckpoint(Seq<char>),
    RestorationFailed { operation: Seq<char>, source: Box<ErrorModel> },
    MissingRegexCapture(Seq<char>),
    InvalidPatch(Seq<char>),
    DuplicateFlip(Seq<char>),
    RowOutOfBounds { coordinate: Seq<char>, row: nat, rows: nat },
    ArchitectureMismatch { expected: Seq<char>, actual: Seq<char> },
    IncompatiblePatches(Seq<char>),
}

impl Error {
    pub open spec fn model(self) -> ErrorModel
        decreases self,
    {
        match self {
            Error::InvalidProjection(text) => ErrorModel::InvalidProjection(text@),
            Error::UnsupportedTensor { coordinate, reason } => ErrorModel::UnsupportedTensor {
                coordinate: coordinate@,
                reason: reason@,
            },
            Error::DuplicateTensor(text) => ErrorModel::DuplicateTensor(text@),
            Error::MissingTensor(text) => ErrorModel::MissingTensor(text@),
            Error::UnsupportedArchitecture(text) => ErrorModel::UnsupportedArchitecture(text@),
            Error::Backend(text) => ErrorModel::Backend(text@),
            Error::Io(text) => ErrorModel::Io(text@),
            Error::Json(text) => ErrorModel::Json(text@),
            Error::EmptyProbeField { probe, field } => ErrorModel::EmptyProbeField {
                probe: probe@,
                field: field@,
            },
            Error::EmptyProbeSet => ErrorModel::EmptyProbeSet,
            Error::DuplicateProbe(text) => ErrorModel::DuplicateProbe(text@),
            Error::EmptyAnswerToken { probe } => ErrorModel::EmptyAnswerToken { probe: probe@ },
            Error::AmbiguousAnswerToken { probe, count } => ErrorModel::AmbiguousAnswerToken {
                probe: probe@,
                count: count as nat,
            },
            Error::MeasurementMismatch(text) => ErrorModel::MeasurementMismatch(text@),
            Error::InvalidSearch(text) => ErrorModel::InvalidSearch(text@),
            Error::SearchCancelled => ErrorModel::SearchCancelled,
            Error::IncompatibleCheckpoint(text) => ErrorModel::IncompatibleCheckpoint(text@),
            Error::RestorationFailed { operation, source } => ErrorModel::RestorationFailed {
                operation: operation@,
                source: Box::new((*source).model()),
            },
            Error::MissingRegexCapture(text) => ErrorModel::MissingRegexCapture(text@),
            Error::InvalidPatch(text) => ErrorModel::InvalidPatch(text@),
            Error::DuplicateFlip(text) => ErrorModel::DuplicateFlip(text@),
            Error::RowOutOfBounds { coordinate, row, rows } => ErrorModel::RowOutOfBounds {
                coordinate: coordinate@,
                row: row as nat,
                rows: rows as nat,
            },
            Error::ArchitectureMismatch { expected, actual } => ErrorModel::ArchitectureMismatch {
                expected: expected@,
                actual: actual@,
            },
            Error::IncompatiblePatches(text) => ErrorModel::IncompatiblePatches(text@),
        }
    }
}

impl View for Error {
    type V = ErrorModel;

    open spec fn view(&self) -> ErrorModel {
        self.model()
    }
}

} // verus!
