//! The error type of the library.
use vstd::prelude::*;
use vstd::string::StringExecFns;
use crate::emitter::writer_error_text;
use crate::model::PetriErrorView;

verus! {

/// Everything an operation of this library can fail with. All of them are
/// recoverable: the document is left as it was.
#[derive(Debug)]
pub enum PetriError {
    /// Arc endpoints share the same node kind.
    BipartitionViolation,
    /// Kept for lookups by kind; no operation reports it.
    PlaceNotFound,
    /// Kept for lookups by kind; no operation reports it.
    TransitionNotFound,
    /// An index in a page handle's path is out of range.
    PageNotFound,
    /// An index does not address an object of the page.
    ObjectNotFound,
    /// A net handle's index is out of range.
    NetNotFound,
    /// The operation does not apply to the addressed kind of object.
    InvalidData(String),
    /// A structural invariant of the tree is broken.
    CorruptedData(String),
    /// The XML writer failed.
    XmlWriterError(xml::writer::Error),
}

impl View for PetriError {
    type V = PetriErrorView;

    open spec fn view(&self) -> PetriErrorView {
        match self {
            PetriError::BipartitionViolation => PetriErrorView::BipartitionViolation,
            PetriError::PlaceNotFound => PetriErrorView::PlaceNotFound,
            PetriError::TransitionNotFound => PetriErrorView::TransitionNotFound,
            PetriError::PageNotFound => PetriErrorView::PageNotFound,
            PetriError::ObjectNotFound => PetriErrorView::ObjectNotFound,
            PetriError::NetNotFound => PetriErrorView::NetNotFound,
            PetriError::InvalidData(detail) => PetriErrorView::InvalidData(detail@),
            PetriError::CorruptedData(detail) => PetriErrorView::CorruptedData(detail@),
            PetriError::XmlWriterError(_) => PetriErrorView::XmlWriterError,
        }
    }
}

/// The fixed text that describes each kind of error; empty for a writer
/// failure, whose text comes from the writer.
pub open spec fn description_of(e: PetriErrorView) -> Seq<char> {
    match e {
        PetriErrorView::BipartitionViolation =>
            "Bipartition Violation: Edges cannot lead to identical Node types. They are only allowed from places to transitions or vice versa"@,
        PetriErrorView::PlaceNotFound =>
            "Place Not Found: There is no corresponding place in the internal representation"@,
        PetriErrorView::TransitionNotFound =>
            "Transition Not Found: There is no corresponding transition in the internal representation"@,
        PetriErrorView::ObjectNotFound =>
            "Object Not Found: There is no corresponding object in the internal representation"@,
        PetriErrorView::PageNotFound => "Page Not Found: Could not find (sub)page in the given path"@,
        PetriErrorView::NetNotFound => "Net Not Found: There is no net with the given index"@,
        PetriErrorView::InvalidData(_) =>
            "Invalid Data: Tried to use data in a place where it do not belong"@,
        PetriErrorView::CorruptedData(_) =>
            "Corrupted Data: There where objects in arrays there they shouldn't be"@,
        PetriErrorView::XmlWriterError => Seq::empty(),
    }
}

/// The full message of an error: its description, followed by a colon, a
/// space and the detail where the error carries one.
pub open spec fn message_of(e: PetriErrorView) -> Seq<char> {
    match e {
        PetriErrorView::InvalidData(detail) => description_of(e) + ": "@ + detail,
        PetriErrorView::CorruptedData(detail) => description_of(e) + ": "@ + detail,
        _ => description_of(e),
    }
}

impl PetriError {
    /// Describes the kind of error, without its detail.
    pub fn description(&self) -> (text: String)
        ensures
            !(self is XmlWriterError) ==> text@ == description_of(self@),
    {
        match self {
            PetriError::BipartitionViolation => String::from_str(
                "Bipartition Violation: Edges cannot lead to identical Node types. They are only allowed from places to transitions or vice versa",
            ),
            PetriError::PlaceNotFound => String::from_str(
                "Place Not Found: There is no corresponding place in the internal representation",
            ),
            PetriError::TransitionNotFound => String::from_str(
                "Transition Not Found: There is no corresponding transition in the internal representation",
            ),
            PetriError::ObjectNotFound => String::from_str(
                "Object Not Found: There is no corresponding object in the internal representation",
            ),
            PetriError::PageNotFound => String::from_str(
                "Page Not Found: Could not find (sub)page in the given path",
            ),
            PetriError::NetNotFound => String::from_str(
                "Net Not Found: There is no net with the given index",
            ),
            PetriError::InvalidData(_) => String::from_str(
                "Invalid Data: Tried to use data in a place where it do not belong",
            ),
            PetriError::CorruptedData(_) => String::from_str(
                "Corrupted Data: There where objects in arrays there they shouldn't be",
            ),
            PetriError::XmlWriterError(error) => writer_error_text(error),
        }
    }

    /// The message to show for this error.
    pub fn message(&self) -> (text: String)
        ensures
            !(self is XmlWriterError) ==> text@ == message_of(self@),
    {
        let mut text = self.description();
        match self {
            PetriError::InvalidData(detail) => {
                text.append(": ");
                text.append(detail.as_str());
            },
            PetriError::CorruptedData(detail) => {
                text.append(": ");
                text.append(detail.as_str());
            },
            _ => {},
        }
        text
    }
}

impl From<xml::writer::Error> for PetriError {
    fn from(error: xml::writer::Error) -> (e: PetriError) {
        PetriError::XmlWriterError(error)
    }
}

impl vstd::std_specs::convert::FromSpecImpl<xml::writer::Error> for PetriError {
    open spec fn obeys_from_spec() -> bool {
        true
    }

    open spec fn from_spec(error: xml::writer::Error) -> PetriError {
        PetriError::XmlWriterError(error)
    }
}

} // verus!
