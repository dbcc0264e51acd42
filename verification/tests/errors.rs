use pnml::PetriError;

#[test]
fn descriptions_name_the_kind_of_error() {
    assert_eq!(
        PetriError::BipartitionViolation.description(),
        "Bipartition Violation: Edges cannot lead to identical Node types. They are only allowed from places to transitions or vice versa"
    );
    assert_eq!(
        PetriError::PlaceNotFound.description(),
        "Place Not Found: There is no corresponding place in the internal representation"
    );
    assert_eq!(
        PetriError::TransitionNotFound.description(),
        "Transition Not Found: There is no corresponding transition in the internal representation"
    );
    assert_eq!(
        PetriError::ObjectNotFound.description(),
        "Object Not Found: There is no corresponding object in the internal representation"
    );
    assert_eq!(
        PetriError::PageNotFound.description(),
        "Page Not Found: Could not find (sub)page in the given path"
    );
    assert_eq!(
        PetriError::NetNotFound.description(),
        "Net Not Found: There is no net with the given index"
    );
    assert_eq!(
        PetriError::InvalidData(String::from("x")).description(),
        "Invalid Data: Tried to use data in a place where it do not belong"
    );
    assert_eq!(
        PetriError::CorruptedData(String::from("x")).description(),
        "Corrupted Data: There where objects in arrays there they shouldn't be"
    );
}

#[test]
fn messages_add_the_detail() {
    assert_eq!(
        PetriError::PageNotFound.message(),
        "Page Not Found: Could not find (sub)page in the given path"
    );
    assert_eq!(
        PetriError::InvalidData(String::from("transitions cannot have a marking")).message(),
        "Invalid Data: Tried to use data in a place where it do not belong: transitions cannot have a marking"
    );
    assert_eq!(
        PetriError::CorruptedData(String::from("Invalid PageRef: Stack was empty")).message(),
        "Corrupted Data: There where objects in arrays there they shouldn't be: Invalid PageRef: Stack was empty"
    );
}

#[test]
fn writer_failures_are_carried_along() {
    let failure = xml::writer::Error::LastElementNameNotAvailable;
    let text = failure.to_string();
    let error = PetriError::from(failure);
    assert!(matches!(error, PetriError::XmlWriterError(_)));
    assert_eq!(error.description(), text);
    assert_eq!(error.message(), text);
}
