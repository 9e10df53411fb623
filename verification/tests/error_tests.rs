use qser::error::{ConfigError, Error, ErrorKind};
use qser::modifier::{Modifier, ModifierKind};

#[test]
fn error_kinds_are_told_apart() {
    assert_eq!(Error::configuration().kind, ErrorKind::Configuration);
    assert_eq!(Error::shape().kind, ErrorKind::Shape);
    assert_eq!(Error::completeness().kind, ErrorKind::Completeness);
    assert_ne!(Error::shape(), Error::completeness());
}

#[test]
fn error_description_is_the_same_for_every_kind() {
    assert_eq!(Error::shape().description(), "qser error");
    assert_eq!(Error::completeness().description(), "qser error");
    assert_eq!(Error::configuration().description(), "qser error");
}

#[test]
fn config_error_messages_name_the_kind() {
    let bad = ConfigError::BadModifier { kind: ModifierKind::Flatten };
    assert_eq!(bad.message(), "bad modifier: Flatten");
    let conflict = ConfigError::Conflict { kind: ModifierKind::Rename };
    assert_eq!(conflict.message(), "conflicting modifier: Rename");
    assert_eq!(ConfigError::InvalidCase.message(), "invalid case");
    assert_eq!(bad.to_error(), Error { kind: ErrorKind::Configuration });
}

#[test]
fn kind_name_of_each_kind_of_directive() {
    let some = |s: &str| Some(s.to_string());
    let text = |s: &str| s.to_string();
    let all = vec![
        (Modifier::Rename { serialize_name: some("a"), deserialize_name: some("a") }, "Rename"),
        (Modifier::RenameAll { serialize_case: None, deserialize_case: None }, "RenameAll"),
        (
            Modifier::RenameAllFields { serialize_case: None, deserialize_case: None },
            "RenameAllFields",
        ),
        (Modifier::DenyUnknownFields, "DenyUnknownFields"),
        (Modifier::TagInternal { field: text("t") }, "TagInternal"),
        (Modifier::TagAdjacent { tag: text("t"), content: text("c") }, "TagAdjacent"),
        (Modifier::Untagged, "Untagged"),
        (Modifier::Bound { serialize: None, deserialize: None }, "Bound"),
        (Modifier::Default { item: None }, "Default"),
        (Modifier::Remote { item: text("r") }, "Remote"),
        (Modifier::Transparent, "Transparent"),
        (Modifier::From { item: text("f") }, "From"),
        (Modifier::TryFrom { item: text("f") }, "TryFrom"),
        (Modifier::Into { item: text("f") }, "Into"),
        (Modifier::Crate { path: text("p") }, "Crate"),
        (Modifier::Expecting { expectation: text("e") }, "Expecting"),
        (Modifier::VariantIdentifier, "VariantIdentifier"),
        (Modifier::FieldIdentifier, "FieldIdentifier"),
        (Modifier::Alias { name: text("n") }, "Alias"),
        (Modifier::Skip, "Skip"),
        (Modifier::SkipSerializing, "SkipSerializing"),
        (Modifier::SkipDeserializing, "SkipDeserializing"),
        (Modifier::SerializeWith { imp: text("i") }, "SerializeWith"),
        (Modifier::DeserializeWith { imp: text("i") }, "DeserializeWith"),
        (Modifier::With { imp: text("i") }, "With"),
        (Modifier::Borrow { li: None }, "Borrow"),
        (Modifier::Other, "Other"),
        (Modifier::Flatten, "Flatten"),
        (Modifier::SkipSerializingIf { imp: text("i") }, "SkipSerializingIf"),
        (Modifier::Getter { item: text("g") }, "Getter"),
    ];
    assert_eq!(all.len(), 30);
    for (modifier, name) in all {
        assert_eq!(modifier.kind_name(), name);
        assert_eq!(modifier.kind().as_str(), name);
    }
}
