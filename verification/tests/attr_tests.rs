use qser::attr::{
    attr_enum_opts, attr_field_opts, attr_modifiers, attr_struct_opts, attr_variant_opts,
    is_directive_attr, kind_is_flag, kind_of, modifier_from, name_of_field, name_of_variant,
    parse_modifier, wire_name, Attr, AttrError, MetaItem, MetaValue,
};
use qser::case::Case;
use qser::error::ConfigError;
use qser::modifier::{Modifier, ModifierKind};
use qser::opts::{FieldOpts, TagStyle, VariantOpts};

fn flag(name: &str) -> MetaItem {
    MetaItem { name: name.to_string(), value: MetaValue::Absent }
}

fn item(name: &str, literal: &str) -> MetaItem {
    MetaItem { name: name.to_string(), value: MetaValue::Text(literal.to_string()) }
}

fn other(name: &str) -> MetaItem {
    MetaItem { name: name.to_string(), value: MetaValue::Other }
}

fn serde(items: Vec<MetaItem>) -> Attr {
    Attr { path: "serde".to_string(), items }
}

fn text(s: &str) -> String {
    s.to_string()
}

#[test]
fn parse_modifier_takes_the_text_of_a_string_literal() {
    let m = parse_modifier(&item("rename", "wire")).unwrap();
    assert_eq!(
        m,
        Modifier::Rename { serialize_name: Some(text("wire")), deserialize_name: Some(text("wire")) }
    );
    let m = parse_modifier(&item("remote", "a\"b\n")).unwrap();
    assert_eq!(m, Modifier::Remote { item: text("a\"b\n") });
    let m = parse_modifier(&item("alias", "")).unwrap();
    assert_eq!(m, Modifier::Alias { name: text("") });
}

#[test]
fn parse_modifier_reads_every_kind() {
    let v = "v";
    let some = || Some(text("v"));
    let cases = vec![
        (item("rename", v), Modifier::Rename { serialize_name: some(), deserialize_name: some() }),
        (
            item("rename_all", v),
            Modifier::RenameAll { serialize_case: some(), deserialize_case: some() },
        ),
        (
            item("rename_all_fields", v),
            Modifier::RenameAllFields { serialize_case: some(), deserialize_case: some() },
        ),
        (flag("deny_unknown_fields"), Modifier::DenyUnknownFields),
        (item("tag", v), Modifier::TagInternal { field: text("v") }),
        (flag("untagged"), Modifier::Untagged),
        (item("bound", v), Modifier::Bound { serialize: some(), deserialize: some() }),
        (flag("default"), Modifier::Default { item: None }),
        (item("default", v), Modifier::Default { item: some() }),
        (item("remote", v), Modifier::Remote { item: text("v") }),
        (flag("transparent"), Modifier::Transparent),
        (item("from", v), Modifier::From { item: text("v") }),
        (item("try_from", v), Modifier::TryFrom { item: text("v") }),
        (item("into", v), Modifier::Into { item: text("v") }),
        (item("crate", v), Modifier::Crate { path: text("v") }),
        (item("expecting", v), Modifier::Expecting { expectation: text("v") }),
        (flag("variant_identifier"), Modifier::VariantIdentifier),
        (flag("field_identifier"), Modifier::FieldIdentifier),
        (item("alias", v), Modifier::Alias { name: text("v") }),
        (flag("skip"), Modifier::Skip),
        (flag("skip_serializing"), Modifier::SkipSerializing),
        (flag("skip_deserializing"), Modifier::SkipDeserializing),
        (item("serialize_with", v), Modifier::SerializeWith { imp: text("v") }),
        (item("deserialize_with", v), Modifier::DeserializeWith { imp: text("v") }),
        (item("with", v), Modifier::With { imp: text("v") }),
        (flag("borrow"), Modifier::Borrow { li: None }),
        (item("borrow", v), Modifier::Borrow { li: some() }),
        (flag("other"), Modifier::Other),
        (flag("flatten"), Modifier::Flatten),
        (item("skip_serializing_if", v), Modifier::SkipSerializingIf { imp: text("v") }),
        (item("getter", v), Modifier::Getter { item: text("v") }),
    ];
    for (input, expected) in cases {
        assert_eq!(parse_modifier(&input), Ok(expected), "{:?}", input);
    }
}

#[test]
fn parse_modifier_errors() {
    assert_eq!(parse_modifier(&flag("renamed")), Err(AttrError::Unsupported));
    assert_eq!(parse_modifier(&item("a::b", "x")), Err(AttrError::Unsupported));
    assert_eq!(parse_modifier(&other("a::b")), Err(AttrError::Unsupported));
    assert_eq!(parse_modifier(&flag("")), Err(AttrError::Unsupported));
    assert_eq!(parse_modifier(&flag("rename")), Err(AttrError::MissingValue));
    assert_eq!(parse_modifier(&flag("tag")), Err(AttrError::MissingValue));
    assert_eq!(parse_modifier(&flag("content")), Err(AttrError::MissingValue));
    assert_eq!(parse_modifier(&other("rename")), Err(AttrError::NotAString));
    assert_eq!(parse_modifier(&other("default")), Err(AttrError::NotAString));
    assert_eq!(parse_modifier(&other("borrow")), Err(AttrError::NotAString));
    assert_eq!(parse_modifier(&other("content")), Err(AttrError::NotAString));
    assert_eq!(parse_modifier(&item("skip", "x")), Err(AttrError::UnexpectedValue));
    assert_eq!(parse_modifier(&other("flatten")), Err(AttrError::UnexpectedValue));
    assert_eq!(parse_modifier(&item("content", "c")), Err(AttrError::ContentWithoutTag));
}

#[test]
fn modifier_from_builds_from_the_text() {
    assert_eq!(
        modifier_from(ModifierKind::TagInternal, Some(text("t"))),
        Ok(Modifier::TagInternal { field: text("t") })
    );
    assert_eq!(modifier_from(ModifierKind::TagInternal, None), Err(AttrError::MissingValue));
    assert_eq!(modifier_from(ModifierKind::Skip, None), Ok(Modifier::Skip));
    assert_eq!(
        modifier_from(ModifierKind::Skip, Some(text("x"))),
        Err(AttrError::UnexpectedValue)
    );
    assert_eq!(
        modifier_from(ModifierKind::TagAdjacent, Some(text("c"))),
        Err(AttrError::ContentWithoutTag)
    );
    assert_eq!(modifier_from(ModifierKind::Default, None), Ok(Modifier::Default { item: None }));
}

#[test]
fn kind_of_names() {
    assert_eq!(kind_of("content"), Some(ModifierKind::TagAdjacent));
    assert_eq!(kind_of("tag"), Some(ModifierKind::TagInternal));
    assert_eq!(kind_of("skip_serializing_if"), Some(ModifierKind::SkipSerializingIf));
    assert_eq!(kind_of("Skip"), None);
    assert!(kind_is_flag(ModifierKind::Flatten));
    assert!(!kind_is_flag(ModifierKind::Default));
    assert!(!kind_is_flag(ModifierKind::Rename));
    assert!(is_directive_attr("serde"));
    assert!(!is_directive_attr("doc"));
    assert!(!is_directive_attr("serde "));
}

#[test]
fn attr_modifiers_reads_the_directive_attributes_in_order() {
    let attrs = vec![
        Attr { path: text("doc"), items: vec![flag("not looked at"), other("rename")] },
        serde(vec![item("rename", "a"), flag("transparent")]),
        Attr { path: text("derive"), items: vec![flag("Debug")] },
        serde(vec![]),
        serde(vec![item("into", "T")]),
    ];
    assert_eq!(
        attr_modifiers(&attrs),
        Ok(vec![
            Modifier::Rename { serialize_name: Some(text("a")), deserialize_name: Some(text("a")) },
            Modifier::Transparent,
            Modifier::Into { item: text("T") },
        ])
    );
    assert_eq!(attr_modifiers(&[]), Ok(vec![]));
}

#[test]
fn attr_modifiers_joins_tag_and_content() {
    let attrs = vec![serde(vec![item("tag", "t"), item("content", "c")])];
    assert_eq!(
        attr_modifiers(&attrs),
        Ok(vec![Modifier::TagAdjacent { tag: text("t"), content: text("c") }])
    );
    let split = vec![serde(vec![item("tag", "t")]), serde(vec![item("content", "c")])];
    assert_eq!(
        attr_modifiers(&split),
        Ok(vec![Modifier::TagAdjacent { tag: text("t"), content: text("c") }])
    );
    let alone = vec![serde(vec![item("tag", "t")])];
    assert_eq!(attr_modifiers(&alone), Ok(vec![Modifier::TagInternal { field: text("t") }]));
    let apart = vec![serde(vec![item("tag", "t"), flag("untagged"), item("content", "c")])];
    assert_eq!(attr_modifiers(&apart), Err(AttrError::ContentWithoutTag));
    let first = vec![serde(vec![item("content", "c"), item("tag", "t")])];
    assert_eq!(attr_modifiers(&first), Err(AttrError::ContentWithoutTag));
    let twice = vec![serde(vec![
        item("tag", "t"),
        item("content", "c"),
        item("content", "d"),
    ])];
    assert_eq!(attr_modifiers(&twice), Err(AttrError::ContentWithoutTag));
    let bad = vec![serde(vec![item("tag", "t"), other("content")])];
    assert_eq!(attr_modifiers(&bad), Err(AttrError::NotAString));
}

#[test]
fn attr_modifiers_stops_at_the_first_error() {
    let attrs = vec![
        serde(vec![flag("skip"), flag("bogus"), flag("rename")]),
        serde(vec![item("skip", "x")]),
    ];
    assert_eq!(attr_modifiers(&attrs), Err(AttrError::Unsupported));
    let attrs = vec![serde(vec![flag("skip")]), serde(vec![flag("rename"), flag("bogus")])];
    assert_eq!(attr_modifiers(&attrs), Err(AttrError::MissingValue));
}

#[test]
fn attr_opts_resolve_the_attributes() {
    let attrs = vec![serde(vec![
        item("rename", "Wire"),
        item("rename_all", "kebab-case"),
        item("tag", "kind"),
        item("content", "data"),
    ])];
    let c = attr_struct_opts(&attrs).unwrap();
    assert_eq!(c.rename, Some(text("Wire")));
    assert_eq!(c.rename_all, Some(Case::KebabCase));
    assert_eq!(c.tag_style, TagStyle::Adjacent { tag: text("kind"), content: text("data") });
    assert_eq!(attr_enum_opts(&attrs), Ok(c));
    let v = attr_variant_opts(&[serde(vec![flag("other"), item("rename", "o")])]).unwrap();
    assert!(v.other);
    assert_eq!(v.rename, Some(text("o")));
    let f = attr_field_opts(&[serde(vec![flag("flatten"), flag("default")])]).unwrap();
    assert!(f.flatten);
    assert!(f.default.on);
    assert_eq!(attr_field_opts(&[]), Ok(FieldOpts::default()));
    assert_eq!(attr_variant_opts(&[]), Ok(VariantOpts::default()));
}

#[test]
fn attr_opts_errors() {
    assert_eq!(
        attr_struct_opts(&[serde(vec![flag("flatten")])]),
        Err(AttrError::Config(ConfigError::BadModifier { kind: ModifierKind::Flatten }))
    );
    assert_eq!(
        attr_field_opts(&[serde(vec![flag("transparent")])]),
        Err(AttrError::Config(ConfigError::BadModifier { kind: ModifierKind::Transparent }))
    );
    assert_eq!(
        attr_variant_opts(&[serde(vec![item("rename_all", "nope")])]),
        Err(AttrError::Config(ConfigError::InvalidCase))
    );
    assert_eq!(attr_enum_opts(&[serde(vec![flag("what")])]), Err(AttrError::Unsupported));
    assert_eq!(
        attr_field_opts(&[serde(vec![other("rename")])]),
        Err(AttrError::NotAString)
    );
}

#[test]
fn wire_names() {
    let mut f = FieldOpts::default();
    assert_eq!(name_of_field("user_id", &f), "user_id");
    f.rename = Some(text("id"));
    assert_eq!(name_of_field("user_id", &f), "id");
    let mut v = VariantOpts::default();
    assert_eq!(name_of_variant("Circle", &v), "Circle");
    v.rename = Some(text("circle"));
    assert_eq!(name_of_variant("Circle", &v), "circle");
    assert_eq!(wire_name("user_id", &None, &None), "user_id");
    assert_eq!(wire_name("user_id", &None, &Some(Case::CamelCase)), "userId");
    assert_eq!(wire_name("user_id", &Some(text("ID")), &Some(Case::CamelCase)), "ID");
    assert_eq!(wire_name("RedApple", &None, &Some(Case::ScreamingSnakeCase)), "RED_APPLE");
}
