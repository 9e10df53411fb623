use qser::case::Case;
use qser::error::ConfigError;
use qser::modifier::{Modifier, ModifierKind};
use qser::opts::{
    bad_modifier, apply_all, ContainerOpts, DefaultValue, FieldOpts, OptionSet, Skip, TagStyle,
    VariantOpts, With,
};

fn rename(name: &str) -> Modifier {
    Modifier::Rename {
        serialize_name: Some(name.to_string()),
        deserialize_name: Some(name.to_string()),
    }
}

fn rename_all(name: &str) -> Modifier {
    Modifier::RenameAll {
        serialize_case: Some(name.to_string()),
        deserialize_case: Some(name.to_string()),
    }
}

#[test]
fn defaults_hold_nothing() {
    let c = ContainerOpts::default();
    assert_eq!(c.rename, None);
    assert_eq!(c.rename_all, None);
    assert_eq!(c.tag_style, TagStyle::External);
    assert_eq!(c.default, DefaultValue { on: false, path: None });
    assert_eq!(c.remote, None);
    assert!(!c.transparent);
    assert_eq!(c.from, None);
    assert_eq!(c.try_from, None);
    assert_eq!(c.into, None);
    let v = VariantOpts::default();
    assert_eq!(v.rename, None);
    assert_eq!(v.rename_all, None);
    assert_eq!(v.skip, Skip { serializing: false, serializing_if: None, deserializing: false });
    assert_eq!(v.with, With { module: None, serialize_fn: None, deserialize_fn: None });
    assert!(!v.other);
    assert!(!v.untagged);
    let f = FieldOpts::default();
    assert_eq!(f.rename, None);
    assert_eq!(f.default, DefaultValue::default());
    assert!(!f.flatten);
    assert_eq!(f.skip, Skip::default());
    assert_eq!(f.with, With::default());
}

#[test]
fn container_takes_its_directives() {
    let mut c = ContainerOpts::default();
    let ms = vec![
        rename("Renamed"),
        rename_all("camelCase"),
        Modifier::TagInternal { field: "type".to_string() },
        Modifier::Default { item: Some("make".to_string()) },
        Modifier::Remote { item: "other::Type".to_string() },
        Modifier::Transparent,
        Modifier::From { item: "A".to_string() },
        Modifier::TryFrom { item: "B".to_string() },
        Modifier::Into { item: "C".to_string() },
    ];
    assert_eq!(c.apply_modifiers(&ms), Ok(()));
    assert_eq!(c.rename, Some("Renamed".to_string()));
    assert_eq!(c.rename_all, Some(Case::CamelCase));
    assert_eq!(c.tag_style, TagStyle::Internal { field: "type".to_string() });
    assert_eq!(c.default, DefaultValue { on: true, path: Some("make".to_string()) });
    assert_eq!(c.remote, Some("other::Type".to_string()));
    assert!(c.transparent);
    assert_eq!(c.from, Some("A".to_string()));
    assert_eq!(c.try_from, Some("B".to_string()));
    assert_eq!(c.into, Some("C".to_string()));
}

#[test]
fn empty_list_changes_nothing() {
    let mut c = ContainerOpts::default();
    assert_eq!(c.apply_modifiers(&[]), Ok(()));
    assert_eq!(c, ContainerOpts::default());
}

#[test]
fn last_rename_wins_behind_any_list() {
    let lists: Vec<Vec<Modifier>> = vec![
        vec![],
        vec![rename("a")],
        vec![rename("a"), rename("b"), Modifier::Transparent],
        vec![Modifier::Default { item: None }, rename("x"), rename_all("snake_case")],
    ];
    for list in lists {
        let mut before = ContainerOpts::default();
        assert_eq!(before.apply_modifiers(&list), Ok(()));
        let mut longer = list.clone();
        longer.push(rename("last"));
        let mut after = ContainerOpts::default();
        assert_eq!(after.apply_modifiers(&longer), Ok(()));
        assert_eq!(after.rename, Some("last".to_string()));
        before.rename = Some("last".to_string());
        assert_eq!(after, before);
    }
    let mut v = VariantOpts::default();
    assert_eq!(v.apply_modifiers(&[rename("a"), Modifier::Skip, rename("z")]), Ok(()));
    assert_eq!(v.rename, Some("z".to_string()));
    let mut f = FieldOpts::default();
    assert_eq!(f.apply_modifiers(&[rename("a"), Modifier::Flatten, rename("z")]), Ok(()));
    assert_eq!(f.rename, Some("z".to_string()));
}

#[test]
fn rename_without_names_changes_nothing() {
    let mut c = ContainerOpts::default();
    let none = Modifier::Rename { serialize_name: None, deserialize_name: None };
    assert_eq!(c.apply_modifiers(&[rename("a"), none]), Ok(()));
    assert_eq!(c.rename, Some("a".to_string()));
}

#[test]
fn rename_with_two_targets_is_a_conflict() {
    let split = Modifier::Rename {
        serialize_name: Some("a".to_string()),
        deserialize_name: Some("b".to_string()),
    };
    let half = Modifier::Rename { serialize_name: Some("a".to_string()), deserialize_name: None };
    let conflict = Err(ConfigError::Conflict { kind: ModifierKind::Rename });
    let mut c = ContainerOpts::default();
    assert_eq!(c.apply_modifiers(&[split.clone()]), conflict);
    assert_eq!(c, ContainerOpts::default());
    let mut v = VariantOpts::default();
    assert_eq!(v.apply_modifiers(&[half.clone()]), conflict);
    let mut f = FieldOpts::default();
    assert_eq!(f.apply_modifiers(&[split]), conflict);
    let cases = Modifier::RenameAll {
        serialize_case: Some("lowercase".to_string()),
        deserialize_case: Some("UPPERCASE".to_string()),
    };
    let mut c = ContainerOpts::default();
    assert_eq!(
        c.apply_modifiers(&[cases]),
        Err(ConfigError::Conflict { kind: ModifierKind::RenameAll })
    );
}

#[test]
fn unknown_case_name_fails_at_once() {
    let mut c = ContainerOpts::default();
    let ms = vec![rename("kept"), rename_all("Title Case"), rename("never")];
    assert_eq!(c.apply_modifiers(&ms), Err(ConfigError::InvalidCase));
    assert_eq!(c.rename, Some("kept".to_string()));
    assert_eq!(c.rename_all, None);
    let mut v = VariantOpts::default();
    assert_eq!(v.apply_modifiers(&[rename_all("nope")]), Err(ConfigError::InvalidCase));
}

#[test]
fn directive_that_is_illegal_for_the_node_names_its_kind() {
    let mut c = ContainerOpts::default();
    assert_eq!(
        c.apply_modifiers(&[Modifier::Transparent, Modifier::Flatten, Modifier::Untagged]),
        Err(ConfigError::BadModifier { kind: ModifierKind::Flatten })
    );
    assert!(c.transparent);
    assert_eq!(c.tag_style, TagStyle::External);
    let mut v = VariantOpts::default();
    assert_eq!(
        v.apply_modifiers(&[Modifier::Transparent]),
        Err(ConfigError::BadModifier { kind: ModifierKind::Transparent })
    );
    let mut f = FieldOpts::default();
    assert_eq!(
        f.apply_modifiers(&[Modifier::TagInternal { field: "t".to_string() }]),
        Err(ConfigError::BadModifier { kind: ModifierKind::TagInternal })
    );
    let mut f = FieldOpts::default();
    assert_eq!(
        f.apply_modifiers(&[rename_all("lowercase")]),
        Err(ConfigError::BadModifier { kind: ModifierKind::RenameAll })
    );
    for m in [
        Modifier::DenyUnknownFields,
        Modifier::RenameAllFields { serialize_case: None, deserialize_case: None },
        Modifier::Bound { serialize: None, deserialize: None },
        Modifier::Crate { path: "p".to_string() },
        Modifier::Expecting { expectation: "e".to_string() },
        Modifier::VariantIdentifier,
        Modifier::FieldIdentifier,
        Modifier::Alias { name: "n".to_string() },
        Modifier::Borrow { li: None },
        Modifier::Getter { item: "g".to_string() },
    ] {
        let kind = m.kind();
        let mut c = ContainerOpts::default();
        assert_eq!(c.apply_modifiers(&[m.clone()]), Err(ConfigError::BadModifier { kind }));
        let mut v = VariantOpts::default();
        assert_eq!(v.apply_modifiers(&[m.clone()]), Err(ConfigError::BadModifier { kind }));
        let mut f = FieldOpts::default();
        assert_eq!(f.apply_modifiers(&[m.clone()]), Err(ConfigError::BadModifier { kind }));
        assert_eq!(bad_modifier(&m), ConfigError::BadModifier { kind });
    }
}

#[test]
fn untagged_is_legal_on_a_container_only() {
    let mut v = VariantOpts::default();
    assert_eq!(
        v.apply_modifiers(&[Modifier::Untagged]),
        Err(ConfigError::BadModifier { kind: ModifierKind::Untagged })
    );
    assert_eq!(v, VariantOpts::default());
    let mut v = VariantOpts::default();
    assert_eq!(
        v.apply_modifiers(&[Modifier::Other, Modifier::Untagged, Modifier::Skip]),
        Err(ConfigError::BadModifier { kind: ModifierKind::Untagged })
    );
    assert!(v.other);
    assert!(!v.untagged);
    assert!(!v.skip.serializing);
    let mut f = FieldOpts::default();
    assert_eq!(
        f.apply_modifiers(&[Modifier::Untagged]),
        Err(ConfigError::BadModifier { kind: ModifierKind::Untagged })
    );
    let mut c = ContainerOpts::default();
    assert_eq!(c.apply_modifiers(&[Modifier::Untagged]), Ok(()));
    assert_eq!(c.tag_style, TagStyle::Untagged);
}

#[test]
fn last_tag_style_wins() {
    let internal = Modifier::TagInternal { field: "t".to_string() };
    let adjacent = Modifier::TagAdjacent { tag: "t".to_string(), content: "c".to_string() };
    let mut c = ContainerOpts::default();
    assert_eq!(c.apply_modifiers(&[rename("x")]), Ok(()));
    assert_eq!(c.tag_style, TagStyle::External);
    assert_eq!(c.apply_modifiers(&[internal.clone(), adjacent.clone(), Modifier::Untagged]), Ok(()));
    assert_eq!(c.tag_style, TagStyle::Untagged);
    assert_eq!(c.apply_modifiers(&[Modifier::Untagged, internal.clone()]), Ok(()));
    assert_eq!(c.tag_style, TagStyle::Internal { field: "t".to_string() });
    assert_eq!(c.apply_modifiers(&[adjacent]), Ok(()));
    assert_eq!(
        c.tag_style,
        TagStyle::Adjacent { tag: "t".to_string(), content: "c".to_string() }
    );
}

#[test]
fn composable_parts_collect_what_directives_say() {
    let mut f = FieldOpts::default();
    let ms = vec![
        Modifier::SkipSerializing,
        Modifier::SkipSerializingIf { imp: "Option::is_none".to_string() },
        Modifier::SerializeWith { imp: "ser".to_string() },
        Modifier::DeserializeWith { imp: "de".to_string() },
        Modifier::With { imp: "module".to_string() },
        Modifier::Default { item: None },
        Modifier::Flatten,
    ];
    assert_eq!(f.apply_modifiers(&ms), Ok(()));
    assert_eq!(
        f.skip,
        Skip {
            serializing: true,
            serializing_if: Some("Option::is_none".to_string()),
            deserializing: false
        }
    );
    assert_eq!(
        f.with,
        With {
            module: Some("module".to_string()),
            serialize_fn: Some("ser".to_string()),
            deserialize_fn: Some("de".to_string())
        }
    );
    assert_eq!(f.default, DefaultValue { on: true, path: None });
    assert!(f.flatten);
    let mut v = VariantOpts::default();
    assert_eq!(v.apply_modifiers(&[Modifier::SkipDeserializing, Modifier::Other]), Ok(()));
    assert_eq!(v.skip, Skip { serializing: false, serializing_if: None, deserializing: true });
    assert!(v.other);
    assert!(!v.untagged);
    let mut v = VariantOpts::default();
    assert_eq!(v.apply_modifiers(&[Modifier::Skip]), Ok(()));
    assert_eq!(v.skip, Skip { serializing: true, serializing_if: None, deserializing: true });
}

#[test]
fn try_apply_modifier_tells_whether_it_consumed() {
    let mut tag = TagStyle::External;
    assert_eq!(tag.try_apply_modifier(&Modifier::Untagged), Ok(true));
    assert_eq!(tag, TagStyle::Untagged);
    assert_eq!(tag.try_apply_modifier(&Modifier::Skip), Ok(false));
    assert_eq!(tag, TagStyle::Untagged);
    let mut d = DefaultValue::default();
    assert_eq!(d.try_apply_modifier(&Modifier::Flatten), Ok(false));
    assert_eq!(d, DefaultValue { on: false, path: None });
    assert_eq!(d.try_apply_modifier(&Modifier::Default { item: Some("p".to_string()) }), Ok(true));
    assert_eq!(d, DefaultValue { on: true, path: Some("p".to_string()) });
    let mut s = Skip::default();
    assert_eq!(s.try_apply_modifier(&Modifier::Default { item: None }), Ok(false));
    assert_eq!(s.try_apply_modifier(&Modifier::SkipSerializing), Ok(true));
    assert!(s.serializing && !s.deserializing);
    let mut w = With::default();
    assert_eq!(w.try_apply_modifier(&Modifier::Skip), Ok(false));
    assert_eq!(w.try_apply_modifier(&Modifier::With { imp: "m".to_string() }), Ok(true));
    assert_eq!(w.module, Some("m".to_string()));
}

#[test]
fn apply_modifier_leaves_the_options_on_refusal() {
    let mut c = ContainerOpts::default();
    assert_eq!(c.apply_modifier(&rename("a")), Ok(()));
    let before = c.clone();
    assert_eq!(
        c.apply_modifier(&Modifier::Other),
        Err(ConfigError::BadModifier { kind: ModifierKind::Other })
    );
    assert_eq!(c, before);
    let mut f = FieldOpts::default();
    assert_eq!(apply_all(&mut f, &[Modifier::Flatten, rename("k")]), Ok(()));
    assert!(f.flatten);
    assert_eq!(f.rename, Some("k".to_string()));
}
