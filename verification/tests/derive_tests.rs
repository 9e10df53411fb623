use qser::attr::{Attr, AttrError, MetaItem, MetaValue};
use qser::error::ConfigError;
use qser::input::{
    plan_adapter, plan_enum, plan_struct, Adapter, Data, DeriveError, DeriveInput, FieldDecl,
    VariantDecl,
};
use qser::modifier::ModifierKind;

fn serde_item(name: &str, literal: Option<&str>) -> Attr {
    let value = match literal {
        Some(text) => MetaValue::Text(text.to_string()),
        None => MetaValue::Absent,
    };
    Attr { path: "serde".to_string(), items: vec![MetaItem { name: name.to_string(), value }] }
}

fn field(ident: &str, attrs: Vec<Attr>) -> FieldDecl {
    FieldDecl { ident: ident.to_string(), attrs }
}

fn variant(ident: &str, attrs: Vec<Attr>, unit: bool) -> VariantDecl {
    VariantDecl { ident: ident.to_string(), attrs, unit }
}

fn names(list: &[&str]) -> Vec<String> {
    list.iter().map(|s| s.to_string()).collect()
}

fn point() -> DeriveInput {
    DeriveInput {
        ident: "Point".to_string(),
        attrs: vec![],
        generics: false,
        where_clause: false,
        data: Data::Struct {
            fields: vec![
                field("x_pos", vec![]),
                field("y_pos", vec![serde_item("rename", Some("y"))]),
                field("label", vec![]),
            ],
        },
    }
}

fn shape() -> DeriveInput {
    DeriveInput {
        ident: "Shape".to_string(),
        attrs: vec![],
        generics: false,
        where_clause: false,
        data: Data::Enum {
            variants: vec![
                variant("RedCircle", vec![], true),
                variant("Square", vec![serde_item("rename", Some("box"))], true),
            ],
        },
    }
}

#[test]
fn derive_plans_a_struct() {
    let expected = Adapter::Struct { names: names(&["x_pos", "y", "label"]) };
    assert_eq!(qser::de::derive(&point()), Ok(expected.clone()));
    assert_eq!(qser::ser::derive(&point()), Ok(expected.clone()));
    assert_eq!(plan_adapter(&point()), Ok(expected.clone()));
    assert_eq!(expected.names(), names(&["x_pos", "y", "label"]).as_slice());
    let input = point();
    if let Data::Struct { fields } = &input.data {
        assert_eq!(qser::de::derive_struct(&input, fields), Ok(expected));
    } else {
        unreachable!();
    }
}

#[test]
fn derive_plans_an_enum() {
    let expected = Adapter::Enum { names: names(&["RedCircle", "box"]) };
    assert_eq!(qser::de::derive(&shape()), Ok(expected.clone()));
    assert_eq!(qser::ser::derive(&shape()), Ok(expected.clone()));
    let input = shape();
    if let Data::Enum { variants } = &input.data {
        assert_eq!(qser::de::derive_enum(&input, variants), Ok(expected));
    } else {
        unreachable!();
    }
}

#[test]
fn derive_applies_the_case_of_the_container() {
    let mut input = point();
    input.attrs = vec![serde_item("rename_all", Some("camelCase"))];
    assert_eq!(
        qser::de::derive(&input),
        Ok(Adapter::Struct { names: names(&["xPos", "y", "label"]) })
    );
    let mut input = shape();
    input.attrs = vec![serde_item("rename_all", Some("snake_case"))];
    assert_eq!(
        qser::ser::derive(&input),
        Ok(Adapter::Enum { names: names(&["red_circle", "box"]) })
    );
}

#[test]
fn derive_of_a_type_without_fields_or_variants() {
    let mut input = point();
    input.data = Data::Struct { fields: vec![] };
    assert_eq!(qser::de::derive(&input), Ok(Adapter::Struct { names: vec![] }));
    input.data = Data::Enum { variants: vec![] };
    assert_eq!(qser::de::derive(&input), Ok(Adapter::Enum { names: vec![] }));
}

#[test]
fn derive_refuses_other_shapes() {
    let mut input = point();
    input.data = Data::Other;
    assert_eq!(qser::de::derive(&input), Err(DeriveError::UnsupportedShape));
    assert_eq!(qser::ser::derive(&input), Err(DeriveError::UnsupportedShape));
}

#[test]
fn derive_refuses_an_enum_with_generics() {
    let mut input = shape();
    input.generics = true;
    assert_eq!(qser::de::derive(&input), Err(DeriveError::GenericEnum));
    let mut input = shape();
    input.where_clause = true;
    assert_eq!(qser::ser::derive(&input), Err(DeriveError::GenericEnum));
    assert!(input.is_generic());
    assert!(!shape().is_generic());
    let mut generic_struct = point();
    generic_struct.generics = true;
    assert!(qser::de::derive(&generic_struct).is_ok());
}

#[test]
fn derive_refuses_a_variant_with_fields() {
    let variants = vec![
        variant("A", vec![], true),
        variant("B", vec![serde_item("bogus", None)], false),
        variant("C", vec![], false),
    ];
    assert_eq!(plan_enum(false, &[], &variants), Err(DeriveError::InvalidVariant { index: 1 }));
    assert_eq!(plan_enum(true, &[], &variants), Err(DeriveError::GenericEnum));
}

#[test]
fn derive_gives_the_first_attribute_error() {
    let fields = vec![
        field("a", vec![]),
        field("b", vec![serde_item("transparent", None)]),
        field("c", vec![serde_item("bogus", None)]),
    ];
    assert_eq!(
        plan_struct(&[], &fields),
        Err(DeriveError::Attr(AttrError::Config(ConfigError::BadModifier {
            kind: ModifierKind::Transparent
        })))
    );
    assert_eq!(
        plan_struct(&[serde_item("flatten", None)], &fields),
        Err(DeriveError::Attr(AttrError::Config(ConfigError::BadModifier {
            kind: ModifierKind::Flatten
        })))
    );
    let variants = vec![variant("A", vec![serde_item("rename", None)], true)];
    assert_eq!(plan_enum(false, &[], &variants), Err(DeriveError::Attr(AttrError::MissingValue)));
}
