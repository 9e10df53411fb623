use qser::de::Visitor;
use qser::error::{Error, ErrorKind};
use qser::json::raw::{RawValue, TOKEN};
use qser::json::transcode::{round_trip, transcode};
use qser::json::value::{Array, Number, Object, Value};
use qser::place::Place;
use qser::ser::Fragment;

fn text(s: &str) -> String {
    s.to_string()
}

fn document() -> Value {
    let mut address = Object::new();
    address.insert(text("street"), Value::String(text("Main \"St\"")));
    address.insert(text("number"), Value::Number(Number::U64(12)));
    address.insert(text("floor"), Value::Number(Number::I64(-1)));
    let mut tags = Array::new();
    tags.push(Value::String(text("a")));
    tags.push(Value::Null);
    tags.push(Value::Array(Array::new()));
    tags.push(Value::Object(Object::new()));
    let mut o = Object::new();
    o.insert(text("name"), Value::String(text("Ada")));
    o.insert(text("address"), Value::Object(address));
    o.insert(text("tags"), Value::Array(tags));
    o.insert(text("active"), Value::Bool(true));
    o.insert(text(""), Value::Bool(false));
    Value::Object(o)
}

#[test]
fn value_visitor_takes_every_scalar() {
    let mut cell: Option<Value> = None;
    assert_eq!(Place::new(&mut cell).null(), Ok(()));
    assert_eq!(cell, Some(Value::Null));
    assert_eq!(Place::new(&mut cell).boolean(true), Ok(()));
    assert_eq!(cell, Some(Value::Bool(true)));
    assert_eq!(Place::new(&mut cell).string("s"), Ok(()));
    assert_eq!(cell, Some(Value::String(text("s"))));
    assert_eq!(Place::new(&mut cell).negative(-9), Ok(()));
    assert_eq!(cell, Some(Value::Number(Number::I64(-9))));
    assert_eq!(Place::new(&mut cell).nonnegative(9), Ok(()));
    assert_eq!(cell, Some(Value::Number(Number::U64(9))));
}

#[test]
fn array_builder_collects_the_items() {
    let mut cell: Option<Value> = None;
    {
        let mut builder = Place::new(&mut cell).seq().unwrap();
        assert_eq!(builder.element().unwrap().boolean(true), Ok(()));
        assert_eq!(builder.element().unwrap().null(), Ok(()));
        assert_eq!(builder.array.len(), 1);
        assert_eq!(builder.element, Some(Value::Null));
        assert_eq!(builder.finish(), Ok(()));
    }
    let mut expected = Array::new();
    expected.push(Value::Bool(true));
    expected.push(Value::Null);
    assert_eq!(cell, Some(Value::Array(expected)));
    let mut cell: Option<Value> = None;
    {
        let mut builder = Place::new(&mut cell).seq().unwrap();
        assert_eq!(builder.finish(), Ok(()));
    }
    assert_eq!(cell, Some(Value::Array(Array::new())));
}

#[test]
fn object_builder_collects_the_entries() {
    let mut cell: Option<Value> = None;
    {
        let mut builder = Place::new(&mut cell).map().unwrap();
        assert_eq!(builder.key("b").unwrap().nonnegative(1), Ok(()));
        assert_eq!(builder.key("a").unwrap().nonnegative(2), Ok(()));
        assert_eq!(builder.key("b").unwrap().nonnegative(3), Ok(()));
        let _ = builder.key("without a value").unwrap();
        assert_eq!(builder.finish(), Ok(()));
    }
    let mut expected = Object::new();
    expected.insert(text("a"), Value::Number(Number::U64(2)));
    expected.insert(text("b"), Value::Number(Number::U64(3)));
    assert_eq!(cell, Some(Value::Object(expected)));
}

#[test]
fn document_round_trip() {
    let value = document();
    let mut out = None;
    assert_eq!(round_trip(&value, &mut out), Ok(()));
    assert_eq!(out, Some(value));
    for scalar in [
        Value::Null,
        Value::Bool(false),
        Value::Number(Number::U64(u64::MAX)),
        Value::Number(Number::I64(i64::MIN)),
        Value::String(text("")),
    ] {
        let mut out = None;
        assert_eq!(round_trip(&scalar, &mut out), Ok(()));
        assert_eq!(out, Some(scalar));
    }
}

#[test]
fn passthrough_content_comes_back_under_the_reserved_key() {
    let mut o = Object::new();
    o.insert(text("raw"), Value::Raw(RawValue::from_string(text("[1, 2]"))));
    let value = Value::Object(o);
    let mut out = None;
    assert_eq!(round_trip(&value, &mut out), Ok(()));
    let mut inner = Object::new();
    inner.insert(text(TOKEN), Value::String(text("[1, 2]")));
    let mut expected = Object::new();
    expected.insert(text("raw"), Value::Object(inner));
    assert_eq!(out, Some(Value::Object(expected)));
    assert_ne!(out, Some(value));
}

#[test]
fn transcode_of_a_fragment() {
    let mut out = None;
    assert_eq!(transcode(Fragment::Str("wire"), Place::new(&mut out)), Ok(()));
    assert_eq!(out, Some(Value::String(text("wire"))));
    let raw = RawValue::from_string(text("{}"));
    let mut out = Some(Value::Null);
    assert_eq!(transcode(raw.begin(), Place::new(&mut out)), Ok(()));
    let mut expected = Object::new();
    expected.insert(text(TOKEN), Value::String(text("{}")));
    assert_eq!(out, Some(Value::Object(expected)));
}

#[test]
fn string_place_refuses_a_document() {
    let shape = Error { kind: ErrorKind::Shape };
    let mut cell: Option<String> = None;
    assert!(matches!(Place::new(&mut cell).map(), Err(e) if e == shape));
    assert!(matches!(Place::new(&mut cell).seq(), Err(e) if e == shape));
    assert_eq!(cell, None);
}
