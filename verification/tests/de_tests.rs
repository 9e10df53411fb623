use qser::de::{
    decode_entries, field_index, variant_index, EnumVisitor, FieldVisitor, Ignore, StructVisitor,
    Visitor,
};
use qser::error::{Error, ErrorKind};
use qser::json::raw::{begin, RawValue, TOKEN};
use qser::place::Place;
use qser::ser::{variant_fragment, FieldStream, Fragment};

fn names(list: &[&str]) -> Vec<String> {
    list.iter().map(|s| s.to_string()).collect()
}

fn shape_error() -> Error {
    Error { kind: ErrorKind::Shape }
}

fn completeness() -> Error {
    Error { kind: ErrorKind::Completeness }
}

fn encode(names: &[String], values: &[u32]) -> Vec<(String, u32)> {
    let mut stream = FieldStream::begin(names, values).unwrap();
    let mut entries = Vec::new();
    while let Some((k, v)) = stream.next() {
        entries.push((k.to_string(), *v));
    }
    assert!(stream.next().is_none());
    entries
}

#[test]
fn place_writes_into_the_callers_cell() {
    let mut cell: Option<u8> = None;
    {
        let mut place = Place::new(&mut cell);
        place.set(1);
        place.set(2);
    }
    assert_eq!(cell, Some(2));
}

#[test]
fn visitor_methods_fail_unless_overridden() {
    let mut cell: Option<String> = None;
    let mut place = Place::new(&mut cell);
    assert_eq!(place.null(), Err(shape_error()));
    assert_eq!(place.boolean(true), Err(shape_error()));
    assert_eq!(place.negative(-1), Err(shape_error()));
    assert_eq!(place.nonnegative(1), Err(shape_error()));
    assert_eq!(place.string("text"), Ok(()));
    assert!(matches!(place.seq(), Err(e) if e == shape_error()));
    assert_eq!(cell, Some("text".to_string()));
    let mut cell: Option<String> = None;
    assert!(matches!(Place::new(&mut cell).map(), Err(e) if e == shape_error()));
    assert_eq!(cell, None);
    let mut flag: Option<bool> = None;
    let mut place = Place::new(&mut flag);
    assert_eq!(place.string("true"), Err(shape_error()));
    assert_eq!(place.boolean(true), Ok(()));
    assert_eq!(flag, Some(true));
}

#[test]
fn ignore_takes_everything() {
    let mut ignore = Ignore;
    assert_eq!(ignore.null(), Ok(()));
    assert_eq!(ignore.boolean(false), Ok(()));
    assert_eq!(ignore.string("s"), Ok(()));
    assert_eq!(ignore.negative(-3), Ok(()));
    assert_eq!(ignore.nonnegative(3), Ok(()));
    let mut items = ignore.seq().unwrap();
    assert_eq!(items.element().null(), Ok(()));
    assert_eq!(items.finish(), Ok(()));
    let mut entries = ignore.map().unwrap();
    assert_eq!(entries.key("any").string("s"), Ok(()));
    assert_eq!(entries.finish(), Ok(()));
}

#[test]
fn field_index_finds_the_first_field_with_the_name() {
    let ns = names(&["a", "b", "a", ""]);
    assert_eq!(field_index(&ns, "a"), Some(0));
    assert_eq!(field_index(&ns, "b"), Some(1));
    assert_eq!(field_index(&ns, ""), Some(3));
    assert_eq!(field_index(&ns, "c"), None);
    assert_eq!(field_index(&[], "a"), None);
}

#[test]
fn struct_round_trip() {
    let ns = names(&["id", "count", "size"]);
    let values = vec![7u32, 0, 99];
    let entries = encode(&ns, &values);
    assert_eq!(
        entries,
        vec![("id".to_string(), 7), ("count".to_string(), 0), ("size".to_string(), 99)]
    );
    let mut out = None;
    assert_eq!(decode_entries(&ns, entries, &mut out), Ok(()));
    assert_eq!(out, Some(values));
    let none: Vec<String> = vec![];
    let mut out: Option<Vec<u32>> = None;
    assert_eq!(decode_entries(&none, encode(&none, &[]), &mut out), Ok(()));
    assert_eq!(out, Some(vec![]));
}

#[test]
fn field_stream_needs_one_value_for_each_name() {
    let ns = names(&["a", "b"]);
    assert!(FieldStream::begin(&ns, &[1u8]).is_none());
    assert!(FieldStream::begin(&ns, &[1u8, 2, 3]).is_none());
    assert!(FieldStream::begin(&ns, &[1u8, 2]).is_some());
}

#[test]
fn entries_in_any_order_and_repeated() {
    let ns = names(&["a", "b"]);
    let entries = vec![
        ("b".to_string(), 1u32),
        ("a".to_string(), 2),
        ("b".to_string(), 3),
    ];
    let mut out = None;
    assert_eq!(decode_entries(&ns, entries, &mut out), Ok(()));
    assert_eq!(out, Some(vec![2, 3]));
}

#[test]
fn missing_field_fails_finish_for_every_field() {
    let ns = names(&["id", "count", "size"]);
    let values = vec![7u32, 8, 9];
    for missing in 0..ns.len() {
        let mut entries = encode(&ns, &values);
        entries.remove(missing);
        let mut out = Some(vec![1u32]);
        assert_eq!(decode_entries(&ns, entries, &mut out), Err(completeness()));
        assert_eq!(out, Some(vec![1u32]));
    }
    let mut out: Option<Vec<u32>> = None;
    assert_eq!(decode_entries(&ns, vec![], &mut out), Err(completeness()));
    assert_eq!(out, None);
}

#[test]
fn unknown_key_changes_nothing() {
    let ns = names(&["id", "count", "size"]);
    let values = vec![7u32, 8, 9];
    for at in 0..=ns.len() {
        let mut entries = encode(&ns, &values);
        entries.insert(at, ("unknown".to_string(), 1000));
        let mut out = None;
        assert_eq!(decode_entries(&ns, entries, &mut out), Ok(()));
        assert_eq!(out, Some(values.clone()));
    }
    let mut entries = encode(&ns, &values);
    entries.remove(1);
    entries.insert(0, ("Count".to_string(), 8));
    let mut out: Option<Vec<u32>> = None;
    assert_eq!(decode_entries(&ns, entries, &mut out), Err(completeness()));
}

#[test]
fn struct_state_step_by_step() {
    let ns = names(&["name", "nick"]);
    let mut out: Option<Vec<String>> = None;
    {
        let visitor = StructVisitor::begin(&ns, &mut out);
        let mut state = visitor.map().unwrap();
        assert_eq!(state.slots, vec![None, None]);
        assert_eq!(state.finish(), Err(completeness()));
        match state.key("nick").unwrap() {
            FieldVisitor::Field(mut place) => {
                assert_eq!(place.null(), Err(shape_error()));
                assert_eq!(place.string("Al"), Ok(()));
            }
            FieldVisitor::Unknown(_) => panic!("nick is a field"),
        }
        match state.key("age").unwrap() {
            FieldVisitor::Field(_) => panic!("age is no field"),
            FieldVisitor::Unknown(mut ignore) => assert_eq!(ignore.nonnegative(3), Ok(())),
        }
        assert_eq!(state.slots, vec![None, Some("Al".to_string())]);
        assert_eq!(state.finish(), Err(completeness()));
        assert_eq!(state.slots, vec![None, Some("Al".to_string())]);
        match state.key("name").unwrap() {
            FieldVisitor::Field(mut place) => assert_eq!(place.string("Alice"), Ok(())),
            FieldVisitor::Unknown(_) => panic!("name is a field"),
        }
        assert_eq!(state.finish(), Ok(()));
        assert_eq!(state.slots, vec![None, None]);
    }
    assert_eq!(out, Some(vec!["Alice".to_string(), "Al".to_string()]));
}

#[test]
fn struct_visitor_takes_a_mapping_only() {
    let ns = names(&["a"]);
    let mut out: Option<Vec<bool>> = None;
    let mut visitor = StructVisitor::begin(&ns, &mut out);
    assert_eq!(visitor.null(), Err(shape_error()));
    assert_eq!(visitor.string("a"), Err(shape_error()));
    assert_eq!(visitor.boolean(true), Err(shape_error()));
    assert!(matches!(visitor.seq(), Err(e) if e == shape_error()));
    assert_eq!(out, None);
}

#[test]
fn enum_round_trip() {
    let ns = names(&["red", "green", "BLUE"]);
    for variant in 0..ns.len() {
        let wire = match variant_fragment(&ns, variant) {
            Some(Fragment::Str(s)) => s.to_string(),
            _ => panic!("a variant is encoded as a string"),
        };
        assert_eq!(wire, ns[variant]);
        let mut out = None;
        let mut visitor = EnumVisitor::begin(&ns, &mut out);
        assert_eq!(visitor.string(&wire), Ok(()));
        assert_eq!(out, Some(variant));
        assert_eq!(variant_index(&ns, &wire), Ok(variant));
    }
    assert!(variant_fragment(&ns, 3).is_none());
}

#[test]
fn enum_string_that_matches_no_variant_fails() {
    let ns = names(&["red", "green"]);
    let mut out = Some(1usize);
    {
        let mut visitor = EnumVisitor::begin(&ns, &mut out);
        assert_eq!(visitor.string("Red"), Err(completeness()));
        assert_eq!(visitor.string(""), Err(completeness()));
        assert_eq!(visitor.null(), Err(shape_error()));
        assert_eq!(visitor.nonnegative(0), Err(shape_error()));
        assert!(matches!(visitor.map(), Err(e) if e == shape_error()));
    }
    assert_eq!(out, Some(1));
    assert_eq!(variant_index(&ns, "blue"), Err(completeness()));
    assert_eq!(variant_index(&[], "red"), Err(completeness()));
}

#[test]
fn raw_value_is_decoded_from_its_text_under_the_reserved_key() {
    let json = " { \"k\" : [ ] } ";
    let mut out: Option<Box<RawValue>> = None;
    {
        let place = begin(&mut out);
        let mut builder = place.map().unwrap();
        match builder.key("other").unwrap() {
            FieldVisitor::Unknown(mut ignore) => assert_eq!(ignore.string("x"), Ok(())),
            FieldVisitor::Field(_) => panic!("only the reserved key has a slot"),
        }
        match builder.key(TOKEN).unwrap() {
            FieldVisitor::Field(mut place) => {
                assert_eq!(place.boolean(true), Err(shape_error()));
                assert_eq!(place.string(json), Ok(()));
            }
            FieldVisitor::Unknown(_) => panic!("the reserved key has a slot"),
        }
        assert_eq!(builder.finish(), Ok(()));
        assert_eq!(builder.json, None);
    }
    assert_eq!(out.unwrap().get(), json);
}

#[test]
fn raw_value_without_its_text_fails_finish() {
    let mut out: Option<Box<RawValue>> = None;
    {
        let mut builder = begin(&mut out).map().unwrap();
        assert_eq!(builder.finish(), Err(completeness()));
    }
    assert_eq!(out, None);
    let mut place = begin(&mut out);
    assert_eq!(place.string("[]"), Err(shape_error()));
    assert_eq!(place.null(), Err(shape_error()));
    assert!(matches!(place.seq(), Err(e) if e == shape_error()));
    assert_eq!(out, None);
}

#[test]
fn raw_value_round_trip_through_its_stream() {
    let raw = RawValue::from_string("{\"a\":1}".to_string());
    let mut out: Option<Box<RawValue>> = None;
    {
        let mut stream = match raw.begin() {
            Fragment::Mapping(stream) => stream,
            _ => panic!("a passthrough value gives a stream of one entry"),
        };
        let mut builder = begin(&mut out).map().unwrap();
        while let Some((key, child)) = stream.next() {
            match (builder.key(key).unwrap(), child) {
                (FieldVisitor::Field(mut place), Fragment::Str(s)) => {
                    assert_eq!(place.string(s), Ok(()))
                }
                _ => panic!("the entry is the text under the reserved key"),
            }
        }
        assert_eq!(builder.finish(), Ok(()));
    }
    assert_eq!(out, Some(raw));
}
