use qser::json::object::private;
use qser::json::raw::{RawValue, TOKEN};
use qser::json::teardown::{safely, teardown_entries, teardown_items};
use qser::json::value::{Array, Number, Object, Value};
use qser::ser::{Fragment, MapStream};

fn text(s: &str) -> String {
    s.to_string()
}

fn keys(object: Object) -> Vec<String> {
    object.into_iter().into_iter().map(|e| e.0).collect()
}

fn next_entry<'a>(stream: &mut MapStream<'a>) -> Option<(&'a str, Fragment<'a>)> {
    stream.next()
}

#[test]
fn object_new_is_empty() {
    let o = Object::new();
    assert_eq!(o.len(), 0);
    assert!(o.is_empty());
    assert_eq!(o.get("a"), None);
    assert!(!o.contains_key(""));
    assert!(o.entry(0).is_none());
}

#[test]
fn object_insert_get_remove() {
    let mut o = Object::new();
    assert_eq!(o.insert(text("b"), Value::Bool(true)), None);
    assert_eq!(o.insert(text("a"), Value::Null), None);
    assert_eq!(o.insert(text("c"), Value::Number(Number::U64(7))), None);
    assert_eq!(o.len(), 3);
    assert_eq!(o.get("a"), Some(&Value::Null));
    assert_eq!(o.get("b"), Some(&Value::Bool(true)));
    assert_eq!(o.get("c"), Some(&Value::Number(Number::U64(7))));
    assert_eq!(o.get("d"), None);
    assert_eq!(o.insert(text("b"), Value::String(text("new"))), Some(Value::Bool(true)));
    assert_eq!(o.len(), 3);
    assert_eq!(o.get("b"), Some(&Value::String(text("new"))));
    assert_eq!(o.remove("a"), Some(Value::Null));
    assert_eq!(o.remove("a"), None);
    assert_eq!(o.len(), 2);
    assert!(o.contains_key("b"));
    assert!(!o.contains_key("a"));
}

#[test]
fn object_keeps_its_keys_in_the_order_of_texts() {
    let mut o = Object::new();
    for k in ["b", "", "ab", "a", "B", "é", "zz", "z", "aa", "a\u{0}"] {
        o.insert(text(k), Value::Null);
    }
    let mut expected: Vec<String> =
        ["b", "", "ab", "a", "B", "é", "zz", "z", "aa", "a\u{0}"].iter().map(|s| text(s)).collect();
    expected.sort();
    assert_eq!(o.entry(0).map(|e| e.0), Some(""));
    assert_eq!(o.entry(1).map(|e| e.0), Some("B"));
    assert_eq!(keys(o), expected);
}

#[test]
fn object_from_iter_keeps_the_later_of_two_entries() {
    let o = Object::from_iter(vec![
        (text("k"), Value::Bool(false)),
        (text("a"), Value::Null),
        (text("k"), Value::Bool(true)),
    ]);
    assert_eq!(o.len(), 2);
    assert_eq!(o.get("k"), Some(&Value::Bool(true)));
    assert_eq!(
        o.into_iter(),
        vec![(text("a"), Value::Null), (text("k"), Value::Bool(true))]
    );
    assert_eq!(Object::from_iter(vec![]).len(), 0);
}

#[test]
fn object_take_entries_leaves_it_empty() {
    let mut o = Object::new();
    o.insert(text("x"), Value::Null);
    let entries = o.take_entries();
    assert_eq!(entries, vec![(text("x"), Value::Null)]);
    assert!(o.is_empty());
}

#[test]
fn array_holds_its_items_in_order() {
    let mut a = Array::new();
    assert_eq!(a.len(), 0);
    a.push(Value::Bool(true));
    a.push(Value::Null);
    assert_eq!(a.len(), 2);
    assert_eq!(a.get(0), Some(&Value::Bool(true)));
    assert_eq!(a.get(1), Some(&Value::Null));
    assert_eq!(a.get(2), None);
    assert_eq!(a.take_items(), vec![Value::Bool(true), Value::Null]);
    assert_eq!(a.len(), 0);
}

#[test]
fn stream_object_gives_the_entries_in_key_order() {
    let mut o = Object::new();
    o.insert(text("two"), Value::Number(Number::I64(-2)));
    o.insert(text("one"), Value::String(text("1")));
    o.insert(text("three"), Value::Bool(false));
    let mut stream = match private::stream_object(&o) {
        Fragment::Mapping(stream) => stream,
        _ => panic!("a mapping gives a stream of entries"),
    };
    let (k, f) = next_entry(&mut stream).unwrap();
    assert_eq!(k, "one");
    assert!(matches!(f, Fragment::Str("1")));
    let (k, f) = next_entry(&mut stream).unwrap();
    assert_eq!(k, "three");
    assert!(matches!(f, Fragment::Bool(false)));
    let (k, f) = next_entry(&mut stream).unwrap();
    assert_eq!(k, "two");
    assert!(matches!(f, Fragment::I64(-2)));
    assert!(next_entry(&mut stream).is_none());
    assert!(next_entry(&mut stream).is_none());
}

#[test]
fn value_begin_gives_the_fragment_of_each_kind() {
    assert!(matches!(Value::Null.begin(), Fragment::Null));
    assert!(matches!(Value::Bool(true).begin(), Fragment::Bool(true)));
    assert!(matches!(Value::Number(Number::U64(5)).begin(), Fragment::U64(5)));
    assert!(matches!(Value::Number(Number::I64(-5)).begin(), Fragment::I64(-5)));
    assert!(matches!(Value::String(text("s")).begin(), Fragment::Str("s")));
    let mut a = Array::new();
    a.push(Value::Null);
    a.push(Value::Bool(true));
    let v = Value::Array(a);
    let mut items = match v.begin() {
        Fragment::Sequence(items) => items,
        _ => panic!("an array gives a stream of items"),
    };
    assert!(matches!(items.next(), Some(Fragment::Null)));
    assert!(matches!(items.next(), Some(Fragment::Bool(true))));
    assert!(items.next().is_none());
    assert!(items.next().is_none());
    let v = Value::Object(Object::new());
    match v.begin() {
        Fragment::Mapping(mut stream) => assert!(stream.next().is_none()),
        _ => panic!("a mapping gives a stream of entries"),
    }
}

#[test]
fn raw_value_keeps_its_text() {
    let json = "{\"a\": [1, 2,\t3],  \"b\":\"\\u00e9 \\\" \"}\n";
    let raw = RawValue::from_string(text(json));
    assert_eq!(raw.get(), json);
    assert_eq!(raw.to_owned().get(), json);
    assert_eq!(RawValue::into_string(raw), json);
    assert_eq!(RawValue::from_string(String::new()).get(), "");
    assert_eq!(RawValue::null().get(), "null");
    assert_eq!(RawValue::truth().get(), "true");
    assert_eq!(RawValue::falsity().get(), "false");
}

#[test]
fn raw_value_streams_its_text_under_the_reserved_key() {
    assert_eq!(TOKEN, "$qser::json::private::RawValue");
    let raw = RawValue::from_string(text("[1,  2]"));
    let mut stream = match raw.begin() {
        Fragment::Mapping(stream) => stream,
        _ => panic!("a passthrough value gives a stream of one entry"),
    };
    let (k, f) = next_entry(&mut stream).unwrap();
    assert_eq!(k, TOKEN);
    assert!(matches!(f, Fragment::Str("[1,  2]")));
    assert!(next_entry(&mut stream).is_none());
    assert!(next_entry(&mut stream).is_none());
}

#[test]
fn passthrough_text_comes_out_at_its_place_in_the_document() {
    let json = "{ \"deep\" : [ 1.5e3 , null ] }";
    let mut o = Object::new();
    o.insert(text("z"), Value::Bool(true));
    o.insert(text("raw"), Value::Raw(RawValue::from_string(text(json))));
    o.insert(text("a"), Value::Null);
    let doc = Value::Object(o);
    let mut stream = match doc.begin() {
        Fragment::Mapping(stream) => stream,
        _ => panic!("a mapping gives a stream of entries"),
    };
    let (k, _) = next_entry(&mut stream).unwrap();
    assert_eq!(k, "a");
    let (k, f) = next_entry(&mut stream).unwrap();
    assert_eq!(k, "raw");
    let mut inner = match f {
        Fragment::Mapping(inner) => inner,
        _ => panic!("a passthrough value gives a stream of one entry"),
    };
    let (k, f) = next_entry(&mut inner).unwrap();
    assert_eq!(k, TOKEN);
    match f {
        Fragment::Str(s) => assert_eq!(s.as_bytes(), json.as_bytes()),
        _ => panic!("the text of a passthrough value is a string"),
    }
    assert!(next_entry(&mut inner).is_none());
    let (k, _) = next_entry(&mut stream).unwrap();
    assert_eq!(k, "z");
    assert!(next_entry(&mut stream).is_none());
}

#[test]
fn deep_mapping_is_built_and_torn_down() {
    let mut value = Value::Null;
    for _ in 0..100_000 {
        let mut o = Object::new();
        o.insert(text("k"), value);
        value = Value::Object(o);
    }
    match &value {
        Value::Object(o) => assert_eq!(o.len(), 1),
        _ => panic!("the document is a mapping"),
    }
    drop(value);
}

#[test]
fn deep_array_is_built_and_torn_down() {
    let mut value = Value::Null;
    for i in 0..100_000 {
        if i % 2 == 0 {
            let mut a = Array::new();
            a.push(Value::Bool(true));
            a.push(value);
            value = Value::Array(a);
        } else {
            let mut o = Object::new();
            o.insert(text("a"), Value::String(text("x")));
            o.insert(text("b"), value);
            value = Value::Object(o);
        }
    }
    safely(value);
}

#[test]
fn wide_and_deep_documents_are_torn_down() {
    let mut wide = Array::new();
    for i in 0..1000u64 {
        let mut deep = Value::Number(Number::U64(i));
        for d in 0..200 {
            if d % 3 == 0 {
                let mut o = Object::new();
                o.insert(text("z"), Value::String(text("leaf")));
                o.insert(text("m"), deep);
                o.insert(text("a"), Value::Array(Array::new()));
                deep = Value::Object(o);
            } else {
                let mut a = Array::new();
                a.push(Value::Null);
                a.push(deep);
                a.push(Value::Object(Object::new()));
                deep = Value::Array(a);
            }
        }
        wide.push(deep);
    }
    let mut o = Object::new();
    o.insert(text("wide"), Value::Array(wide));
    o.insert(text("raw"), Value::Raw(RawValue::from_string(text("{}"))));
    drop(o);
    safely(Value::Array(Array::new()));
    safely(Value::Object(Object::new()));
}

#[test]
fn teardown_of_lists() {
    let mut deep = Value::Null;
    for _ in 0..100_000 {
        let mut o = Object::new();
        o.insert(text("k"), deep);
        deep = Value::Object(o);
    }
    teardown_entries(vec![(text("a"), deep), (text("b"), Value::Null)]);
    teardown_items(vec![Value::Null, Value::Raw(RawValue::null())]);
    teardown_items(vec![]);
    safely(Value::Null);
}

#[test]
fn copies_are_equal_and_apart() {
    let mut inner = Object::new();
    inner.insert(text("raw"), Value::Raw(RawValue::from_string(text("[ 1 ]"))));
    inner.insert(text("n"), Value::Number(Number::I64(-1)));
    let mut items = Array::new();
    items.push(Value::Object(inner));
    items.push(Value::String(text("s")));
    let mut o = Object::new();
    o.insert(text("items"), Value::Array(items));
    o.insert(text("flag"), Value::Bool(true));
    let copy = o.clone();
    assert_eq!(copy, o);
    o.insert(text("flag"), Value::Bool(false));
    assert_ne!(copy, o);
    assert_eq!(copy.get("flag"), Some(&Value::Bool(true)));
    let value = Value::Object(copy);
    assert_eq!(value.clone(), value);
    let mut a = Array::new();
    a.push(value);
    assert_eq!(a.clone(), a);
    let raw = RawValue::from_string(text("{}"));
    assert_eq!(raw.clone(), raw);
}

#[test]
fn default_object_is_empty_and_sorted() {
    let o = Object::default();
    assert!(o.is_empty());
    o.check_sorted();
    assert_eq!(o, Object::new());
}
