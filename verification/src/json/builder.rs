//! Decoding into the values of a document: a value takes a token of any
//! shape, an array takes items, a mapping takes entries.

use vstd::prelude::*;

use crate::de::Visitor;
use crate::error::Error;
use crate::json::value::{put, Array, Entries, Number, Object, Value};
use crate::place::Place;

verus! {

/// The state of an array that is being decoded: the items that have come,
/// the item that is coming, and the caller's cell.
pub struct ArrayBuilder<'a> {
    pub array: Array,
    pub element: Option<Value>,
    pub out: &'a mut Option<Value>,
}

/// The state of a mapping that is being decoded: the entries that have come,
/// the key and the value of the entry that is coming, and the caller's cell.
pub struct ObjectBuilder<'a> {
    pub object: Object,
    pub key: Option<String>,
    pub value: Option<Value>,
    pub out: &'a mut Option<Value>,
}

impl<'a> Visitor for Place<'a, Value> {
    type Items = ArrayBuilder<'a>;

    type Entries = ObjectBuilder<'a>;

    fn null(&mut self) -> (r: Result<(), Error>)
        ensures
            r is Ok,
            *final(self).out == Some(Value::Null),
            *final(final(self).out) == *final(old(self).out),
    {
        *self.out = Some(Value::Null);
        Ok(())
    }

    fn boolean(&mut self, b: bool) -> (r: Result<(), Error>)
        ensures
            r is Ok,
            *final(self).out == Some(Value::Bool(b)),
            *final(final(self).out) == *final(old(self).out),
    {
        *self.out = Some(Value::Bool(b));
        Ok(())
    }

    fn string(&mut self, s: &str) -> (r: Result<(), Error>)
        ensures
            r is Ok,
            *final(self).out matches Some(Value::String(text)) && text@ == s@,
            *final(final(self).out) == *final(old(self).out),
    {
        *self.out = Some(Value::String(s.to_owned()));
        Ok(())
    }

    fn negative(&mut self, n: i64) -> (r: Result<(), Error>)
        ensures
            r is Ok,
            *final(self).out == Some(Value::Number(Number::I64(n))),
            *final(final(self).out) == *final(old(self).out),
    {
        *self.out = Some(Value::Number(Number::I64(n)));
        Ok(())
    }

    fn nonnegative(&mut self, n: u64) -> (r: Result<(), Error>)
        ensures
            r is Ok,
            *final(self).out == Some(Value::Number(Number::U64(n))),
            *final(final(self).out) == *final(old(self).out),
    {
        *self.out = Some(Value::Number(Number::U64(n)));
        Ok(())
    }

    /// A value takes a sequence: the state starts without items.
    fn seq(self) -> (r: Result<ArrayBuilder<'a>, Error>)
        ensures
            r matches Ok(builder) && builder.items() == Seq::<Value>::empty() && *builder.out
                == *old(self.out) && *final(self.out) == *final(builder.out),
    {
        Ok(ArrayBuilder { array: Array::new(), element: None, out: self.out })
    }

    /// A value takes a mapping: the state starts without entries.
    fn map(self) -> (r: Result<ObjectBuilder<'a>, Error>)
        ensures
            r matches Ok(builder) && builder.entries() == Seq::<(Seq<char>, Value)>::empty()
                && *builder.out == *old(self.out) && *final(self.out) == *final(builder.out),
    {
        Ok(ObjectBuilder { object: Object::new(), key: None, value: None, out: self.out })
    }
}

impl<'a> ArrayBuilder<'a> {
    /// The items that have come, the one that is coming included once it is
    /// there.
    pub open spec fn items(&self) -> Seq<Value> {
        match self.element {
            Some(value) => self.array@.push(value),
            None => self.array@,
        }
    }

    fn shift(&mut self)
        ensures
            final(self).array@ == old(self).items(),
            final(self).element is None,
            *final(self).out == *old(self).out,
            *final(final(self).out) == *final(old(self).out),
    {
        if let Some(value) = self.element.take() {
            self.array.push(value);
        }
    }

    /// Gives the place of the next item.
    pub fn element(&mut self) -> (r: Result<Place<'_, Value>, Error>)
        ensures
            r matches Ok(place) && *place.out == None::<Value>
                && final(self).element == *final(place.out),
            final(self).array@ == old(self).items(),
            *final(self).out == *old(self).out,
            *final(final(self).out) == *final(old(self).out),
    {
        self.shift();
        Ok(Place::new(&mut self.element))
    }

    /// Ends the array: the cell then holds the array of the items that have
    /// come.
    pub fn finish(&mut self) -> (r: Result<(), Error>)
        ensures
            r is Ok,
            *final(self).out matches Some(Value::Array(array)) && array@ == old(self).items(),
            final(self).items() == Seq::<Value>::empty(),
            *final(final(self).out) == *final(old(self).out),
    {
        self.shift();
        let mut array = Array::new();
        core::mem::swap(&mut self.array, &mut array);
        *self.out = Some(Value::Array(array));
        Ok(())
    }
}

impl<'a> ObjectBuilder<'a> {
    /// The entries that have come, the one that is coming included once its
    /// value is there.
    pub open spec fn entries(&self) -> Entries {
        match (self.key, self.value) {
            (Some(key), Some(value)) => put(self.object@, key@, value),
            _ => self.object@,
        }
    }

    fn shift(&mut self)
        ensures
            final(self).object@ == old(self).entries(),
            final(self).key is None,
            final(self).value is None,
            *final(self).out == *old(self).out,
            *final(final(self).out) == *final(old(self).out),
    {
        let key = self.key.take();
        let value = self.value.take();
        match (key, value) {
            (Some(key), Some(value)) => {
                self.object.insert(key, value);
            },
            _ => {},
        }
    }

    /// Takes the key of the next entry and gives the place of its value. Of
    /// two entries with one key the later one stays.
    pub fn key(&mut self, k: &str) -> (r: Result<Place<'_, Value>, Error>)
        ensures
            r matches Ok(place) && *place.out == None::<Value>
                && final(self).value == *final(place.out),
            final(self).object@ == old(self).entries(),
            final(self).key matches Some(key) && key@ == k@,
            *final(self).out == *old(self).out,
            *final(final(self).out) == *final(old(self).out),
    {
        self.shift();
        self.key = Some(k.to_owned());
        Ok(Place::new(&mut self.value))
    }

    /// Ends the mapping: the cell then holds the mapping of the entries that
    /// have come.
    pub fn finish(&mut self) -> (r: Result<(), Error>)
        ensures
            r is Ok,
            *final(self).out matches Some(Value::Object(object)) && object@ == old(
                self,
            ).entries(),
            final(self).entries() == Seq::<(Seq<char>, Value)>::empty(),
            *final(final(self).out) == *final(old(self).out),
    {
        self.shift();
        let mut object = Object::new();
        core::mem::swap(&mut self.object, &mut object);
        *self.out = Some(Value::Object(object));
        Ok(())
    }
}

} // verus!
