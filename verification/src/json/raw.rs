//! The passthrough value: wire text that is kept as it is.

use vstd::prelude::*;

use crate::de::{FieldVisitor, Ignore, Visitor};
use crate::error::{Error, ErrorKind};
use crate::json::value::keys_sorted;
use crate::place::Place;
use crate::ser::{Fragment, MapStream, Node, Serialize};

verus! {

/// The key under which a passthrough value gives its text. No document uses
/// it for anything else.
pub const TOKEN: &'static str = "$qser::json::private::RawValue";

/// Wire text that is already encoded. It is stored verbatim.
#[derive(Clone, Debug, PartialEq, Eq)]
pub struct RawValue {
    pub(crate) json: String,
}

impl View for RawValue {
    type V = Seq<char>;

    closed spec fn view(&self) -> Seq<char> {
        self.json@
    }
}

impl RawValue {
    /// The passthrough value that holds this text.
    pub fn from_string(json: String) -> (raw: Box<RawValue>)
        ensures
            raw@ == json@,
    {
        Box::new(RawValue { json })
    }

    /// The text, as it was given.
    pub fn get(&self) -> (text: &str)
        ensures
            text@ == self@,
    {
        self.json.as_str()
    }

    /// The text, moved out.
    pub fn into_string(raw: Box<RawValue>) -> (text: String)
        ensures
            text@ == raw@,
    {
        let RawValue { json } = *raw;
        json
    }

    /// The passthrough value `null`.
    pub fn null() -> (raw: Box<RawValue>)
        ensures
            raw@ == "null"@,
    {
        RawValue::from_string("null".to_owned())
    }

    /// The passthrough value `true`.
    pub fn truth() -> (raw: Box<RawValue>)
        ensures
            raw@ == "true"@,
    {
        RawValue::from_string("true".to_owned())
    }

    /// The passthrough value `false`.
    pub fn falsity() -> (raw: Box<RawValue>)
        ensures
            raw@ == "false"@,
    {
        RawValue::from_string("false".to_owned())
    }

    /// A copy that holds the same text.
    pub fn to_owned(&self) -> (raw: Box<RawValue>)
        ensures
            raw@ == self@,
    {
        RawValue::from_string(self.json.clone())
    }

    /// The fragment of a passthrough value: a stream of one entry, the text
    /// under the reserved key.
    pub fn begin(&self) -> (fragment: Fragment<'_>)
        ensures
            fragment.shape() == raw_shape(self@),
    {
        let stream = RawValueStream { data: self, state: false };
        assert(stream.remaining() =~= seq![(TOKEN@, Node::Str(self@))]);
        Fragment::Mapping(MapStream::Raw(stream))
    }
}

impl Serialize for RawValue {
    open spec fn encoded_shape(&self) -> Node {
        raw_shape(self@)
    }

    fn begin(&self) -> (fragment: Fragment<'_>) {
        RawValue::begin(self)
    }
}

/// The shape of a passthrough value: one entry, its text under the reserved
/// key.
pub open spec fn raw_shape(text: Seq<char>) -> Node {
    Node::Mapping(seq![(TOKEN@, Node::Str(text))])
}

/// The stream of a passthrough value.
pub struct RawValueStream<'a> {
    pub(crate) data: &'a RawValue,
    pub(crate) state: bool,
}

impl<'a> RawValueStream<'a> {
    /// The entries that the stream has yet to give.
    pub closed spec fn remaining(&self) -> Seq<(Seq<char>, Node)> {
        if self.state {
            Seq::<(Seq<char>, Node)>::empty()
        } else {
            seq![(TOKEN@, Node::Str(self.data@))]
        }
    }

    /// Tells that what the stream has yet to give stands in the order of
    /// the keys: it is one entry at most.
    pub fn check_sorted(&self)
        ensures
            keys_sorted(self.remaining()),
    {
    }

    /// Gives the text under the reserved key, once.
    pub fn next(&mut self) -> (r: Option<(&'a str, Fragment<'a>)>)
        ensures
            match r {
                Some((key, child)) => {
                    &&& old(self).remaining().len() > 0
                    &&& key@ == old(self).remaining()[0].0
                    &&& child.shape() == old(self).remaining()[0].1
                    &&& final(self).remaining() == old(self).remaining().drop_first()
                },
                None => old(self).remaining().len() == 0 && final(self).remaining().len() == 0,
            },
    {
        if !self.state {
            self.state = true;
            assert(old(self).remaining().drop_first() =~= self.remaining());
            Some((TOKEN, Fragment::Str(self.data.get())))
        } else {
            None
        }
    }
}

/// Enters the visitor of a passthrough value over the caller's cell.
pub fn begin(out: &mut Option<Box<RawValue>>) -> (place: Place<'_, Box<RawValue>>)
    ensures
        *place.out == *old(out),
        *final(out) == *final(place.out),
{
    Place::new(out)
}

/// The state of a passthrough value that is being decoded: the text, once
/// it has come, and the caller's cell.
pub struct RawValueBuilder<'a> {
    pub json: Option<String>,
    pub out: &'a mut Option<Box<RawValue>>,
}

impl<'a> Visitor for Place<'a, Box<RawValue>> {
    type Items = Ignore;

    type Entries = RawValueBuilder<'a>;

    /// A passthrough value takes a mapping: the state starts without text.
    fn map(self) -> (r: Result<RawValueBuilder<'a>, Error>)
        ensures
            r matches Ok(builder) && builder.json is None && *builder.out == *old(self.out)
                && *final(self.out) == *final(builder.out),
    {
        Ok(RawValueBuilder { json: None, out: self.out })
    }
}

impl<'a> RawValueBuilder<'a> {
    /// Picks the visitor for the value behind a key: the text slot for the
    /// reserved key, and the visitor that throws the value away for any
    /// other.
    pub fn key(&mut self, k: &str) -> (r: Result<FieldVisitor<'_, String>, Error>)
        ensures
            *final(self).out == *old(self).out,
            *final(final(self).out) == *final(old(self).out),
            if k@ == TOKEN@ {
                r matches Ok(FieldVisitor::Field(place)) && *place.out == old(self).json
                    && final(self).json == *final(place.out)
            } else {
                r matches Ok(FieldVisitor::Unknown(_)) && final(self).json == old(self).json
            },
    {
        if k.eq(TOKEN) {
            Ok(FieldVisitor::Field(Place::new(&mut self.json)))
        } else {
            Ok(FieldVisitor::Unknown(Ignore))
        }
    }

    /// Ends the passthrough value. Where the text has come, the cell then
    /// holds the passthrough value with that text; where it has not, the
    /// result is an error and the cell keeps what it held.
    pub fn finish(&mut self) -> (r: Result<(), Error>)
        ensures
            *final(final(self).out) == *final(old(self).out),
            final(self).json is None,
            match old(self).json {
                Some(text) => r is Ok && (*final(self).out matches Some(raw) && raw@ == text@),
                None => r == Err::<(), Error>(Error { kind: ErrorKind::Completeness })
                    && *final(self).out == *old(self).out,
            },
    {
        match self.json.take() {
            Some(json) => {
                *self.out = Some(RawValue::from_string(json));
                Ok(())
            },
            None => Err(Error::completeness()),
        }
    }
}

} // verus!
