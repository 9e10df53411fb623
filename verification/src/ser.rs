//! The encode side of the codec: a value gives its shape lazily, as a
//! fragment.
//!
//! A fragment is a scalar, or a stream of positional children, or a stream
//! of named children. A stream is pulled with `next` until it gives no
//! further element; each child comes as its own fragment.

use vstd::prelude::*;

use crate::de::{encoded, name_views};
use crate::input::{adapter_plan, plan_adapter, Adapter, DeriveError, DeriveInput};
use crate::json::object::ObjectIter;
use crate::json::raw::RawValueStream;
use crate::json::value::{keys_sorted, ArrayIter};

verus! {

/// The shape of an encoded value as a mathematical value: what a fragment
/// gives when it is pulled to its end.
pub enum Node {
    Null,
    Bool(bool),
    Str(Seq<char>),
    U64(u64),
    I64(i64),
    Sequence(Seq<Node>),
    Mapping(Seq<(Seq<char>, Node)>),
}

/// The number of nodes in a shape, itself included.
pub open spec fn node_size(node: Node) -> nat
    decreases node,
{
    match node {
        Node::Sequence(items) => 1 + nodes_size(items),
        Node::Mapping(entries) => 1 + entries_size(entries),
        _ => 1,
    }
}

/// The number of nodes in a list of shapes.
pub open spec fn nodes_size(items: Seq<Node>) -> nat
    decreases items,
{
    if items.len() == 0 {
        0
    } else {
        nodes_size(items.drop_last()) + node_size(items.last())
    }
}

/// The number of nodes in the shapes of a list of entries.
pub open spec fn entries_size(entries: Seq<(Seq<char>, Node)>) -> nat
    decreases entries,
{
    if entries.len() == 0 {
        0
    } else {
        entries_size(entries.drop_last()) + node_size(entries.last().1)
    }
}

/// A list of shapes has at least as many nodes as any one of them.
pub proof fn lemma_nodes_size_item(items: Seq<Node>, i: int)
    requires
        0 <= i < items.len(),
    ensures
        node_size(items[i]) <= nodes_size(items),
    decreases items.len(),
{
    if i < items.len() - 1 {
        lemma_nodes_size_item(items.drop_last(), i);
    }
}

/// A list of entries has at least as many nodes as the shape of any one of
/// them.
pub proof fn lemma_entries_size_item(entries: Seq<(Seq<char>, Node)>, i: int)
    requires
        0 <= i < entries.len(),
    ensures
        node_size(entries[i].1) <= entries_size(entries),
    decreases entries.len(),
{
    if i < entries.len() - 1 {
        lemma_entries_size_item(entries.drop_last(), i);
    }
}

/// The lazily produced shape of a value.
pub enum Fragment<'a> {
    Null,
    Bool(bool),
    Str(&'a str),
    U64(u64),
    I64(i64),
    Sequence(ArrayIter<'a>),
    Mapping(MapStream<'a>),
}

/// A stream of named children.
pub enum MapStream<'a> {
    /// The entries of a mapping, in the order of its keys.
    Object(ObjectIter<'a>),
    /// The one entry of a passthrough value.
    Raw(RawValueStream<'a>),
}

impl<'a> MapStream<'a> {
    /// The entries that the stream has yet to give.
    pub open spec fn remaining(&self) -> Seq<(Seq<char>, Node)> {
        match self {
            MapStream::Object(it) => it.remaining(),
            MapStream::Raw(it) => it.remaining(),
        }
    }

    /// Tells that the entries which the stream has yet to give stand in the
    /// order of their keys.
    pub fn check_sorted(&self)
        ensures
            keys_sorted(self.remaining()),
    {
        match self {
            MapStream::Object(it) => it.check_sorted(),
            MapStream::Raw(it) => it.check_sorted(),
        }
    }

    /// Gives the next entry: its wire name and the fragment of its child.
    pub fn next(&mut self) -> (r: Option<(&'a str, Fragment<'a>)>)
        ensures
            match r {
                Some((key, child)) => {
                    &&& old(self).remaining().len() > 0
                    &&& key@ == old(self).remaining()[0].0
                    &&& child.shape() == old(self).remaining()[0].1
                    &&& final(self).remaining() == old(self).remaining().drop_first()
                },
                None => old(self).remaining().len() == 0 && final(self).remaining().len() == 0,
            },
    {
        match self {
            MapStream::Object(it) => it.next(),
            MapStream::Raw(it) => it.next(),
        }
    }
}

impl<'a> Fragment<'a> {
    /// The shape that the fragment gives.
    pub open spec fn shape(&self) -> Node {
        match self {
            Fragment::Null => Node::Null,
            Fragment::Bool(b) => Node::Bool(*b),
            Fragment::Str(s) => Node::Str(s@),
            Fragment::U64(n) => Node::U64(*n),
            Fragment::I64(n) => Node::I64(*n),
            Fragment::Sequence(it) => Node::Sequence(it.remaining()),
            Fragment::Mapping(it) => Node::Mapping(it.remaining()),
        }
    }
}

/// A value that can be encoded: it gives its shape as a fragment.
pub trait Serialize {
    /// The shape that the value is encoded in.
    spec fn encoded_shape(&self) -> Node;

    /// Gives the fragment of the value.
    fn begin(&self) -> (fragment: Fragment<'_>)
        ensures
            fragment.shape() == self.encoded_shape(),
    ;
}

/// The stream of a struct with named fields: it gives each field's wire
/// name with the field's value, in the order in which the fields are
/// declared.
pub struct FieldStream<'a, T> {
    pub(crate) names: &'a [String],
    pub(crate) values: &'a [T],
    pub(crate) state: usize,
}

impl<'a, T> FieldStream<'a, T> {
    /// Enters the stream of a struct with these wire names and these
    /// values. Where the two lists differ in length there is no such struct.
    pub fn begin(names: &'a [String], values: &'a [T]) -> (r: Option<FieldStream<'a, T>>)
        ensures
            match r {
                Some(stream) => names@.len() == values@.len() && stream.remaining() == encoded(
                    name_views(names@),
                    values@,
                ),
                None => names@.len() != values@.len(),
            },
    {
        if names.len() == values.len() {
            let stream = FieldStream { names, values, state: 0 };
            assert(stream.remaining() =~= encoded(name_views(names@), values@));
            Some(stream)
        } else {
            None
        }
    }

    /// The entries that the stream has yet to give.
    pub closed spec fn remaining(&self) -> Seq<(Seq<char>, T)> {
        if self.names@.len() == self.values@.len() && self.state <= self.names@.len() {
            encoded(name_views(self.names@), self.values@).skip(self.state as int)
        } else {
            Seq::<(Seq<char>, T)>::empty()
        }
    }

    /// Gives the next field: its wire name and its value.
    pub fn next(&mut self) -> (r: Option<(&'a str, &'a T)>)
        ensures
            match r {
                Some((key, value)) => {
                    &&& old(self).remaining().len() > 0
                    &&& (key@, *value) == old(self).remaining()[0]
                    &&& final(self).remaining() == old(self).remaining().drop_first()
                },
                None => old(self).remaining().len() == 0 && final(self).remaining() == old(
                    self,
                ).remaining(),
            },
    {
        let state = self.state;
        if self.names.len() == self.values.len() && state < self.names.len() {
            self.state = state + 1;
            assert(old(self).remaining().drop_first() =~= self.remaining());
            Some((self.names[state].as_str(), &self.values[state]))
        } else {
            None
        }
    }
}

/// The fragment of an enumeration without payloads: the wire name of the
/// variant that is active. A number that is no variant's gives nothing.
pub fn variant_fragment(names: &[String], variant: usize) -> (r: Option<Fragment<'_>>)
    ensures
        match r {
            Some(fragment) => variant < names@.len() && fragment.shape() == Node::Str(
                names@[variant as int]@,
            ),
            None => variant >= names@.len(),
        },
{
    if variant < names.len() {
        Some(Fragment::Str(names[variant].as_str()))
    } else {
        None
    }
}

/// Plans the encoding adapter of a type: of a struct with named fields or of
/// an enum without payloads. Any other type is refused.
pub fn derive(input: &DeriveInput) -> (r: Result<Adapter, DeriveError>)
    ensures
        match adapter_plan(*input) {
            Ok(plan) => r matches Ok(adapter) && adapter.plan() == plan,
            Err(e) => r == Err::<Adapter, DeriveError>(e),
        },
{
    plan_adapter(input)
}

} // verus!
