//! The values of a dynamic document: any value, the array, and the ordered
//! mapping.

use vstd::prelude::*;

use crate::json::object::private;
use crate::json::raw::{raw_shape, RawValue};
use crate::ser::{Fragment, Node, Serialize};
use crate::text::{
    lemma_text_lt_asymmetric, lemma_text_lt_irreflexive, lemma_text_lt_total,
    lemma_text_lt_transitive, str_lt, text_lt,
};

verus! {


/// A number of a document: an integer without or with a sign.
#[derive(Copy, Clone, Debug, PartialEq, Eq, Structural)]
pub enum Number {
    U64(u64),
    I64(i64),
}

/// Any value of a document.
#[derive(Debug, PartialEq, Eq)]
pub enum Value {
    Null,
    Bool(bool),
    Number(Number),
    String(String),
    Array(Array),
    Object(Object),
    /// Wire text that is kept as it is.
    Raw(Box<RawValue>),
}

/// A `Vec<Value>` whose teardown does not recurse.
#[derive(Debug, PartialEq, Eq)]
pub struct Array {
    pub(crate) inner: Vec<Value>,
}

impl View for Array {
    type V = Seq<Value>;

    closed spec fn view(&self) -> Seq<Value> {
        self.inner@
    }
}

impl Array {
    pub fn new() -> (a: Array)
        ensures
            a@ == Seq::<Value>::empty(),
    {
        Array { inner: Vec::new() }
    }

    pub fn len(&self) -> (n: usize)
        ensures
            n == self@.len(),
    {
        self.inner.len()
    }

    pub fn push(&mut self, value: Value)
        ensures
            final(self)@ == old(self)@.push(value),
    {
        self.inner.push(value);
    }

    pub fn get(&self, i: usize) -> (r: Option<&Value>)
        ensures
            r == if i < self@.len() {
                Some(&self@[i as int])
            } else {
                None
            },
    {
        if i < self.inner.len() {
            Some(&self.inner[i])
        } else {
            None
        }
    }

    /// The items as mathematical values.
    pub closed spec fn deep(&self) -> Seq<ValueView> {
        view_all(self.inner@)
    }

    /// The items as mathematical values are, item by item, the items.
    pub proof fn lemma_deep(&self)
        ensures
            self.deep().len() == self@.len(),
            forall|i: int| 0 <= i < self@.len() ==> #[trigger] self.deep()[i] == self@[i]@,
    {
        lemma_view_all(self.inner@);
    }

    /// The shapes of the items.
    pub closed spec fn shapes(&self) -> Seq<Node> {
        shape_all(self.inner@)
    }

    /// The shapes of the items are the shapes of each item, in order.
    pub proof fn lemma_shapes(&self)
        ensures
            self.shapes() == item_shapes(self@),
            self.shapes().len() == self@.len(),
            forall|i: int|
                0 <= i < self@.len() ==> #[trigger] self.shapes()[i] == shape(self@[i]),
    {
        lemma_shape_all(self.inner@);
        assert(self.shapes() =~= item_shapes(self@));
    }

    /// Moves the items out and leaves the array empty.
    pub fn take_items(&mut self) -> (items: Vec<Value>)
        ensures
            items@ == old(self)@,
            final(self)@ == Seq::<Value>::empty(),
        opens_invariants none
        no_unwind
    {
        let mut items: Vec<Value> = vec_new();
        core::mem::swap(&mut self.inner, &mut items);
        items
    }
}

/// The number of values in a value, itself included.
pub closed spec fn weight(v: Value) -> nat
    decreases v,
{
    match v {
        Value::Array(a) => 1 + weight_all(a.inner@),
        Value::Object(o) => 1 + weight_entries(o.inner.items@),
        _ => 1,
    }
}

/// The number of values in a list of values.
pub closed spec fn weight_all(s: Seq<Value>) -> nat
    decreases s,
{
    if s.len() == 0 {
        0
    } else {
        weight_all(s.drop_last()) + weight(s.last())
    }
}

/// The number of values in the entries of a mapping.
pub closed spec fn weight_entries(s: Seq<(String, Value)>) -> nat
    decreases s,
{
    if s.len() == 0 {
        0
    } else {
        weight_entries(s.drop_last()) + weight(s.last().1)
    }
}

/// A value as a mathematical value: each string is its text, an array is
/// the list of its items, a mapping is the list of its entries in the order
/// of the keys, and a passthrough value is its text.
pub enum ValueView {
    Null,
    Bool(bool),
    Number(Number),
    String(Seq<char>),
    Array(Seq<ValueView>),
    Object(Seq<(Seq<char>, ValueView)>),
    Raw(Seq<char>),
}

impl View for Value {
    type V = ValueView;

    open spec fn view(&self) -> ValueView {
        value_view(*self)
    }
}

/// What a value is, as a mathematical value.
pub closed spec fn value_view(v: Value) -> ValueView
    decreases v,
{
    match v {
        Value::Null => ValueView::Null,
        Value::Bool(b) => ValueView::Bool(b),
        Value::Number(n) => ValueView::Number(n),
        Value::String(s) => ValueView::String(s@),
        Value::Array(a) => ValueView::Array(view_all(a.inner@)),
        Value::Object(o) => ValueView::Object(view_entries(o.inner.items@)),
        Value::Raw(r) => ValueView::Raw(r@),
    }
}

/// A list of values as mathematical values.
pub closed spec fn view_all(s: Seq<Value>) -> Seq<ValueView>
    decreases s,
{
    if s.len() == 0 {
        Seq::<ValueView>::empty()
    } else {
        view_all(s.drop_last()).push(value_view(s.last()))
    }
}

/// The entries of a mapping as mathematical values.
pub closed spec fn view_entries(s: Seq<(String, Value)>) -> Seq<(Seq<char>, ValueView)>
    decreases s,
{
    if s.len() == 0 {
        Seq::<(Seq<char>, ValueView)>::empty()
    } else {
        view_entries(s.drop_last()).push((s.last().0@, value_view(s.last().1)))
    }
}

proof fn lemma_view_all(s: Seq<Value>)
    ensures
        view_all(s).len() == s.len(),
        forall|i: int| 0 <= i < s.len() ==> #[trigger] view_all(s)[i] == s[i]@,
    decreases s.len(),
{
    if s.len() > 0 {
        lemma_view_all(s.drop_last());
    }
}

proof fn lemma_view_entries(s: Seq<(String, Value)>)
    ensures
        view_entries(s).len() == s.len(),
        forall|i: int| 0 <= i < s.len() ==> #[trigger] view_entries(s)[i] == (s[i].0@, s[i].1@),
    decreases s.len(),
{
    if s.len() > 0 {
        lemma_view_entries(s.drop_last());
    }
}

/// What a value is, kind by kind: a scalar is itself, a string its text, an
/// array its items, a mapping its entries in the order of the keys, a
/// passthrough value its text.
pub proof fn lemma_value_view(v: Value)
    ensures
        v@ == match v {
            Value::Null => ValueView::Null,
            Value::Bool(b) => ValueView::Bool(b),
            Value::Number(n) => ValueView::Number(n),
            Value::String(s) => ValueView::String(s@),
            Value::Array(a) => ValueView::Array(a.deep()),
            Value::Object(o) => ValueView::Object(o.deep()),
            Value::Raw(r) => ValueView::Raw(r@),
        },
{
}

/// Whether a value holds no passthrough value, neither itself nor anywhere
/// inside.
pub open spec fn is_plain(view: ValueView) -> bool
    decreases view,
{
    match view {
        ValueView::Raw(_) => false,
        ValueView::Array(items) => all_plain(items),
        ValueView::Object(entries) => entries_plain(entries),
        _ => true,
    }
}

/// Whether no value of a list holds a passthrough value.
pub open spec fn all_plain(items: Seq<ValueView>) -> bool
    decreases items,
{
    if items.len() == 0 {
        true
    } else {
        all_plain(items.drop_last()) && is_plain(items.last())
    }
}

/// Whether no value of the entries holds a passthrough value.
pub open spec fn entries_plain(entries: Seq<(Seq<char>, ValueView)>) -> bool
    decreases entries,
{
    if entries.len() == 0 {
        true
    } else {
        entries_plain(entries.drop_last()) && is_plain(entries.last().1)
    }
}

/// The shape that a value is encoded in, from the value as a mathematical
/// value.
pub open spec fn node_of(view: ValueView) -> Node
    decreases view,
{
    match view {
        ValueView::Null => Node::Null,
        ValueView::Bool(b) => Node::Bool(b),
        ValueView::Number(Number::U64(n)) => Node::U64(n),
        ValueView::Number(Number::I64(n)) => Node::I64(n),
        ValueView::String(s) => Node::Str(s),
        ValueView::Array(items) => Node::Sequence(nodes_of(items)),
        ValueView::Object(entries) => Node::Mapping(entry_nodes_of(entries)),
        ValueView::Raw(text) => raw_shape(text),
    }
}

/// The shapes of a list of values.
pub open spec fn nodes_of(items: Seq<ValueView>) -> Seq<Node>
    decreases items,
{
    if items.len() == 0 {
        Seq::<Node>::empty()
    } else {
        nodes_of(items.drop_last()).push(node_of(items.last()))
    }
}

/// The shapes of the entries of a mapping.
pub open spec fn entry_nodes_of(entries: Seq<(Seq<char>, ValueView)>) -> Seq<(Seq<char>, Node)>
    decreases entries,
{
    if entries.len() == 0 {
        Seq::<(Seq<char>, Node)>::empty()
    } else {
        entry_nodes_of(entries.drop_last()).push((entries.last().0, node_of(entries.last().1)))
    }
}

/// The shape of a value is a matter of what the value is: values that are
/// the same value have the same shape.
pub proof fn lemma_shape_of_view(v: Value)
    ensures
        shape(v) == node_of(v@),
    decreases v,
{
    match v {
        Value::Array(a) => {
            lemma_shape_all_of_view(a.inner@);
        },
        Value::Object(o) => {
            lemma_shape_entries_of_view(o.inner.items@);
        },
        _ => {},
    }
}

proof fn lemma_shape_all_of_view(s: Seq<Value>)
    ensures
        shape_all(s) == nodes_of(view_all(s)),
    decreases s,
{
    if s.len() > 0 {
        lemma_shape_all_of_view(s.drop_last());
        lemma_shape_of_view(s.last());
        assert(view_all(s).drop_last() =~= view_all(s.drop_last()));
    }
}

proof fn lemma_shape_entries_of_view(s: Seq<(String, Value)>)
    ensures
        shape_entries(s) == entry_nodes_of(view_entries(s)),
    decreases s,
{
    if s.len() > 0 {
        lemma_shape_entries_of_view(s.drop_last());
        lemma_shape_of_view(s.last().1);
        assert(view_entries(s).drop_last() =~= view_entries(s.drop_last()));
    }
}

proof fn lemma_nodes_of(items: Seq<ValueView>)
    ensures
        nodes_of(items).len() == items.len(),
        forall|i: int| 0 <= i < items.len() ==> #[trigger] nodes_of(items)[i] == node_of(items[i]),
        all_plain(items) <==> forall|i: int| 0 <= i < items.len() ==> is_plain(#[trigger] items[i]),
    decreases items.len(),
{
    if items.len() > 0 {
        lemma_nodes_of(items.drop_last());
        if all_plain(items) {
            assert forall|i: int| 0 <= i < items.len() implies is_plain(#[trigger] items[i]) by {
                if i < items.len() - 1 {
                    assert(items.drop_last()[i] == items[i]);
                }
            }
        }
        if forall|i: int| 0 <= i < items.len() ==> is_plain(#[trigger] items[i]) {
            assert forall|i: int| 0 <= i < items.len() - 1 implies is_plain(
                #[trigger] items.drop_last()[i],
            ) by {
                assert(items.drop_last()[i] == items[i]);
            }
            assert(is_plain(items[items.len() - 1]));
        }
    }
}

proof fn lemma_entry_nodes_of(entries: Seq<(Seq<char>, ValueView)>)
    ensures
        entry_nodes_of(entries).len() == entries.len(),
        forall|i: int|
            0 <= i < entries.len() ==> #[trigger] entry_nodes_of(entries)[i] == (
                entries[i].0,
                node_of(entries[i].1),
            ),
        entries_plain(entries) <==> forall|i: int|
            0 <= i < entries.len() ==> is_plain((#[trigger] entries[i]).1),
    decreases entries.len(),
{
    if entries.len() > 0 {
        lemma_entry_nodes_of(entries.drop_last());
        if entries_plain(entries) {
            assert forall|i: int| 0 <= i < entries.len() implies is_plain(
                (#[trigger] entries[i]).1,
            ) by {
                if i < entries.len() - 1 {
                    assert(entries.drop_last()[i] == entries[i]);
                }
            }
        }
        if forall|i: int| 0 <= i < entries.len() ==> is_plain((#[trigger] entries[i]).1) {
            assert forall|i: int| 0 <= i < entries.len() - 1 implies is_plain(
                (#[trigger] entries.drop_last()[i]).1,
            ) by {
                assert(entries.drop_last()[i] == entries[i]);
            }
            assert(is_plain(entries[entries.len() - 1].1));
        }
    }
}

/// A list of values holds no passthrough value exactly when none of its
/// values does.
pub proof fn lemma_all_plain(items: Seq<ValueView>)
    ensures
        all_plain(items) <==> forall|i: int| 0 <= i < items.len() ==> is_plain(#[trigger] items[i]),
{
    lemma_nodes_of(items);
}

/// The entries of a mapping hold no passthrough value exactly when none of
/// their values does.
pub proof fn lemma_entries_plain(entries: Seq<(Seq<char>, ValueView)>)
    ensures
        entries_plain(entries) <==> forall|i: int|
            0 <= i < entries.len() ==> is_plain((#[trigger] entries[i]).1),
{
    lemma_entry_nodes_of(entries);
}

/// Two values that hold no passthrough value and have the same shape are
/// the same value.
pub proof fn lemma_plain_shape_is_value(a: ValueView, b: ValueView)
    requires
        is_plain(a),
        is_plain(b),
        node_of(a) == node_of(b),
    ensures
        a == b,
    decreases a,
{
    match (a, b) {
        (ValueView::Array(x), ValueView::Array(y)) => {
            lemma_nodes_of(x);
            lemma_nodes_of(y);
            assert forall|i: int| 0 <= i < x.len() implies x[i] == y[i] by {
                assert(nodes_of(x)[i] == nodes_of(y)[i]);
                lemma_plain_shape_is_value(x[i], y[i]);
            }
            assert(x =~= y);
        },
        (ValueView::Object(x), ValueView::Object(y)) => {
            lemma_entry_nodes_of(x);
            lemma_entry_nodes_of(y);
            assert forall|i: int| 0 <= i < x.len() implies x[i] == y[i] by {
                assert(entry_nodes_of(x)[i] == entry_nodes_of(y)[i]);
                lemma_plain_shape_is_value(x[i].1, y[i].1);
            }
            assert(x =~= y);
        },
        _ => {},
    }
}

/// The shape that a value is encoded in.
pub closed spec fn shape(v: Value) -> Node
    decreases v,
{
    match v {
        Value::Null => Node::Null,
        Value::Bool(b) => Node::Bool(b),
        Value::Number(Number::U64(n)) => Node::U64(n),
        Value::Number(Number::I64(n)) => Node::I64(n),
        Value::String(s) => Node::Str(s@),
        Value::Array(a) => Node::Sequence(shape_all(a.inner@)),
        Value::Object(o) => Node::Mapping(shape_entries(o.inner.items@)),
        Value::Raw(r) => raw_shape(r@),
    }
}

/// The shapes of a list of values.
pub closed spec fn shape_all(s: Seq<Value>) -> Seq<Node>
    decreases s,
{
    if s.len() == 0 {
        Seq::<Node>::empty()
    } else {
        shape_all(s.drop_last()).push(shape(s.last()))
    }
}

/// The shapes of the entries of a mapping.
pub closed spec fn shape_entries(s: Seq<(String, Value)>) -> Seq<(Seq<char>, Node)>
    decreases s,
{
    if s.len() == 0 {
        Seq::<(Seq<char>, Node)>::empty()
    } else {
        shape_entries(s.drop_last()).push((s.last().0@, shape(s.last().1)))
    }
}

proof fn lemma_shape_all(s: Seq<Value>)
    ensures
        shape_all(s).len() == s.len(),
        forall|i: int| 0 <= i < s.len() ==> #[trigger] shape_all(s)[i] == shape(s[i]),
    decreases s.len(),
{
    if s.len() > 0 {
        lemma_shape_all(s.drop_last());
    }
}

proof fn lemma_shape_entries(s: Seq<(String, Value)>)
    ensures
        shape_entries(s).len() == s.len(),
        forall|i: int|
            0 <= i < s.len() ==> #[trigger] shape_entries(s)[i] == (s[i].0@, shape(s[i].1)),
    decreases s.len(),
{
    if s.len() > 0 {
        lemma_shape_entries(s.drop_last());
    }
}

/// What the shape of a value is, kind by kind: a scalar gives itself, an
/// array the shapes of its items, a mapping the shapes of its entries in the
/// order of the keys, a passthrough value its text under the reserved key.
pub proof fn lemma_shape(v: Value)
    ensures
        shape(v) == match v {
            Value::Null => Node::Null,
            Value::Bool(b) => Node::Bool(b),
            Value::Number(Number::U64(n)) => Node::U64(n),
            Value::Number(Number::I64(n)) => Node::I64(n),
            Value::String(s) => Node::Str(s@),
            Value::Array(a) => Node::Sequence(a.shapes()),
            Value::Object(o) => Node::Mapping(o.shapes()),
            Value::Raw(r) => raw_shape(r@),
        },
{
}

/// Passthrough fidelity: where a mapping holds a passthrough value, the
/// shape of the mapping has, at the place of that entry, the text of the
/// passthrough value under the reserved key, character for character.
pub proof fn lemma_passthrough_in_object(o: Object, i: int, raw: Box<RawValue>)
    requires
        0 <= i < o@.len(),
        o@[i].1 == Value::Raw(raw),
    ensures
        shape(Value::Object(o)) == Node::Mapping(o.shapes()),
        o.shapes().len() == o@.len(),
        o.shapes()[i] == (o@[i].0, raw_shape(raw@)),
{
    lemma_shape(Value::Object(o));
    lemma_shape(Value::Raw(raw));
    o.lemma_shapes();
}

/// Passthrough fidelity: where an array holds a passthrough value, the
/// shape of the array has, at the place of that item, the text of the
/// passthrough value under the reserved key, character for character.
pub proof fn lemma_passthrough_in_array(a: Array, i: int, raw: Box<RawValue>)
    requires
        0 <= i < a@.len(),
        a@[i] == Value::Raw(raw),
    ensures
        shape(Value::Array(a)) == Node::Sequence(a.shapes()),
        a.shapes().len() == a@.len(),
        a.shapes()[i] == raw_shape(raw@),
{
    lemma_shape(Value::Array(a));
    lemma_shape(Value::Raw(raw));
    a.lemma_shapes();
}

/// A list of values weighs at least what any one of them weighs.
proof fn lemma_weight_all_item(s: Seq<Value>, i: int)
    requires
        0 <= i < s.len(),
    ensures
        weight(s[i]) <= weight_all(s),
    decreases s.len(),
{
    if i < s.len() - 1 {
        lemma_weight_all_item(s.drop_last(), i);
    }
}

/// The entries of a mapping weigh at least what any one value weighs.
proof fn lemma_weight_entries_item(s: Seq<(String, Value)>, i: int)
    requires
        0 <= i < s.len(),
    ensures
        weight(s[i].1) <= weight_entries(s),
    decreases s.len(),
{
    if i < s.len() - 1 {
        lemma_weight_entries_item(s.drop_last(), i);
    }
}

/// The entries of a mapping as mathematical values: each key is its text.
pub type Entries = Seq<(Seq<char>, Value)>;

/// Whether the keys stand in the order of texts, each before the next. Such
/// keys are unique.
pub open spec fn keys_sorted<V>(entries: Seq<(Seq<char>, V)>) -> bool {
    forall|i: int, j: int|
        0 <= i < j < entries.len() ==> text_lt(#[trigger] entries[i].0, #[trigger] entries[j].0)
}

/// The number of entries whose key stands before `key`: in sorted entries,
/// the place of `key`.
pub open spec fn rank<V>(entries: Seq<(Seq<char>, V)>, key: Seq<char>) -> int
    decreases entries.len(),
{
    if entries.len() == 0 {
        0
    } else {
        rank(entries.drop_last(), key) + if text_lt(entries.last().0, key) {
            1int
        } else {
            0int
        }
    }
}

/// Whether `key` is a key of the entries.
pub open spec fn has_key<V>(entries: Seq<(Seq<char>, V)>, key: Seq<char>) -> bool {
    0 <= rank(entries, key) < entries.len() && entries[rank(entries, key)].0 == key
}

/// The value that the entries hold under `key`.
pub open spec fn found<V>(entries: Seq<(Seq<char>, V)>, key: Seq<char>) -> Option<V> {
    if has_key(entries, key) {
        Some(entries[rank(entries, key)].1)
    } else {
        None
    }
}

/// The entries with `value` under `key`: in the place of the value that was
/// there, or put in at the place of the key.
pub open spec fn put<V>(entries: Seq<(Seq<char>, V)>, key: Seq<char>, value: V) -> Seq<(Seq<char>, V)> {
    if has_key(entries, key) {
        entries.update(rank(entries, key), (key, value))
    } else {
        entries.insert(rank(entries, key), (key, value))
    }
}

/// The entries without the one under `key`.
pub open spec fn without<V>(entries: Seq<(Seq<char>, V)>, key: Seq<char>) -> Seq<(Seq<char>, V)> {
    if has_key(entries, key) {
        entries.remove(rank(entries, key))
    } else {
        entries
    }
}

/// Where every key before place `p` stands before `key` and no key from `p`
/// on does, `p` is the place of `key`.
pub proof fn lemma_rank_is<V>(entries: Seq<(Seq<char>, V)>, key: Seq<char>, p: int)
    requires
        0 <= p <= entries.len(),
        forall|i: int| 0 <= i < p ==> text_lt(#[trigger] entries[i].0, key),
        forall|i: int| p <= i < entries.len() ==> !text_lt(#[trigger] entries[i].0, key),
    ensures
        rank(entries, key) == p,
    decreases entries.len(),
{
    if entries.len() > 0 {
        let front = entries.drop_last();
        if p == entries.len() {
            assert(text_lt(entries[p - 1].0, key));
            lemma_rank_is(front, key, p - 1);
        } else {
            assert(!text_lt(entries[entries.len() - 1].0, key));
            lemma_rank_is(front, key, p);
        }
    }
}

/// In sorted entries, the keys before the place of `key` stand before it,
/// and the keys from there on do not.
pub proof fn lemma_rank_splits<V>(entries: Seq<(Seq<char>, V)>, key: Seq<char>)
    requires
        keys_sorted(entries),
    ensures
        0 <= rank(entries, key) <= entries.len(),
        forall|i: int| 0 <= i < rank(entries, key) ==> text_lt(#[trigger] entries[i].0, key),
        forall|i: int|
            rank(entries, key) <= i < entries.len() ==> !text_lt(#[trigger] entries[i].0, key),
    decreases entries.len(),
{
    if entries.len() > 0 {
        let front = entries.drop_last();
        let last = entries.last();
        assert(keys_sorted(front)) by {
            assert forall|i: int, j: int| 0 <= i < j < front.len() implies text_lt(
                #[trigger] front[i].0,
                #[trigger] front[j].0,
            ) by {
                assert(front[i] == entries[i] && front[j] == entries[j]);
            }
        }
        lemma_rank_splits(front, key);
        let p = rank(front, key);
        if text_lt(last.0, key) {
            assert forall|i: int| 0 <= i < front.len() implies text_lt(
                #[trigger] entries[i].0,
                key,
            ) by {
                assert(text_lt(entries[i].0, entries[entries.len() - 1].0));
                lemma_text_lt_transitive(entries[i].0, last.0, key);
            }
            lemma_rank_is(front, key, front.len() as int);
        } else {
            assert forall|i: int| 0 <= i < p implies text_lt(#[trigger] entries[i].0, key) by {
                assert(front[i] == entries[i]);
            }
            assert forall|i: int| p <= i < entries.len() implies !text_lt(
                #[trigger] entries[i].0,
                key,
            ) by {
                if i < front.len() {
                    assert(front[i] == entries[i]);
                }
            }
        }
    }
}

/// Putting a value under a key keeps the keys sorted.
pub proof fn lemma_put_sorted<V>(entries: Seq<(Seq<char>, V)>, key: Seq<char>, value: V)
    requires
        keys_sorted(entries),
    ensures
        keys_sorted(put(entries, key, value)),
{
    lemma_rank_splits(entries, key);
    let p = rank(entries, key);
    let after = put(entries, key, value);
    if has_key(entries, key) {
        assert forall|i: int, j: int| 0 <= i < j < after.len() implies text_lt(
            #[trigger] after[i].0,
            #[trigger] after[j].0,
        ) by {
            assert(after[i].0 == entries[i].0 && after[j].0 == entries[j].0);
        }
    } else {
        assert forall|i: int, j: int| 0 <= i < j < after.len() implies text_lt(
            #[trigger] after[i].0,
            #[trigger] after[j].0,
        ) by {
            let a = if i < p {
                i
            } else {
                i - 1
            };
            let b = if j < p {
                j
            } else {
                j - 1
            };
            if i == p {
                assert(after[j] == entries[b]);
                assert(!text_lt(entries[b].0, key));
                lemma_text_lt_total(entries[b].0, key);
                if entries[b].0 == key {
                    assert(!text_lt(entries[p].0, key));
                    if b > p {
                        assert(text_lt(entries[p].0, entries[b].0));
                    }
                }
            } else if j == p {
                assert(after[i] == entries[a]);
            } else {
                assert(after[i] == entries[a] && after[j] == entries[b]);
            }
        }
    }
}

/// Taking an entry out keeps the keys sorted.
pub proof fn lemma_without_sorted<V>(entries: Seq<(Seq<char>, V)>, key: Seq<char>)
    requires
        keys_sorted(entries),
    ensures
        keys_sorted(without(entries, key)),
{
    let p = rank(entries, key);
    let after = without(entries, key);
    if has_key(entries, key) {
        assert forall|i: int, j: int| 0 <= i < j < after.len() implies text_lt(
            #[trigger] after[i].0,
            #[trigger] after[j].0,
        ) by {
            let a = if i < p {
                i
            } else {
                i + 1
            };
            let b = if j < p {
                j
            } else {
                j + 1
            };
            assert(after[i] == entries[a] && after[j] == entries[b]);
        }
    }
}

/// What is put under a key is found under it.
pub proof fn lemma_put_found<V>(entries: Seq<(Seq<char>, V)>, key: Seq<char>, value: V)
    requires
        keys_sorted(entries),
    ensures
        found(put(entries, key, value), key) == Some(value),
        put(entries, key, value).len() == if has_key(entries, key) {
            entries.len()
        } else {
            entries.len() + 1
        },
{
    lemma_rank_splits(entries, key);
    lemma_text_lt_irreflexive(key);
    let p = rank(entries, key);
    let after = put(entries, key, value);
    assert forall|i: int| p <= i < after.len() implies !text_lt(#[trigger] after[i].0, key) by {
        if i > p {
            if has_key(entries, key) {
                assert(after[i].0 == entries[i].0);
            } else {
                assert(after[i] == entries[i - 1]);
            }
        }
    }
    assert forall|i: int| 0 <= i < p implies text_lt(#[trigger] after[i].0, key) by {
        assert(after[i].0 == entries[i].0);
    }
    lemma_rank_is(after, key, p);
}

/// What is put under a key leaves what is found under any other key.
pub proof fn lemma_put_other<V>(entries: Seq<(Seq<char>, V)>, key: Seq<char>, value: V, other: Seq<char>)
    requires
        keys_sorted(entries),
        other != key,
    ensures
        found(put(entries, key, value), other) == found(entries, other),
{
    lemma_rank_splits(entries, key);
    lemma_rank_splits(entries, other);
    lemma_text_lt_total(key, other);
    let p = rank(entries, key);
    let q = rank(entries, other);
    let after = put(entries, key, value);
    if has_key(entries, key) {
        assert forall|i: int| 0 <= i < q implies text_lt(#[trigger] after[i].0, other) by {
            assert(after[i].0 == entries[i].0);
        }
        assert forall|i: int| q <= i < after.len() implies !text_lt(
            #[trigger] after[i].0,
            other,
        ) by {
            assert(after[i].0 == entries[i].0);
        }
        lemma_rank_is(after, other, q);
        if q < entries.len() {
            assert(after[q].0 == entries[q].0);
        }
    } else {
        // The key comes in at place `p`; the place of `other` moves up by
        // one where the key stands before it.
        let shift = if text_lt(key, other) {
            1int
        } else {
            0int
        };
        if text_lt(key, other) {
            assert(p <= q) by {
                if q < p {
                    assert(text_lt(entries[q].0, key));
                    lemma_text_lt_transitive(entries[q].0, key, other);
                }
            }
        } else {
            assert(q <= p) by {
                if p < q {
                    assert(text_lt(entries[p].0, other));
                    assert(!text_lt(entries[p].0, key));
                    lemma_text_lt_total(entries[p].0, key);
                    if entries[p].0 != key {
                        lemma_text_lt_transitive(other, key, entries[p].0);
                        lemma_text_lt_asymmetric(other, entries[p].0);
                    }
                }
            }
        }
        let r = q + shift;
        assert forall|i: int| 0 <= i < r implies text_lt(#[trigger] after[i].0, other) by {
            if i < p {
                assert(after[i] == entries[i]);
            } else if i == p {
                assert(after[i].0 == key);
            } else {
                assert(after[i] == entries[i - 1]);
            }
        }
        assert forall|i: int| r <= i < after.len() implies !text_lt(
            #[trigger] after[i].0,
            other,
        ) by {
            if i < p {
                assert(after[i] == entries[i]);
            } else if i == p {
                assert(after[i].0 == key);
                lemma_text_lt_asymmetric(other, key);
            } else {
                assert(after[i] == entries[i - 1]);
            }
        }
        lemma_rank_is(after, other, r);
        if r < after.len() {
            if r < p {
                assert(after[r] == entries[r]);
            } else if r == p {
                assert(after[r].0 == key);
                if q < entries.len() {
                    assert(!text_lt(entries[q].0, key));
                    if entries[q].0 == other {
                        lemma_text_lt_asymmetric(other, key);
                    }
                }
            } else {
                assert(after[r] == entries[r - 1]);
            }
        } else {
            assert(q >= entries.len());
        }
    }
}

/// What is taken out is found no more, and what stands under any other key
/// is found as before.
pub proof fn lemma_without_found<V>(entries: Seq<(Seq<char>, V)>, key: Seq<char>, other: Seq<char>)
    requires
        keys_sorted(entries),
    ensures
        found(without(entries, key), key) is None,
        other != key ==> found(without(entries, key), other) == found(entries, other),
{
    lemma_rank_splits(entries, key);
    lemma_rank_splits(entries, other);
    lemma_text_lt_irreflexive(key);
    let p = rank(entries, key);
    let q = rank(entries, other);
    let after = without(entries, key);
    if has_key(entries, key) {
        assert forall|i: int| 0 <= i < p implies text_lt(#[trigger] after[i].0, key) by {
            assert(after[i] == entries[i]);
        }
        assert forall|i: int| p <= i < after.len() implies !text_lt(#[trigger] after[i].0, key) by {
            assert(after[i] == entries[i + 1]);
        }
        lemma_rank_is(after, key, p);
        if p < after.len() {
            assert(after[p] == entries[p + 1]);
            assert(text_lt(entries[p].0, entries[p + 1].0));
            lemma_text_lt_asymmetric(entries[p].0, entries[p + 1].0);
        }
        if other != key {
            lemma_text_lt_total(key, other);
            let shift = if text_lt(key, other) {
                1int
            } else {
                0int
            };
            if text_lt(key, other) {
                assert(p < q) by {
                    if q <= p {
                        assert(!text_lt(entries[p].0, other));
                    }
                }
            } else {
                assert(q <= p) by {
                    if p < q {
                        assert(text_lt(entries[p].0, other));
                        lemma_text_lt_asymmetric(other, key);
                    }
                }
            }
            let r = q - shift;
            assert forall|i: int| 0 <= i < r implies text_lt(#[trigger] after[i].0, other) by {
                if i < p {
                    assert(after[i] == entries[i]);
                } else {
                    assert(after[i] == entries[i + 1]);
                }
            }
            assert forall|i: int| r <= i < after.len() implies !text_lt(
                #[trigger] after[i].0,
                other,
            ) by {
                if i < p {
                    assert(after[i] == entries[i]);
                } else {
                    assert(after[i] == entries[i + 1]);
                }
            }
            lemma_rank_is(after, other, r);
            if r < after.len() {
                if r < p {
                    assert(after[r] == entries[r]);
                } else {
                    assert(after[r] == entries[r + 1]);
                }
            }
        }
    }
}

/// In sorted entries, a key that stands behind the last key is put in at
/// the end.
pub proof fn lemma_put_at_end<V>(entries: Seq<(Seq<char>, V)>, key: Seq<char>, value: V)
    requires
        keys_sorted(entries),
        entries.len() > 0 ==> text_lt(entries.last().0, key),
    ensures
        put(entries, key, value) == entries.push((key, value)),
{
    assert forall|i: int| 0 <= i < entries.len() implies text_lt(
        #[trigger] entries[i].0,
        key,
    ) by {
        if i < entries.len() - 1 {
            assert(text_lt(entries[i].0, entries[entries.len() - 1].0));
            lemma_text_lt_transitive(entries[i].0, entries.last().0, key);
        }
    }
    lemma_rank_is(entries, key, entries.len() as int);
    assert(put(entries, key, value) =~= entries.push((key, value)));
}

/// The shapes of a list of values.
pub open spec fn item_shapes(items: Seq<Value>) -> Seq<Node> {
    Seq::new(items.len(), |i: int| shape(items[i]))
}

/// The shapes of the entries of a mapping: each key with the shape of its
/// value.
pub open spec fn entry_shapes(entries: Entries) -> Seq<(Seq<char>, Node)> {
    Seq::new(entries.len(), |i: int| (entries[i].0, shape(entries[i].1)))
}

/// The entries of a list as mathematical values.
pub open spec fn entry_views(entries: Seq<(String, Value)>) -> Entries {
    entries.map_values(|e: (String, Value)| (e.0@, e.1))
}

/// The entries after each entry of a list has been put in, in order.
pub open spec fn put_all<V>(entries: Seq<(Seq<char>, V)>, more: Seq<(Seq<char>, V)>) -> Seq<
    (Seq<char>, V),
>
    decreases more.len(),
{
    if more.len() == 0 {
        entries
    } else {
        put(put_all(entries, more.drop_last()), more.last().0, more.last().1)
    }
}

/// The entries of a mapping as they are held.
#[derive(Debug, PartialEq, Eq)]
pub(crate) struct Store {
    pub(crate) items: Vec<(String, Value)>,
}

/// An ordered mapping from keys to values whose teardown does not recurse.
/// Its keys are unique and stand in the order of texts.
#[derive(Debug, PartialEq, Eq)]
pub struct Object {
    pub(crate) inner: Store,
}

impl View for Object {
    type V = Entries;

    closed spec fn view(&self) -> Entries {
        entry_views(self.inner.items@)
    }
}

impl Object {
    /// What holds of every mapping: its keys are sorted.
    #[verifier::type_invariant]
    spec fn sorted(self) -> bool {
        keys_sorted(entry_views(self.inner.items@))
    }

    /// The entries as mathematical values, in the order of the keys.
    pub closed spec fn deep(&self) -> Seq<(Seq<char>, ValueView)> {
        view_entries(self.inner.items@)
    }

    /// The entries as mathematical values are, entry by entry, the key and
    /// the value.
    pub proof fn lemma_deep(&self)
        ensures
            self.deep().len() == self@.len(),
            forall|i: int|
                0 <= i < self@.len() ==> #[trigger] self.deep()[i] == (self@[i].0, self@[i].1@),
    {
        lemma_view_entries(self.inner.items@);
    }

    /// The shapes of the entries, in the order of the keys.
    pub closed spec fn shapes(&self) -> Seq<(Seq<char>, Node)> {
        shape_entries(self.inner.items@)
    }

    /// The shapes of the entries are, entry by entry, the key and the shape
    /// of the value.
    pub proof fn lemma_shapes(&self)
        ensures
            self.shapes() == entry_shapes(self@),
            self.shapes().len() == self@.len(),
            forall|i: int|
                0 <= i < self@.len() ==> #[trigger] self.shapes()[i] == (
                    self@[i].0,
                    shape(self@[i].1),
                ),
    {
        lemma_shape_entries(self.inner.items@);
        assert(self.shapes() =~= entry_shapes(self@));
    }

    /// The entries as they are held: each key is the string itself.
    pub closed spec fn raw_entries(&self) -> Seq<(String, Value)> {
        self.inner.items@
    }

    /// A mapping without entries weighs one: itself.
    pub(crate) proof fn lemma_bare(&self)
        requires
            self@.len() == 0,
        ensures
            weight(Value::Object(*self)) == 1,
    {
        assert(self.inner.items@.len() == 0);
    }

    /// A mapping without entries.
    pub fn new() -> (o: Object)
        ensures
            o@ == Seq::<(Seq<char>, Value)>::empty(),
        opens_invariants none
        no_unwind
    {
        let o = Object { inner: Store { items: vec_new() } };
        assert(o@ =~= Seq::<(Seq<char>, Value)>::empty());
        o
    }

    pub fn len(&self) -> (n: usize)
        ensures
            n == self@.len(),
    {
        self.inner.items.len()
    }

    pub fn is_empty(&self) -> (r: bool)
        ensures
            r == (self@.len() == 0),
    {
        self.inner.items.len() == 0
    }

    /// Tells that the keys are sorted, as they are in every mapping.
    pub fn check_sorted(&self)
        ensures
            keys_sorted(self@),
    {
        proof {
            use_type_invariant(self);
        }
    }

    fn position(&self, key: &str) -> (p: usize)
        ensures
            p == rank(self@, key@),
            p <= self@.len(),
            keys_sorted(self@),
    {
        proof {
            use_type_invariant(self);
        }
        let mut lo: usize = 0;
        let mut hi: usize = self.inner.items.len();
        while lo < hi
            invariant
                lo <= hi <= self.inner.items.len(),
                keys_sorted(self@),
                self@.len() == self.inner.items.len(),
                forall|i: int| 0 <= i < lo ==> text_lt(#[trigger] self@[i].0, key@),
                forall|i: int| hi <= i < self@.len() ==> !text_lt(#[trigger] self@[i].0, key@),
            decreases hi - lo,
        {
            let mid = lo + (hi - lo) / 2;
            assert(self@[mid as int].0 == self.inner.items@[mid as int].0@);
            if str_lt(self.inner.items[mid].0.as_str(), key) {
                assert forall|i: int| 0 <= i < mid + 1 implies text_lt(
                    #[trigger] self@[i].0,
                    key@,
                ) by {
                    if i < mid {
                        assert(text_lt(self@[i].0, self@[mid as int].0));
                        lemma_text_lt_transitive(self@[i].0, self@[mid as int].0, key@);
                    }
                }
                lo = mid + 1;
            } else {
                assert forall|i: int| mid <= i < self@.len() implies !text_lt(
                    #[trigger] self@[i].0,
                    key@,
                ) by {
                    if i > mid {
                        assert(text_lt(self@[mid as int].0, self@[i].0));
                        if text_lt(self@[i].0, key@) {
                            lemma_text_lt_transitive(self@[mid as int].0, self@[i].0, key@);
                        }
                    }
                }
                hi = mid;
            }
        }
        proof {
            lemma_rank_is(self@, key@, lo as int);
        }
        lo
    }

    /// Whether the mapping holds a value under `key`.
    pub fn contains_key(&self, key: &str) -> (r: bool)
        ensures
            r == has_key(self@, key@),
    {
        let p = self.position(key);
        p < self.inner.items.len() && self.inner.items[p].0.as_str().eq(key)
    }

    /// The value under `key`.
    pub fn get(&self, key: &str) -> (r: Option<&Value>)
        ensures
            match r {
                Some(value) => found(self@, key@) == Some(*value),
                None => found(self@, key@) is None,
            },
    {
        let p = self.position(key);
        if p < self.inner.items.len() && self.inner.items[p].0.as_str().eq(key) {
            Some(&self.inner.items[p].1)
        } else {
            None
        }
    }

    /// Moves the entries out as they are held and leaves the mapping
    /// empty.
    fn take_raw(&mut self) -> (items: Vec<(String, Value)>)
        ensures
            items@ == old(self).raw_entries(),
            entry_views(items@) == old(self)@,
            keys_sorted(entry_views(items@)),
            final(self)@ == Seq::<(Seq<char>, Value)>::empty(),
        opens_invariants none
        no_unwind
    {
        proof {
            use_type_invariant(&*self);
        }
        let items = self.inner.take_items();
        assert(self@ =~= Seq::<(Seq<char>, Value)>::empty());
        items
    }

    /// Puts `value` under `key` and returns the value that was there.
    pub fn insert(&mut self, key: String, value: Value) -> (r: Option<Value>)
        ensures
            final(self)@ == put(old(self)@, key@, value),
            r == found(old(self)@, key@),
            keys_sorted(final(self)@),
    {
        let p = self.position(key.as_str());
        proof {
            lemma_put_sorted(self@, key@, value);
        }
        let mut items = self.take_raw();
        if p < items.len() && items[p].0.as_str().eq(key.as_str()) {
            let mut entry = (key, value);
            core::mem::swap(&mut items[p], &mut entry);
            assert(entry_views(items@) =~= put(old(self)@, key@, value));
            *self = Object { inner: Store { items } };
            Some(entry.1)
        } else {
            items.insert(p, (key, value));
            assert(entry_views(items@) =~= put(old(self)@, key@, value));
            *self = Object { inner: Store { items } };
            None
        }
    }

    /// Takes out the entry under `key` and returns its value.
    pub fn remove(&mut self, key: &str) -> (r: Option<Value>)
        ensures
            final(self)@ == without(old(self)@, key@),
            r == found(old(self)@, key@),
            keys_sorted(final(self)@),
    {
        let p = self.position(key);
        proof {
            lemma_without_sorted(self@, key@);
        }
        let mut items = self.take_raw();
        if p < items.len() && items[p].0.as_str().eq(key) {
            let entry = items.remove(p);
            assert(entry_views(items@) =~= without(old(self)@, key@));
            *self = Object { inner: Store { items } };
            Some(entry.1)
        } else {
            *self = Object { inner: Store { items } };
            None
        }
    }

    /// The entry at place `i`, in the order of the keys.
    pub fn entry(&self, i: usize) -> (r: Option<(&str, &Value)>)
        ensures
            match r {
                Some((key, value)) => i < self@.len() && self@[i as int] == (key@, *value),
                None => i >= self@.len(),
            },
    {
        if i < self.inner.items.len() {
            let e = &self.inner.items[i];
            Some((e.0.as_str(), &e.1))
        } else {
            None
        }
    }

    /// Moves the entries out, in the order of the keys, and leaves the
    /// mapping empty.
    pub fn take_entries(&mut self) -> (entries: Vec<(String, Value)>)
        ensures
            entries@ == old(self).raw_entries(),
            entry_views(entries@) == old(self)@,
            keys_sorted(entry_views(entries@)),
            final(self)@ == Seq::<(Seq<char>, Value)>::empty(),
        opens_invariants none
        no_unwind
    {
        self.take_raw()
    }

    /// The entries of the mapping, in the order of the keys.
    pub fn into_iter(self) -> (entries: Vec<(String, Value)>)
        ensures
            entry_views(entries@) == self@,
            keys_sorted(entry_views(entries@)),
    {
        let mut object = self;
        object.take_entries()
    }

    /// The mapping that holds the entries of a list. Of two entries with one
    /// key the later one stays.
    pub fn from_iter(entries: Vec<(String, Value)>) -> (o: Object)
        ensures
            o@ == put_all(Seq::<(Seq<char>, Value)>::empty(), entry_views(entries@)),
    {
        let ghost all = entry_views(entries@);
        let ghost empty = Seq::<(Seq<char>, Value)>::empty();
        let mut object = Object::new();
        assert(all.take(0) =~= empty);
        for e in it: entries
            invariant
                all == entry_views(it.seq()),
                empty == Seq::<(Seq<char>, Value)>::empty(),
                object@ == put_all(empty, all.take(it.index())),
        {
            proof {
                let k = it.index();
                assert(all.take(k + 1).drop_last() =~= all.take(k));
                assert(all.take(k + 1).last() == (e.0@, e.1));
            }
            object.insert(e.0, e.1);
        }
        assert(all.take(all.len() as int) =~= all);
        object
    }
}

impl Store {
    /// Moves the entries out and leaves the store empty.
    pub(crate) fn take_items(&mut self) -> (items: Vec<(String, Value)>)
        ensures
            items@ == old(self).items@,
            final(self).items@ == Seq::<(String, Value)>::empty(),
        opens_invariants none
        no_unwind
    {
        let mut items: Vec<(String, Value)> = vec_new();
        core::mem::swap(&mut self.items, &mut items);
        items
    }
}

/// `Vec::new`: a vector without items. It allocates nothing, so it always
/// returns: it does not unwind.
#[verifier::external_body]
pub(crate) fn vec_new<T>() -> (v: Vec<T>)
    ensures
        v@ == Seq::<T>::empty(),
    opens_invariants none
    no_unwind
{
    Vec::new()
}

/// `Vec::pop`: takes the last item off, or gives nothing where the vector
/// is empty. It returns in either case: it does not unwind.
#[verifier::external_body]
pub(crate) fn vec_pop<T>(vec: &mut Vec<T>) -> (value: Option<T>)
    ensures
        old(vec)@.len() > 0 ==> value == Some(old(vec)@.last())
            && final(vec)@ == old(vec)@.drop_last(),
        old(vec)@.len() == 0 ==> value == None::<T> && final(vec)@ == old(vec)@,
    opens_invariants none
    no_unwind
{
    vec.pop()
}

/// `Vec::len`: the number of items. It only reads the length: it does not
/// unwind.
#[verifier::external_body]
pub(crate) fn vec_len<T>(vec: &Vec<T>) -> (len: usize)
    ensures
        len == vec@.len(),
    opens_invariants none
    no_unwind
{
    vec.len()
}

/// Indexing a vector for writing (`IndexMut::index_mut`): the item at place
/// `i`. For a place that is there it returns: it does not unwind.
#[verifier::external_body]
pub(crate) fn vec_at_mut<T>(vec: &mut Vec<T>, i: usize) -> (element: &mut T)
    requires
        i < vec@.len(),
    ensures
        *element == old(vec)@[i as int],
        final(vec)@ == old(vec)@.update(i as int, *final(element)),
    opens_invariants none
    no_unwind
{
    &mut vec[i]
}

/// The worklist of a teardown: the children of one array or of one mapping
/// that are still to be torn down.
pub(crate) enum Work {
    Items(Vec<Value>),
    Entries(Vec<(String, Value)>),
}

impl Work {
    /// The number of values on the worklist, their children included.
    pub(crate) closed spec fn weight(self) -> nat {
        match self {
            Work::Items(items) => weight_all(items@),
            Work::Entries(entries) => weight_entries(entries@),
        }
    }

    /// What the value that comes off next weighs: nothing where the
    /// worklist is empty.
    pub(crate) closed spec fn next_weight(self) -> nat {
        match self {
            Work::Items(items) => if items@.len() == 0 {
                0
            } else {
                weight(items@.last())
            },
            Work::Entries(entries) => if entries@.len() == 0 {
                0
            } else {
                weight(entries@.last().1)
            },
        }
    }

    /// The number of children on the worklist.
    pub(crate) closed spec fn count(self) -> nat {
        match self {
            Work::Items(items) => items@.len(),
            Work::Entries(entries) => entries@.len(),
        }
    }

    /// Whether the worklist can go back into a value: entries stand in the
    /// order of their keys.
    pub(crate) closed spec fn wf(self) -> bool {
        match self {
            Work::Items(_) => true,
            Work::Entries(entries) => keys_sorted(entry_views(entries@)),
        }
    }

    /// The worklist of these items.
    pub(crate) fn of_items(items: Vec<Value>) -> (work: Work)
        ensures
            work.wf(),
        opens_invariants none
        no_unwind
    {
        Work::Items(items)
    }

    /// The worklist of these entries, which stand in the order of their
    /// keys.
    pub(crate) fn of_entries(entries: Vec<(String, Value)>) -> (work: Work)
        requires
            keys_sorted(entry_views(entries@)),
        ensures
            work.wf(),
        opens_invariants none
        no_unwind
    {
        Work::Entries(entries)
    }

    /// Whether the worklist is empty.
    pub(crate) fn is_empty(&self) -> (r: bool)
        ensures
            r == (self.count() == 0),
            r ==> self.weight() == 0,
        opens_invariants none
        no_unwind
    {
        match self {
            Work::Items(items) => vec_len(items) == 0,
            Work::Entries(entries) => vec_len(entries) == 0,
        }
    }

    /// Takes the last child off the worklist.
    pub(crate) fn pop(&mut self) -> (r: Option<Value>)
        requires
            old(self).wf(),
        ensures
            final(self).wf(),
            match r {
                Some(value) => weight(value) == old(self).next_weight() && final(self).weight()
                    + weight(value) == old(self).weight(),
                None => old(self).count() == 0 && final(self).count() == 0
                    && final(self).weight() == 0,
            },
        opens_invariants none
        no_unwind
    {
        match self {
            Work::Items(items) => {
                let ghost before = items@;
                let r = vec_pop(items);
                proof {
                    if before.len() > 0 {
                        assert(weight_all(before) == weight_all(before.drop_last()) + weight(
                            before.last(),
                        ));
                    }
                }
                r
            },
            Work::Entries(entries) => {
                let ghost before = entries@;
                match vec_pop(entries) {
                    Some(entry) => {
                        proof {
                            lemma_sorted_front(before);
                            assert(weight_entries(before) == weight_entries(before.drop_last())
                                + weight(before.last().1));
                        }
                        Some(entry.1)
                    },
                    None => None,
                }
            },
        }
    }

    /// Puts the rest of a worklist away among these children: the rest goes,
    /// as one value, into the place of the first child, and that child comes
    /// out to be torn down next. No child is added, so nothing is allocated.
    pub(crate) fn park(self, rest: Work) -> (r: (Value, Work))
        requires
            self.count() > 0,
            self.wf(),
            rest.wf(),
        ensures
            r.1.wf(),
            weight(r.0) + r.1.weight() == self.weight() + 1 + rest.weight(),
            weight(r.0) <= self.weight(),
        opens_invariants none
        no_unwind
    {
        let mut parcel = pack(rest);
        match self {
            Work::Items(kids) => {
                let mut kids = kids;
                proof {
                    lemma_weight_all_update(kids@, 0, parcel);
                }
                core::mem::swap(vec_at_mut(&mut kids, 0), &mut parcel);
                (parcel, Work::Items(kids))
            },
            Work::Entries(kids) => {
                let mut kids = kids;
                let ghost before = kids@;
                proof {
                    lemma_weight_entries_update(kids@, 0, parcel);
                }
                let first = vec_at_mut(&mut kids, 0);
                core::mem::swap(&mut first.1, &mut parcel);
                proof {
                    assert(kids@ =~= before.update(0, (before[0].0, kids@[0].1)));
                    lemma_sorted_same_keys(entry_views(before), entry_views(kids@));
                }
                (parcel, Work::Entries(kids))
            },
        }
    }
}

/// A worklist as one value: items as an array, entries as a mapping.
fn pack(rest: Work) -> (parcel: Value)
    requires
        rest.wf(),
    ensures
        weight(parcel) == 1 + rest.weight(),
    opens_invariants none
    no_unwind
{
    match rest {
        Work::Items(items) => Value::Array(Array { inner: items }),
        Work::Entries(entries) => Value::Object(Object { inner: Store { items: entries } }),
    }
}

/// Takes the children out of a value. What is left of the value is bare: it
/// holds no child, so letting it go tears nothing else down.
pub(crate) fn unpack(value: Value) -> (r: (Value, Option<Work>))
    ensures
        weight(r.0) == 1,
        match r.1 {
            Some(kids) => kids.wf() && weight(value) == 1 + kids.weight(),
            None => weight(value) == 1,
        },
    opens_invariants none
    no_unwind
{
    match value {
        Value::Array(array) => {
            let mut array = array;
            let kids = array.take_items();
            (Value::Array(array), Some(Work::Items(kids)))
        },
        Value::Object(object) => {
            let mut object = object;
            let kids = object.take_raw();
            proof {
                object.lemma_bare();
            }
            (Value::Object(object), Some(Work::Entries(kids)))
        },
        other => (other, None),
    }
}

/// Entries without the last one are sorted as the entries were.
proof fn lemma_sorted_front(entries: Seq<(String, Value)>)
    requires
        keys_sorted(entry_views(entries)),
        entries.len() > 0,
    ensures
        keys_sorted(entry_views(entries.drop_last())),
{
    let all = entry_views(entries);
    let front = entry_views(entries.drop_last());
    assert forall|i: int, j: int| 0 <= i < j < front.len() implies text_lt(
        #[trigger] front[i].0,
        #[trigger] front[j].0,
    ) by {
        assert(front[i].0 == all[i].0 && front[j].0 == all[j].0);
    }
}

/// Entries with the same keys in the same places are sorted alike.
proof fn lemma_sorted_same_keys(a: Entries, b: Entries)
    requires
        keys_sorted(a),
        a.len() == b.len(),
        forall|i: int| 0 <= i < a.len() ==> a[i].0 == b[i].0,
    ensures
        keys_sorted(b),
{
    assert forall|i: int, j: int| 0 <= i < j < b.len() implies text_lt(
        #[trigger] b[i].0,
        #[trigger] b[j].0,
    ) by {
        assert(text_lt(a[i].0, a[j].0));
    }
}

/// A list with one value put in the place of another weighs what it
/// weighed, less the one and more the other.
proof fn lemma_weight_all_update(s: Seq<Value>, i: int, v: Value)
    requires
        0 <= i < s.len(),
    ensures
        weight_all(s.update(i, v)) + weight(s[i]) == weight_all(s) + weight(v),
        weight(s[i]) <= weight_all(s),
    decreases s.len(),
{
    if i == s.len() - 1 {
        assert(s.update(i, v).drop_last() =~= s.drop_last());
    } else {
        lemma_weight_all_update(s.drop_last(), i, v);
        assert(s.update(i, v).drop_last() =~= s.drop_last().update(i, v));
    }
}

/// Entries with one value put in the place of another weigh what they
/// weighed, less the one and more the other.
proof fn lemma_weight_entries_update(s: Seq<(String, Value)>, i: int, v: Value)
    requires
        0 <= i < s.len(),
    ensures
        weight_entries(s.update(i, (s[i].0, v))) + weight(s[i].1) == weight_entries(s) + weight(
            v,
        ),
        weight(s[i].1) <= weight_entries(s),
    decreases s.len(),
{
    let t = s.update(i, (s[i].0, v));
    if i == s.len() - 1 {
        assert(t.drop_last() =~= s.drop_last());
    } else {
        lemma_weight_entries_update(s.drop_last(), i, v);
        assert(t.drop_last() =~= s.drop_last().update(i, (s[i].0, v)));
    }
}

/// The stream of an array: it gives the items in order.
pub struct ArrayIter<'a> {
    pub(crate) array: &'a Array,
    pub(crate) pos: usize,
}

impl<'a> ArrayIter<'a> {
    /// The items that the stream has yet to give.
    pub closed spec fn remaining(&self) -> Seq<Node> {
        if self.pos <= self.array@.len() {
            self.array.shapes().skip(self.pos as int)
        } else {
            Seq::<Node>::empty()
        }
    }

    /// Gives the fragment of the next item.
    pub fn next(&mut self) -> (r: Option<Fragment<'a>>)
        ensures
            match r {
                Some(child) => {
                    &&& old(self).remaining().len() > 0
                    &&& child.shape() == old(self).remaining()[0]
                    &&& final(self).remaining() == old(self).remaining().drop_first()
                },
                None => old(self).remaining().len() == 0 && final(self).remaining().len() == 0,
            },
    {
        proof {
            self.array.lemma_shapes();
        }
        let len = self.array.len();
        match self.array.get(self.pos) {
            Some(value) => {
                self.pos = self.pos + 1;
                assert(old(self).remaining().drop_first() =~= self.remaining());
                Some(value.begin())
            },
            None => None,
        }
    }
}

impl Clone for Value {
    /// A copy of a value: it is the same value, and so has the same shape.
    fn clone(&self) -> (copy: Value)
        ensures
            copy@ == self@,
            shape(copy) == shape(*self),
        decreases weight(*self), 0nat,
    {
        proof {
            lemma_shape(*self);
            lemma_value_view(*self);
        }
        let copy = match self {
            Value::Null => Value::Null,
            Value::Bool(b) => Value::Bool(*b),
            Value::Number(n) => Value::Number(*n),
            Value::String(s) => Value::String(s.clone()),
            Value::Array(a) => Value::Array(Array { inner: clone_items(&a.inner) }),
            Value::Object(o) => {
                proof {
                    use_type_invariant(o);
                }
                let items = clone_entries(&o.inner.items);
                proof {
                    lemma_keys_sorted_by_keys(items@, o.inner.items@);
                }
                Value::Object(Object { inner: Store { items } })
            },
            Value::Raw(r) => Value::Raw(RawValue::to_owned(r)),
        };
        proof {
            lemma_shape(copy);
            lemma_value_view(copy);
        }
        copy
    }
}

/// Copies a list of values, item by item.
fn clone_items(items: &Vec<Value>) -> (copy: Vec<Value>)
    ensures
        view_all(copy@) == view_all(items@),
        shape_all(copy@) == shape_all(items@),
    decreases weight_all(items@), 1nat,
{
    let mut copy: Vec<Value> = Vec::new();
    let mut i: usize = 0;
    while i < items.len()
        invariant
            i <= items.len(),
            view_all(copy@) == view_all(items@.take(i as int)),
            shape_all(copy@) == shape_all(items@.take(i as int)),
        decreases items.len() - i,
    {
        proof {
            assert(items@.take(i + 1).drop_last() =~= items@.take(i as int));
            assert(items@.take(i + 1).last() == items@[i as int]);
            lemma_weight_all_item(items@, i as int);
        }
        let ghost before = copy@;
        let item = items[i].clone();
        copy.push(item);
        assert(copy@.drop_last() =~= before);
        i += 1;
    }
    assert(items@.take(i as int) =~= items@);
    copy
}

/// Copies the entries of a mapping, entry by entry.
fn clone_entries(entries: &Vec<(String, Value)>) -> (copy: Vec<(String, Value)>)
    ensures
        view_entries(copy@) == view_entries(entries@),
        shape_entries(copy@) == shape_entries(entries@),
        entry_keys(copy@) == entry_keys(entries@),
    decreases weight_entries(entries@), 1nat,
{
    let mut copy: Vec<(String, Value)> = Vec::new();
    let mut i: usize = 0;
    assert(entry_keys(copy@) =~= entry_keys(entries@.take(0)));
    while i < entries.len()
        invariant
            i <= entries.len(),
            view_entries(copy@) == view_entries(entries@.take(i as int)),
            shape_entries(copy@) == shape_entries(entries@.take(i as int)),
            entry_keys(copy@) == entry_keys(entries@.take(i as int)),
        decreases entries.len() - i,
    {
        proof {
            assert(entries@.take(i + 1).drop_last() =~= entries@.take(i as int));
            assert(entries@.take(i + 1).last() == entries@[i as int]);
            lemma_weight_entries_item(entries@, i as int);
        }
        let ghost before = copy@;
        let key = entries[i].0.clone();
        let value = entries[i].1.clone();
        copy.push((key, value));
        assert(copy@.drop_last() =~= before);
        assert(copy@ =~= before.push((key, value)));
        assert(entry_keys(copy@) =~= entry_keys(before).push(key@));
        assert(entry_keys(entries@.take(i + 1)) =~= entry_keys(entries@.take(i as int)).push(
            key@,
        ));
        i += 1;
    }
    assert(entries@.take(i as int) =~= entries@);
    copy
}

impl Clone for Array {
    /// A copy of an array: it holds the same items, which so have the same
    /// shapes.
    fn clone(&self) -> (copy: Array)
        ensures
            copy.deep() == self.deep(),
            copy.shapes() == self.shapes(),
    {
        Array { inner: clone_items(&self.inner) }
    }
}

impl Default for Object {
    /// A mapping without entries.
    fn default() -> (o: Object)
        ensures
            o@ == Seq::<(Seq<char>, Value)>::empty(),
    {
        Object::new()
    }
}

impl Clone for Object {
    /// A copy of a mapping: it holds the same entries, which so have the
    /// same shapes.
    fn clone(&self) -> (copy: Object)
        ensures
            copy.deep() == self.deep(),
            copy.shapes() == self.shapes(),
    {
        proof {
            use_type_invariant(self);
        }
        let items = clone_entries(&self.inner.items);
        proof {
            lemma_keys_sorted_by_keys(items@, self.inner.items@);
        }
        Object { inner: Store { items } }
    }
}

/// The keys of a list of entries, as texts.
pub open spec fn entry_keys(entries: Seq<(String, Value)>) -> Seq<Seq<char>> {
    entries.map_values(|e: (String, Value)| e.0@)
}

/// Entries with the same keys are sorted alike.
proof fn lemma_keys_sorted_by_keys(a: Seq<(String, Value)>, b: Seq<(String, Value)>)
    requires
        keys_sorted(entry_views(b)),
        entry_keys(a) == entry_keys(b),
    ensures
        keys_sorted(entry_views(a)),
{
    let x = entry_views(a);
    let y = entry_views(b);
    assert(entry_keys(a).len() == a.len());
    assert(entry_keys(b).len() == b.len());
    assert(x.len() == a.len() && y.len() == b.len());
    assert forall|i: int, j: int| 0 <= i < j < x.len() implies text_lt(
        #[trigger] x[i].0,
        #[trigger] x[j].0,
    ) by {
        assert(x[i].0 == entry_keys(a)[i] && y[i].0 == entry_keys(b)[i]);
        assert(x[j].0 == entry_keys(a)[j] && y[j].0 == entry_keys(b)[j]);
        assert(text_lt(y[i].0, y[j].0));
    }
}

impl Serialize for Value {
    open spec fn encoded_shape(&self) -> Node {
        shape(*self)
    }

    fn begin(&self) -> (fragment: Fragment<'_>) {
        Value::begin(self)
    }
}

impl Serialize for Object {
    open spec fn encoded_shape(&self) -> Node {
        Node::Mapping(self.shapes())
    }

    fn begin(&self) -> (fragment: Fragment<'_>) {
        private::stream_object(self)
    }
}

impl Serialize for Array {
    open spec fn encoded_shape(&self) -> Node {
        Node::Sequence(self.shapes())
    }

    fn begin(&self) -> (fragment: Fragment<'_>) {
        let stream = ArrayIter { array: self, pos: 0 };
        assert(stream.remaining() =~= self.shapes());
        Fragment::Sequence(stream)
    }
}

impl Value {
    /// The fragment of a value. A scalar gives itself; an array and a
    /// mapping give the stream of their children; a passthrough value gives
    /// its text under the reserved key.
    pub fn begin(&self) -> (fragment: Fragment<'_>)
        ensures
            fragment.shape() == shape(*self),
    {
        proof {
            lemma_shape(*self);
        }
        match self {
            Value::Null => Fragment::Null,
            Value::Bool(b) => Fragment::Bool(*b),
            Value::Number(Number::U64(n)) => Fragment::U64(*n),
            Value::Number(Number::I64(n)) => Fragment::I64(*n),
            Value::String(s) => Fragment::Str(s.as_str()),
            Value::Array(a) => {
                let stream = ArrayIter { array: a, pos: 0 };
                assert(stream.remaining() =~= a.shapes());
                Fragment::Sequence(stream)
            },
            Value::Object(o) => private::stream_object(o),
            Value::Raw(r) => r.begin(),
        }
    }
}

} // verus!
