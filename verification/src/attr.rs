//! Attributes: from the items of an attribute list to directives, and from
//! there to the configuration of a node and to its wire name.
//!
//! An attribute is held as plain values: its path, and for each item
//! between its parentheses the item's name and what is written behind `=`:
//! nothing, a string literal with the text it stands for, or anything else.

use vstd::prelude::*;

use crate::case::Case;
use crate::error::ConfigError;
use crate::modifier::{opt_text, Modifier, ModifierKind, ModifierView};
use crate::opts::{
    resolve, views, ContainerOpts, ContainerOptsView, FieldOpts, FieldOptsView, VariantOpts,
    VariantOptsView,
};

verus! {

/// Why an attribute could not be read.
#[derive(Copy, Clone, Debug, PartialEq, Eq, Structural)]
pub enum AttrError {
    /// The name is not that of a directive.
    Unsupported,
    /// The directive needs a value and none is written.
    MissingValue,
    /// The value is not a string literal.
    NotAString,
    /// The directive takes no value and one is written.
    UnexpectedValue,
    /// `content` does not follow a `tag`.
    ContentWithoutTag,
    /// The directives are read but cannot be resolved.
    Config(ConfigError),
}

/// What is written behind the `=` of an item.
#[derive(Clone, Debug, PartialEq, Eq)]
pub enum MetaValue {
    /// Nothing: the item is a name alone.
    Absent,
    /// A string literal, with the text it stands for.
    Text(String),
    /// Anything that is no string literal.
    Other,
}

/// The value of an item as a mathematical value.
pub enum MetaValueView {
    Absent,
    Text(Seq<char>),
    Other,
}

impl View for MetaValue {
    type V = MetaValueView;

    open spec fn view(&self) -> MetaValueView {
        match self {
            MetaValue::Absent => MetaValueView::Absent,
            MetaValue::Text(text) => MetaValueView::Text(text@),
            MetaValue::Other => MetaValueView::Other,
        }
    }
}

/// One item of an attribute's list: `name`, or `name = value`.
#[derive(Clone, Debug, PartialEq, Eq)]
pub struct MetaItem {
    pub name: String,
    pub value: MetaValue,
}

/// An item as a mathematical value.
pub struct MetaItemView {
    pub name: Seq<char>,
    pub value: MetaValueView,
}

impl View for MetaItem {
    type V = MetaItemView;

    open spec fn view(&self) -> MetaItemView {
        MetaItemView { name: self.name@, value: self.value@ }
    }
}

/// An attribute: its path and the items between its parentheses.
#[derive(Clone, Debug, PartialEq, Eq)]
pub struct Attr {
    pub path: String,
    pub items: Vec<MetaItem>,
}

/// An attribute as a mathematical value.
pub struct AttrView {
    pub path: Seq<char>,
    pub items: Seq<MetaItemView>,
}

impl View for Attr {
    type V = AttrView;

    open spec fn view(&self) -> AttrView {
        AttrView { path: self.path@, items: self.items@.map_values(|item: MetaItem| item@) }
    }
}

/// The attributes of a list as mathematical values.
pub open spec fn attr_views(attrs: Seq<Attr>) -> Seq<AttrView> {
    attrs.map_values(|attr: Attr| attr@)
}

/// Whether the items of an attribute with this path are directives.
pub open spec fn is_directive_path(path: Seq<char>) -> bool {
    path == "serde"@
}

/// Whether the items of an attribute with this path are directives: others
/// are passed over, whatever they hold.
pub fn is_directive_attr(path: &str) -> (r: bool)
    ensures
        r == is_directive_path(path@),
{
    path.eq("serde")
}

/// The kind that an item's name stands for. `content` stands for the
/// adjacent tag, which it makes together with the `tag` before it.
pub open spec fn kind_of_name(name: Seq<char>) -> Option<ModifierKind> {
    if name == "rename"@ {
        Some(ModifierKind::Rename)
    } else if name == "rename_all"@ {
        Some(ModifierKind::RenameAll)
    } else if name == "rename_all_fields"@ {
        Some(ModifierKind::RenameAllFields)
    } else if name == "deny_unknown_fields"@ {
        Some(ModifierKind::DenyUnknownFields)
    } else if name == "tag"@ {
        Some(ModifierKind::TagInternal)
    } else if name == "content"@ {
        Some(ModifierKind::TagAdjacent)
    } else if name == "untagged"@ {
        Some(ModifierKind::Untagged)
    } else if name == "bound"@ {
        Some(ModifierKind::Bound)
    } else if name == "default"@ {
        Some(ModifierKind::Default)
    } else if name == "remote"@ {
        Some(ModifierKind::Remote)
    } else if name == "transparent"@ {
        Some(ModifierKind::Transparent)
    } else if name == "from"@ {
        Some(ModifierKind::From)
    } else if name == "try_from"@ {
        Some(ModifierKind::TryFrom)
    } else if name == "into"@ {
        Some(ModifierKind::Into)
    } else if name == "crate"@ {
        Some(ModifierKind::Crate)
    } else if name == "expecting"@ {
        Some(ModifierKind::Expecting)
    } else if name == "variant_identifier"@ {
        Some(ModifierKind::VariantIdentifier)
    } else if name == "field_identifier"@ {
        Some(ModifierKind::FieldIdentifier)
    } else if name == "alias"@ {
        Some(ModifierKind::Alias)
    } else if name == "skip"@ {
        Some(ModifierKind::Skip)
    } else if name == "skip_serializing"@ {
        Some(ModifierKind::SkipSerializing)
    } else if name == "skip_deserializing"@ {
        Some(ModifierKind::SkipDeserializing)
    } else if name == "serialize_with"@ {
        Some(ModifierKind::SerializeWith)
    } else if name == "deserialize_with"@ {
        Some(ModifierKind::DeserializeWith)
    } else if name == "with"@ {
        Some(ModifierKind::With)
    } else if name == "borrow"@ {
        Some(ModifierKind::Borrow)
    } else if name == "other"@ {
        Some(ModifierKind::Other)
    } else if name == "flatten"@ {
        Some(ModifierKind::Flatten)
    } else if name == "skip_serializing_if"@ {
        Some(ModifierKind::SkipSerializingIf)
    } else if name == "getter"@ {
        Some(ModifierKind::Getter)
    } else {
        None
    }
}

/// Reads the name of an item.
pub fn kind_of(name: &str) -> (r: Option<ModifierKind>)
    ensures
        r == kind_of_name(name@),
{
    if name.eq("rename") {
        Some(ModifierKind::Rename)
    } else if name.eq("rename_all") {
        Some(ModifierKind::RenameAll)
    } else if name.eq("rename_all_fields") {
        Some(ModifierKind::RenameAllFields)
    } else if name.eq("deny_unknown_fields") {
        Some(ModifierKind::DenyUnknownFields)
    } else if name.eq("tag") {
        Some(ModifierKind::TagInternal)
    } else if name.eq("content") {
        Some(ModifierKind::TagAdjacent)
    } else if name.eq("untagged") {
        Some(ModifierKind::Untagged)
    } else if name.eq("bound") {
        Some(ModifierKind::Bound)
    } else if name.eq("default") {
        Some(ModifierKind::Default)
    } else if name.eq("remote") {
        Some(ModifierKind::Remote)
    } else if name.eq("transparent") {
        Some(ModifierKind::Transparent)
    } else if name.eq("from") {
        Some(ModifierKind::From)
    } else if name.eq("try_from") {
        Some(ModifierKind::TryFrom)
    } else if name.eq("into") {
        Some(ModifierKind::Into)
    } else if name.eq("crate") {
        Some(ModifierKind::Crate)
    } else if name.eq("expecting") {
        Some(ModifierKind::Expecting)
    } else if name.eq("variant_identifier") {
        Some(ModifierKind::VariantIdentifier)
    } else if name.eq("field_identifier") {
        Some(ModifierKind::FieldIdentifier)
    } else if name.eq("alias") {
        Some(ModifierKind::Alias)
    } else if name.eq("skip") {
        Some(ModifierKind::Skip)
    } else if name.eq("skip_serializing") {
        Some(ModifierKind::SkipSerializing)
    } else if name.eq("skip_deserializing") {
        Some(ModifierKind::SkipDeserializing)
    } else if name.eq("serialize_with") {
        Some(ModifierKind::SerializeWith)
    } else if name.eq("deserialize_with") {
        Some(ModifierKind::DeserializeWith)
    } else if name.eq("with") {
        Some(ModifierKind::With)
    } else if name.eq("borrow") {
        Some(ModifierKind::Borrow)
    } else if name.eq("other") {
        Some(ModifierKind::Other)
    } else if name.eq("flatten") {
        Some(ModifierKind::Flatten)
    } else if name.eq("skip_serializing_if") {
        Some(ModifierKind::SkipSerializingIf)
    } else if name.eq("getter") {
        Some(ModifierKind::Getter)
    } else {
        None
    }
}

/// Whether a directive of this kind is written without a value.
pub open spec fn is_flag(kind: ModifierKind) -> bool {
    match kind {
        ModifierKind::DenyUnknownFields
        | ModifierKind::Untagged
        | ModifierKind::Transparent
        | ModifierKind::VariantIdentifier
        | ModifierKind::FieldIdentifier
        | ModifierKind::Skip
        | ModifierKind::SkipSerializing
        | ModifierKind::SkipDeserializing
        | ModifierKind::Other
        | ModifierKind::Flatten => true,
        _ => false,
    }
}

/// Whether a directive of this kind is written without a value.
pub fn kind_is_flag(kind: ModifierKind) -> (r: bool)
    ensures
        r == is_flag(kind),
{
    match kind {
        ModifierKind::DenyUnknownFields
        | ModifierKind::Untagged
        | ModifierKind::Transparent
        | ModifierKind::VariantIdentifier
        | ModifierKind::FieldIdentifier
        | ModifierKind::Skip
        | ModifierKind::SkipSerializing
        | ModifierKind::SkipDeserializing
        | ModifierKind::Other
        | ModifierKind::Flatten => true,
        _ => false,
    }
}

/// The directive of a kind with the text of its value, where one is
/// written. One text serves both for encoding and for decoding. A kind that
/// needs a value and has none, or has one and takes none, is an error, and so
/// is `content` by itself.
pub open spec fn directive(kind: ModifierKind, value: Option<Seq<char>>) -> Result<
    ModifierView,
    AttrError,
> {
    match kind {
        ModifierKind::Rename => match value {
            Some(v) => Ok(ModifierView::Rename {
                serialize_name: Some(v),
                deserialize_name: Some(v),
            }),
            None => Err(AttrError::MissingValue),
        },
        ModifierKind::RenameAll => match value {
            Some(v) => Ok(ModifierView::RenameAll {
                serialize_case: Some(v),
                deserialize_case: Some(v),
            }),
            None => Err(AttrError::MissingValue),
        },
        ModifierKind::RenameAllFields => match value {
            Some(v) => Ok(ModifierView::RenameAllFields {
                serialize_case: Some(v),
                deserialize_case: Some(v),
            }),
            None => Err(AttrError::MissingValue),
        },
        ModifierKind::DenyUnknownFields => match value {
            Some(_) => Err(AttrError::UnexpectedValue),
            None => Ok(ModifierView::DenyUnknownFields),
        },
        ModifierKind::TagInternal => match value {
            Some(v) => Ok(ModifierView::TagInternal { field: v }),
            None => Err(AttrError::MissingValue),
        },
        ModifierKind::TagAdjacent => match value {
            Some(_) => Err(AttrError::ContentWithoutTag),
            None => Err(AttrError::MissingValue),
        },
        ModifierKind::Untagged => match value {
            Some(_) => Err(AttrError::UnexpectedValue),
            None => Ok(ModifierView::Untagged),
        },
        ModifierKind::Bound => match value {
            Some(v) => Ok(ModifierView::Bound { serialize: Some(v), deserialize: Some(v) }),
            None => Err(AttrError::MissingValue),
        },
        ModifierKind::Default => Ok(ModifierView::Default { item: value }),
        ModifierKind::Remote => match value {
            Some(v) => Ok(ModifierView::Remote { item: v }),
            None => Err(AttrError::MissingValue),
        },
        ModifierKind::Transparent => match value {
            Some(_) => Err(AttrError::UnexpectedValue),
            None => Ok(ModifierView::Transparent),
        },
        ModifierKind::From => match value {
            Some(v) => Ok(ModifierView::From { item: v }),
            None => Err(AttrError::MissingValue),
        },
        ModifierKind::TryFrom => match value {
            Some(v) => Ok(ModifierView::TryFrom { item: v }),
            None => Err(AttrError::MissingValue),
        },
        ModifierKind::Into => match value {
            Some(v) => Ok(ModifierView::Into { item: v }),
            None => Err(AttrError::MissingValue),
        },
        ModifierKind::Crate => match value {
            Some(v) => Ok(ModifierView::Crate { path: v }),
            None => Err(AttrError::MissingValue),
        },
        ModifierKind::Expecting => match value {
            Some(v) => Ok(ModifierView::Expecting { expectation: v }),
            None => Err(AttrError::MissingValue),
        },
        ModifierKind::VariantIdentifier => match value {
            Some(_) => Err(AttrError::UnexpectedValue),
            None => Ok(ModifierView::VariantIdentifier),
        },
        ModifierKind::FieldIdentifier => match value {
            Some(_) => Err(AttrError::UnexpectedValue),
            None => Ok(ModifierView::FieldIdentifier),
        },
        ModifierKind::Alias => match value {
            Some(v) => Ok(ModifierView::Alias { name: v }),
            None => Err(AttrError::MissingValue),
        },
        ModifierKind::Skip => match value {
            Some(_) => Err(AttrError::UnexpectedValue),
            None => Ok(ModifierView::Skip),
        },
        ModifierKind::SkipSerializing => match value {
            Some(_) => Err(AttrError::UnexpectedValue),
            None => Ok(ModifierView::SkipSerializing),
        },
        ModifierKind::SkipDeserializing => match value {
            Some(_) => Err(AttrError::UnexpectedValue),
            None => Ok(ModifierView::SkipDeserializing),
        },
        ModifierKind::SerializeWith => match value {
            Some(v) => Ok(ModifierView::SerializeWith { imp: v }),
            None => Err(AttrError::MissingValue),
        },
        ModifierKind::DeserializeWith => match value {
            Some(v) => Ok(ModifierView::DeserializeWith { imp: v }),
            None => Err(AttrError::MissingValue),
        },
        ModifierKind::With => match value {
            Some(v) => Ok(ModifierView::With { imp: v }),
            None => Err(AttrError::MissingValue),
        },
        ModifierKind::Borrow => Ok(ModifierView::Borrow { li: value }),
        ModifierKind::Other => match value {
            Some(_) => Err(AttrError::UnexpectedValue),
            None => Ok(ModifierView::Other),
        },
        ModifierKind::Flatten => match value {
            Some(_) => Err(AttrError::UnexpectedValue),
            None => Ok(ModifierView::Flatten),
        },
        ModifierKind::SkipSerializingIf => match value {
            Some(v) => Ok(ModifierView::SkipSerializingIf { imp: v }),
            None => Err(AttrError::MissingValue),
        },
        ModifierKind::Getter => match value {
            Some(v) => Ok(ModifierView::Getter { item: v }),
            None => Err(AttrError::MissingValue),
        },
    }
}

/// Builds the directive of a kind from the text of its value.
pub fn modifier_from(kind: ModifierKind, value: Option<String>) -> (r: Result<Modifier, AttrError>)
    ensures
        match directive(kind, opt_text(value)) {
            Ok(view) => r matches Ok(m) && m@ == view,
            Err(e) => r == Err::<Modifier, AttrError>(e),
        },
{
    match kind {
        ModifierKind::Rename => match value {
            Some(v) => Ok(Modifier::Rename {
                serialize_name: Some(v.clone()),
                deserialize_name: Some(v),
            }),
            None => Err(AttrError::MissingValue),
        },
        ModifierKind::RenameAll => match value {
            Some(v) => Ok(Modifier::RenameAll {
                serialize_case: Some(v.clone()),
                deserialize_case: Some(v),
            }),
            None => Err(AttrError::MissingValue),
        },
        ModifierKind::RenameAllFields => match value {
            Some(v) => Ok(Modifier::RenameAllFields {
                serialize_case: Some(v.clone()),
                deserialize_case: Some(v),
            }),
            None => Err(AttrError::MissingValue),
        },
        ModifierKind::DenyUnknownFields => match value {
            Some(_) => Err(AttrError::UnexpectedValue),
            None => Ok(Modifier::DenyUnknownFields),
        },
        ModifierKind::TagInternal => match value {
            Some(v) => Ok(Modifier::TagInternal { field: v }),
            None => Err(AttrError::MissingValue),
        },
        ModifierKind::TagAdjacent => match value {
            Some(_) => Err(AttrError::ContentWithoutTag),
            None => Err(AttrError::MissingValue),
        },
        ModifierKind::Untagged => match value {
            Some(_) => Err(AttrError::UnexpectedValue),
            None => Ok(Modifier::Untagged),
        },
        ModifierKind::Bound => match value {
            Some(v) => Ok(Modifier::Bound { serialize: Some(v.clone()), deserialize: Some(v) }),
            None => Err(AttrError::MissingValue),
        },
        ModifierKind::Default => Ok(Modifier::Default { item: value }),
        ModifierKind::Remote => match value {
            Some(v) => Ok(Modifier::Remote { item: v }),
            None => Err(AttrError::MissingValue),
        },
        ModifierKind::Transparent => match value {
            Some(_) => Err(AttrError::UnexpectedValue),
            None => Ok(Modifier::Transparent),
        },
        ModifierKind::From => match value {
            Some(v) => Ok(Modifier::From { item: v }),
            None => Err(AttrError::MissingValue),
        },
        ModifierKind::TryFrom => match value {
            Some(v) => Ok(Modifier::TryFrom { item: v }),
            None => Err(AttrError::MissingValue),
        },
        ModifierKind::Into => match value {
            Some(v) => Ok(Modifier::Into { item: v }),
            None => Err(AttrError::MissingValue),
        },
        ModifierKind::Crate => match value {
            Some(v) => Ok(Modifier::Crate { path: v }),
            None => Err(AttrError::MissingValue),
        },
        ModifierKind::Expecting => match value {
            Some(v) => Ok(Modifier::Expecting { expectation: v }),
            None => Err(AttrError::MissingValue),
        },
        ModifierKind::VariantIdentifier => match value {
            Some(_) => Err(AttrError::UnexpectedValue),
            None => Ok(Modifier::VariantIdentifier),
        },
        ModifierKind::FieldIdentifier => match value {
            Some(_) => Err(AttrError::UnexpectedValue),
            None => Ok(Modifier::FieldIdentifier),
        },
        ModifierKind::Alias => match value {
            Some(v) => Ok(Modifier::Alias { name: v }),
            None => Err(AttrError::MissingValue),
        },
        ModifierKind::Skip => match value {
            Some(_) => Err(AttrError::UnexpectedValue),
            None => Ok(Modifier::Skip),
        },
        ModifierKind::SkipSerializing => match value {
            Some(_) => Err(AttrError::UnexpectedValue),
            None => Ok(Modifier::SkipSerializing),
        },
        ModifierKind::SkipDeserializing => match value {
            Some(_) => Err(AttrError::UnexpectedValue),
            None => Ok(Modifier::SkipDeserializing),
        },
        ModifierKind::SerializeWith => match value {
            Some(v) => Ok(Modifier::SerializeWith { imp: v }),
            None => Err(AttrError::MissingValue),
        },
        ModifierKind::DeserializeWith => match value {
            Some(v) => Ok(Modifier::DeserializeWith { imp: v }),
            None => Err(AttrError::MissingValue),
        },
        ModifierKind::With => match value {
            Some(v) => Ok(Modifier::With { imp: v }),
            None => Err(AttrError::MissingValue),
        },
        ModifierKind::Borrow => Ok(Modifier::Borrow { li: value }),
        ModifierKind::Other => match value {
            Some(_) => Err(AttrError::UnexpectedValue),
            None => Ok(Modifier::Other),
        },
        ModifierKind::Flatten => match value {
            Some(_) => Err(AttrError::UnexpectedValue),
            None => Ok(Modifier::Flatten),
        },
        ModifierKind::SkipSerializingIf => match value {
            Some(v) => Ok(Modifier::SkipSerializingIf { imp: v }),
            None => Err(AttrError::MissingValue),
        },
        ModifierKind::Getter => match value {
            Some(v) => Ok(Modifier::Getter { item: v }),
            None => Err(AttrError::MissingValue),
        },
    }
}

/// The text of the value of an item of a kind: nothing where none is
/// written. A value behind a kind that takes none, and a value that is no
/// string literal, are errors.
pub open spec fn value_text(kind: ModifierKind, value: MetaValueView) -> Result<
    Option<Seq<char>>,
    AttrError,
> {
    match value {
        MetaValueView::Absent => Ok(None),
        MetaValueView::Text(text) => if is_flag(kind) {
            Err(AttrError::UnexpectedValue)
        } else {
            Ok(Some(text))
        },
        MetaValueView::Other => if is_flag(kind) {
            Err(AttrError::UnexpectedValue)
        } else {
            Err(AttrError::NotAString)
        },
    }
}

fn read_value(kind: ModifierKind, value: &MetaValue) -> (r: Result<Option<String>, AttrError>)
    ensures
        match value_text(kind, value@) {
            Ok(text) => r matches Ok(found) && opt_text(found) == text,
            Err(e) => r == Err::<Option<String>, AttrError>(e),
        },
{
    match value {
        MetaValue::Absent => Ok(None),
        MetaValue::Text(text) => {
            if kind_is_flag(kind) {
                Err(AttrError::UnexpectedValue)
            } else {
                Ok(Some(text.clone()))
            }
        },
        MetaValue::Other => {
            if kind_is_flag(kind) {
                Err(AttrError::UnexpectedValue)
            } else {
                Err(AttrError::NotAString)
            }
        },
    }
}

/// The directive that one item stands for.
pub open spec fn parsed(item: MetaItemView) -> Result<ModifierView, AttrError> {
    match kind_of_name(item.name) {
        None => Err(AttrError::Unsupported),
        Some(kind) => match value_text(kind, item.value) {
            Ok(text) => directive(kind, text),
            Err(e) => Err(e),
        },
    }
}

/// Reads one item as a directive.
pub fn parse_modifier(item: &MetaItem) -> (r: Result<Modifier, AttrError>)
    ensures
        match parsed(item@) {
            Ok(view) => r matches Ok(m) && m@ == view,
            Err(e) => r == Err::<Modifier, AttrError>(e),
        },
{
    match kind_of(item.name.as_str()) {
        None => Err(AttrError::Unsupported),
        Some(kind) => match read_value(kind, &item.value) {
            Ok(text) => modifier_from(kind, text),
            Err(e) => Err(e),
        },
    }
}

/// The text of the value of a `content` item.
pub open spec fn content_text(item: MetaItemView) -> Result<Seq<char>, AttrError> {
    match value_text(ModifierKind::TagAdjacent, item.value) {
        Ok(Some(content)) => Ok(content),
        Ok(None) => Err(AttrError::MissingValue),
        Err(e) => Err(e),
    }
}

/// The directives read so far, with one more item. `content` joins the
/// `tag` directive that stands last into one adjacent tag; any other item
/// adds the directive it stands for.
pub open spec fn with_item(acc: Seq<ModifierView>, item: MetaItemView) -> Result<
    Seq<ModifierView>,
    AttrError,
> {
    if kind_of_name(item.name) == Some(ModifierKind::TagAdjacent) {
        match content_text(item) {
            Ok(content) => if acc.len() > 0 {
                match acc.last() {
                    ModifierView::TagInternal { field } => Ok(
                        acc.drop_last().push(ModifierView::TagAdjacent { tag: field, content }),
                    ),
                    _ => Err(AttrError::ContentWithoutTag),
                }
            } else {
                Err(AttrError::ContentWithoutTag)
            },
            Err(e) => Err(e),
        }
    } else {
        match parsed(item) {
            Ok(m) => Ok(acc.push(m)),
            Err(e) => Err(e),
        }
    }
}

/// The directives that a list of items stands for, or the error of the
/// first item that cannot be read.
pub open spec fn collected(items: Seq<MetaItemView>) -> Result<Seq<ModifierView>, AttrError>
    decreases items.len(),
{
    if items.len() == 0 {
        Ok(Seq::<ModifierView>::empty())
    } else {
        match collected(items.drop_last()) {
            Ok(acc) => with_item(acc, items.last()),
            Err(e) => Err(e),
        }
    }
}

/// The items of the attributes that hold directives, in the order in which
/// they are written.
pub open spec fn directive_items(attrs: Seq<AttrView>) -> Seq<MetaItemView>
    decreases attrs.len(),
{
    if attrs.len() == 0 {
        Seq::<MetaItemView>::empty()
    } else {
        directive_items(attrs.drop_last()) + if is_directive_path(attrs.last().path) {
            attrs.last().items
        } else {
            Seq::<MetaItemView>::empty()
        }
    }
}

/// The directives that the attributes of a node hold.
pub open spec fn attr_directives(attrs: Seq<AttrView>) -> Result<Seq<ModifierView>, AttrError> {
    collected(directive_items(attrs))
}

/// Behind an item that cannot be read, no item is looked at.
pub proof fn lemma_collected_stops(front: Seq<MetaItemView>, back: Seq<MetaItemView>)
    requires
        collected(front) is Err,
    ensures
        collected(front + back) == collected(front),
    decreases back.len(),
{
    if back.len() == 0 {
        assert(front + back == front);
    } else {
        lemma_collected_stops(front, back.drop_last());
        assert((front + back).drop_last() == front + back.drop_last());
    }
}

/// The items of two lists of attributes, one behind the other, are the
/// items of the first and then those of the second.
pub proof fn lemma_directive_items_add(a: Seq<AttrView>, b: Seq<AttrView>)
    ensures
        directive_items(a + b) == directive_items(a) + directive_items(b),
    decreases b.len(),
{
    if b.len() == 0 {
        assert(a + b == a);
        assert(directive_items(a) + directive_items(b) == directive_items(a));
    } else {
        lemma_directive_items_add(a, b.drop_last());
        assert((a + b).drop_last() == a + b.drop_last());
        let tail = if is_directive_path(b.last().path) {
            b.last().items
        } else {
            Seq::<MetaItemView>::empty()
        };
        assert(directive_items(a) + (directive_items(b.drop_last()) + tail) == (directive_items(a)
            + directive_items(b.drop_last())) + tail);
    }
}

fn push_item(modifiers: &mut Vec<Modifier>, item: &MetaItem) -> (r: Result<(), AttrError>)
    ensures
        match with_item(views(old(modifiers)@), item@) {
            Ok(next) => r is Ok && views(final(modifiers)@) == next,
            Err(e) => r == Err::<(), AttrError>(e) && final(modifiers)@ == old(modifiers)@,
        },
{
    let kind = kind_of(item.name.as_str());
    if let Some(ModifierKind::TagAdjacent) = kind {
        let content = match read_value(ModifierKind::TagAdjacent, &item.value) {
            Ok(Some(content)) => content,
            Ok(None) => {
                return Err(AttrError::MissingValue);
            },
            Err(e) => {
                return Err(e);
            },
        };
        let n = modifiers.len();
        if n == 0 {
            return Err(AttrError::ContentWithoutTag);
        }
        let ghost before = views(modifiers@);
        assert(before.last() == modifiers@[n - 1]@);
        let tag = match &modifiers[n - 1] {
            Modifier::TagInternal { field } => field.clone(),
            _ => {
                return Err(AttrError::ContentWithoutTag);
            },
        };
        modifiers.pop();
        modifiers.push(Modifier::TagAdjacent { tag, content });
        assert(views(modifiers@) =~= before.drop_last().push(
            ModifierView::TagAdjacent { tag: tag@, content: content@ },
        ));
        Ok(())
    } else {
        let ghost before = views(modifiers@);
        let modifier = parse_modifier(item)?;
        modifiers.push(modifier);
        assert(views(modifiers@) =~= before.push(modifier@));
        Ok(())
    }
}

/// Reads the directives that the attributes of a node hold. Attributes
/// whose path is not that of directives are passed over.
pub fn attr_modifiers(attrs: &[Attr]) -> (r: Result<Vec<Modifier>, AttrError>)
    ensures
        match attr_directives(attr_views(attrs@)) {
            Ok(ms) => r matches Ok(found) && views(found@) == ms,
            Err(e) => r == Err::<Vec<Modifier>, AttrError>(e),
        },
{
    let ghost all = attr_views(attrs@);
    let mut modifiers: Vec<Modifier> = Vec::new();
    let mut i: usize = 0;
    assert(views(modifiers@) =~= Seq::<ModifierView>::empty());
    while i < attrs.len()
        invariant
            i <= attrs.len(),
            all == attr_views(attrs@),
            collected(directive_items(all.take(i as int))) == Ok::<Seq<ModifierView>, AttrError>(
                views(modifiers@),
            ),
        decreases attrs.len() - i,
    {
        let attr = &attrs[i];
        let ghost done = directive_items(all.take(i as int));
        let ghost items = attr@.items;
        proof {
            assert(all.take(i + 1).drop_last() == all.take(i as int));
            assert(all.take(i + 1).last() == attr@);
        }
        if is_directive_attr(attr.path.as_str()) {
            let mut j: usize = 0;
            assert(done + items.take(0) == done);
            while j < attr.items.len()
                invariant
                    j <= attr.items.len(),
                    i < attrs.len(),
                    all == attr_views(attrs@),
                    attr == &attrs@[i as int],
                    items == attr@.items,
                    items.len() == attr.items.len(),
                    done == directive_items(all.take(i as int)),
                    is_directive_path(attr@.path),
                    collected(done + items.take(j as int)) == Ok::<Seq<ModifierView>, AttrError>(
                        views(modifiers@),
                    ),
                decreases attr.items.len() - j,
            {
                proof {
                    let next = done + items.take(j + 1);
                    assert(next.drop_last() == done + items.take(j as int));
                    assert(next.last() == attr.items@[j as int]@);
                }
                match push_item(&mut modifiers, &attr.items[j]) {
                    Ok(()) => {},
                    Err(e) => {
                        proof {
                            let read = done + items.take(j + 1);
                            let rest = items.skip(j + 1) + directive_items(all.skip(i + 1));
                            lemma_directive_items_add(all.take(i + 1), all.skip(i + 1));
                            assert(all.take(i + 1) + all.skip(i + 1) == all);
                            assert(all.take(i + 1).drop_last() == all.take(i as int));
                            assert(all.take(i + 1).last() == attr@);
                            assert(directive_items(all.take(i + 1)) == done + items);
                            assert(items == items.take(j + 1) + items.skip(j + 1));
                            assert(done + items + directive_items(all.skip(i + 1)) =~= read
                                + rest);
                            lemma_collected_stops(read, rest);
                        }
                        return Err(e);
                    },
                }
                j += 1;
            }
            assert(items.take(j as int) == items);
        } else {
            assert(done + Seq::<MetaItemView>::empty() == done);
        }
        i += 1;
    }
    assert(all.take(i as int) == all);
    Ok(modifiers)
}

/// The configuration of a container with these attributes.
pub open spec fn container_config(attrs: Seq<AttrView>) -> Result<ContainerOptsView, AttrError> {
    match attr_directives(attrs) {
        Ok(ms) => match resolve::<ContainerOpts>(ContainerOptsView::initial(), ms) {
            Ok(opts) => Ok(opts),
            Err(e) => Err(AttrError::Config(e)),
        },
        Err(e) => Err(e),
    }
}

/// Resolves the attributes of a struct into its configuration.
pub fn attr_struct_opts(attrs: &[Attr]) -> (r: Result<ContainerOpts, AttrError>)
    ensures
        match container_config(attr_views(attrs@)) {
            Ok(view) => r matches Ok(opts) && opts@ == view,
            Err(e) => r == Err::<ContainerOpts, AttrError>(e),
        },
{
    let mut opts = ContainerOpts::default();
    let modifiers = attr_modifiers(attrs)?;
    match opts.apply_modifiers(modifiers.as_slice()) {
        Ok(()) => Ok(opts),
        Err(e) => Err(AttrError::Config(e)),
    }
}

/// Resolves the attributes of an enum into its configuration.
pub fn attr_enum_opts(attrs: &[Attr]) -> (r: Result<ContainerOpts, AttrError>)
    ensures
        match container_config(attr_views(attrs@)) {
            Ok(view) => r matches Ok(opts) && opts@ == view,
            Err(e) => r == Err::<ContainerOpts, AttrError>(e),
        },
{
    let mut opts = ContainerOpts::default();
    let modifiers = attr_modifiers(attrs)?;
    match opts.apply_modifiers(modifiers.as_slice()) {
        Ok(()) => Ok(opts),
        Err(e) => Err(AttrError::Config(e)),
    }
}

/// The configuration of a variant with these attributes.
pub open spec fn variant_config(attrs: Seq<AttrView>) -> Result<VariantOptsView, AttrError> {
    match attr_directives(attrs) {
        Ok(ms) => match resolve::<VariantOpts>(VariantOptsView::initial(), ms) {
            Ok(opts) => Ok(opts),
            Err(e) => Err(AttrError::Config(e)),
        },
        Err(e) => Err(e),
    }
}

/// Resolves the attributes of a variant into its configuration.
pub fn attr_variant_opts(attrs: &[Attr]) -> (r: Result<VariantOpts, AttrError>)
    ensures
        match variant_config(attr_views(attrs@)) {
            Ok(view) => r matches Ok(opts) && opts@ == view,
            Err(e) => r == Err::<VariantOpts, AttrError>(e),
        },
{
    let mut opts = VariantOpts::default();
    let modifiers = attr_modifiers(attrs)?;
    match opts.apply_modifiers(modifiers.as_slice()) {
        Ok(()) => Ok(opts),
        Err(e) => Err(AttrError::Config(e)),
    }
}

/// The configuration of a field with these attributes.
pub open spec fn field_config(attrs: Seq<AttrView>) -> Result<FieldOptsView, AttrError> {
    match attr_directives(attrs) {
        Ok(ms) => match resolve::<FieldOpts>(FieldOptsView::initial(), ms) {
            Ok(opts) => Ok(opts),
            Err(e) => Err(AttrError::Config(e)),
        },
        Err(e) => Err(e),
    }
}

/// Resolves the attributes of a field into its configuration.
pub fn attr_field_opts(attrs: &[Attr]) -> (r: Result<FieldOpts, AttrError>)
    ensures
        match field_config(attr_views(attrs@)) {
            Ok(view) => r matches Ok(opts) && opts@ == view,
            Err(e) => r == Err::<FieldOpts, AttrError>(e),
        },
{
    let mut opts = FieldOpts::default();
    let modifiers = attr_modifiers(attrs)?;
    match opts.apply_modifiers(modifiers.as_slice()) {
        Ok(()) => Ok(opts),
        Err(e) => Err(AttrError::Config(e)),
    }
}

/// The wire name of a declared name: the name that a rename directive gives
/// it; without one, the declared name in the case that the enclosing
/// container asks for; without that, the declared name itself.
pub open spec fn wire_name_of(ident: Seq<char>, rename: Option<Seq<char>>, rule: Option<Case>) -> Seq<
    char,
> {
    match rename {
        Some(name) => name,
        None => match rule {
            Some(case) => case.spec_transform(ident),
            None => ident,
        },
    }
}

/// Computes the wire name of a declared name.
pub fn wire_name(ident: &str, rename: &Option<String>, rule: &Option<Case>) -> (name: String)
    ensures
        name@ == wire_name_of(ident@, opt_text(*rename), *rule),
{
    match rename {
        Some(name) => name.clone(),
        None => match rule {
            Some(case) => case.transform(ident),
            None => ident.to_owned(),
        },
    }
}

/// The wire name of a field by its own configuration: the name it is
/// renamed to, else the name it is declared with.
pub fn name_of_field(ident: &str, opts: &FieldOpts) -> (name: String)
    ensures
        name@ == wire_name_of(ident@, opts@.rename, None),
{
    wire_name(ident, &opts.rename, &None)
}

/// The wire name of a variant by its own configuration: the name it is
/// renamed to, else the name it is declared with.
pub fn name_of_variant(ident: &str, opts: &VariantOpts) -> (name: String)
    ensures
        name@ == wire_name_of(ident@, opts@.rename, None),
{
    wire_name(ident, &opts.rename, &None)
}

} // verus!
