//! Directives: the configuration instructions that can be attached to a
//! container, a variant or a field.

use vstd::prelude::*;
use vstd::string::StringExecFns;

verus! {

/// One configuration directive with its arguments.
#[derive(Clone, Debug, PartialEq, Eq)]
#[allow(inconsistent_fields)]
pub enum Modifier {
    /// `rename = "name"`
    Rename { serialize_name: Option<String>, deserialize_name: Option<String> },
    /// `rename_all = "..."`
    RenameAll { serialize_case: Option<String>, deserialize_case: Option<String> },
    /// `rename_all_fields = "..."`
    RenameAllFields { serialize_case: Option<String>, deserialize_case: Option<String> },
    /// `deny_unknown_fields`
    DenyUnknownFields,
    /// `tag = "type"`
    TagInternal { field: String },
    /// `tag = "t", content = "c"`
    TagAdjacent { tag: String, content: String },
    /// `untagged`
    Untagged,
    /// `bound = "T: MyTrait"`
    Bound { serialize: Option<String>, deserialize: Option<String> },
    /// `default` or `default = "path"`
    Default { item: Option<String> },
    /// `remote = "..."`
    Remote { item: String },
    /// `transparent`
    Transparent,
    /// `from = "FromType"`
    From { item: String },
    /// `try_from = "FromType"`
    TryFrom { item: String },
    /// `into = "IntoType"`
    Into { item: String },
    /// `crate = "..."`
    Crate { path: String },
    /// `expecting = "..."`
    Expecting { expectation: String },
    /// `variant_identifier`
    VariantIdentifier,
    /// `field_identifier`
    FieldIdentifier,
    /// `alias = "name"`
    Alias { name: String },
    /// `skip`
    Skip,
    /// `skip_serializing`
    SkipSerializing,
    /// `skip_deserializing`
    SkipDeserializing,
    /// `serialize_with = "path"`
    SerializeWith { imp: String },
    /// `deserialize_with = "path"`
    DeserializeWith { imp: String },
    /// `with = "module"`
    With { imp: String },
    /// `borrow` or `borrow = "'a + 'b + ..."`
    Borrow { li: Option<String> },
    /// `other`
    Other,
    /// `flatten`
    Flatten,
    /// `skip_serializing_if = "path"`
    SkipSerializingIf { imp: String },
    /// `getter = "..."`
    Getter { item: String },
}

/// A directive as a mathematical value: each argument is the text it holds.
#[allow(inconsistent_fields)]
pub enum ModifierView {
    Rename { serialize_name: Option<Seq<char>>, deserialize_name: Option<Seq<char>> },
    RenameAll { serialize_case: Option<Seq<char>>, deserialize_case: Option<Seq<char>> },
    RenameAllFields { serialize_case: Option<Seq<char>>, deserialize_case: Option<Seq<char>> },
    DenyUnknownFields,
    TagInternal { field: Seq<char> },
    TagAdjacent { tag: Seq<char>, content: Seq<char> },
    Untagged,
    Bound { serialize: Option<Seq<char>>, deserialize: Option<Seq<char>> },
    Default { item: Option<Seq<char>> },
    Remote { item: Seq<char> },
    Transparent,
    From { item: Seq<char> },
    TryFrom { item: Seq<char> },
    Into { item: Seq<char> },
    Crate { path: Seq<char> },
    Expecting { expectation: Seq<char> },
    VariantIdentifier,
    FieldIdentifier,
    Alias { name: Seq<char> },
    Skip,
    SkipSerializing,
    SkipDeserializing,
    SerializeWith { imp: Seq<char> },
    DeserializeWith { imp: Seq<char> },
    With { imp: Seq<char> },
    Borrow { li: Option<Seq<char>> },
    Other,
    Flatten,
    SkipSerializingIf { imp: Seq<char> },
    Getter { item: Seq<char> },
}

/// The text of an optional string.
pub open spec fn opt_text(o: Option<String>) -> Option<Seq<char>> {
    match o {
        Some(s) => Some(s@),
        None => None,
    }
}

impl View for Modifier {
    type V = ModifierView;

    open spec fn view(&self) -> ModifierView {
        match *self {
            Modifier::Rename { serialize_name, deserialize_name } => ModifierView::Rename {
                serialize_name: opt_text(serialize_name),
                deserialize_name: opt_text(deserialize_name),
            },
            Modifier::RenameAll { serialize_case, deserialize_case } => ModifierView::RenameAll {
                serialize_case: opt_text(serialize_case),
                deserialize_case: opt_text(deserialize_case),
            },
            Modifier::RenameAllFields {
                serialize_case,
                deserialize_case,
            } => ModifierView::RenameAllFields {
                serialize_case: opt_text(serialize_case),
                deserialize_case: opt_text(deserialize_case),
            },
            Modifier::DenyUnknownFields => ModifierView::DenyUnknownFields,
            Modifier::TagInternal { field } => ModifierView::TagInternal { field: field@ },
            Modifier::TagAdjacent { tag, content } => ModifierView::TagAdjacent {
                tag: tag@,
                content: content@,
            },
            Modifier::Untagged => ModifierView::Untagged,
            Modifier::Bound { serialize, deserialize } => ModifierView::Bound {
                serialize: opt_text(serialize),
                deserialize: opt_text(deserialize),
            },
            Modifier::Default { item } => ModifierView::Default { item: opt_text(item) },
            Modifier::Remote { item } => ModifierView::Remote { item: item@ },
            Modifier::Transparent => ModifierView::Transparent,
            Modifier::From { item } => ModifierView::From { item: item@ },
            Modifier::TryFrom { item } => ModifierView::TryFrom { item: item@ },
            Modifier::Into { item } => ModifierView::Into { item: item@ },
            Modifier::Crate { path } => ModifierView::Crate { path: path@ },
            Modifier::Expecting { expectation } => ModifierView::Expecting {
                expectation: expectation@,
            },
            Modifier::VariantIdentifier => ModifierView::VariantIdentifier,
            Modifier::FieldIdentifier => ModifierView::FieldIdentifier,
            Modifier::Alias { name } => ModifierView::Alias { name: name@ },
            Modifier::Skip => ModifierView::Skip,
            Modifier::SkipSerializing => ModifierView::SkipSerializing,
            Modifier::SkipDeserializing => ModifierView::SkipDeserializing,
            Modifier::SerializeWith { imp } => ModifierView::SerializeWith { imp: imp@ },
            Modifier::DeserializeWith { imp } => ModifierView::DeserializeWith { imp: imp@ },
            Modifier::With { imp } => ModifierView::With { imp: imp@ },
            Modifier::Borrow { li } => ModifierView::Borrow { li: opt_text(li) },
            Modifier::Other => ModifierView::Other,
            Modifier::Flatten => ModifierView::Flatten,
            Modifier::SkipSerializingIf { imp } => ModifierView::SkipSerializingIf { imp: imp@ },
            Modifier::Getter { item } => ModifierView::Getter { item: item@ },
        }
    }
}

impl ModifierView {
    /// The kind of this directive.
    pub open spec fn kind(self) -> ModifierKind {
        match self {
            ModifierView::Rename { .. } => ModifierKind::Rename,
            ModifierView::RenameAll { .. } => ModifierKind::RenameAll,
            ModifierView::RenameAllFields { .. } => ModifierKind::RenameAllFields,
            ModifierView::DenyUnknownFields => ModifierKind::DenyUnknownFields,
            ModifierView::TagInternal { .. } => ModifierKind::TagInternal,
            ModifierView::TagAdjacent { .. } => ModifierKind::TagAdjacent,
            ModifierView::Untagged => ModifierKind::Untagged,
            ModifierView::Bound { .. } => ModifierKind::Bound,
            ModifierView::Default { .. } => ModifierKind::Default,
            ModifierView::Remote { .. } => ModifierKind::Remote,
            ModifierView::Transparent => ModifierKind::Transparent,
            ModifierView::From { .. } => ModifierKind::From,
            ModifierView::TryFrom { .. } => ModifierKind::TryFrom,
            ModifierView::Into { .. } => ModifierKind::Into,
            ModifierView::Crate { .. } => ModifierKind::Crate,
            ModifierView::Expecting { .. } => ModifierKind::Expecting,
            ModifierView::VariantIdentifier => ModifierKind::VariantIdentifier,
            ModifierView::FieldIdentifier => ModifierKind::FieldIdentifier,
            ModifierView::Alias { .. } => ModifierKind::Alias,
            ModifierView::Skip => ModifierKind::Skip,
            ModifierView::SkipSerializing => ModifierKind::SkipSerializing,
            ModifierView::SkipDeserializing => ModifierKind::SkipDeserializing,
            ModifierView::SerializeWith { .. } => ModifierKind::SerializeWith,
            ModifierView::DeserializeWith { .. } => ModifierKind::DeserializeWith,
            ModifierView::With { .. } => ModifierKind::With,
            ModifierView::Borrow { .. } => ModifierKind::Borrow,
            ModifierView::Other => ModifierKind::Other,
            ModifierView::Flatten => ModifierKind::Flatten,
            ModifierView::SkipSerializingIf { .. } => ModifierKind::SkipSerializingIf,
            ModifierView::Getter { .. } => ModifierKind::Getter,
        }
    }
}

/// The kind of a directive: which instruction it is, without its arguments.
#[derive(Copy, Clone, Debug, PartialEq, Eq, Structural)]
pub enum ModifierKind {
    Rename,
    RenameAll,
    RenameAllFields,
    DenyUnknownFields,
    TagInternal,
    TagAdjacent,
    Untagged,
    Bound,
    Default,
    Remote,
    Transparent,
    From,
    TryFrom,
    Into,
    Crate,
    Expecting,
    VariantIdentifier,
    FieldIdentifier,
    Alias,
    Skip,
    SkipSerializing,
    SkipDeserializing,
    SerializeWith,
    DeserializeWith,
    With,
    Borrow,
    Other,
    Flatten,
    SkipSerializingIf,
    Getter,
}

impl ModifierKind {
    /// The name under which a kind appears in messages.
    pub open spec fn name(self) -> Seq<char> {
        match self {
            ModifierKind::Rename => "Rename"@,
            ModifierKind::RenameAll => "RenameAll"@,
            ModifierKind::RenameAllFields => "RenameAllFields"@,
            ModifierKind::DenyUnknownFields => "DenyUnknownFields"@,
            ModifierKind::TagInternal => "TagInternal"@,
            ModifierKind::TagAdjacent => "TagAdjacent"@,
            ModifierKind::Untagged => "Untagged"@,
            ModifierKind::Bound => "Bound"@,
            ModifierKind::Default => "Default"@,
            ModifierKind::Remote => "Remote"@,
            ModifierKind::Transparent => "Transparent"@,
            ModifierKind::From => "From"@,
            ModifierKind::TryFrom => "TryFrom"@,
            ModifierKind::Into => "Into"@,
            ModifierKind::Crate => "Crate"@,
            ModifierKind::Expecting => "Expecting"@,
            ModifierKind::VariantIdentifier => "VariantIdentifier"@,
            ModifierKind::FieldIdentifier => "FieldIdentifier"@,
            ModifierKind::Alias => "Alias"@,
            ModifierKind::Skip => "Skip"@,
            ModifierKind::SkipSerializing => "SkipSerializing"@,
            ModifierKind::SkipDeserializing => "SkipDeserializing"@,
            ModifierKind::SerializeWith => "SerializeWith"@,
            ModifierKind::DeserializeWith => "DeserializeWith"@,
            ModifierKind::With => "With"@,
            ModifierKind::Borrow => "Borrow"@,
            ModifierKind::Other => "Other"@,
            ModifierKind::Flatten => "Flatten"@,
            ModifierKind::SkipSerializingIf => "SkipSerializingIf"@,
            ModifierKind::Getter => "Getter"@,
        }
    }

    /// The name of the kind as text.
    pub fn as_str(self) -> (text: &'static str)
        ensures
            text@ == self.name(),
    {
        match self {
            ModifierKind::Rename => "Rename",
            ModifierKind::RenameAll => "RenameAll",
            ModifierKind::RenameAllFields => "RenameAllFields",
            ModifierKind::DenyUnknownFields => "DenyUnknownFields",
            ModifierKind::TagInternal => "TagInternal",
            ModifierKind::TagAdjacent => "TagAdjacent",
            ModifierKind::Untagged => "Untagged",
            ModifierKind::Bound => "Bound",
            ModifierKind::Default => "Default",
            ModifierKind::Remote => "Remote",
            ModifierKind::Transparent => "Transparent",
            ModifierKind::From => "From",
            ModifierKind::TryFrom => "TryFrom",
            ModifierKind::Into => "Into",
            ModifierKind::Crate => "Crate",
            ModifierKind::Expecting => "Expecting",
            ModifierKind::VariantIdentifier => "VariantIdentifier",
            ModifierKind::FieldIdentifier => "FieldIdentifier",
            ModifierKind::Alias => "Alias",
            ModifierKind::Skip => "Skip",
            ModifierKind::SkipSerializing => "SkipSerializing",
            ModifierKind::SkipDeserializing => "SkipDeserializing",
            ModifierKind::SerializeWith => "SerializeWith",
            ModifierKind::DeserializeWith => "DeserializeWith",
            ModifierKind::With => "With",
            ModifierKind::Borrow => "Borrow",
            ModifierKind::Other => "Other",
            ModifierKind::Flatten => "Flatten",
            ModifierKind::SkipSerializingIf => "SkipSerializingIf",
            ModifierKind::Getter => "Getter",
        }
    }
}

impl Modifier {
    /// The kind of this directive.
    pub open spec fn spec_kind(&self) -> ModifierKind {
        self@.kind()
    }

    #[verifier::when_used_as_spec(spec_kind)]
    pub fn kind(&self) -> (k: ModifierKind)
        ensures
            k == self.spec_kind(),
    {
        match self {
            Modifier::Rename { .. } => ModifierKind::Rename,
            Modifier::RenameAll { .. } => ModifierKind::RenameAll,
            Modifier::RenameAllFields { .. } => ModifierKind::RenameAllFields,
            Modifier::DenyUnknownFields => ModifierKind::DenyUnknownFields,
            Modifier::TagInternal { .. } => ModifierKind::TagInternal,
            Modifier::TagAdjacent { .. } => ModifierKind::TagAdjacent,
            Modifier::Untagged => ModifierKind::Untagged,
            Modifier::Bound { .. } => ModifierKind::Bound,
            Modifier::Default { .. } => ModifierKind::Default,
            Modifier::Remote { .. } => ModifierKind::Remote,
            Modifier::Transparent => ModifierKind::Transparent,
            Modifier::From { .. } => ModifierKind::From,
            Modifier::TryFrom { .. } => ModifierKind::TryFrom,
            Modifier::Into { .. } => ModifierKind::Into,
            Modifier::Crate { .. } => ModifierKind::Crate,
            Modifier::Expecting { .. } => ModifierKind::Expecting,
            Modifier::VariantIdentifier => ModifierKind::VariantIdentifier,
            Modifier::FieldIdentifier => ModifierKind::FieldIdentifier,
            Modifier::Alias { .. } => ModifierKind::Alias,
            Modifier::Skip => ModifierKind::Skip,
            Modifier::SkipSerializing => ModifierKind::SkipSerializing,
            Modifier::SkipDeserializing => ModifierKind::SkipDeserializing,
            Modifier::SerializeWith { .. } => ModifierKind::SerializeWith,
            Modifier::DeserializeWith { .. } => ModifierKind::DeserializeWith,
            Modifier::With { .. } => ModifierKind::With,
            Modifier::Borrow { .. } => ModifierKind::Borrow,
            Modifier::Other => ModifierKind::Other,
            Modifier::Flatten => ModifierKind::Flatten,
            Modifier::SkipSerializingIf { .. } => ModifierKind::SkipSerializingIf,
            Modifier::Getter { .. } => ModifierKind::Getter,
        }
    }

    /// The name of this directive's kind, as it is shown in messages.
    pub fn kind_name(&self) -> (name: String)
        ensures
            name@ == self.kind().name(),
    {
        String::from_str(self.kind().as_str())
    }
}

} // verus!
