//! The declaration of a type as the adapter's planning reads it, and the
//! plan that comes out: the wire names of the fields or of the variants.

use vstd::prelude::*;

use crate::attr::{
    attr_enum_opts, attr_field_opts, attr_struct_opts, attr_variant_opts, attr_views,
    container_config, field_config, variant_config, wire_name, wire_name_of, Attr, AttrError,
    AttrView,
};
use crate::case::Case;
use crate::opts::ContainerOptsView;

verus! {

/// A named field of a struct.
#[derive(Clone, Debug, PartialEq, Eq)]
pub struct FieldDecl {
    pub ident: String,
    pub attrs: Vec<Attr>,
}

/// A variant of an enum. `unit` tells that it has no fields.
#[derive(Clone, Debug, PartialEq, Eq)]
pub struct VariantDecl {
    pub ident: String,
    pub attrs: Vec<Attr>,
    pub unit: bool,
}

/// The body of a type.
#[derive(Clone, Debug, PartialEq, Eq)]
pub enum Data {
    /// A struct with named fields.
    Struct { fields: Vec<FieldDecl> },
    /// An enum.
    Enum { variants: Vec<VariantDecl> },
    /// Any other type.
    Other,
}

/// The declaration of a type. `generics` tells that it has generic
/// parameters, `where_clause` that it has a `where` clause.
#[derive(Clone, Debug, PartialEq, Eq)]
pub struct DeriveInput {
    pub ident: String,
    pub attrs: Vec<Attr>,
    pub generics: bool,
    pub where_clause: bool,
    pub data: Data,
}

/// Why no adapter can be planned for a type.
#[derive(Copy, Clone, Debug, PartialEq, Eq, Structural)]
pub enum DeriveError {
    /// The type is neither a struct with named fields nor an enum.
    UnsupportedShape,
    /// The enum has generic parameters or a `where` clause.
    GenericEnum,
    /// The variant with this number has fields.
    InvalidVariant { index: usize },
    /// An attribute of the type, of a field or of a variant cannot be read
    /// or resolved.
    Attr(AttrError),
}

/// The plan of an adapter: the wire names that the adapter encodes and
/// decodes by, in the order of the declaration.
#[derive(Clone, Debug, PartialEq, Eq)]
pub enum Adapter {
    /// For a struct: the wire name of each field.
    Struct { names: Vec<String> },
    /// For an enum without payloads: the wire name of each variant.
    Enum { names: Vec<String> },
}

/// A field as a mathematical value.
pub struct FieldDeclView {
    pub ident: Seq<char>,
    pub attrs: Seq<AttrView>,
}

impl View for FieldDecl {
    type V = FieldDeclView;

    open spec fn view(&self) -> FieldDeclView {
        FieldDeclView { ident: self.ident@, attrs: attr_views(self.attrs@) }
    }
}

/// A variant as a mathematical value.
pub struct VariantDeclView {
    pub ident: Seq<char>,
    pub attrs: Seq<AttrView>,
    pub unit: bool,
}

impl View for VariantDecl {
    type V = VariantDeclView;

    open spec fn view(&self) -> VariantDeclView {
        VariantDeclView { ident: self.ident@, attrs: attr_views(self.attrs@), unit: self.unit }
    }
}

/// The fields of a list as mathematical values.
pub open spec fn field_views(fields: Seq<FieldDecl>) -> Seq<FieldDeclView> {
    fields.map_values(|f: FieldDecl| f@)
}

/// The variants of a list as mathematical values.
pub open spec fn variant_views(variants: Seq<VariantDecl>) -> Seq<VariantDeclView> {
    variants.map_values(|v: VariantDecl| v@)
}

/// The wire name of a field in a container that asks for the case `rule`.
pub open spec fn field_wire_name(rule: Option<Case>, field: FieldDeclView) -> Result<
    Seq<char>,
    AttrError,
> {
    match field_config(field.attrs) {
        Ok(opts) => Ok(wire_name_of(field.ident, opts.rename, rule)),
        Err(e) => Err(e),
    }
}

/// The wire name of a variant in a container that asks for the case `rule`.
pub open spec fn variant_wire_name(rule: Option<Case>, variant: VariantDeclView) -> Result<
    Seq<char>,
    AttrError,
> {
    match variant_config(variant.attrs) {
        Ok(opts) => Ok(wire_name_of(variant.ident, opts.rename, rule)),
        Err(e) => Err(e),
    }
}

/// The wire names of the fields, in order, or the error of the first field
/// whose attributes cannot be resolved.
pub open spec fn field_wire_names(rule: Option<Case>, fields: Seq<FieldDeclView>) -> Result<
    Seq<Seq<char>>,
    AttrError,
>
    decreases fields.len(),
{
    if fields.len() == 0 {
        Ok(Seq::<Seq<char>>::empty())
    } else {
        match field_wire_names(rule, fields.drop_last()) {
            Ok(names) => match field_wire_name(rule, fields.last()) {
                Ok(name) => Ok(names.push(name)),
                Err(e) => Err(e),
            },
            Err(e) => Err(e),
        }
    }
}

/// The wire names of the variants, in order, or the error of the first
/// variant whose attributes cannot be resolved.
pub open spec fn variant_wire_names(rule: Option<Case>, variants: Seq<VariantDeclView>) -> Result<
    Seq<Seq<char>>,
    AttrError,
>
    decreases variants.len(),
{
    if variants.len() == 0 {
        Ok(Seq::<Seq<char>>::empty())
    } else {
        match variant_wire_names(rule, variants.drop_last()) {
            Ok(names) => match variant_wire_name(rule, variants.last()) {
                Ok(name) => Ok(names.push(name)),
                Err(e) => Err(e),
            },
            Err(e) => Err(e),
        }
    }
}

/// The number of the first variant that has fields.
pub open spec fn first_with_fields(variants: Seq<VariantDeclView>) -> Option<int>
    decreases variants.len(),
{
    if variants.len() == 0 {
        None
    } else {
        match first_with_fields(variants.drop_last()) {
            Some(i) => Some(i),
            None => if variants.last().unit {
                None
            } else {
                Some(variants.len() - 1)
            },
        }
    }
}

/// The wire names of a struct with these attributes and these fields.
pub open spec fn struct_plan(attrs: Seq<AttrView>, fields: Seq<FieldDeclView>) -> Result<
    Seq<Seq<char>>,
    DeriveError,
> {
    match container_config(attrs) {
        Ok(opts) => match field_wire_names(opts.rename_all, fields) {
            Ok(names) => Ok(names),
            Err(e) => Err(DeriveError::Attr(e)),
        },
        Err(e) => Err(DeriveError::Attr(e)),
    }
}

/// The wire names of an enum with these attributes and these variants. An
/// enum with generics has none, nor has one with a variant that has fields.
pub open spec fn enum_plan(
    generic: bool,
    attrs: Seq<AttrView>,
    variants: Seq<VariantDeclView>,
) -> Result<Seq<Seq<char>>, DeriveError> {
    if generic {
        Err(DeriveError::GenericEnum)
    } else {
        match first_with_fields(variants) {
            Some(i) => Err(DeriveError::InvalidVariant { index: i as usize }),
            None => match container_config(attrs) {
                Ok(opts) => match variant_wire_names(opts.rename_all, variants) {
                    Ok(names) => Ok(names),
                    Err(e) => Err(DeriveError::Attr(e)),
                },
                Err(e) => Err(DeriveError::Attr(e)),
            },
        }
    }
}

/// After a field whose attributes cannot be resolved, no field is looked
/// at.
pub proof fn lemma_field_wire_names_stop(rule: Option<Case>, fields: Seq<FieldDeclView>, k: int)
    requires
        0 <= k <= fields.len(),
        field_wire_names(rule, fields.take(k)) is Err,
    ensures
        field_wire_names(rule, fields) == field_wire_names(rule, fields.take(k)),
    decreases fields.len() - k,
{
    if k == fields.len() {
        assert(fields.take(k) == fields);
    } else {
        assert(fields.take(k + 1).drop_last() == fields.take(k));
        lemma_field_wire_names_stop(rule, fields, k + 1);
    }
}

/// After a variant whose attributes cannot be resolved, no variant is
/// looked at.
pub proof fn lemma_variant_wire_names_stop(
    rule: Option<Case>,
    variants: Seq<VariantDeclView>,
    k: int,
)
    requires
        0 <= k <= variants.len(),
        variant_wire_names(rule, variants.take(k)) is Err,
    ensures
        variant_wire_names(rule, variants) == variant_wire_names(rule, variants.take(k)),
    decreases variants.len() - k,
{
    if k == variants.len() {
        assert(variants.take(k) == variants);
    } else {
        assert(variants.take(k + 1).drop_last() == variants.take(k));
        lemma_variant_wire_names_stop(rule, variants, k + 1);
    }
}

/// The first variant with fields among the first variants is the first
/// among all of them.
pub proof fn lemma_first_with_fields_stays(variants: Seq<VariantDeclView>, k: int)
    requires
        0 <= k <= variants.len(),
        first_with_fields(variants.take(k)) is Some,
    ensures
        first_with_fields(variants) == first_with_fields(variants.take(k)),
    decreases variants.len() - k,
{
    if k == variants.len() {
        assert(variants.take(k) == variants);
    } else {
        assert(variants.take(k + 1).drop_last() == variants.take(k));
        lemma_first_with_fields_stays(variants, k + 1);
    }
}

/// The wire names as mathematical values.
pub open spec fn texts(names: Seq<String>) -> Seq<Seq<char>> {
    names.map_values(|name: String| name@)
}

/// Plans the adapter of a struct with named fields: resolves the
/// attributes of the struct and of each field, and computes the wire name
/// of each field.
pub fn plan_struct(attrs: &[Attr], fields: &[FieldDecl]) -> (r: Result<Vec<String>, DeriveError>)
    ensures
        match struct_plan(attr_views(attrs@), field_views(fields@)) {
            Ok(names) => r matches Ok(found) && texts(found@) == names,
            Err(e) => r == Err::<Vec<String>, DeriveError>(e),
        },
{
    let opts = match attr_struct_opts(attrs) {
        Ok(opts) => opts,
        Err(e) => {
            return Err(DeriveError::Attr(e));
        },
    };
    let ghost all = field_views(fields@);
    let ghost rule = opts@.rename_all;
    let mut names: Vec<String> = Vec::new();
    let mut i: usize = 0;
    assert(texts(names@) =~= Seq::<Seq<char>>::empty());
    while i < fields.len()
        invariant
            i <= fields.len(),
            all == field_views(fields@),
            rule == opts@.rename_all,
            container_config(attr_views(attrs@)) == Ok::<ContainerOptsView, AttrError>(opts@),
            field_wire_names(rule, all.take(i as int)) == Ok::<Seq<Seq<char>>, AttrError>(
                texts(names@),
            ),
        decreases fields.len() - i,
    {
        proof {
            assert(all.take(i + 1).drop_last() == all.take(i as int));
            assert(all.take(i + 1).last() == fields@[i as int]@);
        }
        let field = &fields[i];
        let field_opts = match attr_field_opts(field.attrs.as_slice()) {
            Ok(field_opts) => field_opts,
            Err(e) => {
                proof {
                    assert(field_wire_name(rule, all.take(i + 1).last()) == Err::<
                        Seq<char>,
                        AttrError,
                    >(e));
                    assert(field_wire_names(rule, all.take(i + 1)) is Err);
                    lemma_field_wire_names_stop(rule, all, i + 1);
                }
                return Err(DeriveError::Attr(e));
            },
        };
        let ghost before = texts(names@);
        let name = wire_name(field.ident.as_str(), &field_opts.rename, &opts.rename_all);
        names.push(name);
        assert(texts(names@) =~= before.push(name@));
        i += 1;
    }
    assert(all.take(i as int) == all);
    Ok(names)
}

/// Plans the adapter of an enum without payloads: refuses generics and
/// variants with fields, resolves the attributes of the enum and of each
/// variant, and computes the wire name of each variant.
pub fn plan_enum(generic: bool, attrs: &[Attr], variants: &[VariantDecl]) -> (r: Result<
    Vec<String>,
    DeriveError,
>)
    ensures
        match enum_plan(generic, attr_views(attrs@), variant_views(variants@)) {
            Ok(names) => r matches Ok(found) && texts(found@) == names,
            Err(e) => r == Err::<Vec<String>, DeriveError>(e),
        },
{
    if generic {
        return Err(DeriveError::GenericEnum);
    }
    let ghost all = variant_views(variants@);
    let mut k: usize = 0;
    while k < variants.len()
        invariant
            k <= variants.len(),
            all == variant_views(variants@),
            !generic,
            first_with_fields(all.take(k as int)) is None,
        decreases variants.len() - k,
    {
        proof {
            assert(all.take(k + 1).drop_last() == all.take(k as int));
            assert(all.take(k + 1).last() == variants@[k as int]@);
        }
        if !variants[k].unit {
            proof {
                assert(first_with_fields(all.take(k + 1)) == Some(k as int));
                lemma_first_with_fields_stays(all, k + 1);
            }
            return Err(DeriveError::InvalidVariant { index: k });
        }
        k += 1;
    }
    assert(all.take(k as int) == all);
    let opts = match attr_enum_opts(attrs) {
        Ok(opts) => opts,
        Err(e) => {
            return Err(DeriveError::Attr(e));
        },
    };
    let ghost rule = opts@.rename_all;
    let mut names: Vec<String> = Vec::new();
    let mut i: usize = 0;
    assert(texts(names@) =~= Seq::<Seq<char>>::empty());
    while i < variants.len()
        invariant
            i <= variants.len(),
            all == variant_views(variants@),
            rule == opts@.rename_all,
            !generic,
            first_with_fields(all) is None,
            container_config(attr_views(attrs@)) == Ok::<ContainerOptsView, AttrError>(opts@),
            variant_wire_names(rule, all.take(i as int)) == Ok::<Seq<Seq<char>>, AttrError>(
                texts(names@),
            ),
        decreases variants.len() - i,
    {
        proof {
            assert(all.take(i + 1).drop_last() == all.take(i as int));
            assert(all.take(i + 1).last() == variants@[i as int]@);
        }
        let variant = &variants[i];
        let variant_opts = match attr_variant_opts(variant.attrs.as_slice()) {
            Ok(variant_opts) => variant_opts,
            Err(e) => {
                proof {
                    assert(variant_wire_name(rule, all.take(i + 1).last()) == Err::<
                        Seq<char>,
                        AttrError,
                    >(e));
                    assert(variant_wire_names(rule, all.take(i + 1)) is Err);
                    lemma_variant_wire_names_stop(rule, all, i + 1);
                }
                return Err(DeriveError::Attr(e));
            },
        };
        let ghost before = texts(names@);
        let name = wire_name(variant.ident.as_str(), &variant_opts.rename, &opts.rename_all);
        names.push(name);
        assert(texts(names@) =~= before.push(name@));
        i += 1;
    }
    assert(all.take(i as int) == all);
    Ok(names)
}

/// The plan of the adapter of a type.
pub open spec fn adapter_plan(input: DeriveInput) -> Result<(bool, Seq<Seq<char>>), DeriveError> {
    match input.data {
        Data::Struct { fields } => match struct_plan(
            attr_views(input.attrs@),
            field_views(fields@),
        ) {
            Ok(names) => Ok((true, names)),
            Err(e) => Err(e),
        },
        Data::Enum { variants } => match enum_plan(
            input.is_generic(),
            attr_views(input.attrs@),
            variant_views(variants@),
        ) {
            Ok(names) => Ok((false, names)),
            Err(e) => Err(e),
        },
        Data::Other => Err(DeriveError::UnsupportedShape),
    }
}

impl DeriveInput {
    /// Whether the type has generic parameters or a `where` clause.
    pub open spec fn spec_is_generic(&self) -> bool {
        self.generics || self.where_clause
    }

    /// Whether the type has generic parameters or a `where` clause.
    #[verifier::when_used_as_spec(spec_is_generic)]
    pub fn is_generic(&self) -> (r: bool)
        ensures
            r == self.spec_is_generic(),
    {
        self.generics || self.where_clause
    }
}

impl Adapter {
    /// The plan as a mathematical value: whether it is for a struct, and
    /// the wire names.
    pub open spec fn plan(&self) -> (bool, Seq<Seq<char>>) {
        match self {
            Adapter::Struct { names } => (true, texts(names@)),
            Adapter::Enum { names } => (false, texts(names@)),
        }
    }

    /// The wire names, in the order of the declaration.
    pub fn names(&self) -> (names: &[String])
        ensures
            texts(names@) == self.plan().1,
    {
        match self {
            Adapter::Struct { names } => names.as_slice(),
            Adapter::Enum { names } => names.as_slice(),
        }
    }
}

/// Plans the adapter of a type: of a struct with named fields or of an
/// enum without payloads. Any other type is refused.
pub fn plan_adapter(input: &DeriveInput) -> (r: Result<Adapter, DeriveError>)
    ensures
        match adapter_plan(*input) {
            Ok(plan) => r matches Ok(adapter) && adapter.plan() == plan,
            Err(e) => r == Err::<Adapter, DeriveError>(e),
        },
{
    match &input.data {
        Data::Struct { fields } => {
            match plan_struct(input.attrs.as_slice(), fields.as_slice()) {
                Ok(names) => Ok(Adapter::Struct { names }),
                Err(e) => Err(e),
            }
        },
        Data::Enum { variants } => {
            match plan_enum(input.is_generic(), input.attrs.as_slice(), variants.as_slice()) {
                Ok(names) => Ok(Adapter::Enum { names }),
                Err(e) => Err(e),
            }
        },
        Data::Other => Err(DeriveError::UnsupportedShape),
    }
}

} // verus!
