//! The option resolver: it turns the directives attached to a container, a
//! variant or a field into the configuration of that node.
//!
//! Directives are applied in the order in which they are written. A slot that
//! holds one value keeps the last one written to it; the composable parts
//! (`DefaultValue`, `Skip`, `With`) collect what several directives say. A
//! directive that is not legal for the kind of node is an error that names
//! the directive's kind.

use vstd::prelude::*;

use crate::case::{case_of_name, Case};
use crate::error::ConfigError;
use crate::modifier::{opt_text, Modifier, ModifierKind, ModifierView};

verus! {

/// The target of a directive that may name one target for encoding and one
/// for decoding: both must agree.
pub open spec fn agreed_target(
    serialize: Option<Seq<char>>,
    deserialize: Option<Seq<char>>,
    kind: ModifierKind,
) -> Result<Option<Seq<char>>, ConfigError> {
    if serialize == deserialize {
        Ok(serialize)
    } else {
        Err(ConfigError::Conflict { kind })
    }
}

fn copy_opt(o: &Option<String>) -> (r: Option<String>)
    ensures
        r == *o,
{
    match o {
        Some(s) => Some(s.clone()),
        None => None,
    }
}

fn target(serialize: &Option<String>, deserialize: &Option<String>, kind: ModifierKind) -> (r:
    Result<Option<String>, ConfigError>)
    ensures
        match agreed_target(opt_text(*serialize), opt_text(*deserialize), kind) {
            Ok(name) => r matches Ok(found) && opt_text(found) == name,
            Err(e) => r == Err::<Option<String>, ConfigError>(e),
        },
{
    let same = match (serialize, deserialize) {
        (Some(a), Some(b)) => *a == *b,
        (None, None) => true,
        _ => false,
    };
    if same {
        Ok(copy_opt(serialize))
    } else {
        Err(ConfigError::Conflict { kind })
    }
}

/// The case named by a `rename_all` directive, where it names one.
pub open spec fn agreed_case(serialize: Option<Seq<char>>, deserialize: Option<Seq<char>>) -> Result<
    Option<Case>,
    ConfigError,
> {
    match agreed_target(serialize, deserialize, ModifierKind::RenameAll) {
        Ok(Some(name)) => match case_of_name(name) {
            Some(case) => Ok(Some(case)),
            None => Err(ConfigError::InvalidCase),
        },
        Ok(None) => Ok(None),
        Err(e) => Err(e),
    }
}

fn target_case(serialize: &Option<String>, deserialize: &Option<String>) -> (r: Result<
    Option<Case>,
    ConfigError,
>)
    ensures
        r == agreed_case(opt_text(*serialize), opt_text(*deserialize)),
{
    match target(serialize, deserialize, ModifierKind::RenameAll) {
        Ok(Some(name)) => match Case::from_str(name.as_str()) {
            Ok(case) => Ok(Some(case)),
            Err(e) => Err(e),
        },
        Ok(None) => Ok(None),
        Err(e) => Err(e),
    }
}

/// The error for a directive that is not legal where it stands.
pub fn bad_modifier(modifier: &Modifier) -> (e: ConfigError)
    ensures
        e == (ConfigError::BadModifier { kind: modifier@.kind() }),
{
    ConfigError::BadModifier { kind: modifier.kind() }
}

/// How the active variant of a sum type is told in the encoded form.
#[derive(Clone, Debug, PartialEq, Eq)]
pub enum TagStyle {
    External,
    Internal { field: String },
    Adjacent { tag: String, content: String },
    Untagged,
}

/// A tag style as a mathematical value.
pub enum TagStyleView {
    External,
    Internal { field: Seq<char> },
    Adjacent { tag: Seq<char>, content: Seq<char> },
    Untagged,
}

impl View for TagStyle {
    type V = TagStyleView;

    open spec fn view(&self) -> TagStyleView {
        match *self {
            TagStyle::External => TagStyleView::External,
            TagStyle::Internal { field } => TagStyleView::Internal { field: field@ },
            TagStyle::Adjacent { tag, content } => TagStyleView::Adjacent {
                tag: tag@,
                content: content@,
            },
            TagStyle::Untagged => TagStyleView::Untagged,
        }
    }
}

impl TagStyleView {
    /// Whether a directive speaks of the tag style.
    pub open spec fn accepts(m: ModifierView) -> bool {
        m is TagInternal || m is TagAdjacent || m is Untagged
    }

    /// The tag style after a directive: a directive that speaks of the tag
    /// style replaces it, any other leaves it.
    pub open spec fn applied(self, m: ModifierView) -> TagStyleView {
        match m {
            ModifierView::TagInternal { field } => TagStyleView::Internal { field },
            ModifierView::TagAdjacent { tag, content } => TagStyleView::Adjacent { tag, content },
            ModifierView::Untagged => TagStyleView::Untagged,
            _ => self,
        }
    }
}

impl TagStyle {
    /// Offers a directive. The result tells whether it was consumed.
    pub fn try_apply_modifier(&mut self, modifier: &Modifier) -> (r: Result<bool, ConfigError>)
        ensures
            r == Ok::<bool, ConfigError>(TagStyleView::accepts(modifier@)),
            final(self)@ == old(self)@.applied(modifier@),
    {
        match modifier {
            Modifier::TagInternal { field } => {
                *self = TagStyle::Internal { field: field.clone() };
                Ok(true)
            },
            Modifier::TagAdjacent { tag, content } => {
                *self = TagStyle::Adjacent { tag: tag.clone(), content: content.clone() };
                Ok(true)
            },
            Modifier::Untagged => {
                *self = TagStyle::Untagged;
                Ok(true)
            },
            _ => Ok(false),
        }
    }
}

/// Whether a missing value is replaced by a default, and by which.
#[derive(Clone, Debug, PartialEq, Eq)]
pub struct DefaultValue {
    pub on: bool,
    pub path: Option<String>,
}

/// A default setting as a mathematical value.
pub struct DefaultValueView {
    pub on: bool,
    pub path: Option<Seq<char>>,
}

impl View for DefaultValue {
    type V = DefaultValueView;

    open spec fn view(&self) -> DefaultValueView {
        DefaultValueView { on: self.on, path: opt_text(self.path) }
    }
}

impl DefaultValueView {
    /// The setting that no directive has touched.
    pub open spec fn initial() -> DefaultValueView {
        DefaultValueView { on: false, path: None }
    }

    pub open spec fn accepts(m: ModifierView) -> bool {
        m is Default
    }

    pub open spec fn applied(self, m: ModifierView) -> DefaultValueView {
        match m {
            ModifierView::Default { item } => DefaultValueView { on: true, path: item },
            _ => self,
        }
    }
}

impl Default for DefaultValue {
    fn default() -> (r: Self)
        ensures
            r@ == DefaultValueView::initial(),
    {
        Self { on: false, path: None }
    }
}

impl DefaultValue {
    /// Offers a directive. The result tells whether it was consumed.
    pub fn try_apply_modifier(&mut self, modifier: &Modifier) -> (r: Result<bool, ConfigError>)
        ensures
            r == Ok::<bool, ConfigError>(DefaultValueView::accepts(modifier@)),
            final(self)@ == old(self)@.applied(modifier@),
    {
        match modifier {
            Modifier::Default { item } => {
                self.on = true;
                self.path = copy_opt(item);
                Ok(true)
            },
            _ => Ok(false),
        }
    }
}

/// In which direction a node is left out, and on which condition.
#[derive(Clone, Debug, PartialEq, Eq)]
pub struct Skip {
    pub serializing: bool,
    pub serializing_if: Option<String>,
    pub deserializing: bool,
}

/// A skip setting as a mathematical value.
pub struct SkipView {
    pub serializing: bool,
    pub serializing_if: Option<Seq<char>>,
    pub deserializing: bool,
}

impl View for Skip {
    type V = SkipView;

    open spec fn view(&self) -> SkipView {
        SkipView {
            serializing: self.serializing,
            serializing_if: opt_text(self.serializing_if),
            deserializing: self.deserializing,
        }
    }
}

impl SkipView {
    /// The setting that no directive has touched.
    pub open spec fn initial() -> SkipView {
        SkipView { serializing: false, serializing_if: None, deserializing: false }
    }

    pub open spec fn accepts(m: ModifierView) -> bool {
        m is Skip || m is SkipSerializing || m is SkipSerializingIf || m is SkipDeserializing
    }

    pub open spec fn applied(self, m: ModifierView) -> SkipView {
        match m {
            ModifierView::Skip => SkipView { serializing: true, deserializing: true, ..self },
            ModifierView::SkipSerializing => SkipView { serializing: true, ..self },
            ModifierView::SkipSerializingIf { imp } => SkipView {
                serializing: true,
                serializing_if: Some(imp),
                ..self
            },
            ModifierView::SkipDeserializing => SkipView { deserializing: true, ..self },
            _ => self,
        }
    }
}

impl Default for Skip {
    fn default() -> (r: Self)
        ensures
            r@ == SkipView::initial(),
    {
        Self { serializing: false, serializing_if: None, deserializing: false }
    }
}

impl Skip {
    /// Offers a directive. The result tells whether it was consumed.
    pub fn try_apply_modifier(&mut self, modifier: &Modifier) -> (r: Result<bool, ConfigError>)
        ensures
            r == Ok::<bool, ConfigError>(SkipView::accepts(modifier@)),
            final(self)@ == old(self)@.applied(modifier@),
    {
        match modifier {
            Modifier::Skip => {
                self.serializing = true;
                self.deserializing = true;
                Ok(true)
            },
            Modifier::SkipSerializing => {
                self.serializing = true;
                Ok(true)
            },
            Modifier::SkipSerializingIf { imp } => {
                self.serializing = true;
                self.serializing_if = Some(imp.clone());
                Ok(true)
            },
            Modifier::SkipDeserializing => {
                self.deserializing = true;
                Ok(true)
            },
            _ => Ok(false),
        }
    }
}

/// The functions that stand in for the codec of a node.
#[derive(Clone, Debug, PartialEq, Eq)]
pub struct With {
    pub module: Option<String>,
    pub serialize_fn: Option<String>,
    pub deserialize_fn: Option<String>,
}

/// A stand-in setting as a mathematical value.
pub struct WithView {
    pub module: Option<Seq<char>>,
    pub serialize_fn: Option<Seq<char>>,
    pub deserialize_fn: Option<Seq<char>>,
}

impl View for With {
    type V = WithView;

    open spec fn view(&self) -> WithView {
        WithView {
            module: opt_text(self.module),
            serialize_fn: opt_text(self.serialize_fn),
            deserialize_fn: opt_text(self.deserialize_fn),
        }
    }
}

impl WithView {
    /// The setting that no directive has touched.
    pub open spec fn initial() -> WithView {
        WithView { module: None, serialize_fn: None, deserialize_fn: None }
    }

    pub open spec fn accepts(m: ModifierView) -> bool {
        m is With || m is SerializeWith || m is DeserializeWith
    }

    pub open spec fn applied(self, m: ModifierView) -> WithView {
        match m {
            ModifierView::With { imp } => WithView { module: Some(imp), ..self },
            ModifierView::SerializeWith { imp } => WithView { serialize_fn: Some(imp), ..self },
            ModifierView::DeserializeWith { imp } => WithView { deserialize_fn: Some(imp), ..self },
            _ => self,
        }
    }
}

impl Default for With {
    fn default() -> (r: Self)
        ensures
            r@ == WithView::initial(),
    {
        Self { module: None, serialize_fn: None, deserialize_fn: None }
    }
}

impl With {
    /// Offers a directive. The result tells whether it was consumed.
    pub fn try_apply_modifier(&mut self, modifier: &Modifier) -> (r: Result<bool, ConfigError>)
        ensures
            r == Ok::<bool, ConfigError>(WithView::accepts(modifier@)),
            final(self)@ == old(self)@.applied(modifier@),
    {
        match modifier {
            Modifier::With { imp } => {
                self.module = Some(imp.clone());
                Ok(true)
            },
            Modifier::SerializeWith { imp } => {
                self.serialize_fn = Some(imp.clone());
                Ok(true)
            },
            Modifier::DeserializeWith { imp } => {
                self.deserialize_fn = Some(imp.clone());
                Ok(true)
            },
            _ => Ok(false),
        }
    }
}

/// The directives of a list as mathematical values.
pub open spec fn views(ms: Seq<Modifier>) -> Seq<ModifierView> {
    ms.map_values(|m: Modifier| m@)
}

/// A configuration that is built from directives.
pub trait OptionSet: View + Sized {
    /// The configuration after one directive, or the error with which the
    /// directive is refused.
    spec fn applied(cfg: Self::V, m: ModifierView) -> Result<Self::V, ConfigError>;

    /// Applies one directive. A refused directive leaves the configuration
    /// as it was.
    fn apply_modifier(&mut self, modifier: &Modifier) -> (r: Result<(), ConfigError>)
        ensures
            match Self::applied(old(self)@, modifier@) {
                Ok(next) => r is Ok && final(self)@ == next,
                Err(e) => r == Err::<(), ConfigError>(e) && final(self)@ == old(self)@,
            },
    ;
}

/// The configuration that a directive list leads to from `start`, and the
/// error of the first directive that is refused, if one is. Directives after
/// a refused one are not looked at.
pub open spec fn run<T: OptionSet>(start: T::V, ms: Seq<ModifierView>) -> (T::V, Option<ConfigError>)
    decreases ms.len(),
{
    if ms.len() == 0 {
        (start, None)
    } else {
        let (cfg, err) = run::<T>(start, ms.drop_last());
        if err is Some {
            (cfg, err)
        } else {
            match T::applied(cfg, ms.last()) {
                Ok(next) => (next, None),
                Err(e) => (cfg, Some(e)),
            }
        }
    }
}

/// The configuration that a directive list resolves to, or the error of the
/// first directive that is refused.
pub open spec fn resolve<T: OptionSet>(start: T::V, ms: Seq<ModifierView>) -> Result<
    T::V,
    ConfigError,
> {
    match run::<T>(start, ms).1 {
        Some(e) => Err(e),
        None => Ok(run::<T>(start, ms).0),
    }
}

/// Once a directive has been refused, the directives behind it change
/// nothing.
pub proof fn lemma_run_stops<T: OptionSet>(start: T::V, ms: Seq<ModifierView>, k: int)
    requires
        0 <= k <= ms.len(),
        run::<T>(start, ms.take(k)).1 is Some,
    ensures
        run::<T>(start, ms) == run::<T>(start, ms.take(k)),
    decreases ms.len() - k,
{
    if k == ms.len() {
        assert(ms.take(k) == ms);
    } else {
        let next = ms.take(k + 1);
        assert(next.drop_last() == ms.take(k));
        lemma_run_stops::<T>(start, ms, k + 1);
    }
}

/// A directive put behind a list is applied to what the list resolves to;
/// behind a list that is refused it changes nothing.
pub proof fn lemma_run_push<T: OptionSet>(start: T::V, ms: Seq<ModifierView>, m: ModifierView)
    ensures
        run::<T>(start, ms.push(m)) == if run::<T>(start, ms).1 is Some {
            run::<T>(start, ms)
        } else {
            match T::applied(run::<T>(start, ms).0, m) {
                Ok(next) => (next, None::<ConfigError>),
                Err(e) => (run::<T>(start, ms).0, Some(e)),
            }
        },
{
    assert(ms.push(m).drop_last() == ms);
    assert(ms.push(m).last() == m);
}

/// Applies the directives in order and stops at the first that is refused:
/// the configuration then holds what the directives before it have set.
pub fn apply_all<T: OptionSet>(opts: &mut T, modifiers: &[Modifier]) -> (r: Result<
    (),
    ConfigError,
>)
    ensures
        final(opts)@ == run::<T>(old(opts)@, views(modifiers@)).0,
        r == match run::<T>(old(opts)@, views(modifiers@)).1 {
            Some(e) => Err::<(), ConfigError>(e),
            None => Ok(()),
        },
{
    let ghost all = views(modifiers@);
    let mut i: usize = 0;
    while i < modifiers.len()
        invariant
            i <= modifiers.len(),
            all == views(modifiers@),
            run::<T>(old(opts)@, all.take(i as int)) == (opts@, None::<ConfigError>),
        decreases modifiers.len() - i,
    {
        proof {
            let next = all.take(i + 1);
            assert(next.drop_last() == all.take(i as int));
            assert(next.last() == modifiers@[i as int]@);
        }
        match opts.apply_modifier(&modifiers[i]) {
            Ok(()) => {},
            Err(e) => {
                proof {
                    lemma_run_stops::<T>(old(opts)@, all, i + 1);
                }
                return Err(e);
            },
        }
        i += 1;
    }
    assert(all.take(i as int) == all);
    Ok(())
}

/// The configuration of a container: a struct or an enum.
#[derive(Clone, Debug, PartialEq, Eq)]
pub struct ContainerOpts {
    pub rename: Option<String>,
    pub rename_all: Option<Case>,
    pub tag_style: TagStyle,
    pub default: DefaultValue,
    pub remote: Option<String>,
    pub transparent: bool,
    pub from: Option<String>,
    pub try_from: Option<String>,
    pub into: Option<String>,
}

/// The configuration of a container as a mathematical value.
pub struct ContainerOptsView {
    pub rename: Option<Seq<char>>,
    pub rename_all: Option<Case>,
    pub tag_style: TagStyleView,
    pub default: DefaultValueView,
    pub remote: Option<Seq<char>>,
    pub transparent: bool,
    pub from: Option<Seq<char>>,
    pub try_from: Option<Seq<char>>,
    pub into: Option<Seq<char>>,
}

impl View for ContainerOpts {
    type V = ContainerOptsView;

    open spec fn view(&self) -> ContainerOptsView {
        ContainerOptsView {
            rename: opt_text(self.rename),
            rename_all: self.rename_all,
            tag_style: self.tag_style@,
            default: self.default@,
            remote: opt_text(self.remote),
            transparent: self.transparent,
            from: opt_text(self.from),
            try_from: opt_text(self.try_from),
            into: opt_text(self.into),
        }
    }
}

impl ContainerOptsView {
    /// The configuration that no directive has touched.
    pub open spec fn initial() -> ContainerOptsView {
        ContainerOptsView {
            rename: None,
            rename_all: None,
            tag_style: TagStyleView::External,
            default: DefaultValueView::initial(),
            remote: None,
            transparent: false,
            from: None,
            try_from: None,
            into: None,
        }
    }
}

impl Default for ContainerOpts {
    fn default() -> (r: Self)
        ensures
            r@ == ContainerOptsView::initial(),
    {
        Self {
            rename: None,
            rename_all: None,
            tag_style: TagStyle::External,
            default: DefaultValue::default(),
            remote: None,
            transparent: false,
            from: None,
            try_from: None,
            into: None,
        }
    }
}

impl ContainerOpts {
    /// Applies the directives of a container in order. At the first one that is
    /// refused it stops and returns the error; the configuration then holds
    /// what the directives before it have set.
    pub fn apply_modifiers(&mut self, modifiers: &[Modifier]) -> (r: Result<(), ConfigError>)
        ensures
            final(self)@ == run::<ContainerOpts>(old(self)@, views(modifiers@)).0,
            r == match run::<ContainerOpts>(old(self)@, views(modifiers@)).1 {
                Some(e) => Err::<(), ConfigError>(e),
                None => Ok(()),
            },
    {
        apply_all(self, modifiers)
    }
}

impl OptionSet for ContainerOpts {
    open spec fn applied(cfg: ContainerOptsView, m: ModifierView) -> Result<
        ContainerOptsView,
        ConfigError,
    > {
        match m {
            ModifierView::Rename { serialize_name, deserialize_name } => match agreed_target(
                serialize_name,
                deserialize_name,
                ModifierKind::Rename,
            ) {
                Ok(Some(name)) => Ok(ContainerOptsView { rename: Some(name), ..cfg }),
                Ok(None) => Ok(cfg),
                Err(e) => Err(e),
            },
            ModifierView::RenameAll { serialize_case, deserialize_case } => match agreed_case(
                serialize_case,
                deserialize_case,
            ) {
                Ok(Some(case)) => Ok(ContainerOptsView { rename_all: Some(case), ..cfg }),
                Ok(None) => Ok(cfg),
                Err(e) => Err(e),
            },
            ModifierView::Remote { item } => Ok(ContainerOptsView { remote: Some(item), ..cfg }),
            ModifierView::Transparent => Ok(ContainerOptsView { transparent: true, ..cfg }),
            ModifierView::From { item } => Ok(ContainerOptsView { from: Some(item), ..cfg }),
            ModifierView::TryFrom { item } => Ok(ContainerOptsView { try_from: Some(item), ..cfg }),
            ModifierView::Into { item } => Ok(ContainerOptsView { into: Some(item), ..cfg }),
            _ => if TagStyleView::accepts(m) {
                Ok(ContainerOptsView { tag_style: cfg.tag_style.applied(m), ..cfg })
            } else if DefaultValueView::accepts(m) {
                Ok(ContainerOptsView { default: cfg.default.applied(m), ..cfg })
            } else {
                Err(ConfigError::BadModifier { kind: m.kind() })
            },
        }
    }

    fn apply_modifier(&mut self, modifier: &Modifier) -> (r: Result<(), ConfigError>) {
        match modifier {
            Modifier::Rename { serialize_name, deserialize_name } => {
                if let Some(name) = target(serialize_name, deserialize_name, ModifierKind::Rename)? {
                    self.rename = Some(name);
                }
            },
            Modifier::RenameAll { serialize_case, deserialize_case } => {
                if let Some(case) = target_case(serialize_case, deserialize_case)? {
                    self.rename_all = Some(case);
                }
            },
            Modifier::Remote { item } => {
                self.remote = Some(item.clone());
            },
            Modifier::Transparent => {
                self.transparent = true;
            },
            Modifier::From { item } => {
                self.from = Some(item.clone());
            },
            Modifier::TryFrom { item } => {
                self.try_from = Some(item.clone());
            },
            Modifier::Into { item } => {
                self.into = Some(item.clone());
            },
            _ => {
                let consumed = self.tag_style.try_apply_modifier(modifier)?
                    || self.default.try_apply_modifier(modifier)?;
                if !consumed {
                    return Err(bad_modifier(modifier));
                }
            },
        }
        Ok(())
    }
}

/// The configuration of a variant of an enum.
#[derive(Clone, Debug, PartialEq, Eq)]
pub struct VariantOpts {
    pub rename: Option<String>,
    pub rename_all: Option<Case>,
    pub skip: Skip,
    pub with: With,
    pub other: bool,
    /// Whether the variant goes without a tag. No directive of a variant
    /// sets it: `untagged` is legal on a container only.
    pub untagged: bool,
}

/// The configuration of a variant as a mathematical value.
pub struct VariantOptsView {
    pub rename: Option<Seq<char>>,
    pub rename_all: Option<Case>,
    pub skip: SkipView,
    pub with: WithView,
    pub other: bool,
    pub untagged: bool,
}

impl View for VariantOpts {
    type V = VariantOptsView;

    open spec fn view(&self) -> VariantOptsView {
        VariantOptsView {
            rename: opt_text(self.rename),
            rename_all: self.rename_all,
            skip: self.skip@,
            with: self.with@,
            other: self.other,
            untagged: self.untagged,
        }
    }
}

impl VariantOptsView {
    /// The configuration that no directive has touched.
    pub open spec fn initial() -> VariantOptsView {
        VariantOptsView {
            rename: None,
            rename_all: None,
            skip: SkipView::initial(),
            with: WithView::initial(),
            other: false,
            untagged: false,
        }
    }
}

impl Default for VariantOpts {
    fn default() -> (r: Self)
        ensures
            r@ == VariantOptsView::initial(),
    {
        Self {
            rename: None,
            rename_all: None,
            skip: Skip::default(),
            with: With::default(),
            other: false,
            untagged: false,
        }
    }
}

impl VariantOpts {
    /// Applies the directives of a variant in order. At the first one that is
    /// refused it stops and returns the error; the configuration then holds
    /// what the directives before it have set.
    pub fn apply_modifiers(&mut self, modifiers: &[Modifier]) -> (r: Result<(), ConfigError>)
        ensures
            final(self)@ == run::<VariantOpts>(old(self)@, views(modifiers@)).0,
            r == match run::<VariantOpts>(old(self)@, views(modifiers@)).1 {
                Some(e) => Err::<(), ConfigError>(e),
                None => Ok(()),
            },
    {
        apply_all(self, modifiers)
    }
}

impl OptionSet for VariantOpts {
    open spec fn applied(cfg: VariantOptsView, m: ModifierView) -> Result<
        VariantOptsView,
        ConfigError,
    > {
        match m {
            ModifierView::Rename { serialize_name, deserialize_name } => match agreed_target(
                serialize_name,
                deserialize_name,
                ModifierKind::Rename,
            ) {
                Ok(Some(name)) => Ok(VariantOptsView { rename: Some(name), ..cfg }),
                Ok(None) => Ok(cfg),
                Err(e) => Err(e),
            },
            ModifierView::RenameAll { serialize_case, deserialize_case } => match agreed_case(
                serialize_case,
                deserialize_case,
            ) {
                Ok(Some(case)) => Ok(VariantOptsView { rename_all: Some(case), ..cfg }),
                Ok(None) => Ok(cfg),
                Err(e) => Err(e),
            },
            ModifierView::Other => Ok(VariantOptsView { other: true, ..cfg }),
            _ => if SkipView::accepts(m) {
                Ok(VariantOptsView { skip: cfg.skip.applied(m), ..cfg })
            } else if WithView::accepts(m) {
                Ok(VariantOptsView { with: cfg.with.applied(m), ..cfg })
            } else {
                Err(ConfigError::BadModifier { kind: m.kind() })
            },
        }
    }

    fn apply_modifier(&mut self, modifier: &Modifier) -> (r: Result<(), ConfigError>) {
        match modifier {
            Modifier::Rename { serialize_name, deserialize_name } => {
                if let Some(name) = target(serialize_name, deserialize_name, ModifierKind::Rename)? {
                    self.rename = Some(name);
                }
            },
            Modifier::RenameAll { serialize_case, deserialize_case } => {
                if let Some(case) = target_case(serialize_case, deserialize_case)? {
                    self.rename_all = Some(case);
                }
            },
            Modifier::Other => {
                self.other = true;
            },
            _ => {
                let consumed = self.skip.try_apply_modifier(modifier)?
                    || self.with.try_apply_modifier(modifier)?;
                if !consumed {
                    return Err(bad_modifier(modifier));
                }
            },
        }
        Ok(())
    }
}

/// The configuration of a field of a struct.
#[derive(Clone, Debug, PartialEq, Eq)]
pub struct FieldOpts {
    pub rename: Option<String>,
    pub default: DefaultValue,
    pub flatten: bool,
    pub skip: Skip,
    pub with: With,
}

/// The configuration of a field as a mathematical value.
pub struct FieldOptsView {
    pub rename: Option<Seq<char>>,
    pub default: DefaultValueView,
    pub flatten: bool,
    pub skip: SkipView,
    pub with: WithView,
}

impl View for FieldOpts {
    type V = FieldOptsView;

    open spec fn view(&self) -> FieldOptsView {
        FieldOptsView {
            rename: opt_text(self.rename),
            default: self.default@,
            flatten: self.flatten,
            skip: self.skip@,
            with: self.with@,
        }
    }
}

impl FieldOptsView {
    /// The configuration that no directive has touched.
    pub open spec fn initial() -> FieldOptsView {
        FieldOptsView {
            rename: None,
            default: DefaultValueView::initial(),
            flatten: false,
            skip: SkipView::initial(),
            with: WithView::initial(),
        }
    }
}

impl Default for FieldOpts {
    fn default() -> (r: Self)
        ensures
            r@ == FieldOptsView::initial(),
    {
        Self {
            rename: None,
            default: DefaultValue::default(),
            flatten: false,
            skip: Skip::default(),
            with: With::default(),
        }
    }
}

impl FieldOpts {
    /// Applies the directives of a field in order. At the first one that is
    /// refused it stops and returns the error; the configuration then holds
    /// what the directives before it have set.
    pub fn apply_modifiers(&mut self, modifiers: &[Modifier]) -> (r: Result<(), ConfigError>)
        ensures
            final(self)@ == run::<FieldOpts>(old(self)@, views(modifiers@)).0,
            r == match run::<FieldOpts>(old(self)@, views(modifiers@)).1 {
                Some(e) => Err::<(), ConfigError>(e),
                None => Ok(()),
            },
    {
        apply_all(self, modifiers)
    }
}

impl OptionSet for FieldOpts {
    open spec fn applied(cfg: FieldOptsView, m: ModifierView) -> Result<FieldOptsView, ConfigError> {
        match m {
            ModifierView::Rename { serialize_name, deserialize_name } => match agreed_target(
                serialize_name,
                deserialize_name,
                ModifierKind::Rename,
            ) {
                Ok(Some(name)) => Ok(FieldOptsView { rename: Some(name), ..cfg }),
                Ok(None) => Ok(cfg),
                Err(e) => Err(e),
            },
            ModifierView::Flatten => Ok(FieldOptsView { flatten: true, ..cfg }),
            _ => if DefaultValueView::accepts(m) {
                Ok(FieldOptsView { default: cfg.default.applied(m), ..cfg })
            } else if SkipView::accepts(m) {
                Ok(FieldOptsView { skip: cfg.skip.applied(m), ..cfg })
            } else if WithView::accepts(m) {
                Ok(FieldOptsView { with: cfg.with.applied(m), ..cfg })
            } else {
                Err(ConfigError::BadModifier { kind: m.kind() })
            },
        }
    }

    fn apply_modifier(&mut self, modifier: &Modifier) -> (r: Result<(), ConfigError>) {
        match modifier {
            Modifier::Rename { serialize_name, deserialize_name } => {
                if let Some(name) = target(serialize_name, deserialize_name, ModifierKind::Rename)? {
                    self.rename = Some(name);
                }
            },
            Modifier::Flatten => {
                self.flatten = true;
            },
            _ => {
                let consumed = self.default.try_apply_modifier(modifier)?
                    || self.skip.try_apply_modifier(modifier)?
                    || self.with.try_apply_modifier(modifier)?;
                if !consumed {
                    return Err(bad_modifier(modifier));
                }
            },
        }
        Ok(())
    }
}

/// Last writer wins, for a container: a rename directive behind any list that
/// resolves gives the configuration of that list with the directive's name
/// as its name. Behind a list that is refused, the list's error stays.
pub proof fn lemma_container_last_rename_wins(
    start: ContainerOptsView,
    ms: Seq<ModifierView>,
    name: Seq<char>,
)
    ensures
        ({
            let rename = ModifierView::Rename {
                serialize_name: Some(name),
                deserialize_name: Some(name),
            };
            match resolve::<ContainerOpts>(start, ms) {
                Ok(opts) => resolve::<ContainerOpts>(start, ms.push(rename)) == Ok::<
                    ContainerOptsView,
                    ConfigError,
                >(ContainerOptsView { rename: Some(name), ..opts }),
                Err(e) => resolve::<ContainerOpts>(start, ms.push(rename)) == Err::<
                    ContainerOptsView,
                    ConfigError,
                >(e),
            }
        }),
{
    let rename = ModifierView::Rename { serialize_name: Some(name), deserialize_name: Some(name) };
    lemma_run_push::<ContainerOpts>(start, ms, rename);
}

/// Last writer wins, for a variant: a rename directive behind any list that
/// resolves gives the configuration of that list with the directive's name
/// as its name. Behind a list that is refused, the list's error stays.
pub proof fn lemma_variant_last_rename_wins(
    start: VariantOptsView,
    ms: Seq<ModifierView>,
    name: Seq<char>,
)
    ensures
        ({
            let rename = ModifierView::Rename {
                serialize_name: Some(name),
                deserialize_name: Some(name),
            };
            match resolve::<VariantOpts>(start, ms) {
                Ok(opts) => resolve::<VariantOpts>(start, ms.push(rename)) == Ok::<
                    VariantOptsView,
                    ConfigError,
                >(VariantOptsView { rename: Some(name), ..opts }),
                Err(e) => resolve::<VariantOpts>(start, ms.push(rename)) == Err::<
                    VariantOptsView,
                    ConfigError,
                >(e),
            }
        }),
{
    let rename = ModifierView::Rename { serialize_name: Some(name), deserialize_name: Some(name) };
    lemma_run_push::<VariantOpts>(start, ms, rename);
}

/// Last writer wins, for a field: a rename directive behind any list that
/// resolves gives the configuration of that list with the directive's name
/// as its name. Behind a list that is refused, the list's error stays.
pub proof fn lemma_field_last_rename_wins(
    start: FieldOptsView,
    ms: Seq<ModifierView>,
    name: Seq<char>,
)
    ensures
        ({
            let rename = ModifierView::Rename {
                serialize_name: Some(name),
                deserialize_name: Some(name),
            };
            match resolve::<FieldOpts>(start, ms) {
                Ok(opts) => resolve::<FieldOpts>(start, ms.push(rename)) == Ok::<
                    FieldOptsView,
                    ConfigError,
                >(FieldOptsView { rename: Some(name), ..opts }),
                Err(e) => resolve::<FieldOpts>(start, ms.push(rename)) == Err::<
                    FieldOptsView,
                    ConfigError,
                >(e),
            }
        }),
{
    let rename = ModifierView::Rename { serialize_name: Some(name), deserialize_name: Some(name) };
    lemma_run_push::<FieldOpts>(start, ms, rename);
}

/// A variant refuses `untagged`, as it refuses every directive that speaks
/// of the tag style: those are legal on a container only.
pub proof fn lemma_variant_refuses_tag_style(cfg: VariantOptsView, m: ModifierView)
    requires
        TagStyleView::accepts(m),
    ensures
        VariantOpts::applied(cfg, m) == Err::<VariantOptsView, ConfigError>(
            ConfigError::BadModifier { kind: m.kind() },
        ),
{
}

/// A field refuses every directive that speaks of the tag style.
pub proof fn lemma_field_refuses_tag_style(cfg: FieldOptsView, m: ModifierView)
    requires
        TagStyleView::accepts(m),
    ensures
        FieldOpts::applied(cfg, m) == Err::<FieldOptsView, ConfigError>(
            ConfigError::BadModifier { kind: m.kind() },
        ),
{
}

/// The tag style of a container is that of the last directive that speaks
/// of it.
pub proof fn lemma_last_tag_style_wins(
    start: ContainerOptsView,
    ms: Seq<ModifierView>,
    m: ModifierView,
)
    requires
        TagStyleView::accepts(m),
    ensures
        match resolve::<ContainerOpts>(start, ms) {
            Ok(opts) => resolve::<ContainerOpts>(start, ms.push(m)) == Ok::<
                ContainerOptsView,
                ConfigError,
            >(ContainerOptsView { tag_style: opts.tag_style.applied(m), ..opts }),
            Err(e) => resolve::<ContainerOpts>(start, ms.push(m)) == Err::<
                ContainerOptsView,
                ConfigError,
            >(e),
        },
{
    lemma_run_push::<ContainerOpts>(start, ms, m);
}

/// Where no directive speaks of the tag style, the container keeps the one
/// it started with.
pub proof fn lemma_tag_style_kept(start: ContainerOptsView, ms: Seq<ModifierView>)
    requires
        forall|i: int| 0 <= i < ms.len() ==> !TagStyleView::accepts(#[trigger] ms[i]),
    ensures
        run::<ContainerOpts>(start, ms).0.tag_style == start.tag_style,
    decreases ms.len(),
{
    if ms.len() > 0 {
        let front = ms.drop_last();
        assert forall|i: int| 0 <= i < front.len() implies !TagStyleView::accepts(
            #[trigger] front[i],
        ) by {
            assert(front[i] == ms[i]);
        }
        lemma_tag_style_kept(start, front);
        assert(!TagStyleView::accepts(ms[ms.len() - 1]));
    }
}

} // verus!
