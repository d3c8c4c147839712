//! The `codec` attributes of a derived type: which exist, where each may stand, and how a
//! list of them becomes the settings of a container, variant or field.
use vstd::prelude::*;
use vstd::string::StringExecFns;

verus! {

/// Where an attribute stands.
#[derive(Clone, Copy, PartialEq, Eq, Structural, Debug)]
pub enum AttrKind {
    Enum,
    Struct,
    Variant,
    Field,
}

impl AttrKind {
    /// The word for the kind in messages.
    pub open spec fn spec_name(self) -> Seq<char> {
        match self {
            AttrKind::Enum => "enum"@,
            AttrKind::Struct => "struct"@,
            AttrKind::Variant => "variant"@,
            AttrKind::Field => "field"@,
        }
    }

    /// The word for the kind in messages.
    pub fn name(&self) -> (s: String)
        ensures
            s@ == self.spec_name(),
    {
        match self {
            AttrKind::Enum => "enum".to_owned(),
            AttrKind::Struct => "struct".to_owned(),
            AttrKind::Variant => "variant".to_owned(),
            AttrKind::Field => "field".to_owned(),
        }
    }
}

/// The attributes that `#[codec(..)]` understands.
#[derive(Clone, Copy, PartialEq, Eq, Structural, Debug)]
pub enum AttrName {
    FlexibleArrayMember,
    DiscriminantType,
    Discriminant,
    Ctx,
    CtxGenerics,
    CtxBounds,
    Bits,
    WriteValue,
    Tag,
    TagType,
    TagValue,
    TagBits,
    Default,
    PadBefore,
    PadAfter,
    Magic,
}

impl AttrName {
    /// The identifier of the attribute.
    pub open spec fn ident(self) -> Seq<char> {
        match self {
            AttrName::FlexibleArrayMember => "flexible_array_member"@,
            AttrName::DiscriminantType => "discriminant_type"@,
            AttrName::Discriminant => "discriminant"@,
            AttrName::Ctx => "ctx"@,
            AttrName::CtxGenerics => "ctx_generics"@,
            AttrName::CtxBounds => "ctx_bounds"@,
            AttrName::Bits => "bits"@,
            AttrName::WriteValue => "write_value"@,
            AttrName::Tag => "tag"@,
            AttrName::TagType => "tag_type"@,
            AttrName::TagValue => "tag_value"@,
            AttrName::TagBits => "tag_bits"@,
            AttrName::Default => "default"@,
            AttrName::PadBefore => "pad_before"@,
            AttrName::PadAfter => "pad_after"@,
            AttrName::Magic => "magic"@,
        }
    }

    /// The identifier of the attribute.
    pub fn ident_string(&self) -> (s: String)
        ensures
            s@ == self.ident(),
    {
        match self {
            AttrName::FlexibleArrayMember => "flexible_array_member".to_owned(),
            AttrName::DiscriminantType => "discriminant_type".to_owned(),
            AttrName::Discriminant => "discriminant".to_owned(),
            AttrName::Ctx => "ctx".to_owned(),
            AttrName::CtxGenerics => "ctx_generics".to_owned(),
            AttrName::CtxBounds => "ctx_bounds".to_owned(),
            AttrName::Bits => "bits".to_owned(),
            AttrName::WriteValue => "write_value".to_owned(),
            AttrName::Tag => "tag".to_owned(),
            AttrName::TagType => "tag_type".to_owned(),
            AttrName::TagValue => "tag_value".to_owned(),
            AttrName::TagBits => "tag_bits".to_owned(),
            AttrName::Default => "default".to_owned(),
            AttrName::PadBefore => "pad_before".to_owned(),
            AttrName::PadAfter => "pad_after".to_owned(),
            AttrName::Magic => "magic".to_owned(),
        }
    }

    /// The attribute with this identifier, if any.
    pub fn from_ident(ident: &String) -> (res: Option<AttrName>)
        ensures
            res matches Some(n) ==> n.ident() == ident@,
            res is None ==> forall|n: AttrName| #[trigger] n.ident() != ident@,
    {
        if *ident == AttrName::FlexibleArrayMember.ident_string() {
            return Some(AttrName::FlexibleArrayMember);
        }
        if *ident == AttrName::DiscriminantType.ident_string() {
            return Some(AttrName::DiscriminantType);
        }
        if *ident == AttrName::Discriminant.ident_string() {
            return Some(AttrName::Discriminant);
        }
        if *ident == AttrName::Ctx.ident_string() {
            return Some(AttrName::Ctx);
        }
        if *ident == AttrName::CtxGenerics.ident_string() {
            return Some(AttrName::CtxGenerics);
        }
        if *ident == AttrName::CtxBounds.ident_string() {
            return Some(AttrName::CtxBounds);
        }
        if *ident == AttrName::Bits.ident_string() {
            return Some(AttrName::Bits);
        }
        if *ident == AttrName::WriteValue.ident_string() {
            return Some(AttrName::WriteValue);
        }
        if *ident == AttrName::Tag.ident_string() {
            return Some(AttrName::Tag);
        }
        if *ident == AttrName::TagType.ident_string() {
            return Some(AttrName::TagType);
        }
        if *ident == AttrName::TagValue.ident_string() {
            return Some(AttrName::TagValue);
        }
        if *ident == AttrName::TagBits.ident_string() {
            return Some(AttrName::TagBits);
        }
        if *ident == AttrName::Default.ident_string() {
            return Some(AttrName::Default);
        }
        if *ident == AttrName::PadBefore.ident_string() {
            return Some(AttrName::PadBefore);
        }
        if *ident == AttrName::PadAfter.ident_string() {
            return Some(AttrName::PadAfter);
        }
        if *ident == AttrName::Magic.ident_string() {
            return Some(AttrName::Magic);
        }
        None
    }

    /// Whether the attribute may stand on an item of this kind.
    pub open spec fn spec_applies_to(self, k: AttrKind) -> bool {
        match self {
            AttrName::FlexibleArrayMember => k is Field,
            AttrName::DiscriminantType => k is Enum,
            AttrName::Discriminant => k is Variant,
            AttrName::Ctx => k is Enum || k is Struct,
            AttrName::CtxGenerics => k is Enum || k is Struct,
            AttrName::CtxBounds => k is Enum || k is Struct,
            AttrName::Bits => k is Enum || k is Field,
            AttrName::WriteValue => k is Field,
            AttrName::Tag => k is Field,
            AttrName::TagType => k is Field,
            AttrName::TagValue => k is Field,
            AttrName::TagBits => k is Field,
            AttrName::Default => k is Field,
            AttrName::PadBefore => k is Struct || k is Field,
            AttrName::PadAfter => k is Struct || k is Field,
            AttrName::Magic => k is Struct || k is Field,
        }
    }

    /// Whether the attribute may stand on an item of this kind.
    pub fn applies_to(&self, k: AttrKind) -> (b: bool)
        ensures
            b == self.spec_applies_to(k),
    {
        match self {
            AttrName::FlexibleArrayMember => matches!(k, AttrKind::Field),
            AttrName::DiscriminantType => matches!(k, AttrKind::Enum),
            AttrName::Discriminant => matches!(k, AttrKind::Variant),
            AttrName::Ctx => matches!(k, AttrKind::Enum) || matches!(k, AttrKind::Struct),
            AttrName::CtxGenerics => matches!(k, AttrKind::Enum) || matches!(k, AttrKind::Struct),
            AttrName::CtxBounds => matches!(k, AttrKind::Enum) || matches!(k, AttrKind::Struct),
            AttrName::Bits => matches!(k, AttrKind::Enum) || matches!(k, AttrKind::Field),
            AttrName::WriteValue => matches!(k, AttrKind::Field),
            AttrName::Tag => matches!(k, AttrKind::Field),
            AttrName::TagType => matches!(k, AttrKind::Field),
            AttrName::TagValue => matches!(k, AttrKind::Field),
            AttrName::TagBits => matches!(k, AttrKind::Field),
            AttrName::Default => matches!(k, AttrKind::Field),
            AttrName::PadBefore => matches!(k, AttrKind::Struct) || matches!(k, AttrKind::Field),
            AttrName::PadAfter => matches!(k, AttrKind::Struct) || matches!(k, AttrKind::Field),
            AttrName::Magic => matches!(k, AttrKind::Struct) || matches!(k, AttrKind::Field),
        }
    }

    /// Whether the attribute is written with a value (`name = value`, or a list in brackets),
    /// rather than alone.
    pub open spec fn spec_takes_value(self) -> bool {
        !(self is FlexibleArrayMember || self is Default)
    }

    /// Whether the attribute is written with a value.
    pub fn takes_value(&self) -> (b: bool)
        ensures
            b == self.spec_takes_value(),
    {
        !matches!(self, AttrName::FlexibleArrayMember | AttrName::Default)
    }
}

/// One attribute as written: its name, `None` where the name is not one that `codec`
/// understands, and its value, of whatever type the caller parses values into.
pub struct AttrItem<P> {
    pub name: Option<AttrName>,
    pub value: Option<P>,
}

/// Why a list of attributes is refused.
#[derive(Clone, Copy, PartialEq, Eq, Structural, Debug)]
pub enum AttrError {
    /// A name that `codec` does not understand.
    Unrecognized,
    /// An attribute on an item of a kind where it may not stand.
    NotApplicable { name: AttrName, kind: AttrKind },
    /// An attribute that needs a value, written without one.
    MissingValue(AttrName),
    /// `tag` together with `tag_type`, or `tag_value` or `tag_bits` without `tag_type`.
    InvalidTag,
    /// Both `ctx` and `ctx_bounds`.
    ExclusiveCtx,
    /// More than one of `bits`, `flexible_array_member` and a tag.
    ExclusiveLayout,
}

impl AttrError {
    /// The message for the error.
    pub open spec fn spec_message(self) -> Seq<char> {
        match self {
            AttrError::Unrecognized => "unrecognized attribute"@,
            AttrError::NotApplicable { name, kind } => "attribute '"@ + name.ident()
                + "' cannot be applied to "@ + kind.spec_name(),
            AttrError::MissingValue(_) => "expected `=`"@,
            AttrError::InvalidTag => "invalid configuration of 'tag', 'tag_type', or 'tag_value' attributes."@,
            AttrError::ExclusiveCtx => "use of mutually exclusive 'ctx' and 'ctx_bounds' attributes."@,
            AttrError::ExclusiveLayout => "bits, flexible_array_member, and tag are mutually-exclusive attributes"@,
        }
    }

    /// The message for the error.
    pub fn message(&self) -> (s: String)
        ensures
            s@ == self.spec_message(),
    {
        match self {
            AttrError::Unrecognized => "unrecognized attribute".to_owned(),
            AttrError::NotApplicable { name, kind } => {
                let mut s = String::from_str("attribute '");
                s.append(name.ident_string().as_str());
                s.append("' cannot be applied to ");
                s.append(kind.name().as_str());
                s
            },
            AttrError::MissingValue(_) => "expected `=`".to_owned(),
            AttrError::InvalidTag => "invalid configuration of 'tag', 'tag_type', or 'tag_value' attributes.".to_owned(),
            AttrError::ExclusiveCtx => "use of mutually exclusive 'ctx' and 'ctx_bounds' attributes.".to_owned(),
            AttrError::ExclusiveLayout => "bits, flexible_array_member, and tag are mutually-exclusive attributes".to_owned(),
        }
    }
}

/// What an attribute says of its item, or why it is refused, where it stands on an item of
/// `kind` (or, with `None`, on any kind of item).
pub open spec fn item_error<P>(item: AttrItem<P>, kind: Option<AttrKind>) -> Option<AttrError> {
    match item.name {
        None => Some(AttrError::Unrecognized),
        Some(n) => if kind is Some && !n.spec_applies_to(kind.unwrap()) {
            Some(AttrError::NotApplicable { name: n, kind: kind.unwrap() })
        } else if n.spec_takes_value() && item.value is None {
            Some(AttrError::MissingValue(n))
        } else {
            None
        },
    }
}

/// Checks one attribute: its name must be understood, it must be allowed on the kind of
/// item, and it must have a value where it takes one.
pub fn check_item(name: Option<AttrName>, has_value: bool, kind: Option<AttrKind>) -> (res:
    Result<AttrName, AttrError>)
    ensures
        ({
            let probe = AttrItem::<()> { name: name, value: if has_value { Some(()) } else { None } };
            match item_error(probe, kind) {
                Some(e) => res == Err::<AttrName, AttrError>(e),
                None => res == Ok::<AttrName, AttrError>(name.unwrap()),
            }
        }),
{
    match name {
        None => Err(AttrError::Unrecognized),
        Some(n) => {
            if let Some(k) = kind {
                if !n.applies_to(k) {
                    return Err(AttrError::NotApplicable { name: n, kind: k });
                }
            }
            if n.takes_value() && !has_value {
                return Err(AttrError::MissingValue(n));
            }
            Ok(n)
        },
    }
}

/// The values collected from a list of attributes, before they are checked together. A
/// later attribute of a name replaces an earlier one.
pub struct RawAttrs<P> {
    pub flexible_array_member: bool,
    pub default: bool,
    pub discriminant_type: Option<P>,
    pub discriminant: Option<P>,
    pub ctx: Option<P>,
    pub ctx_generics: Option<P>,
    pub ctx_bounds: Option<P>,
    pub bits: Option<P>,
    pub write_value: Option<P>,
    pub tag: Option<P>,
    pub tag_type: Option<P>,
    pub tag_value: Option<P>,
    pub tag_bits: Option<P>,
    pub pad_before: Option<P>,
    pub pad_after: Option<P>,
    pub magic: Option<P>,
}

impl<P> RawAttrs<P> {
    /// Nothing collected.
    pub open spec fn spec_empty() -> RawAttrs<P> {
        RawAttrs {
            flexible_array_member: false,
            default: false,
            discriminant_type: None,
            discriminant: None,
            ctx: None,
            ctx_generics: None,
            ctx_bounds: None,
            bits: None,
            write_value: None,
            tag: None,
            tag_type: None,
            tag_value: None,
            tag_bits: None,
            pad_before: None,
            pad_after: None,
            magic: None,
        }
    }

    /// What is collected after one more attribute.
    pub open spec fn absorb(self, item: AttrItem<P>) -> RawAttrs<P> {
        match item.name {
            None => self,
            Some(AttrName::FlexibleArrayMember) => RawAttrs { flexible_array_member: true, ..self },
            Some(AttrName::Default) => RawAttrs { default: true, ..self },
            Some(AttrName::DiscriminantType) => RawAttrs { discriminant_type: item.value, ..self },
            Some(AttrName::Discriminant) => RawAttrs { discriminant: item.value, ..self },
            Some(AttrName::Ctx) => RawAttrs { ctx: item.value, ..self },
            Some(AttrName::CtxGenerics) => RawAttrs { ctx_generics: item.value, ..self },
            Some(AttrName::CtxBounds) => RawAttrs { ctx_bounds: item.value, ..self },
            Some(AttrName::Bits) => RawAttrs { bits: item.value, ..self },
            Some(AttrName::WriteValue) => RawAttrs { write_value: item.value, ..self },
            Some(AttrName::Tag) => RawAttrs { tag: item.value, ..self },
            Some(AttrName::TagType) => RawAttrs { tag_type: item.value, ..self },
            Some(AttrName::TagValue) => RawAttrs { tag_value: item.value, ..self },
            Some(AttrName::TagBits) => RawAttrs { tag_bits: item.value, ..self },
            Some(AttrName::PadBefore) => RawAttrs { pad_before: item.value, ..self },
            Some(AttrName::PadAfter) => RawAttrs { pad_after: item.value, ..self },
            Some(AttrName::Magic) => RawAttrs { magic: item.value, ..self },
        }
    }

    /// Nothing collected.
    pub fn empty() -> (r: RawAttrs<P>)
        ensures
            r == RawAttrs::<P>::spec_empty(),
    {
        RawAttrs {
            flexible_array_member: false,
            default: false,
            discriminant_type: None,
            discriminant: None,
            ctx: None,
            ctx_generics: None,
            ctx_bounds: None,
            bits: None,
            write_value: None,
            tag: None,
            tag_type: None,
            tag_value: None,
            tag_bits: None,
            pad_before: None,
            pad_after: None,
            magic: None,
        }
    }

    /// Collects one more attribute.
    pub fn absorb_item(&mut self, item: AttrItem<P>)
        ensures
            *final(self) == old(self).absorb(item),
    {
        match item.name {
            None => {},
            Some(AttrName::FlexibleArrayMember) => {
                self.flexible_array_member = true;
            },
            Some(AttrName::Default) => {
                self.default = true;
            },
            Some(AttrName::DiscriminantType) => {
                self.discriminant_type = item.value;
            },
            Some(AttrName::Discriminant) => {
                self.discriminant = item.value;
            },
            Some(AttrName::Ctx) => {
                self.ctx = item.value;
            },
            Some(AttrName::CtxGenerics) => {
                self.ctx_generics = item.value;
            },
            Some(AttrName::CtxBounds) => {
                self.ctx_bounds = item.value;
            },
            Some(AttrName::Bits) => {
                self.bits = item.value;
            },
            Some(AttrName::WriteValue) => {
                self.write_value = item.value;
            },
            Some(AttrName::Tag) => {
                self.tag = item.value;
            },
            Some(AttrName::TagType) => {
                self.tag_type = item.value;
            },
            Some(AttrName::TagValue) => {
                self.tag_value = item.value;
            },
            Some(AttrName::TagBits) => {
                self.tag_bits = item.value;
            },
            Some(AttrName::PadBefore) => {
                self.pad_before = item.value;
            },
            Some(AttrName::PadAfter) => {
                self.pad_after = item.value;
            },
            Some(AttrName::Magic) => {
                self.magic = item.value;
            },
        }
    }
}

/// The context of a derived impl: a given type, or a type parameter with bounds.
pub enum Ctx<P> {
    Concrete(P),
    Bounds(P),
}

/// The tag of a field: an expression given from outside, or a value of the given type
/// written just before the field.
pub enum Tag<P> {
    External(P),
    Prepend { typ: P, write_value: Option<P>, bits: Option<P> },
}

/// The settings of a container, variant or field.
pub struct Attrs<P> {
    pub bits: Option<P>,
    pub ctx: Option<Ctx<P>>,
    pub ctx_generics: Option<P>,
    pub default: bool,
    pub discriminant: Option<P>,
    pub discriminant_type: Option<P>,
    pub flexible_array_member: bool,
    pub magic: Option<P>,
    pub pad_after: Option<P>,
    pub pad_before: Option<P>,
    pub tag: Option<Tag<P>>,
    pub write_value: Option<P>,
}

/// The first refused attribute of a list, in order.
pub open spec fn first_error<P>(items: Seq<AttrItem<P>>, kind: Option<AttrKind>) -> Option<AttrError>
    decreases items.len(),
{
    if items.len() == 0 {
        None
    } else {
        match first_error(items.drop_last(), kind) {
            Some(e) => Some(e),
            None => item_error(items.last(), kind),
        }
    }
}

/// What a list of attributes collects, each replacing what came before under its name.
pub open spec fn collect<P>(items: Seq<AttrItem<P>>) -> RawAttrs<P>
    decreases items.len(),
{
    if items.len() == 0 {
        RawAttrs::spec_empty()
    } else {
        collect(items.drop_last()).absorb(items.last())
    }
}

/// The tag that the tag attributes give: `tag` alone, or `tag_type` with `tag_value` and
/// `tag_bits` where given; `None` inside for no tag; `None` outside where they do not fit
/// together.
pub open spec fn tag_of<P>(r: RawAttrs<P>) -> Option<Option<Tag<P>>> {
    match (r.tag, r.tag_type, r.tag_value, r.tag_bits) {
        (Some(t), None, None, None) => Some(Some(Tag::External(t))),
        (None, Some(typ), write_value, bits) => Some(
            Some(Tag::Prepend { typ: typ, write_value: write_value, bits: bits }),
        ),
        (None, None, None, None) => Some(None),
        _ => None,
    }
}

/// The context that `ctx` and `ctx_bounds` give: `None` inside for neither, `None` outside
/// for both.
pub open spec fn ctx_of<P>(r: RawAttrs<P>) -> Option<Option<Ctx<P>>> {
    match (r.ctx, r.ctx_bounds) {
        (Some(c), None) => Some(Some(Ctx::Concrete(c))),
        (None, Some(b)) => Some(Some(Ctx::Bounds(b))),
        (None, None) => Some(None),
        _ => None,
    }
}

/// Whether more than one of the three is set.
pub open spec fn more_than_one(a: bool, b: bool, c: bool) -> bool {
    (a && b) || (a && c) || (b && c)
}

/// The settings that collected attributes give, or why they do not fit together.
pub open spec fn settings<P>(r: RawAttrs<P>) -> Result<Attrs<P>, AttrError> {
    match tag_of(r) {
        None => Err(AttrError::InvalidTag),
        Some(tag) => match ctx_of(r) {
            None => Err(AttrError::ExclusiveCtx),
            Some(ctx) => if more_than_one(r.bits is Some, r.flexible_array_member, tag is Some) {
                Err(AttrError::ExclusiveLayout)
            } else {
                Ok(
                    Attrs {
                        bits: r.bits,
                        ctx: ctx,
                        ctx_generics: r.ctx_generics,
                        default: r.default,
                        discriminant: r.discriminant,
                        discriminant_type: r.discriminant_type,
                        flexible_array_member: r.flexible_array_member,
                        magic: r.magic,
                        pad_after: r.pad_after,
                        pad_before: r.pad_before,
                        tag: tag,
                        write_value: r.write_value,
                    },
                )
            },
        },
    }
}

/// The settings that a list of attributes gives on an item of `kind`: the first refused
/// attribute's error, or the settings of what they collect.
pub open spec fn spec_parse<P>(items: Seq<AttrItem<P>>, kind: Option<AttrKind>) -> Result<
    Attrs<P>,
    AttrError,
> {
    match first_error(items, kind) {
        Some(e) => Err(e),
        None => settings(collect(items)),
    }
}

impl<P> Attrs<P> {
    /// Reads the attributes of an item of `kind`, in order. `None` for `kind` allows every
    /// attribute.
    pub fn parse(items: Vec<AttrItem<P>>, kind: Option<AttrKind>) -> (res: Result<Attrs<P>, AttrError>)
        ensures
            res == spec_parse(items@, kind),
    {
        let ghost all = items@;
        let count = items.len();
        let mut rest = items;
        let mut raw: RawAttrs<P> = RawAttrs::empty();
        let mut i: usize = 0;
        proof {
            assert(all.take(0) =~= Seq::<AttrItem<P>>::empty());
            assert(rest@ =~= all.skip(0));
        }
        while rest.len() > 0
            invariant
                i <= all.len(),
                all.len() == count,
                all == items@,
                rest@ == all.skip(i as int),
                first_error(all.take(i as int), kind) is None,
                raw == collect(all.take(i as int)),
            decreases rest.len(),
        {
            let item = rest.remove(0);
            proof {
                assert(all.take(i + 1).drop_last() =~= all.take(i as int));
                assert(all.take(i + 1).last() == item);
                assert(rest@ =~= all.skip(i + 1));
            }
            let has_value = item.value.is_some();
            match check_item(item.name, has_value, kind) {
                Err(e) => {
                    proof {
                        let probe = AttrItem::<()> {
                            name: item.name,
                            value: if has_value { Some(()) } else { None },
                        };
                        assert(item_error(probe, kind) == item_error(item, kind));
                        lemma_first_error_extends(all, (i + 1) as nat, kind);
                    }
                    return Err(e);
                },
                Ok(_) => {},
            }
            raw.absorb_item(item);
            i = i + 1;
        }
        proof {
            assert(all.take(i as int) =~= all);
        }
        Self::settle(raw)
    }

    /// Checks collected attributes together.
    pub fn settle(r: RawAttrs<P>) -> (res: Result<Attrs<P>, AttrError>)
        ensures
            res == settings(r),
    {
        let tag = match (r.tag, r.tag_type, r.tag_value, r.tag_bits) {
            (Some(t), None, None, None) => Some(Tag::External(t)),
            (None, Some(typ), write_value, bits) => Some(Tag::Prepend { typ, write_value, bits }),
            (None, None, None, None) => None,
            _ => {
                return Err(AttrError::InvalidTag);
            },
        };
        let ctx = match (r.ctx, r.ctx_bounds) {
            (Some(c), None) => Some(Ctx::Concrete(c)),
            (None, Some(b)) => Some(Ctx::Bounds(b)),
            (None, None) => None,
            _ => {
                return Err(AttrError::ExclusiveCtx);
            },
        };
        let has_bits = r.bits.is_some();
        let has_tag = tag.is_some();
        let fam = r.flexible_array_member;
        if (has_bits && fam) || (has_bits && has_tag) || (fam && has_tag) {
            return Err(AttrError::ExclusiveLayout);
        }
        Ok(
            Attrs {
                bits: r.bits,
                ctx,
                ctx_generics: r.ctx_generics,
                default: r.default,
                discriminant: r.discriminant,
                discriminant_type: r.discriminant_type,
                flexible_array_member: r.flexible_array_member,
                magic: r.magic,
                pad_after: r.pad_after,
                pad_before: r.pad_before,
                tag,
                write_value: r.write_value,
            },
        )
    }

    /// The given context type, where the context is one.
    pub fn concrete_ctx(&self) -> (c: Option<&P>)
        ensures
            c matches Some(p) ==> self.ctx matches Some(Ctx::Concrete(q)) && *p == q,
            c is None ==> !(self.ctx matches Some(Ctx::Concrete(_))),
    {
        match &self.ctx {
            Some(Ctx::Concrete(c)) => Some(c),
            _ => None,
        }
    }
}

/// An error at the last attribute of a prefix is the error of any longer prefix, and of the
/// whole list.
pub proof fn lemma_first_error_extends<P>(items: Seq<AttrItem<P>>, n: nat, kind: Option<AttrKind>)
    requires
        0 < n <= items.len(),
        first_error(items.take(n - 1), kind) is None,
        item_error(items[n - 1], kind) is Some,
    ensures
        first_error(items, kind) == item_error(items[n - 1], kind),
    decreases items.len() - n,
{
    assert(items.take(n as int).drop_last() =~= items.take(n - 1));
    if n < items.len() {
        lemma_first_error_prefix(items, n, kind);
    } else {
        assert(items.take(n as int) =~= items);
    }
}

/// Once a prefix has an error, the whole list has the same first error.
proof fn lemma_first_error_prefix<P>(items: Seq<AttrItem<P>>, n: nat, kind: Option<AttrKind>)
    requires
        n <= items.len(),
        first_error(items.take(n as int), kind) is Some,
    ensures
        first_error(items, kind) == first_error(items.take(n as int), kind),
    decreases items.len() - n,
{
    if n < items.len() {
        assert(items.take((n + 1) as int).drop_last() =~= items.take(n as int));
        lemma_first_error_prefix(items, n + 1, kind);
    } else {
        assert(items.take(n as int) =~= items);
    }
}

/// An attribute refused on no kind of item is refused on none in particular either.
proof fn lemma_item_error_any_kind<P>(item: AttrItem<P>, k: AttrKind)
    requires
        item_error(item, Some(k)) is None,
    ensures
        item_error(item, None) is None,
{
}

/// A list with no refused attribute for one kind has none with no kind given.
proof fn lemma_first_error_any_kind<P>(items: Seq<AttrItem<P>>, k: AttrKind)
    requires
        first_error(items, Some(k)) is None,
    ensures
        first_error(items, None) is None,
    decreases items.len(),
{
    if items.len() > 0 {
        lemma_first_error_any_kind(items.drop_last(), k);
        lemma_item_error_any_kind(items.last(), k);
    }
}

/// Reading attributes with no kind given refuses no more than reading them for a kind:
/// where a kind accepts a list, leaving the kind out gives the same settings.
pub proof fn law_parse_any_kind<P>(items: Seq<AttrItem<P>>, k: AttrKind)
    requires
        spec_parse(items, Some(k)) is Ok,
    ensures
        spec_parse(items, None) == spec_parse(items, Some(k)),
{
    lemma_first_error_any_kind(items, k);
}

/// The settings of a list depend on the last attribute of each name only: appending an
/// attribute that is accepted replaces the value under its name and keeps the others.
pub proof fn law_parse_last_wins<P>(items: Seq<AttrItem<P>>, item: AttrItem<P>, kind: Option<AttrKind>)
    requires
        first_error(items, kind) is None,
        item_error(item, kind) is None,
    ensures
        first_error(items.push(item), kind) is None,
        collect(items.push(item)) == collect(items).absorb(item),
{
    assert(items.push(item).drop_last() =~= items);
}

/// The attribute `name = value` alone.
pub open spec fn one_attr<P>(name: AttrName, value: P) -> Seq<AttrItem<P>> {
    seq![AttrItem { name: Some(name), value: Some(value) }]
}

/// The settings of an item with no attributes.
pub open spec fn no_settings<P>() -> Attrs<P> {
    Attrs {
        bits: None,
        ctx: None,
        ctx_generics: None,
        default: false,
        discriminant: None,
        discriminant_type: None,
        flexible_array_member: false,
        magic: None,
        pad_after: None,
        pad_before: None,
        tag: None,
        write_value: None,
    }
}

/// Where each attribute may stand, and what it alone sets there. `bits` stands on an enum
/// (the width of its discriminant) or a field; `ctx`, `ctx_generics` and `ctx_bounds` on an
/// enum or struct; `discriminant_type` on an enum; `discriminant` on a variant; padding and
/// `magic` on a struct or field; the others on a field only. `tag_value` and `tag_bits` need
/// `tag_type` beside them. On any other kind of item an attribute is refused as not
/// applicable there.
pub proof fn law_where_attributes_stand<P>(v: P)
    ensures
        spec_parse(one_attr(AttrName::FlexibleArrayMember, v), Some(AttrKind::Enum)) == (Err::<Attrs<P>, AttrError>(AttrError::NotApplicable { name: AttrName::FlexibleArrayMember, kind: AttrKind::Enum })),
        spec_parse(one_attr(AttrName::FlexibleArrayMember, v), Some(AttrKind::Struct)) == (Err::<Attrs<P>, AttrError>(AttrError::NotApplicable { name: AttrName::FlexibleArrayMember, kind: AttrKind::Struct })),
        spec_parse(one_attr(AttrName::FlexibleArrayMember, v), Some(AttrKind::Variant)) == (Err::<Attrs<P>, AttrError>(AttrError::NotApplicable { name: AttrName::FlexibleArrayMember, kind: AttrKind::Variant })),
        spec_parse(one_attr(AttrName::FlexibleArrayMember, v), Some(AttrKind::Field)) == (Ok::<Attrs<P>, AttrError>(Attrs { flexible_array_member: true, ..no_settings() })),
        spec_parse(one_attr(AttrName::DiscriminantType, v), Some(AttrKind::Enum)) == (Ok::<Attrs<P>, AttrError>(Attrs { discriminant_type: Some(v), ..no_settings() })),
        spec_parse(one_attr(AttrName::DiscriminantType, v), Some(AttrKind::Struct)) == (Err::<Attrs<P>, AttrError>(AttrError::NotApplicable { name: AttrName::DiscriminantType, kind: AttrKind::Struct })),
        spec_parse(one_attr(AttrName::DiscriminantType, v), Some(AttrKind::Variant)) == (Err::<Attrs<P>, AttrError>(AttrError::NotApplicable { name: AttrName::DiscriminantType, kind: AttrKind::Variant })),
        spec_parse(one_attr(AttrName::DiscriminantType, v), Some(AttrKind::Field)) == (Err::<Attrs<P>, AttrError>(AttrError::NotApplicable { name: AttrName::DiscriminantType, kind: AttrKind::Field })),
        spec_parse(one_attr(AttrName::Discriminant, v), Some(AttrKind::Enum)) == (Err::<Attrs<P>, AttrError>(AttrError::NotApplicable { name: AttrName::Discriminant, kind: AttrKind::Enum })),
        spec_parse(one_attr(AttrName::Discriminant, v), Some(AttrKind::Struct)) == (Err::<Attrs<P>, AttrError>(AttrError::NotApplicable { name: AttrName::Discriminant, kind: AttrKind::Struct })),
        spec_parse(one_attr(AttrName::Discriminant, v), Some(AttrKind::Variant)) == (Ok::<Attrs<P>, AttrError>(Attrs { discriminant: Some(v), ..no_settings() })),
        spec_parse(one_attr(AttrName::Discriminant, v), Some(AttrKind::Field)) == (Err::<Attrs<P>, AttrError>(AttrError::NotApplicable { name: AttrName::Discriminant, kind: AttrKind::Field })),
        spec_parse(one_attr(AttrName::Ctx, v), Some(AttrKind::Enum)) == (Ok::<Attrs<P>, AttrError>(Attrs { ctx: Some(Ctx::Concrete(v)), ..no_settings() })),
        spec_parse(one_attr(AttrName::Ctx, v), Some(AttrKind::Struct)) == (Ok::<Attrs<P>, AttrError>(Attrs { ctx: Some(Ctx::Concrete(v)), ..no_settings() })),
        spec_parse(one_attr(AttrName::Ctx, v), Some(AttrKind::Variant)) == (Err::<Attrs<P>, AttrError>(AttrError::NotApplicable { name: AttrName::Ctx, kind: AttrKind::Variant })),
        spec_parse(one_attr(AttrName::Ctx, v), Some(AttrKind::Field)) == (Err::<Attrs<P>, AttrError>(AttrError::NotApplicable { name: AttrName::Ctx, kind: AttrKind::Field })),
        spec_parse(one_attr(AttrName::CtxGenerics, v), Some(AttrKind::Enum)) == (Ok::<Attrs<P>, AttrError>(Attrs { ctx_generics: Some(v), ..no_settings() })),
        spec_parse(one_attr(AttrName::CtxGenerics, v), Some(AttrKind::Struct)) == (Ok::<Attrs<P>, AttrError>(Attrs { ctx_generics: Some(v), ..no_settings() })),
        spec_parse(one_attr(AttrName::CtxGenerics, v), Some(AttrKind::Variant)) == (Err::<Attrs<P>, AttrError>(AttrError::NotApplicable { name: AttrName::CtxGenerics, kind: AttrKind::Variant })),
        spec_parse(one_attr(AttrName::CtxGenerics, v), Some(AttrKind::Field)) == (Err::<Attrs<P>, AttrError>(AttrError::NotApplicable { name: AttrName::CtxGenerics, kind: AttrKind::Field })),
        spec_parse(one_attr(AttrName::CtxBounds, v), Some(AttrKind::Enum)) == (Ok::<Attrs<P>, AttrError>(Attrs { ctx: Some(Ctx::Bounds(v)), ..no_settings() })),
        spec_parse(one_attr(AttrName::CtxBounds, v), Some(AttrKind::Struct)) == (Ok::<Attrs<P>, AttrError>(Attrs { ctx: Some(Ctx::Bounds(v)), ..no_settings() })),
        spec_parse(one_attr(AttrName::CtxBounds, v), Some(AttrKind::Variant)) == (Err::<Attrs<P>, AttrError>(AttrError::NotApplicable { name: AttrName::CtxBounds, kind: AttrKind::Variant })),
        spec_parse(one_attr(AttrName::CtxBounds, v), Some(AttrKind::Field)) == (Err::<Attrs<P>, AttrError>(AttrError::NotApplicable { name: AttrName::CtxBounds, kind: AttrKind::Field })),
        spec_parse(one_attr(AttrName::Bits, v), Some(AttrKind::Enum)) == (Ok::<Attrs<P>, AttrError>(Attrs { bits: Some(v), ..no_settings() })),
        spec_parse(one_attr(AttrName::Bits, v), Some(AttrKind::Struct)) == (Err::<Attrs<P>, AttrError>(AttrError::NotApplicable { name: AttrName::Bits, kind: AttrKind::Struct })),
        spec_parse(one_attr(AttrName::Bits, v), Some(AttrKind::Variant)) == (Err::<Attrs<P>, AttrError>(AttrError::NotApplicable { name: AttrName::Bits, kind: AttrKind::Variant })),
        spec_parse(one_attr(AttrName::Bits, v), Some(AttrKind::Field)) == (Ok::<Attrs<P>, AttrError>(Attrs { bits: Some(v), ..no_settings() })),
        spec_parse(one_attr(AttrName::WriteValue, v), Some(AttrKind::Enum)) == (Err::<Attrs<P>, AttrError>(AttrError::NotApplicable { name: AttrName::WriteValue, kind: AttrKind::Enum })),
        spec_parse(one_attr(AttrName::WriteValue, v), Some(AttrKind::Struct)) == (Err::<Attrs<P>, AttrError>(AttrError::NotApplicable { name: AttrName::WriteValue, kind: AttrKind::Struct })),
        spec_parse(one_attr(AttrName::WriteValue, v), Some(AttrKind::Variant)) == (Err::<Attrs<P>, AttrError>(AttrError::NotApplicable { name: AttrName::WriteValue, kind: AttrKind::Variant })),
        spec_parse(one_attr(AttrName::WriteValue, v), Some(AttrKind::Field)) == (Ok::<Attrs<P>, AttrError>(Attrs { write_value: Some(v), ..no_settings() })),
        spec_parse(one_attr(AttrName::Tag, v), Some(AttrKind::Enum)) == (Err::<Attrs<P>, AttrError>(AttrError::NotApplicable { name: AttrName::Tag, kind: AttrKind::Enum })),
        spec_parse(one_attr(AttrName::Tag, v), Some(AttrKind::Struct)) == (Err::<Attrs<P>, AttrError>(AttrError::NotApplicable { name: AttrName::Tag, kind: AttrKind::Struct })),
        spec_parse(one_attr(AttrName::Tag, v), Some(AttrKind::Variant)) == (Err::<Attrs<P>, AttrError>(AttrError::NotApplicable { name: AttrName::Tag, kind: AttrKind::Variant })),
        spec_parse(one_attr(AttrName::Tag, v), Some(AttrKind::Field)) == (Ok::<Attrs<P>, AttrError>(Attrs { tag: Some(Tag::External(v)), ..no_settings() })),
        spec_parse(one_attr(AttrName::TagType, v), Some(AttrKind::Enum)) == (Err::<Attrs<P>, AttrError>(AttrError::NotApplicable { name: AttrName::TagType, kind: AttrKind::Enum })),
        spec_parse(one_attr(AttrName::TagType, v), Some(AttrKind::Struct)) == (Err::<Attrs<P>, AttrError>(AttrError::NotApplicable { name: AttrName::TagType, kind: AttrKind::Struct })),
        spec_parse(one_attr(AttrName::TagType, v), Some(AttrKind::Variant)) == (Err::<Attrs<P>, AttrError>(AttrError::NotApplicable { name: AttrName::TagType, kind: AttrKind::Variant })),
        spec_parse(one_attr(AttrName::TagType, v), Some(AttrKind::Field)) == (Ok::<Attrs<P>, AttrError>(Attrs { tag: Some(Tag::Prepend { typ: v, write_value: None, bits: None }), ..no_settings() })),
        spec_parse(one_attr(AttrName::TagValue, v), Some(AttrKind::Enum)) == (Err::<Attrs<P>, AttrError>(AttrError::NotApplicable { name: AttrName::TagValue, kind: AttrKind::Enum })),
        spec_parse(one_attr(AttrName::TagValue, v), Some(AttrKind::Struct)) == (Err::<Attrs<P>, AttrError>(AttrError::NotApplicable { name: AttrName::TagValue, kind: AttrKind::Struct })),
        spec_parse(one_attr(AttrName::TagValue, v), Some(AttrKind::Variant)) == (Err::<Attrs<P>, AttrError>(AttrError::NotApplicable { name: AttrName::TagValue, kind: AttrKind::Variant })),
        spec_parse(one_attr(AttrName::TagValue, v), Some(AttrKind::Field)) == (Err::<Attrs<P>, AttrError>(AttrError::InvalidTag)),
        spec_parse(one_attr(AttrName::TagBits, v), Some(AttrKind::Enum)) == (Err::<Attrs<P>, AttrError>(AttrError::NotApplicable { name: AttrName::TagBits, kind: AttrKind::Enum })),
        spec_parse(one_attr(AttrName::TagBits, v), Some(AttrKind::Struct)) == (Err::<Attrs<P>, AttrError>(AttrError::NotApplicable { name: AttrName::TagBits, kind: AttrKind::Struct })),
        spec_parse(one_attr(AttrName::TagBits, v), Some(AttrKind::Variant)) == (Err::<Attrs<P>, AttrError>(AttrError::NotApplicable { name: AttrName::TagBits, kind: AttrKind::Variant })),
        spec_parse(one_attr(AttrName::TagBits, v), Some(AttrKind::Field)) == (Err::<Attrs<P>, AttrError>(AttrError::InvalidTag)),
        spec_parse(one_attr(AttrName::Default, v), Some(AttrKind::Enum)) == (Err::<Attrs<P>, AttrError>(AttrError::NotApplicable { name: AttrName::Default, kind: AttrKind::Enum })),
        spec_parse(one_attr(AttrName::Default, v), Some(AttrKind::Struct)) == (Err::<Attrs<P>, AttrError>(AttrError::NotApplicable { name: AttrName::Default, kind: AttrKind::Struct })),
        spec_parse(one_attr(AttrName::Default, v), Some(AttrKind::Variant)) == (Err::<Attrs<P>, AttrError>(AttrError::NotApplicable { name: AttrName::Default, kind: AttrKind::Variant })),
        spec_parse(one_attr(AttrName::Default, v), Some(AttrKind::Field)) == (Ok::<Attrs<P>, AttrError>(Attrs { default: true, ..no_settings() })),
        spec_parse(one_attr(AttrName::PadBefore, v), Some(AttrKind::Enum)) == (Err::<Attrs<P>, AttrError>(AttrError::NotApplicable { name: AttrName::PadBefore, kind: AttrKind::Enum })),
        spec_parse(one_attr(AttrName::PadBefore, v), Some(AttrKind::Struct)) == (Ok::<Attrs<P>, AttrError>(Attrs { pad_before: Some(v), ..no_settings() })),
        spec_parse(one_attr(AttrName::PadBefore, v), Some(AttrKind::Variant)) == (Err::<Attrs<P>, AttrError>(AttrError::NotApplicable { name: AttrName::PadBefore, kind: AttrKind::Variant })),
        spec_parse(one_attr(AttrName::PadBefore, v), Some(AttrKind::Field)) == (Ok::<Attrs<P>, AttrError>(Attrs { pad_before: Some(v), ..no_settings() })),
        spec_parse(one_attr(AttrName::PadAfter, v), Some(AttrKind::Enum)) == (Err::<Attrs<P>, AttrError>(AttrError::NotApplicable { name: AttrName::PadAfter, kind: AttrKind::Enum })),
        spec_parse(one_attr(AttrName::PadAfter, v), Some(AttrKind::Struct)) == (Ok::<Attrs<P>, AttrError>(Attrs { pad_after: Some(v), ..no_settings() })),
        spec_parse(one_attr(AttrName::PadAfter, v), Some(AttrKind::Variant)) == (Err::<Attrs<P>, AttrError>(AttrError::NotApplicable { name: AttrName::PadAfter, kind: AttrKind::Variant })),
        spec_parse(one_attr(AttrName::PadAfter, v), Some(AttrKind::Field)) == (Ok::<Attrs<P>, AttrError>(Attrs { pad_after: Some(v), ..no_settings() })),
        spec_parse(one_attr(AttrName::Magic, v), Some(AttrKind::Enum)) == (Err::<Attrs<P>, AttrError>(AttrError::NotApplicable { name: AttrName::Magic, kind: AttrKind::Enum })),
        spec_parse(one_attr(AttrName::Magic, v), Some(AttrKind::Struct)) == (Ok::<Attrs<P>, AttrError>(Attrs { magic: Some(v), ..no_settings() })),
        spec_parse(one_attr(AttrName::Magic, v), Some(AttrKind::Variant)) == (Err::<Attrs<P>, AttrError>(AttrError::NotApplicable { name: AttrName::Magic, kind: AttrKind::Variant })),
        spec_parse(one_attr(AttrName::Magic, v), Some(AttrKind::Field)) == (Ok::<Attrs<P>, AttrError>(Attrs { magic: Some(v), ..no_settings() })),
{
    reveal_with_fuel(first_error, 2);
    reveal_with_fuel(collect, 2);
    assert forall|n: AttrName| #[trigger] one_attr(n, v).drop_last() =~= Seq::<AttrItem<P>>::empty() by {}
    assert forall|n: AttrName| #[trigger] one_attr(n, v).last() == (AttrItem { name: Some(n), value: Some(v) }) by {}
}

/// The attributes `a = x` and then `b = y`.
pub open spec fn two_attrs<P>(a: AttrName, x: P, b: AttrName, y: P) -> Seq<AttrItem<P>> {
    seq![AttrItem { name: Some(a), value: Some(x) }, AttrItem { name: Some(b), value: Some(y) }]
}

/// Attributes that exclude each other: `tag` with `tag_type` is no valid tag; `ctx` with
/// `ctx_bounds` is refused; `bits`, `flexible_array_member` and a tag are mutually
/// exclusive. `tag_type` with `tag_value` is a prepended tag written with that value.
pub proof fn law_attribute_conflicts<P>(x: P, y: P)
    ensures
        spec_parse(two_attrs(AttrName::Tag, x, AttrName::TagType, y), Some(AttrKind::Field))
            == Err::<Attrs<P>, AttrError>(AttrError::InvalidTag),
        spec_parse(two_attrs(AttrName::TagValue, x, AttrName::TagBits, y), Some(AttrKind::Field))
            == Err::<Attrs<P>, AttrError>(AttrError::InvalidTag),
        spec_parse(two_attrs(AttrName::Ctx, x, AttrName::CtxBounds, y), Some(AttrKind::Struct))
            == Err::<Attrs<P>, AttrError>(AttrError::ExclusiveCtx),
        spec_parse(two_attrs(AttrName::Bits, x, AttrName::Tag, y), Some(AttrKind::Field))
            == Err::<Attrs<P>, AttrError>(AttrError::ExclusiveLayout),
        spec_parse(two_attrs(AttrName::Bits, x, AttrName::FlexibleArrayMember, y), Some(AttrKind::Field))
            == Err::<Attrs<P>, AttrError>(AttrError::ExclusiveLayout),
        spec_parse(two_attrs(AttrName::FlexibleArrayMember, x, AttrName::TagType, y), Some(AttrKind::Field))
            == Err::<Attrs<P>, AttrError>(AttrError::ExclusiveLayout),
        spec_parse(two_attrs(AttrName::TagType, x, AttrName::TagValue, y), Some(AttrKind::Field))
            == Ok::<Attrs<P>, AttrError>(
            Attrs { tag: Some(Tag::Prepend { typ: x, write_value: Some(y), bits: None }), ..no_settings() },
        ),
        spec_parse(two_attrs(AttrName::Bits, x, AttrName::Bits, y), Some(AttrKind::Field))
            == Ok::<Attrs<P>, AttrError>(Attrs { bits: Some(y), ..no_settings() }),
{
    reveal_with_fuel(first_error, 3);
    reveal_with_fuel(collect, 3);
    assert forall|a: AttrName, b: AttrName| #[trigger] two_attrs(a, x, b, y).drop_last() =~= seq![
        AttrItem { name: Some(a), value: Some(x) },
    ] by {}
    assert forall|a: AttrName| #[trigger] seq![AttrItem { name: Some(a), value: Some(x) }].drop_last()
        =~= Seq::<AttrItem<P>>::empty() by {}
}

} // verus!
