//! The decisions of a derived impl: how each field is read and written, and which
//! discriminant each variant of an enum has.
use vstd::prelude::*;
use crate::attr::{AttrItem, AttrKind, AttrName, Attrs, Tag, no_settings, spec_parse};
use crate::attr::{collect, first_error};

verus! {

/// Why a derived impl cannot be planned.
#[derive(Clone, Copy, PartialEq, Eq, Structural, Debug)]
pub enum PlanError {
    /// An enum without `discriminant_type`.
    MissingDiscriminantType,
    /// The variant at this index has neither `= value` nor `discriminant`.
    NoDiscriminant(usize),
    /// A prepended tag without `tag_value`, where the field is written.
    MissingWriteValue,
}

impl PlanError {
    /// The message for the error.
    pub open spec fn spec_message(self) -> Seq<char> {
        match self {
            PlanError::MissingDiscriminantType => "enum missing 'discriminant_type' attribute."@,
            PlanError::NoDiscriminant(_) => "No discriminant for variant"@,
            PlanError::MissingWriteValue => "Tag must specify 'write_value'"@,
        }
    }

    /// The message for the error.
    pub fn message(&self) -> (s: String)
        ensures
            s@ == self.spec_message(),
    {
        match self {
            PlanError::MissingDiscriminantType => "enum missing 'discriminant_type' attribute.".to_owned(),
            PlanError::NoDiscriminant(_) => "No discriminant for variant".to_owned(),
            PlanError::MissingWriteValue => "Tag must specify 'write_value'".to_owned(),
        }
    }
}

/// How a field is read.
pub enum DecodeTag<P> {
    /// Not read: the field takes its default value.
    Default,
    /// Read whole, with no tag.
    Unit,
    /// Read as a bitfield of the given width.
    Bits(P),
    /// Read up to the end of the stream.
    Untagged,
    /// Read with the given tag.
    Tagged(P),
    /// Read after a tag of the given type, itself read whole or as a bitfield.
    Prepend { typ: P, bits: Option<P> },
}

/// How a field is written.
pub enum EncodeTag<P> {
    /// Written whole, with no tag.
    Unit,
    /// Written as a bitfield of the given width.
    Bits(P),
    /// Written without its tag.
    Untagged,
    /// Written after a tag of the given type holding the given value, itself written whole or
    /// as a bitfield.
    Prepend { typ: P, write_value: P, bits: Option<P> },
}

/// How a field with these settings is read.
pub open spec fn spec_decode_tag<P>(a: Attrs<P>) -> DecodeTag<P> {
    if a.default {
        DecodeTag::Default
    } else {
        match a.tag {
            Some(Tag::Prepend { typ, bits, .. }) => DecodeTag::Prepend { typ: typ, bits: bits },
            _ => match a.bits {
                Some(b) => DecodeTag::Bits(b),
                None => if a.flexible_array_member {
                    DecodeTag::Untagged
                } else {
                    match a.tag {
                        Some(Tag::External(t)) => DecodeTag::Tagged(t),
                        _ => DecodeTag::Unit,
                    }
                },
            },
        }
    }
}

/// How a field with these settings is written, or why it cannot be.
pub open spec fn spec_encode_tag<P>(a: Attrs<P>) -> Result<EncodeTag<P>, PlanError> {
    match a.tag {
        Some(Tag::Prepend { typ, write_value, bits }) => match write_value {
            Some(w) => Ok(EncodeTag::Prepend { typ: typ, write_value: w, bits: bits }),
            None => Err(PlanError::MissingWriteValue),
        },
        _ => match a.bits {
            Some(b) => Ok(EncodeTag::Bits(b)),
            None => if a.flexible_array_member || a.tag is Some {
                Ok(EncodeTag::Untagged)
            } else {
                Ok(EncodeTag::Unit)
            },
        },
    }
}

impl<P> Attrs<P> {
    /// How a field with these settings is read.
    pub fn decode_tag(&self) -> (t: DecodeTag<&P>)
        ensures
            match (t, spec_decode_tag(*self)) {
                (DecodeTag::Default, DecodeTag::Default) => true,
                (DecodeTag::Unit, DecodeTag::Unit) => true,
                (DecodeTag::Bits(x), DecodeTag::Bits(y)) => *x == y,
                (DecodeTag::Untagged, DecodeTag::Untagged) => true,
                (DecodeTag::Tagged(x), DecodeTag::Tagged(y)) => *x == y,
                (
                    DecodeTag::Prepend { typ: x, bits: bx },
                    DecodeTag::Prepend { typ: y, bits: by },
                ) => *x == y && (bx matches Some(p) ==> by == Some(*p)) && (bx is None ==> by is None),
                _ => false,
            },
    {
        if self.default {
            return DecodeTag::Default;
        }
        if let Some(Tag::Prepend { typ, bits, .. }) = &self.tag {
            return DecodeTag::Prepend { typ, bits: bits.as_ref() };
        }
        if let Some(b) = &self.bits {
            return DecodeTag::Bits(b);
        }
        if self.flexible_array_member {
            return DecodeTag::Untagged;
        }
        match &self.tag {
            Some(Tag::External(t)) => DecodeTag::Tagged(t),
            _ => DecodeTag::Unit,
        }
    }

    /// How a field with these settings is written, or why it cannot be.
    pub fn encode_tag(&self) -> (t: Result<EncodeTag<&P>, PlanError>)
        ensures
            match (t, spec_encode_tag(*self)) {
                (Err(x), Err(y)) => x == y,
                (Ok(EncodeTag::Unit), Ok(EncodeTag::Unit)) => true,
                (Ok(EncodeTag::Bits(x)), Ok(EncodeTag::Bits(y))) => *x == y,
                (Ok(EncodeTag::Untagged), Ok(EncodeTag::Untagged)) => true,
                (
                    Ok(EncodeTag::Prepend { typ: x, write_value: wx, bits: bx }),
                    Ok(EncodeTag::Prepend { typ: y, write_value: wy, bits: by }),
                ) => *x == y && *wx == wy && (bx matches Some(p) ==> by == Some(*p)) && (bx is None
                    ==> by is None),
                _ => false,
            },
    {
        if let Some(Tag::Prepend { typ, write_value, bits }) = &self.tag {
            return match write_value {
                Some(w) => Ok(EncodeTag::Prepend { typ, write_value: w, bits: bits.as_ref() }),
                None => Err(PlanError::MissingWriteValue),
            };
        }
        if let Some(b) = &self.bits {
            return Ok(EncodeTag::Bits(b));
        }
        if self.flexible_array_member || self.tag.is_some() {
            Ok(EncodeTag::Untagged)
        } else {
            Ok(EncodeTag::Unit)
        }
    }
}

/// The discriminant of a variant: the one written with `=`, else the one of its
/// `discriminant` attribute.
pub open spec fn spec_variant_discriminant<P>(explicit: Option<P>, attribute: Option<P>) -> Option<P> {
    match explicit {
        Some(e) => Some(e),
        None => attribute,
    }
}

/// The index of the first variant with no discriminant, if any.
pub open spec fn first_without_discriminant<P>(variants: Seq<(Option<P>, Option<P>)>) -> Option<nat>
    decreases variants.len(),
{
    if variants.len() == 0 {
        None
    } else {
        match first_without_discriminant(variants.drop_last()) {
            Some(i) => Some(i),
            None => if spec_variant_discriminant(variants.last().0, variants.last().1) is None {
                Some((variants.len() - 1) as nat)
            } else {
                None
            },
        }
    }
}

/// The plan of an enum: the type of its discriminant, and the discriminant of each variant.
pub struct EnumPlan<P> {
    pub discriminant_ty: P,
    pub discriminants: Vec<P>,
}

/// Plans an enum from its `discriminant_type` and, for each variant, the discriminant written
/// with `=` and that of its `discriminant` attribute.
pub fn plan_enum<P>(discriminant_type: Option<P>, variants: Vec<(Option<P>, Option<P>)>) -> (res:
    Result<EnumPlan<P>, PlanError>)
    ensures
        discriminant_type is None ==> res == Err::<EnumPlan<P>, PlanError>(
            PlanError::MissingDiscriminantType,
        ),
        discriminant_type is Some ==> match first_without_discriminant(variants@) {
            Some(i) => res == Err::<EnumPlan<P>, PlanError>(PlanError::NoDiscriminant(i as usize)),
            None => res matches Ok(plan) && Some(plan.discriminant_ty) == discriminant_type
                && plan.discriminants@.len() == variants@.len() && forall|j: int|
                0 <= j < variants@.len() ==> Some(#[trigger] plan.discriminants@[j])
                == spec_variant_discriminant(variants@[j].0, variants@[j].1),
        },
{
    let discriminant_ty = match discriminant_type {
        Some(t) => t,
        None => {
            return Err(PlanError::MissingDiscriminantType);
        },
    };
    let ghost all = variants@;
    let count = variants.len();
    let mut rest = variants;
    let mut discriminants: Vec<P> = Vec::new();
    let mut i: usize = 0;
    proof {
        assert(all.take(0) =~= Seq::<(Option<P>, Option<P>)>::empty());
        assert(rest@ =~= all.skip(0));
    }
    while rest.len() > 0
        invariant
            i <= all.len(),
            all.len() == count,
            all == variants@,
            discriminant_type is Some,
            rest@ == all.skip(i as int),
            first_without_discriminant(all.take(i as int)) is None,
            discriminants@.len() == i,
            forall|j: int|
                0 <= j < i ==> Some(#[trigger] discriminants@[j]) == spec_variant_discriminant(
                    all[j].0,
                    all[j].1,
                ),
        decreases rest.len(),
    {
        let (explicit, attribute) = rest.remove(0);
        proof {
            assert(all.take(i + 1).drop_last() =~= all.take(i as int));
            assert(all.take(i + 1).last() == all[i as int]);
            assert(rest@ =~= all.skip(i + 1));
        }
        let d = match explicit {
            Some(e) => e,
            None => match attribute {
                Some(a) => a,
                None => {
                    proof {
                        lemma_first_missing_extends(all, (i + 1) as nat);
                    }
                    return Err(PlanError::NoDiscriminant(i));
                },
            },
        };
        discriminants.push(d);
        i = i + 1;
    }
    proof {
        assert(all.take(i as int) =~= all);
    }
    Ok(EnumPlan { discriminant_ty, discriminants })
}

/// A variant with no discriminant after a prefix where every variant has one is the first
/// without one in the whole list.
proof fn lemma_first_missing_extends<P>(vs: Seq<(Option<P>, Option<P>)>, n: nat)
    requires
        0 < n <= vs.len(),
        first_without_discriminant(vs.take(n - 1)) is None,
        spec_variant_discriminant(vs[n - 1].0, vs[n - 1].1) is None,
    ensures
        first_without_discriminant(vs) == Some((n - 1) as nat),
    decreases vs.len() - n,
{
    assert(vs.take(n as int).drop_last() =~= vs.take(n - 1));
    lemma_first_missing_prefix(vs, n);
}

/// Once a prefix has a variant without a discriminant, the whole list has the same first one.
proof fn lemma_first_missing_prefix<P>(vs: Seq<(Option<P>, Option<P>)>, n: nat)
    requires
        n <= vs.len(),
        first_without_discriminant(vs.take(n as int)) is Some,
    ensures
        first_without_discriminant(vs) == first_without_discriminant(vs.take(n as int)),
    decreases vs.len() - n,
{
    if n < vs.len() {
        assert(vs.take((n + 1) as int).drop_last() =~= vs.take(n as int));
        lemma_first_missing_prefix(vs, n + 1);
    } else {
        assert(vs.take(n as int) =~= vs);
    }
}

/// How a field is read and written follows its settings. A field marked `default` is not
/// read. A prepended tag is read with its type and its `tag_bits` width, and written with
/// its type, its `tag_value` and the same width; without `tag_value` the field cannot be
/// written. Otherwise `bits` makes a bitfield of that width, `flexible_array_member` reads
/// to the end of the stream, an external tag is handed to the field when it is read and
/// left out when it is written, and with none of these the field is read and written
/// whole. Where both plans prepend a tag, they agree on its type and width.
pub proof fn law_field_plans<P>(a: Attrs<P>)
    ensures
        a.default ==> spec_decode_tag(a) == DecodeTag::<P>::Default,
        a.tag matches Some(Tag::Prepend { typ, bits, .. }) ==> (!a.default ==> spec_decode_tag(a)
            == DecodeTag::Prepend { typ: typ, bits: bits }),
        a.tag matches Some(Tag::Prepend { typ, write_value, bits }) ==> (write_value matches Some(w)
            ==> spec_encode_tag(a) == Ok::<EncodeTag<P>, PlanError>(
            EncodeTag::Prepend { typ: typ, write_value: w, bits: bits },
        )),
        a.tag matches Some(Tag::Prepend { write_value: None, .. }) ==> spec_encode_tag(a) == Err::<
            EncodeTag<P>,
            PlanError,
        >(PlanError::MissingWriteValue),
        spec_encode_tag(a) matches Ok(EncodeTag::Prepend { typ, bits, .. }) ==> (!a.default
            ==> spec_decode_tag(a) == DecodeTag::Prepend { typ: typ, bits: bits }),
        a.tag is None ==> (a.bits matches Some(b) ==> spec_encode_tag(a) == Ok::<
            EncodeTag<P>,
            PlanError,
        >(EncodeTag::Bits(b)) && (!a.default ==> spec_decode_tag(a) == DecodeTag::Bits(b))),
        a.tag matches Some(Tag::External(t)) ==> (a.bits is None && !a.flexible_array_member ==> (
        spec_encode_tag(a) == Ok::<EncodeTag<P>, PlanError>(EncodeTag::Untagged) && (!a.default
            ==> spec_decode_tag(a) == DecodeTag::Tagged(t)))),
        a.tag is None && a.bits is None && a.flexible_array_member ==> spec_encode_tag(a) == Ok::<
            EncodeTag<P>,
            PlanError,
        >(EncodeTag::Untagged) && (!a.default ==> spec_decode_tag(a) == DecodeTag::<P>::Untagged),
        a.tag is None && a.bits is None && !a.flexible_array_member ==> spec_encode_tag(a) == Ok::<
            EncodeTag<P>,
            PlanError,
        >(EncodeTag::Unit) && (!a.default ==> spec_decode_tag(a) == DecodeTag::<P>::Unit),
{
}

/// A field with `tag_type`, `tag_value` and `tag_bits` is read after a tag of that type in
/// that many bits, and written after that value in a tag of that type and width.
pub proof fn law_prepended_tag_plans<P>(typ: P, value: P, bits: P)
    ensures
        ({
            let items = seq![
                AttrItem { name: Some(AttrName::TagType), value: Some(typ) },
                AttrItem { name: Some(AttrName::TagValue), value: Some(value) },
                AttrItem { name: Some(AttrName::TagBits), value: Some(bits) },
            ];
            let a = Attrs {
                tag: Some(Tag::Prepend { typ: typ, write_value: Some(value), bits: Some(bits) }),
                ..no_settings()
            };
            &&& spec_parse(items, Some(AttrKind::Field)) == Ok::<Attrs<P>, crate::attr::AttrError>(a)
            &&& spec_decode_tag(a) == DecodeTag::Prepend { typ: typ, bits: Some(bits) }
            &&& spec_encode_tag(a) == Ok::<EncodeTag<P>, PlanError>(
                EncodeTag::Prepend { typ: typ, write_value: value, bits: Some(bits) },
            )
        }),
{
    let items = seq![
        AttrItem { name: Some(AttrName::TagType), value: Some(typ) },
        AttrItem { name: Some(AttrName::TagValue), value: Some(value) },
        AttrItem { name: Some(AttrName::TagBits), value: Some(bits) },
    ];
    reveal_with_fuel(first_error, 4);
    reveal_with_fuel(collect, 4);
    assert(items.drop_last() =~= seq![items[0], items[1]]);
    assert(items.drop_last().drop_last() =~= seq![items[0]]);
    assert(items.drop_last().drop_last().drop_last() =~= Seq::<AttrItem<P>>::empty());
}

/// A variant's discriminant is the one written with `=` where there is one, and the one of
/// its `discriminant` attribute otherwise.
pub proof fn law_variant_discriminant<P>(explicit: Option<P>, attribute: Option<P>)
    ensures
        explicit matches Some(x) ==> spec_variant_discriminant(explicit, attribute) == Some(x),
        explicit is None ==> spec_variant_discriminant(explicit, attribute) == attribute,
{
}

/// Whether a variant has neither `= value` nor a `discriminant` attribute.
pub open spec fn lacks_discriminant<P>(v: (Option<P>, Option<P>)) -> bool {
    v.0 is None && v.1 is None
}

/// The variant an enum's plan stops at is the first that has neither `= value` nor a
/// `discriminant` attribute; where every variant has one of them, the plan stops at none.
pub proof fn law_first_without_discriminant<P>(vs: Seq<(Option<P>, Option<P>)>)
    ensures
        first_without_discriminant(vs) matches Some(i) ==> {
            &&& i < vs.len()
            &&& lacks_discriminant(vs[i as int])
            &&& forall|j: int| 0 <= j < i ==> !lacks_discriminant(#[trigger] vs[j])
        },
        first_without_discriminant(vs) is None ==> forall|j: int|
            0 <= j < vs.len() ==> !lacks_discriminant(#[trigger] vs[j]),
    decreases vs.len(),
{
    if vs.len() > 0 {
        let init = vs.drop_last();
        law_first_without_discriminant(init);
        assert forall|j: int| 0 <= j < init.len() implies #[trigger] init[j] == vs[j] by {}
        match first_without_discriminant(init) {
            Some(i) => {
                assert forall|j: int| 0 <= j < i implies !lacks_discriminant(#[trigger] vs[j]) by {
                    assert(init[j] == vs[j]);
                }
                assert(init[i as int] == vs[i as int]);
            },
            None => {
                assert forall|j: int| 0 <= j < init.len() implies !lacks_discriminant(
                    #[trigger] vs[j],
                ) by {
                    assert(init[j] == vs[j]);
                }
                assert(vs.last() == vs[vs.len() - 1]);
            },
        }
    }
}

} // verus!
