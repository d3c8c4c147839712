use bin_proto::attr::{Ctx, Tag as AttrTag};
use bin_proto::plan::{plan_enum, DecodeTag, EncodeTag, PlanError};
use bin_proto::{
    compile_fail_if_discriminant_wont_fit, compile_fail_if_multiple_exclusive_attrs, AttrError,
    AttrItem, AttrKind, AttrName, Attrs,
};

fn item(name: &str, value: Option<&'static str>) -> AttrItem<&'static str> {
    AttrItem { name: AttrName::from_ident(&name.to_string()), value }
}

#[test]
fn attr_kind_names() {
    assert_eq!(AttrKind::Enum.name(), "enum");
    assert_eq!(AttrKind::Struct.name(), "struct");
    assert_eq!(AttrKind::Variant.name(), "variant");
    assert_eq!(AttrKind::Field.name(), "field");
}

#[test]
fn attr_names_from_idents() {
    assert_eq!(AttrName::from_ident(&"bits".to_string()), Some(AttrName::Bits));
    assert_eq!(
        AttrName::from_ident(&"flexible_array_member".to_string()),
        Some(AttrName::FlexibleArrayMember)
    );
    assert_eq!(AttrName::from_ident(&"tag_bits".to_string()), Some(AttrName::TagBits));
    assert_eq!(AttrName::from_ident(&"nonsense".to_string()), None);
    assert_eq!(AttrName::Magic.ident_string(), "magic");
}

#[test]
fn tag_type_with_value() {
    let attrs = Attrs::parse(
        vec![
            item("tag_type", Some("u16")),
            item("tag_value", Some("self.data.len() as u16")),
            item("tag_bits", Some("13")),
        ],
        Some(AttrKind::Field),
    )
    .unwrap();
    assert!(matches!(
        attrs.tag,
        Some(AttrTag::Prepend { typ: "u16", write_value: Some("self.data.len() as u16"), bits: Some("13") })
    ));
}

#[test]
fn external_tag() {
    let attrs = Attrs::parse(vec![item("tag", Some("count as usize"))], Some(AttrKind::Field)).unwrap();
    assert!(matches!(attrs.tag, Some(AttrTag::External("count as usize"))));
}

#[test]
fn tag_and_tag_type_refused() {
    let res = Attrs::parse(
        vec![item("tag", Some("n")), item("tag_type", Some("u8"))],
        Some(AttrKind::Field),
    );
    assert!(matches!(res, Err(AttrError::InvalidTag)));
    let res = Attrs::parse(vec![item("tag_value", Some("1"))], Some(AttrKind::Field));
    assert!(matches!(res, Err(AttrError::InvalidTag)));
}

#[test]
fn ctx_and_ctx_bounds_refused() {
    let res = Attrs::parse(
        vec![item("ctx", Some("Ctx")), item("ctx_bounds", Some("CtxTrait"))],
        Some(AttrKind::Struct),
    );
    assert!(matches!(res, Err(AttrError::ExclusiveCtx)));
    let ok = Attrs::parse(vec![item("ctx_bounds", Some("CtxTrait"))], Some(AttrKind::Struct)).unwrap();
    assert!(matches!(ok.ctx, Some(Ctx::Bounds("CtxTrait"))));
    assert!(ok.concrete_ctx().is_none());
    let concrete = Attrs::parse(vec![item("ctx", Some("Ctx"))], Some(AttrKind::Enum)).unwrap();
    assert_eq!(concrete.concrete_ctx(), Some(&"Ctx"));
}

#[test]
fn layout_attributes_exclusive() {
    let res = Attrs::parse(
        vec![item("flexible_array_member", None), item("tag", Some("length as usize"))],
        Some(AttrKind::Field),
    );
    assert!(matches!(res, Err(AttrError::ExclusiveLayout)));
    let res = Attrs::parse(
        vec![item("bits", Some("3")), item("flexible_array_member", None)],
        Some(AttrKind::Field),
    );
    assert!(matches!(res, Err(AttrError::ExclusiveLayout)));
    assert_eq!(
        AttrError::ExclusiveLayout.message(),
        "bits, flexible_array_member, and tag are mutually-exclusive attributes"
    );
    assert!(compile_fail_if_multiple_exclusive_attrs());
}

#[test]
fn attribute_in_wrong_place() {
    let res = Attrs::parse(vec![item("bits", Some("4"))], Some(AttrKind::Struct));
    assert!(matches!(
        res,
        Err(AttrError::NotApplicable { name: AttrName::Bits, kind: AttrKind::Struct })
    ));
    let err = res.err().unwrap();
    assert_eq!(err.message(), "attribute 'bits' cannot be applied to struct");
    let res = Attrs::parse(vec![item("discriminant", Some("4"))], Some(AttrKind::Field));
    assert_eq!(
        res.err().unwrap().message(),
        "attribute 'discriminant' cannot be applied to field"
    );
}

#[test]
fn any_kind_allows_every_attribute() {
    let attrs = Attrs::parse(
        vec![item("discriminant_type", Some("u8")), item("discriminant", Some("1"))],
        None,
    )
    .unwrap();
    assert_eq!(attrs.discriminant_type, Some("u8"));
    assert_eq!(attrs.discriminant, Some("1"));
}

#[test]
fn unrecognized_and_missing_value() {
    let res = Attrs::parse(vec![item("bogus", Some("1"))], Some(AttrKind::Field));
    assert!(matches!(res, Err(AttrError::Unrecognized)));
    assert_eq!(AttrError::Unrecognized.message(), "unrecognized attribute");
    let res = Attrs::parse(vec![item("bits", None)], Some(AttrKind::Field));
    assert!(matches!(res, Err(AttrError::MissingValue(AttrName::Bits))));
}

#[test]
fn first_error_wins() {
    let res = Attrs::parse(
        vec![item("bits", Some("1")), item("discriminant", Some("2")), item("bogus", None)],
        Some(AttrKind::Field),
    );
    assert!(matches!(
        res,
        Err(AttrError::NotApplicable { name: AttrName::Discriminant, kind: AttrKind::Field })
    ));
}

#[test]
fn later_attribute_replaces_earlier() {
    let attrs = Attrs::parse(
        vec![item("bits", Some("1")), item("bits", Some("2")), item("default", None)],
        Some(AttrKind::Field),
    )
    .unwrap();
    assert_eq!(attrs.bits, Some("2"));
    assert!(attrs.default);
    assert!(!attrs.flexible_array_member);
}

#[test]
fn check_item_before_parsing_values() {
    assert_eq!(
        bin_proto::attr::check_item(Some(AttrName::Magic), true, Some(AttrKind::Variant)),
        Err(AttrError::NotApplicable { name: AttrName::Magic, kind: AttrKind::Variant })
    );
    assert_eq!(
        bin_proto::attr::check_item(Some(AttrName::Default), false, Some(AttrKind::Field)),
        Ok(AttrName::Default)
    );
}

#[test]
fn field_read_and_write_plans() {
    let bits = Attrs::parse(vec![item("bits", Some("4"))], Some(AttrKind::Field)).unwrap();
    assert!(matches!(bits.decode_tag(), DecodeTag::Bits(&"4")));
    assert!(matches!(bits.encode_tag(), Ok(EncodeTag::Bits(&"4"))));

    let fam = Attrs::parse(vec![item("flexible_array_member", None)], Some(AttrKind::Field)).unwrap();
    assert!(matches!(fam.decode_tag(), DecodeTag::Untagged));
    assert!(matches!(fam.encode_tag(), Ok(EncodeTag::Untagged)));

    let tagged = Attrs::parse(vec![item("tag", Some("n"))], Some(AttrKind::Field)).unwrap();
    assert!(matches!(tagged.decode_tag(), DecodeTag::Tagged(&"n")));
    assert!(matches!(tagged.encode_tag(), Ok(EncodeTag::Untagged)));

    let prepend = Attrs::parse(vec![item("tag_type", Some("u16"))], Some(AttrKind::Field)).unwrap();
    assert!(matches!(prepend.decode_tag(), DecodeTag::Prepend { typ: &"u16", bits: None }));
    assert!(matches!(prepend.encode_tag(), Err(PlanError::MissingWriteValue)));
    assert_eq!(PlanError::MissingWriteValue.message(), "Tag must specify 'write_value'");

    let plain = Attrs::parse(Vec::<AttrItem<&str>>::new(), Some(AttrKind::Field)).unwrap();
    assert!(matches!(plain.decode_tag(), DecodeTag::Unit));
    assert!(matches!(plain.encode_tag(), Ok(EncodeTag::Unit)));

    let default = Attrs::parse(vec![item("default", None)], Some(AttrKind::Field)).unwrap();
    assert!(matches!(default.decode_tag(), DecodeTag::Default));
}

#[test]
fn enum_plans() {
    let plan = plan_enum(Some("u8"), vec![(Some("1"), None), (None, Some("4")), (Some("5"), Some("6"))])
        .unwrap();
    assert_eq!(plan.discriminant_ty, "u8");
    assert_eq!(plan.discriminants, vec!["1", "4", "5"]);
    assert!(matches!(
        plan_enum(Some("u8"), vec![(Some("1"), None), (None, None)]),
        Err(PlanError::NoDiscriminant(1))
    ));
    assert!(matches!(
        plan_enum::<&str>(None, vec![]),
        Err(PlanError::MissingDiscriminantType)
    ));
    assert_eq!(
        PlanError::MissingDiscriminantType.message(),
        "enum missing 'discriminant_type' attribute."
    );
}

#[test]
fn discriminant_that_does_not_fit() {
    assert!(compile_fail_if_discriminant_wont_fit());
}

#[test]
fn kind_left_out_gives_same_settings() {
    let with_kind = Attrs::parse(
        vec![item("bits", Some("3")), item("pad_after", Some("1"))],
        Some(AttrKind::Field),
    )
    .unwrap();
    let without = Attrs::parse(vec![item("bits", Some("3")), item("pad_after", Some("1"))], None).unwrap();
    assert_eq!(with_kind.bits, without.bits);
    assert_eq!(with_kind.pad_after, without.pad_after);
    assert!(with_kind.tag.is_none() && without.tag.is_none());
}

#[test]
fn padding_not_on_enums() {
    let res = Attrs::parse(vec![item("pad_before", Some("3"))], Some(AttrKind::Enum));
    assert!(matches!(
        res,
        Err(AttrError::NotApplicable { name: AttrName::PadBefore, kind: AttrKind::Enum })
    ));
    assert!(Attrs::parse(vec![item("pad_after", Some("3"))], Some(AttrKind::Struct)).is_ok());
}
