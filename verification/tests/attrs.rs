use ts_gen::attr::{
    parse_and_merge_container, parse_and_merge_field, parse_container_attrs, parse_field_attrs,
    parse_serde_container_attrs, parse_variant_attrs, AttrEntry, ContainerAttr, FieldAttr,
};
use ts_gen::error::Error;
use ts_gen::inflection::Inflection;

fn entry(key: &str, value: Option<&str>) -> AttrEntry {
    AttrEntry { key: key.to_owned(), value: value.map(|v| v.to_owned()) }
}

#[test]
fn container_rename_all_parses() {
    let a = parse_container_attrs(vec![entry("rename_all", Some("camelCase"))]).unwrap();
    assert_eq!(a.rename_all, Some(Inflection::Camel));
}

#[test]
fn container_unknown_key_fails() {
    let e = parse_container_attrs(vec![entry("no_such_key", None)]).unwrap_err();
    match e {
        Error::UnknownAttribute(k, allowed) => {
            assert_eq!(k, "no_such_key");
            assert!(allowed.contains("rename_all"));
        },
        other => panic!("unexpected error: {:?}", other),
    }
}

#[test]
fn container_bad_inflection_fails() {
    let e = parse_container_attrs(vec![entry("rename_all", Some("shoutyCase"))]).unwrap_err();
    match e {
        Error::InvalidAttribute(m) => assert!(m.contains("shoutyCase")),
        other => panic!("unexpected error: {:?}", other),
    }
}

#[test]
fn later_occurrence_overrides_earlier() {
    let a = parse_container_attrs(vec![
        entry("rename", Some("First")),
        entry("rename", Some("Second")),
    ])
    .unwrap();
    assert_eq!(a.rename.as_deref(), Some("Second"));
}

#[test]
fn field_optional_nullable() {
    let a = parse_field_attrs(vec![entry("optional", Some("nullable"))]).unwrap();
    assert!(a.optional);
    assert!(a.nullable);
}

#[test]
fn field_flag_with_value_fails() {
    let e = parse_field_attrs(vec![entry("skip", Some("yes"))]).unwrap_err();
    match e {
        Error::InvalidAttribute(m) => assert!(m.contains("does not take a value")),
        other => panic!("unexpected error: {:?}", other),
    }
}

#[test]
fn serde_unknown_key_warns_and_continues() {
    let (a, warnings) = parse_serde_container_attrs(vec![
        entry("deny_unknown_fields", None),
        entry("rename", Some("Kept")),
    ]);
    assert_eq!(a.rename.as_deref(), Some("Kept"));
    assert_eq!(warnings.len(), 1);
    assert!(warnings[0].contains("deny_unknown_fields"));
}

#[test]
fn native_dialect_wins_over_serde() {
    let (merged, warnings) = parse_and_merge_container(
        vec![entry("rename", Some("Native"))],
        vec![entry("rename", Some("Serde")), entry("tag", Some("kind"))],
    )
    .unwrap();
    assert_eq!(merged.rename.as_deref(), Some("Native"));
    assert_eq!(merged.tag.as_deref(), Some("kind"));
    assert!(warnings.is_empty());
}

#[test]
fn serde_fills_only_unset_fields() {
    let (merged, _) = parse_and_merge_field(
        vec![entry("rename", Some("native_name"))],
        vec![entry("flatten", None)],
    )
    .unwrap();
    assert_eq!(merged.rename.as_deref(), Some("native_name"));
    assert!(merged.flatten);
}

#[test]
fn variant_untagged_parses() {
    let a = parse_variant_attrs(vec![entry("untagged", None)]).unwrap();
    assert!(a.untagged);
}

#[test]
fn validity_tag_and_untagged_conflict() {
    let a = parse_container_attrs(vec![entry("tag", Some("t")), entry("untagged", None)]).unwrap();
    let e = a.assert_validity(true).unwrap_err();
    match e {
        Error::InvalidAttribute(m) => assert!(m.contains("untagged")),
        other => panic!("unexpected error: {:?}", other),
    }
}

#[test]
fn validity_content_requires_tag() {
    let a = parse_container_attrs(vec![entry("content", Some("c"))]).unwrap();
    assert!(a.assert_validity(true).is_err());
}

#[test]
fn validity_content_invalid_for_struct() {
    let a = parse_container_attrs(vec![entry("tag", Some("t")), entry("content", Some("c"))])
        .unwrap();
    assert!(a.assert_validity(true).is_ok());
    assert!(a.assert_validity(false).is_err());
}

#[test]
fn validity_type_and_as_conflict() {
    let a = parse_field_attrs(vec![entry("type", Some("string")), entry("as", Some("Other"))])
        .unwrap();
    assert!(a.assert_validity().is_err());
}

#[test]
fn merge_is_right_biased() {
    let mut left = ContainerAttr::default();
    left.rename = Some("Left".to_owned());
    left.export = true;
    let mut right = ContainerAttr::default();
    right.rename = Some("Right".to_owned());
    let merged = left.merge(right);
    assert_eq!(merged.rename.as_deref(), Some("Right"));
    assert!(merged.export);
}

#[test]
fn field_merge_accumulates_flags() {
    let mut left = FieldAttr::default();
    left.inline = true;
    let mut right = FieldAttr::default();
    right.skip = true;
    let merged = left.merge(right);
    assert!(merged.inline);
    assert!(merged.skip);
}
