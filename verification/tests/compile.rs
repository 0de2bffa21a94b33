use ts_gen::attr::{ContainerAttr, FieldAttr, VariantAttr};
use ts_gen::error::Error;
use ts_gen::ty::{Field, Generic, Payload, Registry, Shape, TypeDef, TypeRef, Variant};

fn prim(name: &str) -> TypeRef {
    TypeRef::Prim { name: name.to_owned() }
}

fn field(name: &str, ty: TypeRef) -> Field {
    Field { name: name.to_owned(), ty, attrs: FieldAttr::default() }
}

fn plain_def(name: &str, shape: Shape) -> TypeDef {
    TypeDef {
        ts_name: name.to_owned(),
        docs: String::new(),
        generics: Vec::new(),
        shape,
        attrs: ContainerAttr::default(),
    }
}

fn variant(name: &str, payload: Payload) -> Variant {
    Variant { name: name.to_owned(), payload, attrs: VariantAttr::default() }
}

#[test]
fn struct_inline_preserves_field_order() {
    let def = plain_def(
        "Pair",
        Shape::Struct { fields: vec![field("a", prim("number")), field("b", prim("string"))] },
    );
    let reg = Registry::new(vec![def]).unwrap();
    let t = TypeRef::Named { id: 0, args: Vec::new() };
    assert_eq!(reg.inline(&t).unwrap(), "{ a: number, b: string }");
}

#[test]
fn empty_struct_is_distinguished_from_unit() {
    let def = plain_def("Empty", Shape::Struct { fields: Vec::new() });
    let reg = Registry::new(vec![def]).unwrap();
    let t = TypeRef::Named { id: 0, args: Vec::new() };
    assert_eq!(reg.inline(&t).unwrap(), "Record<string, never>");
}

#[test]
fn rename_all_camel_case_renames_field_key() {
    let mut attrs = ContainerAttr::default();
    attrs.rename_all = Some(ts_gen::inflection::Inflection::Camel);
    let def = TypeDef {
        ts_name: "User".to_owned(),
        docs: String::new(),
        generics: Vec::new(),
        shape: Shape::Struct { fields: vec![field("user_id", prim("number"))] },
        attrs,
    };
    let reg = Registry::new(vec![def]).unwrap();
    let t = TypeRef::Named { id: 0, args: Vec::new() };
    let inline = reg.inline(&t).unwrap();
    assert_eq!(inline, "{ userId: number }");
    assert!(!inline.contains("user_id"));
}

#[test]
fn externally_tagged_enum_inline() {
    let def = plain_def(
        "E",
        Shape::Enum {
            variants: vec![
                variant("A", Payload::Unit),
                variant("B", Payload::Newtype { ty: prim("number") }),
            ],
        },
    );
    let reg = Registry::new(vec![def]).unwrap();
    let t = TypeRef::Named { id: 0, args: Vec::new() };
    assert_eq!(reg.inline(&t).unwrap(), "\"A\" | { \"B\": number }");
}

#[test]
fn internally_tagged_enum_inline() {
    let mut attrs = ContainerAttr::default();
    attrs.tag = Some("type".to_owned());
    let def = TypeDef {
        ts_name: "E".to_owned(),
        docs: String::new(),
        generics: Vec::new(),
        shape: Shape::Enum {
            variants: vec![
                variant("A", Payload::Struct { fields: vec![field("x", prim("number"))] }),
                variant("B", Payload::Struct { fields: vec![field("y", prim("string"))] }),
            ],
        },
        attrs,
    };
    let reg = Registry::new(vec![def]).unwrap();
    let t = TypeRef::Named { id: 0, args: Vec::new() };
    assert_eq!(
        reg.inline(&t).unwrap(),
        "{ type: \"A\", x: number } | { type: \"B\", y: string }"
    );
}

#[test]
fn internally_tagged_tuple_payload_fails() {
    let mut attrs = ContainerAttr::default();
    attrs.tag = Some("type".to_owned());
    let def = TypeDef {
        ts_name: "E".to_owned(),
        docs: String::new(),
        generics: Vec::new(),
        shape: Shape::Enum {
            variants: vec![variant("A", Payload::Tuple { items: vec![prim("number")] })],
        },
        attrs,
    };
    let reg = Registry::new(vec![def]).unwrap();
    let t = TypeRef::Named { id: 0, args: Vec::new() };
    match reg.inline(&t).unwrap_err() {
        Error::InvalidAttribute(m) => assert!(m.contains("internally tagged")),
        other => panic!("unexpected error: {:?}", other),
    }
}

#[test]
fn adjacently_tagged_enum_inline() {
    let mut attrs = ContainerAttr::default();
    attrs.tag = Some("t".to_owned());
    attrs.content = Some("c".to_owned());
    let def = TypeDef {
        ts_name: "E".to_owned(),
        docs: String::new(),
        generics: Vec::new(),
        shape: Shape::Enum {
            variants: vec![
                variant("A", Payload::Unit),
                variant("B", Payload::Newtype { ty: prim("number") }),
            ],
        },
        attrs,
    };
    let reg = Registry::new(vec![def]).unwrap();
    let t = TypeRef::Named { id: 0, args: Vec::new() };
    assert_eq!(reg.inline(&t).unwrap(), "{ t: \"A\" } | { t: \"B\", c: number }");
}

#[test]
fn untagged_enum_inline() {
    let mut attrs = ContainerAttr::default();
    attrs.untagged = true;
    let def = TypeDef {
        ts_name: "E".to_owned(),
        docs: String::new(),
        generics: Vec::new(),
        shape: Shape::Enum {
            variants: vec![
                variant("A", Payload::Unit),
                variant("B", Payload::Newtype { ty: prim("number") }),
            ],
        },
        attrs,
    };
    let reg = Registry::new(vec![def]).unwrap();
    let t = TypeRef::Named { id: 0, args: Vec::new() };
    assert_eq!(reg.inline(&t).unwrap(), "null | number");
}

#[test]
fn optional_bare_strips_null_and_marks_key() {
    let mut fa = FieldAttr::default();
    fa.optional = true;
    let def = plain_def(
        "S",
        Shape::Struct {
            fields: vec![Field {
                name: "maybe".to_owned(),
                ty: TypeRef::Optional { inner: Box::new(prim("number")) },
                attrs: fa,
            }],
        },
    );
    let reg = Registry::new(vec![def]).unwrap();
    let t = TypeRef::Named { id: 0, args: Vec::new() };
    let inline = reg.inline(&t).unwrap();
    assert_eq!(inline, "{ maybe?: number }");
    assert!(!inline.contains("| null"));
}

#[test]
fn optional_nullable_keeps_null() {
    let mut fa = FieldAttr::default();
    fa.optional = true;
    fa.nullable = true;
    let def = plain_def(
        "S",
        Shape::Struct {
            fields: vec![Field {
                name: "maybe".to_owned(),
                ty: TypeRef::Optional { inner: Box::new(prim("number")) },
                attrs: fa,
            }],
        },
    );
    let reg = Registry::new(vec![def]).unwrap();
    let t = TypeRef::Named { id: 0, args: Vec::new() };
    assert_eq!(reg.inline(&t).unwrap(), "{ maybe?: number | null }");
}

#[test]
fn optional_on_plain_field_fails() {
    let mut fa = FieldAttr::default();
    fa.optional = true;
    let def = plain_def(
        "S",
        Shape::Struct {
            fields: vec![Field { name: "x".to_owned(), ty: prim("number"), attrs: fa }],
        },
    );
    let reg = Registry::new(vec![def]).unwrap();
    let t = TypeRef::Named { id: 0, args: Vec::new() };
    match reg.inline(&t).unwrap_err() {
        Error::InvalidAttribute(m) => assert!(m.contains("optional")),
        other => panic!("unexpected error: {:?}", other),
    }
}

#[test]
fn skipped_field_is_omitted() {
    let mut fa = FieldAttr::default();
    fa.skip = true;
    let def = plain_def(
        "S",
        Shape::Struct {
            fields: vec![
                Field { name: "hidden".to_owned(), ty: prim("number"), attrs: fa },
                field("shown", prim("string")),
            ],
        },
    );
    let reg = Registry::new(vec![def]).unwrap();
    let t = TypeRef::Named { id: 0, args: Vec::new() };
    assert_eq!(reg.inline(&t).unwrap(), "{ shown: string }");
}

#[test]
fn flattened_field_merges_keys() {
    let inner = plain_def(
        "Inner",
        Shape::Struct { fields: vec![field("a", prim("number")), field("b", prim("string"))] },
    );
    let mut fa = FieldAttr::default();
    fa.flatten = true;
    let outer = plain_def(
        "Outer",
        Shape::Struct {
            fields: vec![
                field("own", prim("boolean")),
                Field {
                    name: "nested".to_owned(),
                    ty: TypeRef::Named { id: 0, args: Vec::new() },
                    attrs: fa,
                },
            ],
        },
    );
    let reg = Registry::new(vec![inner, outer]).unwrap();
    let t = TypeRef::Named { id: 1, args: Vec::new() };
    assert_eq!(reg.inline(&t).unwrap(), "{ own: boolean, a: number, b: string }");
}

#[test]
fn inline_attribute_expands_definition() {
    let inner = plain_def("Inner", Shape::Struct { fields: vec![field("a", prim("number"))] });
    let mut fa = FieldAttr::default();
    fa.inline = true;
    let outer = plain_def(
        "Outer",
        Shape::Struct {
            fields: vec![Field {
                name: "nested".to_owned(),
                ty: TypeRef::Named { id: 0, args: Vec::new() },
                attrs: fa,
            }],
        },
    );
    let reg = Registry::new(vec![inner, outer]).unwrap();
    let t = TypeRef::Named { id: 1, args: Vec::new() };
    assert_eq!(reg.inline(&t).unwrap(), "{ nested: { a: number } }");
}

#[test]
fn builtin_shapes_inline() {
    let reg = Registry::new(Vec::new()).unwrap();
    assert_eq!(
        reg.inline(&TypeRef::Optional { inner: Box::new(prim("number")) }).unwrap(),
        "number | null"
    );
    assert_eq!(
        reg.inline(&TypeRef::List { inner: Box::new(prim("string")) }).unwrap(),
        "Array<string>"
    );
    assert_eq!(
        reg.inline(&TypeRef::Record {
            key: Box::new(prim("string")),
            value: Box::new(prim("number")),
        })
        .unwrap(),
        "{ [key: string]: number }"
    );
    assert_eq!(
        reg.inline(&TypeRef::FixedList { inner: Box::new(prim("number")), len: 3 }).unwrap(),
        "[number, number, number]"
    );
}

#[test]
fn long_fixed_list_becomes_array() {
    let reg = Registry::new(Vec::new()).unwrap();
    assert_eq!(
        reg.inline(&TypeRef::FixedList { inner: Box::new(prim("number")), len: 65 }).unwrap(),
        "Array<number>"
    );
}

#[test]
fn tuple_names_but_does_not_inline() {
    let reg = Registry::new(Vec::new()).unwrap();
    let t = TypeRef::Tuple { items: vec![prim("number"), prim("string")] };
    assert_eq!(reg.name_of(&t), "[number, string]");
    assert!(reg.inline(&t).is_err());
}

#[test]
fn decl_on_tuple_fails_loudly() {
    let reg = Registry::new(Vec::new()).unwrap();
    let t = TypeRef::Tuple { items: vec![prim("number"), prim("string")] };
    match reg.decl(&t).unwrap_err() {
        Error::CannotBeDeclared(name) => assert_eq!(name, "[number, string]"),
        other => panic!("unexpected error: {:?}", other),
    }
}

#[test]
fn decl_uses_generic_placeholders() {
    let def = TypeDef {
        ts_name: "Wrap".to_owned(),
        docs: String::new(),
        generics: vec![Generic { name: "T".to_owned(), default: None }],
        shape: Shape::Struct {
            fields: vec![field("value", TypeRef::Param { name: "T".to_owned() })],
        },
        attrs: ContainerAttr::default(),
    };
    let reg = Registry::new(vec![def]).unwrap();
    let with_number = TypeRef::Named { id: 0, args: vec![prim("number")] };
    let with_string = TypeRef::Named { id: 0, args: vec![prim("string")] };
    let d1 = reg.decl(&with_number).unwrap();
    let d2 = reg.decl(&with_string).unwrap();
    assert_eq!(d1, "type Wrap<T> = { value: T };");
    assert_eq!(d1, d2);
}

#[test]
fn decl_concrete_uses_arguments() {
    let def = TypeDef {
        ts_name: "Wrap".to_owned(),
        docs: String::new(),
        generics: vec![Generic { name: "T".to_owned(), default: None }],
        shape: Shape::Struct {
            fields: vec![field("value", TypeRef::Param { name: "T".to_owned() })],
        },
        attrs: ContainerAttr::default(),
    };
    let reg = Registry::new(vec![def]).unwrap();
    let with_number = TypeRef::Named { id: 0, args: vec![prim("number")] };
    assert_eq!(reg.decl_concrete(&with_number).unwrap(), "type Wrap = { value: number };");
}

#[test]
fn generic_name_includes_arguments() {
    let def = TypeDef {
        ts_name: "Wrap".to_owned(),
        docs: String::new(),
        generics: vec![Generic { name: "T".to_owned(), default: None }],
        shape: Shape::Struct {
            fields: vec![field("value", TypeRef::Param { name: "T".to_owned() })],
        },
        attrs: ContainerAttr::default(),
    };
    let reg = Registry::new(vec![def]).unwrap();
    let t = TypeRef::Named { id: 0, args: vec![prim("number")] };
    assert_eq!(reg.name_of(&t), "Wrap<number>");
    assert_eq!(reg.ident_of(&t), "Wrap");
}

#[test]
fn type_override_replaces_definition() {
    let mut attrs = ContainerAttr::default();
    attrs.type_override = Some("string".to_owned());
    let def = TypeDef {
        ts_name: "Raw".to_owned(),
        docs: String::new(),
        generics: Vec::new(),
        shape: Shape::Struct { fields: vec![field("ignored", prim("number"))] },
        attrs,
    };
    let reg = Registry::new(vec![def]).unwrap();
    let t = TypeRef::Named { id: 0, args: Vec::new() };
    assert_eq!(reg.inline(&t).unwrap(), "string");
    assert_eq!(reg.decl(&t).unwrap(), "type Raw = string;");
}

#[test]
fn registry_rejects_dangling_reference() {
    let def = plain_def(
        "Broken",
        Shape::Struct { fields: vec![field("x", TypeRef::Named { id: 7, args: Vec::new() })] },
    );
    match Registry::new(vec![def]) {
        Err(Error::InvalidSchema(_)) => {},
        other => panic!("unexpected result: {:?}", other.map(|_| ())),
    }
}

#[test]
fn quoted_field_key_when_not_bare() {
    let def = plain_def(
        "S",
        Shape::Struct { fields: vec![field("weird-key", prim("number"))] },
    );
    let reg = Registry::new(vec![def]).unwrap();
    let t = TypeRef::Named { id: 0, args: Vec::new() };
    assert_eq!(reg.inline(&t).unwrap(), "{ \"weird-key\": number }");
}

#[test]
fn skipped_variant_is_omitted_and_empty_union_is_never() {
    let mut va = VariantAttr::default();
    va.skip = true;
    let def = plain_def(
        "E",
        Shape::Enum {
            variants: vec![Variant { name: "A".to_owned(), payload: Payload::Unit, attrs: va }],
        },
    );
    let reg = Registry::new(vec![def]).unwrap();
    let t = TypeRef::Named { id: 0, args: Vec::new() };
    assert_eq!(reg.inline(&t).unwrap(), "never");
}

#[test]
fn container_rename_sets_display_name() {
    let mut attrs = ContainerAttr::default();
    attrs.rename = Some("Renamed".to_owned());
    let def = TypeDef::new(
        "Declared".to_owned(),
        String::new(),
        Vec::new(),
        Shape::Struct { fields: vec![field("x", prim("number"))] },
        attrs,
    );
    let reg = Registry::new(vec![def]).unwrap();
    let t = TypeRef::Named { id: 0, args: Vec::new() };
    assert_eq!(reg.name_of(&t), "Renamed");
    assert_eq!(reg.decl(&t).unwrap(), "type Renamed = { x: number };");
}

#[test]
fn generic_default_appears_in_declaration_header() {
    let fallback = plain_def("Fallback", Shape::Struct { fields: vec![field("x", prim("number"))] });
    let def = TypeDef {
        ts_name: "Wrap".to_owned(),
        docs: String::new(),
        generics: vec![Generic {
            name: "T".to_owned(),
            default: Some(TypeRef::Named { id: 0, args: Vec::new() }),
        }],
        shape: Shape::Struct {
            fields: vec![field("value", TypeRef::Param { name: "T".to_owned() })],
        },
        attrs: ContainerAttr::default(),
    };
    let reg = Registry::new(vec![fallback, def]).unwrap();
    let t = TypeRef::Named { id: 1, args: vec![prim("number")] };
    assert_eq!(reg.decl(&t).unwrap(), "type Wrap<T = Fallback> = { value: T };");
}

#[test]
fn generic_default_is_a_dependency_of_the_export() {
    let fallback = plain_def("Fallback", Shape::Struct { fields: vec![field("x", prim("number"))] });
    let def = TypeDef {
        ts_name: "Wrap".to_owned(),
        docs: String::new(),
        generics: vec![Generic {
            name: "T".to_owned(),
            default: Some(TypeRef::Named { id: 0, args: Vec::new() }),
        }],
        shape: Shape::Struct {
            fields: vec![field("value", TypeRef::Param { name: "T".to_owned() })],
        },
        attrs: ContainerAttr::default(),
    };
    let reg = Registry::new(vec![fallback, def]).unwrap();
    let t = TypeRef::Named { id: 1, args: vec![prim("number")] };
    let files = reg.export_all(&t, false).unwrap();
    assert_eq!(files.len(), 2);
    assert!(files.iter().any(|f| f.0 == "Fallback.ts"));
}

#[test]
fn registry_check_accepts_well_formed_references() {
    let def = plain_def("S", Shape::Struct { fields: vec![field("x", prim("number"))] });
    let reg = Registry::new(vec![def]).unwrap();
    assert!(reg.check_ty(&TypeRef::Named { id: 0, args: Vec::new() }));
    assert!(!reg.check_ty(&TypeRef::Named { id: 3, args: Vec::new() }));
}
