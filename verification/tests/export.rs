use ts_gen::attr::{ContainerAttr, FieldAttr};
use ts_gen::error::Error;
use ts_gen::export::{export_dir, Dependency};
use ts_gen::ty::{Field, Registry, Shape, TypeDef, TypeRef};

fn prim(name: &str) -> TypeRef {
    TypeRef::Prim { name: name.to_owned() }
}

fn field(name: &str, ty: TypeRef) -> Field {
    Field { name: name.to_owned(), ty, attrs: FieldAttr::default() }
}

fn plain_def(name: &str, shape: Shape) -> TypeDef {
    TypeDef {
        ts_name: name.to_owned(),
        docs: String::new(),
        generics: Vec::new(),
        shape,
        attrs: ContainerAttr::default(),
    }
}

#[test]
fn export_all_single_type() {
    let def = plain_def("User", Shape::Struct { fields: vec![field("id", prim("number"))] });
    let reg = Registry::new(vec![def]).unwrap();
    let root = TypeRef::Named { id: 0, args: Vec::new() };
    let files = reg.export_all(&root, false).unwrap();
    assert_eq!(files.len(), 1);
    assert_eq!(files[0].0, "User.ts");
    assert_eq!(files[0].1, "type User = { id: number };\n");
}

#[test]
fn export_all_emits_dependency_file_with_import() {
    let role = plain_def("Role", Shape::Struct { fields: vec![field("name", prim("string"))] });
    let user = plain_def(
        "User",
        Shape::Struct {
            fields: vec![
                field("id", prim("number")),
                field("role", TypeRef::Named { id: 0, args: Vec::new() }),
            ],
        },
    );
    let reg = Registry::new(vec![role, user]).unwrap();
    let root = TypeRef::Named { id: 1, args: Vec::new() };
    let files = reg.export_all(&root, false).unwrap();
    assert_eq!(files.len(), 2);
    let user_file = files.iter().find(|f| f.0 == "User.ts").unwrap();
    assert!(user_file.1.contains("import { Role } from \"./Role\";"));
    assert!(user_file.1.contains("type User = { id: number, role: Role };"));
    let role_file = files.iter().find(|f| f.0 == "Role.ts").unwrap();
    assert!(!role_file.1.contains("import"));
}

#[test]
fn cyclic_types_terminate_with_two_files_importing_each_other() {
    let a = plain_def(
        "A",
        Shape::Struct {
            fields: vec![field("b", TypeRef::Named { id: 1, args: Vec::new() })],
        },
    );
    let b = plain_def(
        "B",
        Shape::Struct {
            fields: vec![field(
                "a",
                TypeRef::Optional {
                    inner: Box::new(TypeRef::Named { id: 0, args: Vec::new() }),
                },
            )],
        },
    );
    let reg = Registry::new(vec![a, b]).unwrap();
    let root = TypeRef::Named { id: 0, args: Vec::new() };
    let files = reg.export_all(&root, false).unwrap();
    assert_eq!(files.len(), 2);
    let a_file = files.iter().find(|f| f.0 == "A.ts").unwrap();
    let b_file = files.iter().find(|f| f.0 == "B.ts").unwrap();
    assert!(a_file.1.contains("import { B } from \"./B\";"));
    assert!(b_file.1.contains("import { A } from \"./A\";"));
    assert_eq!(a_file.1.matches("type A =").count(), 1);
    assert_eq!(b_file.1.matches("type B =").count(), 1);
}

#[test]
fn explicit_export_to_places_file_exactly() {
    let mut attrs = ContainerAttr::default();
    attrs.export_to = Some("nested/dir/name.ts".to_owned());
    let def = TypeDef {
        ts_name: "Deep".to_owned(),
        docs: String::new(),
        generics: Vec::new(),
        shape: Shape::Struct { fields: vec![field("x", prim("number"))] },
        attrs,
    };
    let reg = Registry::new(vec![def]).unwrap();
    let root = TypeRef::Named { id: 0, args: Vec::new() };
    let files = reg.export_all(&root, false).unwrap();
    assert_eq!(files.len(), 1);
    assert_eq!(files[0].0, "nested/dir/name.ts");
}

#[test]
fn import_path_crosses_directories() {
    let mut deep_attrs = ContainerAttr::default();
    deep_attrs.export_to = Some("nested/dir/Deep.ts".to_owned());
    let deep = TypeDef {
        ts_name: "Deep".to_owned(),
        docs: String::new(),
        generics: Vec::new(),
        shape: Shape::Struct {
            fields: vec![field("top", TypeRef::Named { id: 1, args: Vec::new() })],
        },
        attrs: deep_attrs,
    };
    let top = plain_def("Top", Shape::Struct { fields: vec![field("x", prim("number"))] });
    let reg = Registry::new(vec![deep, top]).unwrap();
    let root = TypeRef::Named { id: 0, args: Vec::new() };
    let files = reg.export_all(&root, false).unwrap();
    let deep_file = files.iter().find(|f| f.0 == "nested/dir/Deep.ts").unwrap();
    assert!(deep_file.1.contains("import { Top } from \"../../Top\";"));
}

#[test]
fn esm_imports_get_js_suffix() {
    let role = plain_def("Role", Shape::Struct { fields: vec![field("n", prim("string"))] });
    let user = plain_def(
        "User",
        Shape::Struct {
            fields: vec![field("role", TypeRef::Named { id: 0, args: Vec::new() })],
        },
    );
    let reg = Registry::new(vec![role, user]).unwrap();
    let root = TypeRef::Named { id: 1, args: Vec::new() };
    let files = reg.export_all(&root, true).unwrap();
    let user_file = files.iter().find(|f| f.0 == "User.ts").unwrap();
    assert!(user_file.1.contains("import { Role } from \"./Role.js\";"));
}

#[test]
fn shared_location_gets_both_declarations_once() {
    let mut a_attrs = ContainerAttr::default();
    a_attrs.export_to = Some("types/all.ts".to_owned());
    let mut b_attrs = ContainerAttr::default();
    b_attrs.export_to = Some("types/all.ts".to_owned());
    let a = TypeDef {
        ts_name: "A".to_owned(),
        docs: String::new(),
        generics: Vec::new(),
        shape: Shape::Struct {
            fields: vec![field("b", TypeRef::Named { id: 1, args: Vec::new() })],
        },
        attrs: a_attrs,
    };
    let b = TypeDef {
        ts_name: "B".to_owned(),
        docs: String::new(),
        generics: Vec::new(),
        shape: Shape::Struct { fields: vec![field("x", prim("number"))] },
        attrs: b_attrs,
    };
    let reg = Registry::new(vec![a, b]).unwrap();
    let root = TypeRef::Named { id: 0, args: Vec::new() };
    let files = reg.export_all(&root, false).unwrap();
    assert_eq!(files.len(), 1);
    assert_eq!(files[0].0, "types/all.ts");
    assert_eq!(files[0].1.matches("type A =").count(), 1);
    assert_eq!(files[0].1.matches("type B =").count(), 1);
    assert!(!files[0].1.contains("import"));
}

#[test]
fn escaping_path_is_rejected_before_any_file() {
    let mut attrs = ContainerAttr::default();
    attrs.export_to = Some("../outside.ts".to_owned());
    let def = TypeDef {
        ts_name: "Escape".to_owned(),
        docs: String::new(),
        generics: Vec::new(),
        shape: Shape::Struct { fields: vec![field("x", prim("number"))] },
        attrs,
    };
    let reg = Registry::new(vec![def]).unwrap();
    let root = TypeRef::Named { id: 0, args: Vec::new() };
    match reg.export_all(&root, false).unwrap_err() {
        Error::InvalidPath(p) => assert_eq!(p, "../outside.ts"),
        other => panic!("unexpected error: {:?}", other),
    }
}

#[test]
fn export_root_without_declaration_fails() {
    let reg = Registry::new(Vec::new()).unwrap();
    let root = TypeRef::Prim { name: "number".to_owned() };
    match reg.export_all(&root, false).unwrap_err() {
        Error::CannotBeExported(name) => assert_eq!(name, "number"),
        other => panic!("unexpected error: {:?}", other),
    }
}

#[test]
fn export_to_string_is_in_memory_file_text() {
    let def = plain_def("User", Shape::Struct { fields: vec![field("id", prim("number"))] });
    let reg = Registry::new(vec![def]).unwrap();
    let root = TypeRef::Named { id: 0, args: Vec::new() };
    assert_eq!(reg.export_to_string(&root, false).unwrap(), "type User = { id: number };\n");
}

#[test]
fn export_single_includes_imports_but_only_own_declaration() {
    let role = plain_def("Role", Shape::Struct { fields: vec![field("n", prim("string"))] });
    let user = plain_def(
        "User",
        Shape::Struct {
            fields: vec![field("role", TypeRef::Named { id: 0, args: Vec::new() })],
        },
    );
    let reg = Registry::new(vec![role, user]).unwrap();
    let root = TypeRef::Named { id: 1, args: Vec::new() };
    let (path, text) = reg.export(&root, false).unwrap();
    assert_eq!(path, "User.ts");
    assert!(text.contains("import { Role } from \"./Role\";"));
    assert!(text.contains("type User ="));
    assert!(!text.contains("type Role ="));
}

#[test]
fn export_all_to_prefixes_base_directory() {
    let def = plain_def("User", Shape::Struct { fields: vec![field("id", prim("number"))] });
    let reg = Registry::new(vec![def]).unwrap();
    let root = TypeRef::Named { id: 0, args: Vec::new() };
    let files = reg.export_all_to(&root, "./bindings", false).unwrap();
    assert_eq!(files[0].0, "./bindings/User.ts");
}

#[test]
fn docs_precede_declaration() {
    let mut def = plain_def("User", Shape::Struct { fields: vec![field("id", prim("number"))] });
    def.docs = "/**\n * A user.\n */\n".to_owned();
    let reg = Registry::new(vec![def]).unwrap();
    let root = TypeRef::Named { id: 0, args: Vec::new() };
    let files = reg.export_all(&root, false).unwrap();
    assert_eq!(files[0].1, "/**\n * A user.\n */\ntype User = { id: number };\n");
}

#[test]
fn dependency_from_ty() {
    let def = plain_def("User", Shape::Struct { fields: vec![field("id", prim("number"))] });
    let reg = Registry::new(vec![def]).unwrap();
    let named = TypeRef::Named { id: 0, args: Vec::new() };
    let dep = Dependency::from_ty(&reg, &named).unwrap();
    assert_eq!(dep.type_id, 0);
    assert_eq!(dep.ts_name, "User");
    assert_eq!(dep.output_path, "User.ts");
    assert!(Dependency::from_ty(&reg, &prim("number")).is_none());
}

#[test]
fn dependencies_lists_direct_dependencies() {
    let role = plain_def("Role", Shape::Struct { fields: vec![field("n", prim("string"))] });
    let user = plain_def(
        "User",
        Shape::Struct {
            fields: vec![field("role", TypeRef::Named { id: 0, args: Vec::new() })],
        },
    );
    let reg = Registry::new(vec![role, user]).unwrap();
    let deps = reg.dependencies(&TypeRef::Named { id: 1, args: Vec::new() });
    assert_eq!(deps.len(), 1);
    assert_eq!(deps[0].ts_name, "Role");
}

#[test]
fn export_dir_precedence() {
    assert_eq!(
        export_dir(Some("cli".to_owned()), Some("env".to_owned())),
        "cli"
    );
    assert_eq!(export_dir(None, Some("env".to_owned())), "env");
    assert_eq!(export_dir(None, None), "./bindings");
}
