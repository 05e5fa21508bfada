use libninja_core::entry::{calculate_extras, make_lib_rs, write_lib_rs, write_serde_module, Extras, DATE_HELPER};
use libninja_core::generate::{generate_rust_library, source_path};
use libninja_core::hir::{Config, Model, Operation, Property, Specification, TypeRef};
use libninja_core::lower::{map_type, write_model_module, write_request_module, LowerError};
use libninja_core::mir::{check_ident, Field, File, FnArg, Import, Item, Literal, NameError, Visibility};
use libninja_core::provider::{provider_of, Provider};
use libninja_core::render::render;
use libninja_core::writer::Modified;

fn prop(name: &str, ty: TypeRef) -> Property {
    Property { name: name.to_string(), ty }
}

fn user_spec() -> Specification {
    Specification {
        models: vec![Model {
            name: "User".to_string(),
            fields: vec![prop("id", TypeRef::Integer), prop("name", TypeRef::Text)],
        }],
        operations: vec![Operation {
            name: "getUser".to_string(),
            params: vec![prop("id", TypeRef::Integer)],
            ret: TypeRef::Model("User".to_string()),
        }],
    }
}

fn names_of(f: &File) -> Vec<String> {
    f.items
        .iter()
        .map(|it| match it {
            Item::Fn(f) => format!("fn {}", f.name),
            Item::Struct(c) => format!("struct {}", c.name),
            Item::Field(f) => format!("field {}", f.name),
            Item::Import(i) => format!("use {}", i.path),
            Item::Lit(l) => format!("lit {}", l.0),
        })
        .collect()
}

#[test]
fn identifiers_are_checked() {
    assert!(check_ident("user_id").is_ok());
    assert!(matches!(check_ident("fn"), Err(NameError::NotAnIdentifier(s)) if s == "fn"));
    assert!(check_ident("two words").is_err());
    assert!(check_ident("9lives").is_err());
    assert!(check_ident("").is_err());
}

#[test]
fn constructors_reject_bad_names() {
    let a = FnArg::new("count", "u32").unwrap();
    assert_eq!(a.name, "count");
    assert_eq!(a.ty, "u32");
    assert!(a.default.is_none());
    assert!(FnArg::new("bad-name", "u32").is_err());
    assert!(FnArg::typed("token", "String").is_ok());
    assert!(FnArg::typed("token", "Vec<u8>").is_err());
    let d = FnArg::with_default("limit", "usize", "500").unwrap();
    assert_eq!(d.default, Some("500".to_string()));
    let f = Field::new("id", "i64", Visibility::Crate).unwrap();
    assert_eq!(f.visibility, Visibility::Crate);
    assert!(Field::new("struct", "i64", Visibility::Public).is_err());
}

#[test]
fn imports() {
    let p = Import::package("bytes");
    assert_eq!(p.path, "bytes");
    assert!(p.imports.is_empty());
    assert!(!p.public);
    let n = Import::new("bytes", vec!["Bytes".to_string(), "BufMut".to_string()]).unwrap().public();
    assert!(n.public);
    assert_eq!(n.imports, vec!["Bytes".to_string(), "BufMut".to_string()]);
    assert!(matches!(Import::new("bytes", vec!["ok".to_string(), "not ok".to_string()]),
        Err(NameError::NotAnIdentifier(s)) if s == "not ok"));
}

#[test]
fn render_exact_text() {
    let file = File {
        items: vec![
            Item::Import(Import::new("std::fmt", vec!["Debug".to_string()]).unwrap()),
            Item::Import(Import::package("model::*").public()),
            Item::Lit(Literal("// hi".to_string())),
            Item::Field(Field::new("x", "u8", Visibility::Private).unwrap()),
        ],
    };
    assert_eq!(render(&file), "use std::fmt::{Debug, };\npub use model::*;\n// hi\nx: u8,\n");
}

#[test]
fn type_mapping() {
    let models = user_spec().models;
    assert_eq!(map_type(&TypeRef::Integer, &models).unwrap(), "i64");
    assert_eq!(map_type(&TypeRef::Text, &models).unwrap(), "String");
    assert_eq!(map_type(&TypeRef::Boolean, &models).unwrap(), "bool");
    assert_eq!(map_type(&TypeRef::Model("User".to_string()), &models).unwrap(), "User");
    assert!(matches!(map_type(&TypeRef::Model("Pet".to_string()), &models),
        Err(LowerError::UnknownType(n)) if n == "Pet"));
}

#[test]
fn end_to_end_user_example() {
    let spec = user_spec();
    let cfg = Config { dest: "out".to_string(), build_examples: false };
    let lib = generate_rust_library(&spec, &cfg).unwrap();
    assert_eq!(lib.model_path, "out/src/model.rs");
    assert_eq!(lib.request_path, "out/src/request.rs");
    assert_eq!(lib.lib_path, "out/src/lib.rs");
    assert_eq!(render(&lib.model), "pub struct User {\npub id: i64,\npub name: String,\n}\n");
    assert_eq!(
        render(&lib.request),
        "pub fn getUser(id: i64, ) -> User {\nclient::send(\"getUser\")\n}\n"
    );
    assert_eq!(
        names_of(&lib.lib),
        vec![
            "lit pub mod model;",
            "lit pub mod request;",
            "use model::*",
            "use request::*",
            "fn default_http_client",
        ]
    );
    assert!(lib.serde.is_none());
}

#[test]
fn unknown_model_aborts_run() {
    let mut spec = user_spec();
    spec.operations[0].ret = TypeRef::Model("Account".to_string());
    let cfg = Config { dest: "out".to_string(), build_examples: false };
    assert!(matches!(generate_rust_library(&spec, &cfg), Err(LowerError::UnknownType(n)) if n == "Account"));
}

#[test]
fn bad_field_name_aborts_lowering() {
    let mut spec = user_spec();
    spec.models[0].fields[1].name = "first name".to_string();
    assert!(matches!(write_model_module(&spec), Err(LowerError::Name(_))));
    assert!(write_request_module(&spec).is_ok());
}

#[test]
fn fields_keep_declared_order() {
    let spec = Specification {
        models: vec![Model {
            name: "Pet".to_string(),
            fields: vec![prop("zeta", TypeRef::Boolean), prop("alpha", TypeRef::Number)],
        }],
        operations: vec![],
    };
    let f = write_model_module(&spec).unwrap();
    match &f.items[0] {
        Item::Struct(c) => {
            assert_eq!(c.fields[0].name, "zeta");
            assert_eq!(c.fields[1].name, "alpha");
            assert_eq!(c.fields[1].ty, "f64");
        }
        _ => panic!("expected a type declaration"),
    }
}

#[test]
fn extras_and_serde_helper() {
    let spec = user_spec();
    assert_eq!(calculate_extras(&spec), Extras { date_serialization: false });
    assert!(write_serde_module(&calculate_extras(&spec)).is_none());
    let mut dated = user_spec();
    dated.models[0].fields.push(prop("created", TypeRef::DateTime));
    let e = calculate_extras(&dated);
    assert!(e.date_serialization);
    let f = write_serde_module(&e).unwrap();
    assert!(matches!(&f.items[0], Item::Lit(l) if l.0 == DATE_HELPER));
    let lib = make_lib_rs(&e);
    assert_eq!(lib.items.len(), 6);
}

#[test]
fn entrypoint_override_respected() {
    let file = make_lib_rs(&Extras { date_serialization: false });
    let existing = "old\n// libninja: after\npub fn default_http_client() -> Client { todo() }\n";
    let mut m = Modified::new();
    let out = write_lib_rs("out/src/lib.rs", file, existing, &mut m).unwrap();
    assert!(m.contains("out/src/lib.rs"));
    let (generated, kept) = out.split_once("libninja: after").unwrap();
    assert!(!generated.contains("default_http_client"));
    assert!(generated.contains("pub use model::*;"));
    assert_eq!(kept, "\npub fn default_http_client() -> Client { todo() }\n");
}

#[test]
fn entrypoint_without_override_keeps_client() {
    let file = make_lib_rs(&Extras { date_serialization: false });
    let mut m = Modified::new();
    let out = write_lib_rs("out/src/lib.rs", file, "", &mut m).unwrap();
    assert!(out.contains("pub fn default_http_client() -> client::Client {\nclient::Client::default()\n}\n"));
    // a mention before the marker is not the hand-written region
    let file = make_lib_rs(&Extras { date_serialization: false });
    let existing = "default_http_client\n// libninja: after\n";
    let out = write_lib_rs("out/src/lib.rs", file, existing, &mut m).unwrap();
    assert!(out.contains("pub fn default_http_client()"));
}

#[test]
fn source_paths() {
    assert_eq!(source_path("dest", "lib"), "dest/src/lib.rs");
}

#[test]
fn provider_registry() {
    assert_eq!(provider_of("sendgrid"), Some(Provider::Sendgrid));
    assert_eq!(provider_of("recurly"), Some(Provider::Recurly));
    assert_eq!(provider_of("openai"), Some(Provider::Openai));
    assert_eq!(provider_of("stripe"), None);
}
