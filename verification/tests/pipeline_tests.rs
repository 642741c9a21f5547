use idea_parser::error::SchemaError;
use idea_parser::value::Value;
use idea_parser::{final_schema, parse};

fn no_env() -> Vec<(String, String)> {
    Vec::new()
}

fn map_entry<'a>(m: &'a [(String, Value)], k: &str) -> &'a Value {
    &m.iter().find(|p| p.0 == k).expect("missing key").1
}

fn obj_field<'a>(v: &'a Value, k: &str) -> &'a Value {
    match v {
        Value::Obj(m) => map_entry(m, k),
        _ => panic!("not an object"),
    }
}

fn str_of(v: &Value) -> &str {
    match v {
        Value::Str(s) => s,
        _ => panic!("not a string"),
    }
}

#[test]
fn test_env_variable_parsing() {
    let env = vec![(
        "TEST_DATABASE_URL".to_string(),
        "postgresql://localhost:5432/test".to_string(),
    )];

    let schema_code = r#"
plugin "./custom-plugin" {
  provider "custom-client-js"
  url env(TEST_DATABASE_URL)
  previewFeatures ["fullTextSearch"]
}
"#;

    let result = parse(schema_code, env);
    assert!(result.is_ok());

    let schema = result.unwrap();

    // Check if the environment variable was resolved
    let plugin = schema.plugin.expect("plugin section missing");
    let custom_plugin = map_entry(&plugin, "./custom-plugin");
    let url = obj_field(custom_plugin, "url");

    assert_eq!(str_of(url), "postgresql://localhost:5432/test");
}

#[test]
fn env_unset_variable_is_empty_string() {
    let code = r#"plugin "p" { url env(UNSET_VAR) }"#;
    let schema = parse(code, no_env()).unwrap();
    let plugin = schema.plugin.unwrap();
    let url = obj_field(map_entry(&plugin, "p"), "url");
    assert_eq!(str_of(url), "");
}

#[test]
fn plugin_env_value_from_environment() {
    let env = vec![("DB_URL".to_string(), "foo".to_string())];
    let code = r#"plugin "./p" { url env(DB_URL) }"#;
    let schema = parse(code, env).unwrap();
    let plugin = schema.plugin.unwrap();
    assert_eq!(str_of(obj_field(map_entry(&plugin, "./p"), "url")), "foo");
}

#[test]
fn enum_output_keeps_variants_in_order() {
    let code = r#"enum Status { ACTIVE "Active" INACTIVE "Inactive" }"#;
    let schema = parse(code, no_env()).unwrap();
    let enums = schema.enums.unwrap();
    let status = &enums.iter().find(|p| p.0 == "Status").unwrap().1;
    assert_eq!(status.len(), 2);
    assert_eq!(status[0].0, "ACTIVE");
    assert_eq!(str_of(&status[0].1), "Active");
    assert_eq!(status[1].0, "INACTIVE");
    assert_eq!(str_of(&status[1].1), "Inactive");
}

#[test]
fn model_columns_carry_flags_in_order() {
    let code = r#"model User { id String name String? }"#;
    let schema = parse(code, no_env()).unwrap();
    let models = schema.model.unwrap();
    let user = map_entry(&models, "User");
    assert_eq!(str_of(obj_field(user, "name")), "User");
    assert!(matches!(obj_field(user, "mutable"), Value::Bool(true)));
    if let Value::Arr(cols) = obj_field(user, "columns") {
        assert_eq!(cols.len(), 2);
        assert_eq!(str_of(obj_field(&cols[0], "name")), "id");
        assert_eq!(str_of(obj_field(&cols[0], "type")), "String");
        assert!(matches!(obj_field(&cols[0], "required"), Value::Bool(true)));
        assert!(matches!(obj_field(&cols[0], "multiple"), Value::Bool(false)));
        assert_eq!(str_of(obj_field(&cols[1], "name")), "name");
        assert!(matches!(obj_field(&cols[1], "required"), Value::Bool(false)));
        assert!(matches!(obj_field(&cols[1], "multiple"), Value::Bool(false)));
    } else {
        panic!("Expected columns array");
    }
}

#[test]
fn type_mutability_in_output() {
    let schema = parse("type Foo! {}\ntype Bar {}", no_env()).unwrap();
    let types = schema.types.unwrap();
    assert!(matches!(obj_field(map_entry(&types, "Foo"), "mutable"), Value::Bool(false)));
    assert!(matches!(obj_field(map_entry(&types, "Bar"), "mutable"), Value::Bool(true)));
}

#[test]
fn preserve_mode_keeps_sentinels_and_sections() {
    let code = "use \"./other.idea\"\nprop Text { type \"text\" }\nmodel User { name String @field.input(Text) }";
    let schema = parse(code, no_env()).unwrap();

    // The use and prop sections are present, and the reference stays as
    // written.
    assert_eq!(schema.uses.as_ref().unwrap().len(), 1);
    assert_eq!(schema.uses.as_ref().unwrap()[0], "./other.idea");
    assert!(schema.prop.is_some());

    let models = schema.model.unwrap();
    let user = map_entry(&models, "User");
    if let Value::Arr(cols) = obj_field(user, "columns") {
        let attr = obj_field(obj_field(&cols[0], "attributes"), "field.input");
        if let Value::Arr(params) = attr {
            assert_eq!(str_of(&params[0]), "${Text}");
        } else {
            panic!("Expected parameter array");
        }
    } else {
        panic!("Expected columns array");
    }
}

#[test]
fn finalize_resolves_prop_reference() {
    let code = "prop Text { type \"text\" }\nmodel User { name String @field.input(Text) }";
    let schema = final_schema(code, no_env()).unwrap();
    let models = schema.model.unwrap();
    let user = map_entry(&models, "User");
    if let Value::Arr(cols) = obj_field(user, "columns") {
        let attr = obj_field(obj_field(&cols[0], "attributes"), "field.input");
        if let Value::Arr(params) = attr {
            // The sentinel was replaced wholesale by the prop's object.
            assert_eq!(str_of(obj_field(&params[0], "type")), "text");
        } else {
            panic!("Expected parameter array");
        }
    } else {
        panic!("Expected columns array");
    }
}

#[test]
fn finalize_unknown_reference_names_it() {
    let code = "model M { a String @x(Missing) }";
    match final_schema(code, no_env()) {
        Err(SchemaError::UnknownReference { name }) => assert_eq!(name, "Missing"),
        _ => panic!("Expected unknown reference error"),
    }
}

#[test]
fn finalize_forward_reference_fails() {
    // T exists, but is declared after the model that references it: the
    // global table is filled in source order, so the reference fails.
    let code = "model M @x(T) {}\ntype T {}";
    match final_schema(code, no_env()) {
        Err(SchemaError::UnknownReference { name }) => assert_eq!(name, "T"),
        _ => panic!("Expected unknown reference error"),
    }
}

#[test]
fn finalize_backward_reference_resolves() {
    let code = "type T {}\nmodel M @x(T) {}";
    let schema = final_schema(code, no_env()).unwrap();
    let models = schema.model.unwrap();
    let m = map_entry(&models, "M");
    if let Value::Arr(params) = obj_field(obj_field(m, "attributes"), "x") {
        // The reference resolved to T's whole record.
        assert_eq!(str_of(obj_field(&params[0], "name")), "T");
    } else {
        panic!("Expected parameter array");
    }
}

#[test]
fn finalize_enum_reference_resolves() {
    let code = "enum Status { ACTIVE \"Active\" }\nmodel M @uses(Status) {}";
    let schema = final_schema(code, no_env()).unwrap();
    let models = schema.model.unwrap();
    let m = map_entry(&models, "M");
    if let Value::Arr(params) = obj_field(obj_field(m, "attributes"), "uses") {
        assert_eq!(str_of(obj_field(&params[0], "ACTIVE")), "Active");
    } else {
        panic!("Expected parameter array");
    }
}

#[test]
fn plugin_bodies_are_never_resolved() {
    // A sentinel inside a plugin body survives even finalize mode.
    let code = "prop Text { type \"text\" }\nplugin \"p\" { ref Text }";
    let schema = final_schema(code, no_env()).unwrap();
    let plugin = schema.plugin.unwrap();
    assert_eq!(str_of(obj_field(map_entry(&plugin, "p"), "ref")), "${Text}");
}

#[test]
fn use_paths_kept_in_order_and_never_opened() {
    let code = "use \"./b.idea\"\nuse \"./a.idea\"";
    let schema = parse(code, no_env()).unwrap();
    let uses = schema.uses.unwrap();
    assert_eq!(uses, vec!["./b.idea".to_string(), "./a.idea".to_string()]);
}

#[test]
fn empty_source_has_no_sections() {
    let schema = parse("", no_env()).unwrap();
    assert!(schema.plugin.is_none());
    assert!(schema.uses.is_none());
    assert!(schema.prop.is_none());
    assert!(schema.enums.is_none());
    assert!(schema.types.is_none());
    assert!(schema.model.is_none());
}

#[test]
fn duplicate_declaration_keeps_later_one() {
    let code = "enum E { A \"one\" }\nenum E { A \"two\" }";
    let schema = parse(code, no_env()).unwrap();
    let enums = schema.enums.unwrap();
    assert_eq!(enums.len(), 1);
    let e = &enums.iter().find(|p| p.0 == "E").unwrap().1;
    assert_eq!(str_of(map_entry(e, "A")), "two");
}

#[test]
fn error_message_names_unknown_reference() {
    let code = "model M { a String @x(Missing) }";
    let err = final_schema(code, no_env()).unwrap_err();
    assert_eq!(err.message(), "Unknown reference: Missing");
    assert!(err.offset().is_none());
}

#[test]
fn lex_error_reaches_pipeline_callers() {
    assert!(matches!(
        parse("model M { a \"oops }", no_env()),
        Err(SchemaError::UnterminatedString { .. })
    ));
}

#[test]
fn bare_env_identifier_is_sentinel() {
    // Only `env` directly followed by `(` is an environment lookup; a bare
    // `env` identifier is a reference like any other.
    let env = vec![("env".to_string(), "oops".to_string())];
    let schema = parse(r#"plugin "p" { kind env }"#, env).unwrap();
    let plugin = schema.plugin.unwrap();
    assert_eq!(str_of(obj_field(map_entry(&plugin, "p"), "kind")), "${env}");
}

#[test]
fn error_message_names_expected_and_found() {
    let err = parse("plugin 42", no_env()).unwrap_err();
    match &err {
        SchemaError::UnexpectedToken { expected, found, offset } => {
            assert_eq!(expected, "plugin path string");
            assert_eq!(found, "a number literal");
            assert_eq!(*offset, 7);
        }
        _ => panic!("Expected a wrong-token error"),
    }
    assert_eq!(err.message(), "Expected plugin path string, but found a number literal");
}
