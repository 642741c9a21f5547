use idea_parser::error::SchemaError;
use idea_parser::lexer::tokenize;
use idea_parser::parser::{AstNode, ColumnDefinition, SchemaParser};
use idea_parser::value::Value;

fn parser_for(code: &str) -> SchemaParser {
    SchemaParser::new(tokenize(code).unwrap(), Vec::new())
}

fn config_entry<'a>(m: &'a [(String, Value)], k: &str) -> Option<&'a Value> {
    m.iter().find(|p| p.0 == k).map(|p| &p.1)
}

fn column_entry<'a>(m: &'a [(String, ColumnDefinition)], k: &str) -> Option<&'a ColumnDefinition> {
    m.iter().find(|p| p.0 == k).map(|p| &p.1)
}

#[test]
fn test_parse_simple_enum() {
    let code = r#"enum Status { ACTIVE "Active" INACTIVE "Inactive" }"#;
    let mut parser = parser_for(code);

    let result = parser.parse_enum();
    assert!(result.is_ok());

    if let Ok(AstNode::Enum { name, variants, .. }) = result {
        assert_eq!(name, "Status");
        assert_eq!(variants.len(), 2);
        assert!(config_entry(&variants, "ACTIVE").is_some());
        assert!(config_entry(&variants, "INACTIVE").is_some());
    } else {
        panic!("Expected enum node");
    }
}

#[test]
fn test_parse_simple_model() {
    let code = r#"model User { id String name String? }"#;
    let mut parser = parser_for(code);

    let result = parser.parse_model();
    assert!(result.is_ok());

    if let Ok(AstNode::Model { name, columns, .. }) = result {
        assert_eq!(name, "User");
        assert_eq!(columns.len(), 2);
        assert!(column_entry(&columns, "id").is_some());
        assert!(column_entry(&columns, "name").is_some());

        // Check that 'id' is required and 'name' is optional
        assert!(column_entry(&columns, "id").unwrap().required);
        assert!(!column_entry(&columns, "name").unwrap().required);
    } else {
        panic!("Expected model node");
    }
}

#[test]
fn test_parse_use_statement() {
    let code = r#"use "./another.idea""#;
    let mut parser = parser_for(code);

    let result = parser.parse_use();
    assert!(result.is_ok());

    if let Ok(AstNode::Use { path, .. }) = result {
        assert_eq!(path, "./another.idea");
    } else {
        panic!("Expected use node");
    }
}

#[test]
fn test_parse_env_function() {
    let env = vec![("TEST_VAR".to_string(), "test_value".to_string())];

    let code = r#"plugin "test" { url env(TEST_VAR) }"#;
    let mut parser = SchemaParser::new(tokenize(code).unwrap(), env);

    let result = parser.parse_plugin();
    assert!(result.is_ok());

    if let Ok(AstNode::Plugin { config, .. }) = result {
        if let Some(url_value) = config_entry(&config, "url") {
            if let Value::Str(url) = url_value {
                assert_eq!(url, "test_value");
            } else {
                panic!("Expected string value for url");
            }
        } else {
            panic!("Expected url key in config");
        }
    } else {
        panic!("Expected plugin node");
    }
}

#[test]
fn parse_column_type_modifiers() {
    // `Foo?` is optional, `Foo[]` is an array, `Foo[]?` is an optional array.
    let code = r#"model M { a String? b String[] c String[]? d String }"#;
    let mut parser = parser_for(code);
    let result = parser.parse_model().unwrap();

    if let AstNode::Model { columns, .. } = result {
        let a = column_entry(&columns, "a").unwrap();
        assert!(!a.required && !a.multiple);
        let b = column_entry(&columns, "b").unwrap();
        assert!(b.required && b.multiple);
        let c = column_entry(&columns, "c").unwrap();
        assert!(!c.required && c.multiple);
        let d = column_entry(&columns, "d").unwrap();
        assert!(d.required && !d.multiple);
        assert_eq!(a.column_type, "String");
    } else {
        panic!("Expected model node");
    }
}

#[test]
fn parse_rejects_question_before_brackets() {
    // The array marker must come before the optional marker: `Foo?[]` leaves
    // the `[` standing where a column name is expected.
    let mut parser = parser_for(r#"model M { a Foo?[] }"#);
    assert!(parser.parse_model().is_err());
}

#[test]
fn parse_rejects_unclosed_array_modifier() {
    let mut parser = parser_for(r#"model M { a Foo[3] }"#);
    assert!(parser.parse_model().is_err());
}

#[test]
fn parse_type_mutability_marker() {
    // A trailing `!` after the name makes the declaration non-mergeable.
    let mut bang = parser_for("type Foo! {}");
    if let Ok(AstNode::Type { mutable, .. }) = bang.parse_type() {
        assert!(!mutable);
    } else {
        panic!("Expected type node");
    }

    let mut plain = parser_for("type Foo {}");
    if let Ok(AstNode::Type { mutable, .. }) = plain.parse_type() {
        assert!(mutable);
    } else {
        panic!("Expected type node");
    }
}

#[test]
fn parse_dotted_attribute_name() {
    let code = r#"model User { name String @field.input(Text) }"#;
    let mut parser = parser_for(code);
    if let Ok(AstNode::Model { columns, .. }) = parser.parse_model() {
        let name_col = column_entry(&columns, "name").unwrap();
        let attr = config_entry(&name_col.attributes, "field.input").unwrap();
        if let Value::Arr(params) = attr {
            assert_eq!(params.len(), 1);
            assert!(matches!(&params[0], Value::Str(s) if s == "${Text}"));
        } else {
            panic!("Expected attribute parameter array");
        }
    } else {
        panic!("Expected model node");
    }
}

#[test]
fn parse_enum_duplicate_key_keeps_later_value() {
    let code = r#"enum Status { A "first" A "second" }"#;
    let mut parser = parser_for(code);
    if let Ok(AstNode::Enum { variants, .. }) = parser.parse_enum() {
        assert_eq!(variants.len(), 1);
        assert!(matches!(config_entry(&variants, "A").unwrap(), Value::Str(s) if s == "second"));
    } else {
        panic!("Expected enum node");
    }
}

#[test]
fn parse_object_accepts_keyword_keys() {
    let code = r#"plugin "p" { type "adapter" model "row" }"#;
    let mut parser = parser_for(code);
    if let Ok(AstNode::Plugin { config, .. }) = parser.parse_plugin() {
        assert!(matches!(config_entry(&config, "type").unwrap(), Value::Str(s) if s == "adapter"));
        assert!(matches!(config_entry(&config, "model").unwrap(), Value::Str(s) if s == "row"));
    } else {
        panic!("Expected plugin node");
    }
}

#[test]
fn parse_scalar_values() {
    let code = r#"plugin "p" { port 8080 ratio 3.5 on true off false nothing null items ["a" 1] }"#;
    let mut parser = parser_for(code);
    if let Ok(AstNode::Plugin { config, .. }) = parser.parse_plugin() {
        assert!(matches!(config_entry(&config, "port").unwrap(), Value::Num(s) if s == "8080"));
        assert!(matches!(config_entry(&config, "ratio").unwrap(), Value::Num(s) if s == "3.5"));
        assert!(matches!(config_entry(&config, "on").unwrap(), Value::Bool(true)));
        assert!(matches!(config_entry(&config, "off").unwrap(), Value::Bool(false)));
        assert!(matches!(config_entry(&config, "nothing").unwrap(), Value::Null));
        if let Value::Arr(items) = config_entry(&config, "items").unwrap() {
            assert_eq!(items.len(), 2);
            assert!(matches!(&items[0], Value::Str(s) if s == "a"));
            assert!(matches!(&items[1], Value::Num(s) if s == "1"));
        } else {
            panic!("Expected array value");
        }
    } else {
        panic!("Expected plugin node");
    }
}

#[test]
fn parse_declaration_keyword_required() {
    let mut parser = parser_for("widget Foo {}");
    assert!(matches!(
        parser.parse_schema(),
        Err(SchemaError::ExpectedDeclaration { .. })
    ));
}

#[test]
fn parse_unterminated_enum_body() {
    let mut parser = parser_for("enum Status {");
    assert!(matches!(parser.parse_schema(), Err(SchemaError::UnexpectedEnd { .. })));
}

#[test]
fn parse_missing_plugin_path() {
    let mut parser = parser_for("plugin { }");
    assert!(matches!(
        parser.parse_schema(),
        Err(SchemaError::UnexpectedToken { .. })
    ));
}
