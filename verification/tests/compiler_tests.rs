use idea_parser::compiler::Compiler;
use idea_parser::error::SchemaError;
use idea_parser::parser::{AstNode, ColumnDefinition};
use idea_parser::value::Value;

fn section_entry<'a>(m: &'a [(String, Value)], k: &str) -> Option<&'a Value> {
    m.iter().find(|p| p.0 == k).map(|p| &p.1)
}

#[test]
fn test_compile_simple_enum() {
    let compiler = Compiler::new();

    let variants = vec![
        ("ACTIVE".to_string(), Value::Str("Active".to_string())),
        ("INACTIVE".to_string(), Value::Str("Inactive".to_string())),
    ];

    let enum_node = AstNode::Enum { name: "Status".to_string(), variants, start: 0, end: 50 };

    let schema_node = AstNode::Schema { body: vec![enum_node], start: 0, end: 50 };

    let result = compiler.compile_schema(&schema_node, false);
    assert!(result.is_ok());

    let schema = result.unwrap();
    assert!(schema.enums.is_some());

    let enums = schema.enums.unwrap();
    let status_enum = &enums.iter().find(|p| p.0 == "Status").expect("Status enum missing").1;
    assert!(status_enum.iter().any(|p| p.0 == "ACTIVE"));
    assert!(status_enum.iter().any(|p| p.0 == "INACTIVE"));
}

#[test]
fn test_compile_simple_model() {
    let compiler = Compiler::new();

    let columns = vec![
        (
            "id".to_string(),
            ColumnDefinition {
                column_type: "String".to_string(),
                required: true,
                multiple: false,
                attributes: Vec::new(),
            },
        ),
        (
            "name".to_string(),
            ColumnDefinition {
                column_type: "String".to_string(),
                required: false,
                multiple: false,
                attributes: Vec::new(),
            },
        ),
    ];

    let model_node = AstNode::Model {
        name: "User".to_string(),
        mutable: false,
        attributes: Vec::new(),
        columns,
        start: 0,
        end: 100,
    };

    let schema_node = AstNode::Schema { body: vec![model_node], start: 0, end: 100 };

    let result = compiler.compile_schema(&schema_node, false);
    assert!(result.is_ok());

    let schema = result.unwrap();
    assert!(schema.model.is_some());

    let models = schema.model.unwrap();
    assert!(models.iter().any(|p| p.0 == "User"));
}

#[test]
fn test_compile_with_prop_references() {
    let compiler = Compiler::new();

    // Create a prop definition
    let prop_config = vec![("type".to_string(), Value::Str("text".to_string()))];

    let prop_node = AstNode::Prop { name: "Text".to_string(), config: prop_config, start: 0, end: 30 };

    // Create a model that references the prop
    let column_attributes = vec![("field.input".to_string(), Value::Str("${Text}".to_string()))];

    let columns = vec![
        (
            "name".to_string(),
            ColumnDefinition {
                column_type: "String".to_string(),
                required: true,
                multiple: false,
                attributes: column_attributes,
            },
        ),
    ];

    let model_node = AstNode::Model {
        name: "User".to_string(),
        mutable: false,
        attributes: Vec::new(),
        columns,
        start: 31,
        end: 100,
    };

    let schema_node = AstNode::Schema { body: vec![prop_node, model_node], start: 0, end: 100 };

    // Test with finalize=true (should resolve references)
    let result = compiler.compile_final(&schema_node);
    assert!(result.is_ok());

    let final_schema = result.unwrap();

    // Prop section should be removed in final schema
    assert!(final_schema.model.is_some());

    // The reference is resolved in the final output: the model's first
    // column carries the prop's configuration under "field.input".
    let models = final_schema.model.unwrap();
    let user = section_entry(&models, "User").expect("User model missing");
    if let Value::Obj(record) = user {
        let columns_val = section_entry(record, "columns").expect("columns missing");
        if let Value::Arr(cols) = columns_val {
            if let Value::Obj(col0) = &cols[0] {
                let attrs = section_entry(col0, "attributes").expect("attributes missing");
                if let Value::Obj(attrs_map) = attrs {
                    let resolved = section_entry(attrs_map, "field.input").expect("attribute missing");
                    if let Value::Obj(prop_obj) = resolved {
                        assert!(
                            matches!(section_entry(prop_obj, "type").unwrap(), Value::Str(s) if s == "text")
                        );
                    } else {
                        panic!("Expected resolved prop object");
                    }
                } else {
                    panic!("Expected attributes object");
                }
            } else {
                panic!("Expected column object");
            }
        } else {
            panic!("Expected columns array");
        }
    } else {
        panic!("Expected model record object");
    }
}

#[test]
fn compile_rejects_non_schema_root() {
    let compiler = Compiler::new();
    let node = AstNode::Use { path: "./a".to_string(), start: 0, end: 8 };
    assert!(matches!(
        compiler.compile_schema(&node, false),
        Err(SchemaError::ExpectedSchemaRoot)
    ));
    assert!(matches!(compiler.compile_final(&node), Err(SchemaError::ExpectedSchemaRoot)));
}

#[test]
fn compile_value_is_identity_without_references() {
    // Resolution leaves a sentinel-free tree unchanged, even in finalize
    // mode with empty tables.
    let compiler = Compiler::new();
    let value = Value::Obj(vec![
        ("a".to_string(), Value::Num("1".to_string())),
        ("b".to_string(), Value::Arr(vec![Value::Null, Value::Bool(true)])),
        ("c".to_string(), Value::Str("plain".to_string())),
    ]);
    let resolved = compiler.compile_value(&value, true).unwrap();
    if let Value::Obj(entries) = resolved {
        assert_eq!(entries.len(), 3);
        assert!(matches!(&entries[0].1, Value::Num(s) if s == "1"));
        if let Value::Arr(items) = &entries[1].1 {
            assert!(matches!(items[0], Value::Null));
            assert!(matches!(items[1], Value::Bool(true)));
        } else {
            panic!("Expected array");
        }
        assert!(matches!(&entries[2].1, Value::Str(s) if s == "plain"));
    } else {
        panic!("Expected object");
    }
}

#[test]
fn compile_value_unknown_reference_names_it() {
    let compiler = Compiler::new();
    let value = Value::Str("${Nowhere}".to_string());
    match compiler.compile_value(&value, true) {
        Err(SchemaError::UnknownReference { name }) => assert_eq!(name, "Nowhere"),
        _ => panic!("Expected unknown reference error"),
    }
}

#[test]
fn compile_value_preserve_keeps_reference() {
    let compiler = Compiler::new();
    let value = Value::Str("${Kept}".to_string());
    match compiler.compile_value(&value, false) {
        Ok(Value::Str(s)) => assert_eq!(s, "${Kept}"),
        _ => panic!("Expected the sentinel unchanged"),
    }
}

#[test]
fn compile_schema_finalize_drops_use_section() {
    let compiler = Compiler::new();
    let schema_node = AstNode::Schema {
        body: vec![AstNode::Use { path: "./a".to_string(), start: 0, end: 8 }],
        start: 0,
        end: 8,
    };
    let preserved = compiler.compile_schema(&schema_node, false).unwrap();
    assert_eq!(preserved.uses, Some(vec!["./a".to_string()]));
    let finalized = compiler.compile_schema(&schema_node, true).unwrap();
    assert!(finalized.uses.is_none());
}
