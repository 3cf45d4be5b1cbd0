use llm_utils::FieldDescriptor;
use llm_utils::Json;
use llm_utils::SchemaError;
use llm_utils::TypeDescriptor;
use llm_utils::derive_schema;
use llm_utils::fix_value_schema;
use serde_json::Value;

fn field(name: &str, shape: TypeDescriptor) -> FieldDescriptor {
    FieldDescriptor { name: name.to_string(), shape }
}

fn primitive(name: &str) -> TypeDescriptor {
    TypeDescriptor::Primitive(name.to_string())
}

fn simple_struct() -> TypeDescriptor {
    TypeDescriptor::Object(vec![
        field("id", primitive("integer")),
        field("name", primitive("string")),
    ])
}

#[test]
fn test_get_type_schema_simple_struct() {
    let schema_result = derive_schema(&simple_struct(), &vec![]);

    assert!(
        schema_result.is_ok(),
        "Expected schema generation to succeed"
    );

    let schema_json = schema_result.unwrap();
    let schema_value: Value = serde_json::from_str(&schema_json).unwrap();

    assert!(
        schema_value.is_object(),
        "Expected schema to be a JSON object"
    );
    let properties = schema_value["properties"].as_object().unwrap();
    assert!(properties.contains_key("id"), "Schema should contain 'id'");
    assert!(
        properties.contains_key("name"),
        "Schema should contain 'name'"
    );
}

#[test]
fn test_get_type_schema_struct_with_value() {
    let descriptor = TypeDescriptor::Object(vec![field("data", TypeDescriptor::OpaqueValue)]);
    let schema_result = derive_schema(&descriptor, &vec![]);

    assert!(
        schema_result.is_ok(),
        "Expected schema generation to succeed"
    );

    let schema_json = schema_result.unwrap();
    let schema_value: Value = serde_json::from_str(&schema_json).unwrap();

    let data_schema = &schema_value["properties"]["data"];
    assert!(
        data_schema.is_object(),
        "Expected 'data' to be a JSON object"
    );
    assert_eq!(
        data_schema["type"].as_str(),
        Some("object"),
        "Expected 'data' field to be of type 'object'"
    );
}

#[test]
fn test_get_type_schema_removes_schema_and_title() {
    let schema_result = derive_schema(&simple_struct(), &vec![]);

    assert!(
        schema_result.is_ok(),
        "Expected schema generation to succeed"
    );

    let schema_json = schema_result.unwrap();
    let schema_value: Value = serde_json::from_str(&schema_json).unwrap();

    assert!(
        !schema_value.as_object().unwrap().contains_key("$schema"),
        "Schema should not contain '$schema'"
    );
    assert!(
        !schema_value.as_object().unwrap().contains_key("title"),
        "Schema should not contain 'title'"
    );
}

#[test]
fn test_get_type_schema_handles_nested_struct() {
    let descriptor = TypeDescriptor::Object(vec![
        field("info", TypeDescriptor::Ref("SimpleStruct".to_string())),
        field(
            "optional_field",
            TypeDescriptor::Optional(Box::new(primitive("string"))),
        ),
    ]);
    let defs = vec![("SimpleStruct".to_string(), simple_struct())];
    let schema_result = derive_schema(&descriptor, &defs);

    assert!(
        schema_result.is_ok(),
        "Expected schema generation to succeed"
    );

    let schema_json = schema_result.unwrap();
    let schema_value: Value = serde_json::from_str(&schema_json).unwrap();

    let info_schema = &schema_value["properties"]["info"];
    assert!(
        info_schema.is_object(),
        "Expected 'info' to be a JSON object"
    );

    assert!(
        info_schema.get("$ref").is_some(),
        "Expected 'info' to have a $ref to a definition"
    );

    let ref_path = info_schema["$ref"].as_str().unwrap();
    assert_eq!(ref_path, "#/definitions/SimpleStruct");

    let simple_struct_schema = &schema_value["definitions"]["SimpleStruct"];
    let simple_struct_properties = simple_struct_schema["properties"].as_object().unwrap();

    assert!(
        simple_struct_properties.contains_key("id"),
        "SimpleStruct schema should contain 'id'"
    );
    assert!(
        simple_struct_properties.contains_key("name"),
        "SimpleStruct schema should contain 'name'"
    );
}

#[test]
fn test_get_type_schema_pretty_printed_json() {
    let schema_result = derive_schema(&simple_struct(), &vec![]);

    assert!(
        schema_result.is_ok(),
        "Expected schema generation to succeed"
    );

    let schema_json = schema_result.unwrap();

    assert!(
        schema_json.contains('\n'),
        "Expected pretty-printed JSON with line breaks"
    );
    assert!(
        schema_json.contains("  "),
        "Expected pretty-printed JSON with indentation"
    );
}

#[test]
fn test_fix_value_schema_replaces_bool_true() {
    let mut schema = Json::Obj(vec![(
        "properties".to_string(),
        Json::Obj(vec![("test_property".to_string(), Json::Bool(true))]),
    )]);

    fix_value_schema(&mut schema);

    let Json::Obj(members) = &schema else {
        panic!("Expected object validation in schema, but none found");
    };
    let Json::Obj(properties) = &members[0].1 else {
        panic!("Expected object validation in schema, but none found");
    };
    let Json::Obj(subschema) = &properties[0].1 else {
        panic!("Expected Schema::Object, but found something else");
    };
    assert_eq!(properties[0].0, "test_property");
    assert_eq!(subschema[0].0, "type");
    let Json::Str(ty) = &subschema[0].1 else {
        panic!("Expected Schema::Object, but found something else");
    };
    assert_eq!(ty, "object");
}

#[test]
fn test_fix_value_schema_ignores_other_schemas() {
    let mut schema = Json::Obj(vec![(
        "properties".to_string(),
        Json::Obj(vec![(
            "test_property".to_string(),
            Json::Obj(vec![("type".to_string(), Json::Str("string".to_string()))]),
        )]),
    )]);

    fix_value_schema(&mut schema);

    let Json::Obj(members) = &schema else {
        panic!("Expected object validation in schema, but none found");
    };
    let Json::Obj(properties) = &members[0].1 else {
        panic!("Expected object validation in schema, but none found");
    };
    let Json::Obj(subschema) = &properties[0].1 else {
        panic!("Expected Schema::Object, but found something else");
    };
    assert_eq!(properties[0].0, "test_property");
    let Json::Str(ty) = &subschema[0].1 else {
        panic!("Expected Schema::Object, but found something else");
    };
    assert_eq!(ty, "string");
}

#[test]
fn test_fix_value_schema_handles_missing_properties() {
    let mut schema = Json::Obj(vec![("properties".to_string(), Json::Obj(vec![]))]);

    fix_value_schema(&mut schema);

    let Json::Obj(members) = &schema else {
        panic!("Expected object validation in schema, but none found");
    };
    let Json::Obj(properties) = &members[0].1 else {
        panic!("Expected object validation in schema, but none found");
    };
    assert!(properties.is_empty());
}

#[test]
fn test_fix_value_schema_handles_missing_object() {
    let mut schema = Json::Obj(vec![]);

    fix_value_schema(&mut schema);

    let Json::Obj(members) = &schema else {
        panic!("Expected an object schema");
    };
    assert!(members.is_empty());
}

#[test]
fn unresolved_reference_is_a_derivation_error() {
    let descriptor = TypeDescriptor::Object(vec![field(
        "info",
        TypeDescriptor::Ref("Missing".to_string()),
    )]);
    let result = derive_schema(&descriptor, &vec![]);
    assert!(matches!(result, Err(SchemaError::Derivation)));
}

#[test]
fn duplicate_definition_name_is_a_derivation_error() {
    let descriptor = TypeDescriptor::Object(vec![field(
        "info",
        TypeDescriptor::Ref("Shape".to_string()),
    )]);
    let defs = vec![
        ("Shape".to_string(), simple_struct()),
        ("Shape".to_string(), simple_struct()),
    ];
    let result = derive_schema(&descriptor, &defs);
    assert!(matches!(result, Err(SchemaError::Derivation)));
}

#[test]
fn duplicate_field_name_is_a_derivation_error() {
    let descriptor = TypeDescriptor::Object(vec![
        field("id", primitive("integer")),
        field("id", primitive("string")),
    ]);
    let result = derive_schema(&descriptor, &vec![]);
    assert!(matches!(result, Err(SchemaError::Derivation)));
}

#[test]
fn optional_fields_stay_out_of_required() {
    let descriptor = TypeDescriptor::Object(vec![
        field("id", primitive("integer")),
        field(
            "note",
            TypeDescriptor::Optional(Box::new(primitive("string"))),
        ),
    ]);
    let schema_json = derive_schema(&descriptor, &vec![]).unwrap();
    let schema_value: Value = serde_json::from_str(&schema_json).unwrap();
    let required = schema_value["required"].as_array().unwrap();
    assert_eq!(required.len(), 1);
    assert_eq!(required[0].as_str(), Some("id"));
    assert!(
        schema_value["properties"]
            .as_object()
            .unwrap()
            .contains_key("note")
    );
}

#[test]
fn field_names_are_escaped_in_the_output() {
    let descriptor = TypeDescriptor::Object(vec![field("we\"ird\nname", primitive("string"))]);
    let schema_json = derive_schema(&descriptor, &vec![]).unwrap();
    let schema_value: Value = serde_json::from_str(&schema_json).unwrap();
    assert!(
        schema_value["properties"]
            .as_object()
            .unwrap()
            .contains_key("we\"ird\nname")
    );
}

#[test]
fn same_descriptor_gives_byte_identical_output() {
    let a = derive_schema(&simple_struct(), &vec![]).unwrap();
    let b = derive_schema(&simple_struct(), &vec![]).unwrap();
    assert_eq!(a, b);
}

#[test]
fn control_characters_in_field_names_are_escaped() {
    let descriptor = TypeDescriptor::Object(vec![field("tab\there\u{1}", primitive("string"))]);
    let schema_json = derive_schema(&descriptor, &vec![]).unwrap();
    let schema_value: Value = serde_json::from_str(&schema_json).unwrap();
    assert!(
        schema_value["properties"]
            .as_object()
            .unwrap()
            .contains_key("tab\there\u{1}")
    );
}

#[test]
fn opaque_field_is_lowered_inside_a_definition_named_properties() {
    let descriptor = TypeDescriptor::Ref("properties".to_string());
    let defs = vec![(
        "properties".to_string(),
        TypeDescriptor::Object(vec![field("data", TypeDescriptor::OpaqueValue)]),
    )];
    let schema_json = derive_schema(&descriptor, &defs).unwrap();
    let schema_value: Value = serde_json::from_str(&schema_json).unwrap();
    let data_schema = &schema_value["definitions"]["properties"]["properties"]["data"];
    assert_eq!(
        data_schema["type"].as_str(),
        Some("object"),
        "Expected the opaque field inside the definition to be of type 'object'"
    );
}

#[test]
fn fix_value_schema_reaches_into_a_definition_named_properties() {
    let mut schema = Json::Obj(vec![(
        "definitions".to_string(),
        Json::Obj(vec![(
            "properties".to_string(),
            Json::Obj(vec![(
                "properties".to_string(),
                Json::Obj(vec![("data".to_string(), Json::Bool(true))]),
            )]),
        )]),
    )]);

    fix_value_schema(&mut schema);

    let Json::Obj(root) = &schema else {
        panic!("Expected an object schema");
    };
    let Json::Obj(definitions) = &root[0].1 else {
        panic!("Expected a definitions object");
    };
    let Json::Obj(entry) = &definitions[0].1 else {
        panic!("Expected the definition to stay an object schema");
    };
    let Json::Obj(properties) = &entry[0].1 else {
        panic!("Expected the definition's properties to stay an object");
    };
    let Json::Obj(data) = &properties[0].1 else {
        panic!("Expected the placeholder to be replaced by an object node");
    };
    assert_eq!(data[0].0, "type");
    let Json::Str(ty) = &data[0].1 else {
        panic!("Expected a type name");
    };
    assert_eq!(ty, "object");
}
