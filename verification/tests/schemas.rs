use tactical::generate::{compile, generate, place, precedes, Import, TypeSystem, Variant, HEADER};
use tactical::schema::{DefinitionKind, Property, Schema, SchemaError, SchemaPart};

const CATALOGUE: &str = r#"{
    "nodes": [
        {"name": "Sequence", "isComposite": true},
        {"name": "move_to", "module": "motion", "isComposite": false,
         "properties": [{"name": "Speed", "type": "number", "default": 3, "min": 0, "max": 10}]}
    ],
    "decorators": [{"name": "Invert"}],
    "services": [{"name": "Comment", "properties": [{"name": "Comment", "type": "string"}]}],
    "properties": [{"name": "label", "type": "enum", "values": ["a", "b"]}]
}"#;

fn variant(tag: &str, name: &str) -> Variant {
    Variant { tag: tag.to_string(), name: name.to_string() }
}

fn import(module: &str, name: &str) -> Import {
    Import { module: module.to_string(), name: name.to_string() }
}

fn with_nodes(nodes: &str) -> String {
    format!(r#"{{"nodes": {}, "decorators": [], "services": []}}"#, nodes)
}

fn with_declaration(declaration: &str) -> String {
    format!(r#"{{"nodes": [], "decorators": [{{"name": "d", "properties": [{}]}}], "services": []}}"#, declaration)
}

#[test]
fn a_schema_is_read_as_it_is_written() {
    let schema = Schema::from_string(CATALOGUE).unwrap();
    assert_eq!(schema.nodes.len(), 2);
    assert_eq!(schema.nodes[0].name, "Sequence");
    assert_eq!(schema.nodes[0].module, "standard");
    assert!(schema.nodes[0].is_composite);
    assert!(schema.nodes[0].properties.is_empty());
    assert_eq!(schema.nodes[1].name, "move_to");
    assert_eq!(schema.nodes[1].module, "motion");
    assert!(!schema.nodes[1].is_composite);
    match &schema.nodes[1].properties[0] {
        Property::Number { name, default, max, min } => {
            assert_eq!(name, "Speed");
            assert_eq!((*default, *max, *min), (Some(3), Some(10), Some(0)));
        }
        other => panic!("{:?}", other),
    }
    assert_eq!(schema.decorators.len(), 1);
    assert!(!schema.decorators[0].is_composite);
    assert_eq!(schema.services.len(), 1);
    match &schema.services[0].properties[0] {
        Property::String { name, default } => {
            assert_eq!(name, "Comment");
            assert!(default.is_none());
        }
        other => panic!("{:?}", other),
    }
    match &schema.properties[0] {
        Property::Enum { name, default, values } => {
            assert_eq!(name, "label");
            assert!(default.is_none());
            assert_eq!(values.as_ref().unwrap(), &vec!["a".to_string(), "b".to_string()]);
        }
        other => panic!("{:?}", other),
    }
}

#[test]
fn the_type_system_has_one_variant_for_each_definition() {
    let schema = Schema::from_string(CATALOGUE).unwrap();
    let system = compile(&schema);
    assert_eq!(
        system,
        TypeSystem {
            imports: vec![
                import("motion", "MoveTo"),
                import("standard", "Comment"),
                import("standard", "Invert"),
                import("standard", "Sequence"),
            ],
            nodes: vec![variant("Sequence", "Sequence"), variant("move_to", "MoveTo")],
            services: vec![variant("Comment", "Comment")],
            decorators: vec![variant("Invert", "Invert")],
        }
    );
}

#[test]
fn the_source_of_a_schema() {
    let schema = Schema::from_string(CATALOGUE).unwrap();
    let mut expected = String::from(HEADER);
    expected.push_str("use crate::motion::{\n\tMoveTo,\n};// motion\n\n");
    expected.push_str("use crate::standard::{\n\tComment,\n\tInvert,\n\tSequence,\n};// standard\n\n");
    expected.push_str("\n#[enum_dispatch(Node)]\n#[derive(Debug, Deserialize)]\n#[serde(tag = \"type\")]\npub enum Nodes {\n");
    expected.push_str("\t#[serde(alias = \"Sequence\",deserialize_with = \"node_properties\")]\n\tSequence,\n");
    expected.push_str("\t#[serde(alias = \"move_to\",deserialize_with = \"node_properties\")]\n\tMoveTo\n}\n");
    expected.push_str("// *** Services ***");
    expected.push_str("\n#[enum_dispatch(Service)]\n#[derive(Debug, Deserialize)]\n#[serde(tag = \"type\")]\npub enum Services {\n");
    expected.push_str("\t#[serde(alias = \"Comment\",deserialize_with = \"node_properties\")]\n\tComment\n}\n");
    expected.push_str("// *** Decorators ***");
    expected.push_str("\n#[enum_dispatch(Decorator)]\n#[derive(Debug, Deserialize)]\n#[serde(tag = \"type\")]\npub enum Decorators {\n");
    expected.push_str("\t#[serde(alias = \"Invert\",deserialize_with = \"node_properties\")]\n\tInvert\n}\n");
    assert_eq!(generate(&schema), expected);
}

#[test]
fn the_same_schema_gives_the_same_source() {
    let first = generate(&Schema::from_string(CATALOGUE).unwrap());
    let second = generate(&Schema::from_string(CATALOGUE).unwrap());
    assert_eq!(first, second);
    assert_eq!(compile(&Schema::from_string(CATALOGUE).unwrap()).render(), first);
}

#[test]
fn the_source_of_an_empty_schema() {
    let schema = Schema::from_string(r#"{"nodes": [], "decorators": [], "services": []}"#).unwrap();
    let mut expected = String::from(HEADER);
    expected.push_str("\n#[enum_dispatch(Node)]\n#[derive(Debug, Deserialize)]\n#[serde(tag = \"type\")]\npub enum Nodes {\n\n}\n");
    expected.push_str("// *** Services ***");
    expected.push_str("\n#[enum_dispatch(Service)]\n#[derive(Debug, Deserialize)]\n#[serde(tag = \"type\")]\npub enum Services {\n\n}\n");
    expected.push_str("// *** Decorators ***");
    expected.push_str("\n#[enum_dispatch(Decorator)]\n#[derive(Debug, Deserialize)]\n#[serde(tag = \"type\")]\npub enum Decorators {\n\n}\n");
    assert_eq!(generate(&schema), expected);
}

#[test]
fn a_variant_names_its_tag_and_its_name() {
    assert_eq!(
        variant("set alert-level", "SetAlertLevel").to_variant(),
        "\t#[serde(alias = \"set alert-level\",deserialize_with = \"node_properties\")]\n\tSetAlertLevel"
    );
}

#[test]
fn names_are_converted_by_their_words() {
    let schema = Schema::from_string(&with_nodes(
        r#"[{"name": "XMLHttpRequest", "isComposite": false}, {"name": "set alert-level", "is_composite": true}]"#,
    ))
    .unwrap();
    let system = compile(&schema);
    assert_eq!(
        system.nodes,
        vec![variant("XMLHttpRequest", "XmlHttpRequest"), variant("set alert-level", "SetAlertLevel")]
    );
    assert!(schema.nodes[1].is_composite);
}

#[test]
fn a_declaration_becomes_a_field() {
    let number = Property::Number { name: "MaxSpeed".to_string(), default: None, max: None, min: None };
    assert_eq!(number.to_member(), "\t#[serde(alias=\"MaxSpeed\")]\n\tmax_speed: isize");
    let text = Property::String { name: "Path".to_string(), default: None };
    assert_eq!(text.to_member(), "\t#[serde(alias=\"Path\")]\n\tpath: String");
    let flag = Property::Bool { name: "isLoud".to_string(), default: Some(true) };
    assert_eq!(flag.to_member(), "\t#[serde(alias=\"isLoud\")]\n\tis_loud: bool");
    let choice = Property::Enum { name: "mode".to_string(), default: None, values: None };
    assert_eq!(choice.to_member(), "\t#[serde(alias=\"mode\")]\n\tmode: String");
}

#[test]
fn imports_are_kept_in_order_and_once() {
    let mut imports = Vec::new();
    for (module, name) in [("standard", "Sequence"), ("motion", "Walk"), ("standard", "Comment"),
        ("standard", "Sequence"), ("motion", "Run"), ("arm", "Grab"), ("motion", "Walk")] {
        place(&mut imports, import(module, name));
    }
    assert_eq!(
        imports,
        vec![
            import("arm", "Grab"),
            import("motion", "Run"),
            import("motion", "Walk"),
            import("standard", "Comment"),
            import("standard", "Sequence"),
        ]
    );
}

#[test]
fn the_order_of_the_dictionary() {
    assert!(precedes("", "a"));
    assert!(!precedes("", ""));
    assert!(!precedes("a", ""));
    assert!(precedes("a", "b"));
    assert!(!precedes("b", "a"));
    assert!(precedes("ab", "abc"));
    assert!(!precedes("abc", "ab"));
    assert!(!precedes("abc", "abc"));
    assert!(precedes("Zebra", "apple"));
    assert!(precedes("z", "é"));
}

#[test]
fn a_text_that_is_no_json_is_no_schema() {
    assert!(matches!(Schema::from_string("nodes: []").unwrap_err(), SchemaError::Syntax(_)));
}

#[test]
fn the_lists_of_a_schema_are_required() {
    assert_eq!(Schema::from_string("[]").unwrap_err(), SchemaError::Malformed(SchemaPart::Record));
    assert_eq!(Schema::from_string("{}").unwrap_err(), SchemaError::Malformed(SchemaPart::Nodes));
    assert_eq!(
        Schema::from_string(r#"{"nodes": []}"#).unwrap_err(),
        SchemaError::Malformed(SchemaPart::Decorators)
    );
    assert_eq!(
        Schema::from_string(r#"{"nodes": [], "decorators": []}"#).unwrap_err(),
        SchemaError::Malformed(SchemaPart::Services)
    );
    assert_eq!(
        Schema::from_string(r#"{"nodes": [], "decorators": [], "services": [], "properties": 1}"#).unwrap_err(),
        SchemaError::Malformed(SchemaPart::Properties)
    );
}

#[test]
fn a_definition_must_be_well_formed() {
    for (nodes, part) in [
        (r#"[7]"#, SchemaPart::Record),
        (r#"[{"isComposite": true}]"#, SchemaPart::Name),
        (r#"[{"name": "a", "module": 3, "isComposite": true}]"#, SchemaPart::Module),
        (r#"[{"name": "a"}]"#, SchemaPart::Composite),
        (r#"[{"name": "a", "isComposite": "yes"}]"#, SchemaPart::Composite),
        (r#"[{"name": "a", "isComposite": true, "properties": {}}]"#, SchemaPart::Properties),
    ] {
        assert_eq!(Schema::from_string(&with_nodes(nodes)).unwrap_err(), SchemaError::Malformed(part));
    }
}

#[test]
fn a_declaration_must_be_well_formed() {
    for (declaration, part) in [
        (r#""speed""#, SchemaPart::Record),
        (r#"{"name": "a"}"#, SchemaPart::Type),
        (r#"{"type": "bool"}"#, SchemaPart::Name),
        (r#"{"name": "a", "type": "bool", "default": 1}"#, SchemaPart::Default),
        (r#"{"name": "a", "type": "string", "default": false}"#, SchemaPart::Default),
        (r#"{"name": "a", "type": "number", "default": 1.5}"#, SchemaPart::Default),
        (r#"{"name": "a", "type": "number", "max": "high"}"#, SchemaPart::Max),
        (r#"{"name": "a", "type": "number", "min": []}"#, SchemaPart::Min),
        (r#"{"name": "a", "type": "enum", "values": ["x", 2]}"#, SchemaPart::Values),
        (r#"{"name": "a", "type": "enum", "values": "x"}"#, SchemaPart::Values),
    ] {
        assert_eq!(Schema::from_string(&with_declaration(declaration)).unwrap_err(), SchemaError::Malformed(part));
    }
}

#[test]
fn an_unknown_kind_of_property_is_refused() {
    let text = with_declaration(r#"{"name": "a", "type": "colour"}"#);
    assert_eq!(Schema::from_string(&text).unwrap_err(), SchemaError::UnknownKind("colour".to_string()));
}

#[test]
fn the_kinds_of_property_are_named_in_either_case() {
    let text = with_declaration(
        r#"{"name": "a", "type": "String"}, {"name": "b", "type": "Number"},
           {"name": "c", "type": "Bool"}, {"name": "d", "type": "Enum"}"#,
    );
    let schema = Schema::from_string(&text).unwrap();
    let declared = &schema.decorators[0].properties;
    assert!(matches!(declared[0], Property::String { .. }));
    assert!(matches!(declared[1], Property::Number { .. }));
    assert!(matches!(declared[2], Property::Bool { .. }));
    assert!(matches!(declared[3], Property::Enum { .. }));
}

#[test]
fn two_definitions_of_one_kind_may_not_share_a_name() {
    let text = with_nodes(
        r#"[{"name": "a", "isComposite": true}, {"name": "b", "isComposite": true},
            {"name": "a", "isComposite": false}]"#,
    );
    assert_eq!(
        Schema::from_string(&text).unwrap_err(),
        SchemaError::DuplicateDefinition { kind: DefinitionKind::Node, name: "a".to_string() }
    );
    let text = r#"{"nodes": [], "decorators": [], "services": [{"name": "s"}, {"name": "s"}]}"#;
    assert_eq!(
        Schema::from_string(text).unwrap_err(),
        SchemaError::DuplicateDefinition { kind: DefinitionKind::Service, name: "s".to_string() }
    );
}

#[test]
fn definitions_of_two_kinds_may_share_a_name() {
    let text = r#"{"nodes": [{"name": "Success", "isComposite": false}],
        "decorators": [{"name": "Success"}], "services": [{"name": "Success"}]}"#;
    let system = compile(&Schema::from_string(text).unwrap());
    assert_eq!(system.imports, vec![import("standard", "Success")]);
    assert_eq!(system.nodes.len(), 1);
    assert_eq!(system.services.len(), 1);
    assert_eq!(system.decorators.len(), 1);
}

#[test]
fn two_declarations_of_one_definition_may_not_share_a_name() {
    let text = with_declaration(r#"{"name": "a", "type": "bool"}, {"name": "a", "type": "string"}"#);
    assert_eq!(Schema::from_string(&text).unwrap_err(), SchemaError::DuplicateProperty("a".to_string()));
}
