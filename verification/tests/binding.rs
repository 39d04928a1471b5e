use tactical::json::{Json, JsonKind, Member};
use tactical::schema::{Property, PropertyKind};
use tactical::standard::{node_properties, BindError, PropertyValue};

fn text(text: &str) -> Json {
    Json::Text(text.to_string())
}

fn pair(name: &str, value: Json) -> Json {
    Json::Record(vec![
        Member { key: "name".to_string(), value: text(name) },
        Member { key: "value".to_string(), value },
    ])
}

fn record(pairs: Vec<Json>) -> Json {
    Json::Record(vec![
        Member { key: "type".to_string(), value: text("Anything") },
        Member { key: "properties".to_string(), value: Json::List(pairs) },
    ])
}

fn string(name: &str, default: Option<&str>) -> Property {
    Property::String { name: name.to_string(), default: default.map(str::to_string) }
}

fn number(name: &str, default: Option<i64>, min: Option<i64>, max: Option<i64>) -> Property {
    Property::Number { name: name.to_string(), default, max, min }
}

fn choice(name: &str, default: Option<&str>, values: Option<&[&str]>) -> Property {
    Property::Enum {
        name: name.to_string(),
        default: default.map(str::to_string),
        values: values.map(|values| values.iter().map(|value| value.to_string()).collect()),
    }
}

#[test]
fn values_come_in_the_order_of_the_declarations() {
    let shape = vec![
        string("label", None),
        number("speed", None, None, None),
        Property::Bool { name: "loud".to_string(), default: None },
        choice("mode", None, Some(&["walk", "run"])),
    ];
    let given = record(vec![
        pair("mode", text("run")),
        pair("loud", Json::Bool(true)),
        pair("speed", Json::Number(Some(-4))),
        pair("label", text("go")),
    ]);
    assert_eq!(
        node_properties(&given, &shape).unwrap(),
        vec![
            PropertyValue::Text("go".to_string()),
            PropertyValue::Number(-4),
            PropertyValue::Bool(true),
            PropertyValue::Text("run".to_string()),
        ]
    );
}

#[test]
fn the_last_pair_of_a_name_wins() {
    let shape = vec![string("comment", None)];
    let given = record(vec![pair("comment", text("a")), pair("other", text("x")), pair("comment", text("b"))]);
    assert_eq!(node_properties(&given, &shape).unwrap(), vec![PropertyValue::Text("b".to_string())]);
    let given = record(vec![pair("comment", text("a")), pair("comment", Json::Null)]);
    assert_eq!(
        node_properties(&given, &shape).unwrap_err(),
        BindError::Mismatch { name: "comment".to_string(), expected: PropertyKind::String, found: JsonKind::Null }
    );
}

#[test]
fn an_absent_property_takes_its_default() {
    let shape = vec![
        string("label", Some("none")),
        number("speed", Some(2), Some(5), Some(9)),
        Property::Bool { name: "loud".to_string(), default: Some(false) },
        choice("mode", Some("fly"), Some(&["walk", "run"])),
    ];
    assert_eq!(
        node_properties(&record(vec![]), &shape).unwrap(),
        vec![
            PropertyValue::Text("none".to_string()),
            PropertyValue::Number(2),
            PropertyValue::Bool(false),
            PropertyValue::Text("fly".to_string()),
        ]
    );
    let without_list = Json::Record(vec![]);
    assert_eq!(node_properties(&without_list, &shape).unwrap().len(), 4);
}

#[test]
fn an_absent_property_without_a_default_is_missing() {
    let shape = vec![string("label", Some("none")), number("speed", None, None, None), string("path", None)];
    assert_eq!(
        node_properties(&record(vec![pair("label", text("x"))]), &shape).unwrap_err(),
        BindError::Missing("speed".to_string())
    );
}

#[test]
fn a_value_of_another_kind_is_a_mismatch() {
    for (declaration, value, expected, found) in [
        (string("p", None), Json::Number(Some(1)), PropertyKind::String, JsonKind::Number),
        (number("p", None, None, None), text("1"), PropertyKind::Number, JsonKind::Text),
        (number("p", None, None, None), Json::Number(None), PropertyKind::Number, JsonKind::Number),
        (Property::Bool { name: "p".to_string(), default: Some(true) }, Json::List(vec![]), PropertyKind::Bool, JsonKind::List),
        (choice("p", None, None), Json::Record(vec![]), PropertyKind::Enum, JsonKind::Record),
        (choice("p", None, None), Json::Bool(false), PropertyKind::Enum, JsonKind::Bool),
    ] {
        assert_eq!(
            node_properties(&record(vec![pair("p", value)]), &vec![declaration]).unwrap_err(),
            BindError::Mismatch { name: "p".to_string(), expected, found }
        );
    }
}

#[test]
fn a_number_respects_its_bounds() {
    let bounded = vec![number("speed", None, Some(0), Some(10))];
    for inside in [0, 5, 10] {
        let given = record(vec![pair("speed", Json::Number(Some(inside)))]);
        assert_eq!(node_properties(&given, &bounded).unwrap(), vec![PropertyValue::Number(inside)]);
    }
    for outside in [-1, 11, i64::MIN, i64::MAX] {
        let given = record(vec![pair("speed", Json::Number(Some(outside)))]);
        assert_eq!(node_properties(&given, &bounded).unwrap_err(), BindError::OutOfRange("speed".to_string()));
    }
    let open = vec![number("speed", None, None, Some(10))];
    let given = record(vec![pair("speed", Json::Number(Some(i64::MIN)))]);
    assert_eq!(node_properties(&given, &open).unwrap(), vec![PropertyValue::Number(i64::MIN)]);
}

#[test]
fn a_choice_is_one_of_the_declared_values() {
    let shape = vec![choice("mode", None, Some(&["walk", "run"]))];
    let given = record(vec![pair("mode", text("walk"))]);
    assert_eq!(node_properties(&given, &shape).unwrap(), vec![PropertyValue::Text("walk".to_string())]);
    let given = record(vec![pair("mode", text("swim"))]);
    assert_eq!(node_properties(&given, &shape).unwrap_err(), BindError::NotAllowed("mode".to_string()));
    let free = vec![choice("mode", None, None)];
    assert_eq!(node_properties(&given, &free).unwrap(), vec![PropertyValue::Text("swim".to_string())]);
}

#[test]
fn the_first_declaration_that_fails_decides() {
    let shape = vec![string("a", None), number("b", None, None, None), string("c", None)];
    let given = record(vec![pair("a", text("x")), pair("b", text("y"))]);
    assert_eq!(
        node_properties(&given, &shape).unwrap_err(),
        BindError::Mismatch { name: "b".to_string(), expected: PropertyKind::Number, found: JsonKind::Text }
    );
}

#[test]
fn the_pairs_must_be_pairs() {
    let shape = vec![string("a", Some("x"))];
    let no_list = Json::Record(vec![Member { key: "properties".to_string(), value: Json::Null }]);
    assert_eq!(node_properties(&no_list, &shape).unwrap_err(), BindError::Malformed);
    let no_name = record(vec![Json::Record(vec![Member { key: "value".to_string(), value: text("x") }])]);
    assert_eq!(node_properties(&no_name, &shape).unwrap_err(), BindError::Malformed);
    let no_value = record(vec![Json::Record(vec![Member { key: "name".to_string(), value: text("a") }])]);
    assert_eq!(node_properties(&no_value, &shape).unwrap_err(), BindError::Malformed);
    let numbered = record(vec![pair("a", text("x")), Json::Number(Some(3))]);
    assert_eq!(node_properties(&numbered, &shape).unwrap_err(), BindError::Malformed);
}

#[test]
fn of_two_members_with_one_key_the_last_counts() {
    let twice = Json::Record(vec![
        Member { key: "properties".to_string(), value: Json::List(vec![pair("a", text("first"))]) },
        Member { key: "properties".to_string(), value: Json::List(vec![pair("a", text("second"))]) },
    ]);
    assert_eq!(
        node_properties(&twice, &vec![string("a", None)]).unwrap(),
        vec![PropertyValue::Text("second".to_string())]
    );
    assert_eq!(twice.kind(), JsonKind::Record);
    assert!(twice.member("absent").is_none());
    assert!(Json::Null.member("properties").is_none());
}
