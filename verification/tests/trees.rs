use tactical::json::{read_json, Json, JsonKind, Member};
use tactical::owl_bt::{Decorators, Nodes, Services};
use tactical::schema::PropertyKind;
use tactical::standard::BindError;
use tactical::traits::Status;
use tactical::tree::{Kind, LoadError, Node, Part, Source, Tree};

const SUCCEEDS: &str = r#"{"type": "Sequence"}"#;
const FAILS: &str = r#"{"type": "Failure", "childNodes": [{"type": "Sequence"}]}"#;

fn composite(tag: &str, children: &[&str]) -> String {
    format!(r#"{{"type": "{}", "childNodes": [{}]}}"#, tag, children.join(", "))
}

fn noted(record: &str, note: &str) -> String {
    let body = record.trim().strip_prefix('{').unwrap();
    format!(
        r#"{{"services": [{{"type": "Comment", "properties": [{{"name": "comment", "value": "{}"}}]}}], {}"#,
        note, body
    )
}

fn source(path: &str, text: &str) -> Source {
    Source { path: path.to_string(), text: text.to_string() }
}

#[test]
fn a_tree_is_a_named_root() {
    let tree = Tree::from_string(r#"{"name": "patrol", "type": "Sequence", "childNodes": []}"#).unwrap();
    assert_eq!(tree.name(), "patrol");
    assert!(matches!(tree.root().kind(), Kind::Node(Nodes::Sequence(_))));
    assert_eq!(tree.root().children().unwrap().len(), 0);
    assert!(tree.root().services().is_none());
    assert_eq!(tree.tick(), Status::Success);
}

#[test]
fn a_tree_without_a_name_is_refused() {
    assert_eq!(Tree::from_string(SUCCEEDS).unwrap_err(), LoadError::Malformed(Part::Name));
    assert_eq!(
        Tree::from_string(r#"{"name": 7, "type": "Sequence"}"#).unwrap_err(),
        LoadError::Malformed(Part::Name)
    );
}

#[test]
fn a_text_that_is_no_json_is_refused() {
    assert!(matches!(Tree::from_string("{\"name\": ").unwrap_err(), LoadError::Syntax(_)));
    assert!(matches!(Node::from_string("").unwrap_err(), LoadError::Syntax(_)));
}

#[test]
fn a_document_that_is_no_object_is_refused() {
    assert_eq!(Node::from_string("[]").unwrap_err(), LoadError::Malformed(Part::Record));
    assert_eq!(Tree::from_string("3").unwrap_err(), LoadError::Malformed(Part::Record));
}

#[test]
fn a_missing_type_tag_is_refused() {
    assert_eq!(Node::from_string(r#"{"childNodes": []}"#).unwrap_err(), LoadError::Malformed(Part::Type));
    assert_eq!(Node::from_string(r#"{"type": true}"#).unwrap_err(), LoadError::Malformed(Part::Type));
}

#[test]
fn an_unknown_type_tag_is_named_in_the_error() {
    let error = Node::from_string(r#"{"type": "Teleport"}"#).unwrap_err();
    assert_eq!(error, LoadError::UnknownType("Teleport".to_string()));
    let nested = composite("Sequence", &[SUCCEEDS, r#"{"type": "Levitate"}"#]);
    assert_eq!(Node::from_string(&nested).unwrap_err(), LoadError::UnknownType("Levitate".to_string()));
}

#[test]
fn an_unknown_service_tag_is_named_in_the_error() {
    let error = Node::from_string(r#"{"type": "Sequence", "services": [{"type": "Beep"}]}"#).unwrap_err();
    assert_eq!(error, LoadError::UnknownType("Beep".to_string()));
}

#[test]
fn a_missing_required_property_is_named_in_the_error() {
    let error = Node::from_string(r#"{"type": "Sequence", "services": [{"type": "Comment"}]}"#).unwrap_err();
    assert_eq!(error, LoadError::Property(BindError::Missing("comment".to_string())));
    let error = Node::from_string(r#"{"type": "Subtree", "properties": []}"#).unwrap_err();
    assert_eq!(error, LoadError::Property(BindError::Missing("path".to_string())));
}

#[test]
fn a_property_of_the_wrong_kind_is_refused() {
    let text = r#"{"type": "Sequence",
        "services": [{"type": "Comment", "properties": [{"name": "comment", "value": 12}]}]}"#;
    assert_eq!(
        Node::from_string(text).unwrap_err(),
        LoadError::Property(BindError::Mismatch {
            name: "comment".to_string(),
            expected: PropertyKind::String,
            found: JsonKind::Number,
        })
    );
}

#[test]
fn malformed_properties_are_refused() {
    for text in [
        r#"{"type": "Sequence", "properties": 4}"#,
        r#"{"type": "Sequence", "properties": [{"name": "a"}]}"#,
        r#"{"type": "Sequence", "properties": [{"value": "a"}]}"#,
        r#"{"type": "Invert", "properties": ["a"], "childNodes": [{"type": "Sequence"}]}"#,
    ] {
        assert_eq!(Node::from_string(text).unwrap_err(), LoadError::Property(BindError::Malformed));
    }
}

#[test]
fn malformed_lists_are_refused() {
    assert_eq!(
        Node::from_string(r#"{"type": "Sequence", "childNodes": {}}"#).unwrap_err(),
        LoadError::Malformed(Part::ChildNodes)
    );
    assert_eq!(
        Node::from_string(r#"{"type": "Sequence", "services": "none"}"#).unwrap_err(),
        LoadError::Malformed(Part::Services)
    );
    assert_eq!(
        Node::from_string(r#"{"type": "Sequence", "services": [1]}"#).unwrap_err(),
        LoadError::Malformed(Part::Record)
    );
    assert_eq!(
        Node::from_string(r#"{"type": "Sequence", "childNodes": [null]}"#).unwrap_err(),
        LoadError::Malformed(Part::Record)
    );
}

#[test]
fn null_lists_count_as_absent() {
    let node = Node::from_string(r#"{"type": "Selector", "childNodes": null, "services": null}"#).unwrap();
    assert!(node.children().is_none());
    assert!(node.services().is_none());
    assert_eq!(node.tick(), Status::Success);
}

#[test]
fn the_last_of_two_pairs_with_one_name_wins() {
    let text = r#"{"type": "Sequence", "services": [{"type": "Comment", "properties": [
        {"name": "comment", "value": "a"}, {"name": "comment", "value": "b"}]}]}"#;
    let node = Node::from_string(text).unwrap();
    let services = node.services().unwrap();
    assert_eq!(services.len(), 1);
    let Services::Comment(comment) = &services[0];
    assert_eq!(comment.comment(), "b");
}

#[test]
fn pairs_that_no_declaration_names_are_passed_over() {
    let text = r#"{"type": "Sequence", "properties": [{"name": "speed", "value": 3}],
        "services": [{"type": "Comment", "properties": [
            {"name": "colour", "value": null}, {"name": "comment", "value": "kept"}]}]}"#;
    let node = Node::from_string(text).unwrap();
    let Services::Comment(comment) = &node.services().unwrap()[0];
    assert_eq!(comment.comment(), "kept");
}

#[test]
fn an_empty_sequence_and_an_empty_selector_succeed() {
    for text in [
        r#"{"type": "Sequence"}"#,
        r#"{"type": "Sequence", "childNodes": []}"#,
        r#"{"type": "Selector"}"#,
        r#"{"type": "Selector", "childNodes": []}"#,
    ] {
        assert_eq!(Node::from_string(text).unwrap().tick(), Status::Success);
    }
}

#[test]
fn a_sequence_fails_with_its_first_failing_child() {
    let text = composite("Sequence", &[SUCCEEDS, SUCCEEDS, FAILS, SUCCEEDS]);
    assert_eq!(Node::from_string(&text).unwrap().tick(), Status::Failure);
    let text = composite("Sequence", &[SUCCEEDS, SUCCEEDS, SUCCEEDS]);
    assert_eq!(Node::from_string(&text).unwrap().tick(), Status::Success);
}

#[test]
fn a_selector_succeeds_with_its_first_succeeding_child() {
    let text = composite("Selector", &[FAILS, FAILS, SUCCEEDS, FAILS]);
    assert_eq!(Node::from_string(&text).unwrap().tick(), Status::Success);
    let text = composite("Selector", &[FAILS, FAILS]);
    assert_eq!(Node::from_string(&text).unwrap().tick(), Status::Failure);
}

#[test]
fn decorators_decorate_their_child() {
    let inverted = composite("Invert", &[SUCCEEDS]);
    assert_eq!(Node::from_string(&inverted).unwrap().tick(), Status::Failure);
    let twice = composite("Invert", &[&inverted]);
    assert_eq!(Node::from_string(&twice).unwrap().tick(), Status::Success);
    let forced = composite("Success", &[FAILS]);
    assert_eq!(Node::from_string(&forced).unwrap().tick(), Status::Success);
    let node = Node::from_string(FAILS).unwrap();
    assert!(matches!(node.kind(), Kind::Decorator(Decorators::Failure(_))));
    assert_eq!(node.tick(), Status::Failure);
}

#[test]
fn a_decorator_needs_exactly_one_child() {
    assert_eq!(Node::from_string(r#"{"type": "Invert"}"#).unwrap_err(), LoadError::Arity("Invert".to_string()));
    let none = composite("Failure", &[]);
    assert_eq!(Node::from_string(&none).unwrap_err(), LoadError::Arity("Failure".to_string()));
    let two = composite("Success", &[SUCCEEDS, SUCCEEDS]);
    assert_eq!(Node::from_string(&two).unwrap_err(), LoadError::Arity("Success".to_string()));
}

#[test]
fn a_subtree_reports_what_its_root_reports() {
    let sources = vec![source("fails.json", FAILS), source("succeeds.json", SUCCEEDS)];
    for (path, status) in [("fails.json", Status::Failure), ("succeeds.json", Status::Success)] {
        let text = format!(r#"{{"type": "Subtree", "properties": [{{"name": "path", "value": "{}"}}]}}"#, path);
        let node = Node::from_sources(&text, &sources).unwrap();
        assert!(matches!(node.kind(), Kind::Node(Nodes::Subtree(_))));
        assert_eq!(node.tick(), status);
        let direct = Node::from_string(&sources.iter().find(|s| s.path == path).unwrap().text).unwrap();
        assert_eq!(node.tick(), direct.tick());
    }
}

#[test]
fn a_subtree_within_a_tree_takes_part_in_it() {
    let sources = vec![source("inner.json", FAILS)];
    let inner = r#"{"type": "Subtree", "properties": [{"name": "path", "value": "inner.json"}]}"#;
    let text = format!(r#"{{"name": "outer", "type": "Selector", "childNodes": [{}, {}]}}"#, inner, inner);
    let tree = Tree::from_sources(&text, &sources).unwrap();
    assert_eq!(tree.tick(), Status::Failure);
}

#[test]
fn a_subtree_that_no_source_has_is_refused() {
    let text = r#"{"type": "Subtree", "properties": [{"name": "path", "value": "gone.json"}]}"#;
    assert_eq!(Node::from_string(text).unwrap_err(), LoadError::Unresolved("gone.json".to_string()));
    let sources = vec![source("here.json", SUCCEEDS)];
    assert_eq!(Node::from_sources(text, &sources).unwrap_err(), LoadError::Unresolved("gone.json".to_string()));
}

#[test]
fn a_subtree_whose_file_is_broken_is_refused() {
    let text = r#"{"type": "Subtree", "properties": [{"name": "path", "value": "broken.json"}]}"#;
    let sources = vec![source("broken.json", "{")];
    assert!(matches!(Node::from_sources(text, &sources).unwrap_err(), LoadError::Syntax(_)));
    let sources = vec![source("broken.json", r#"{"type": "Hover"}"#)];
    assert_eq!(Node::from_sources(text, &sources).unwrap_err(), LoadError::UnknownType("Hover".to_string()));
}

#[test]
fn a_file_that_includes_itself_is_refused() {
    let text = r#"{"type": "Subtree", "properties": [{"name": "path", "value": "loop.json"}]}"#;
    let sources = vec![source("loop.json", text)];
    assert_eq!(Node::from_sources(text, &sources).unwrap_err(), LoadError::TooDeep("loop.json".to_string()));
}

#[test]
fn subtrees_nest_as_deep_as_there_are_sources() {
    let sources = vec![source("a.json", &subtree("b.json")), source("b.json", FAILS)];
    assert_eq!(Node::from_sources(&subtree("a.json"), &sources).unwrap().tick(), Status::Failure);
    let document = read_json(&subtree("a.json")).unwrap();
    assert_eq!(
        Node::from_json(&document, &sources, 1).unwrap_err(),
        LoadError::TooDeep("b.json".to_string())
    );
}

fn subtree(path: &str) -> String {
    format!(r#"{{"type": "Subtree", "properties": [{{"name": "path", "value": "{}"}}]}}"#, path)
}

#[test]
fn json_is_read_value_by_value() {
    let document = read_json(r#"{"b": [null, true, -3, 1.5, "x", 18446744073709551615], "a": {}}"#).unwrap();
    let Json::Record(members) = &document else { panic!("{:?}", document) };
    assert_eq!(members.len(), 2);
    assert_eq!(document.kind(), JsonKind::Record);
    assert!(matches!(document.member("a"), Some(Json::Record(inner)) if inner.is_empty()));
    let Some(Json::List(items)) = document.member("b") else { panic!("{:?}", document) };
    assert!(matches!(items[0], Json::Null));
    assert!(matches!(items[1], Json::Bool(true)));
    assert!(matches!(items[2], Json::Number(Some(-3))));
    assert!(matches!(items[3], Json::Number(None)));
    assert!(matches!(&items[4], Json::Text(text) if text == "x"));
    assert!(matches!(items[5], Json::Number(None)));
    assert!(document.optional("c").is_none());
    assert!(matches!(items[0].kind(), JsonKind::Null));
    let unit = Member { key: "k".to_string(), value: Json::Null };
    assert!(Json::Record(vec![unit]).optional("k").is_none());
    assert!(read_json("{").is_err());
}

#[test]
fn services_do_not_touch_the_status() {
    let plain = composite("Sequence", &[SUCCEEDS, FAILS]);
    let with_notes = noted(&composite("Sequence", &[&noted(SUCCEEDS, "first"), &noted(FAILS, "second")]), "root");
    let node = Node::from_string(&with_notes).unwrap();
    assert_eq!(node.services().unwrap().len(), 1);
    assert_eq!(node.tick(), Node::from_string(&plain).unwrap().tick());
    assert_eq!(node.tick(), Status::Failure);
}

#[test]
fn ticking_again_starts_afresh() {
    let text = composite("Selector", &[FAILS, SUCCEEDS]);
    let node = Node::from_string(&text).unwrap();
    assert_eq!(node.tick(), Status::Success);
    assert_eq!(node.tick(), Status::Success);
}
