use tactical::owl_bt::{Served, Services};
use tactical::traits::Status;
use tactical::tree::{includes, LoadError, Node, Source, Tree};

const SUCCEEDS: &str = r#"{"type": "Sequence"}"#;
const FAILS: &str = r#"{"type": "Failure", "childNodes": [{"type": "Sequence"}]}"#;

fn noted(note: &str, record: &str) -> String {
    let body = record.trim().strip_prefix('{').unwrap();
    format!(
        r#"{{"services": [{{"type": "Comment", "properties": [{{"name": "comment", "value": "{}"}}]}}], {}"#,
        note, body
    )
}

fn composite(tag: &str, children: &[String]) -> String {
    format!(r#"{{"type": "{}", "childNodes": [{}]}}"#, tag, children.join(", "))
}

fn subtree(path: &str) -> String {
    format!(r#"{{"type": "Subtree", "properties": [{{"name": "path", "value": "{}"}}]}}"#, path)
}

fn notes(log: &[Served]) -> Vec<String> {
    log.iter()
        .map(|served| {
            assert_eq!(served.status, Status::Success);
            let Services::Comment(comment) = &served.service;
            comment.comment().clone()
        })
        .collect()
}

fn ticked(text: &str) -> (Status, Vec<String>) {
    let node = Node::from_string(text).unwrap();
    let mut log = Vec::new();
    let status = node.tick_logged(&mut log);
    assert_eq!(status, node.tick());
    (status, notes(&log))
}

#[test]
fn a_sequence_ticks_its_children_up_to_the_first_failure() {
    let children =
        [noted("1", SUCCEEDS), noted("2", SUCCEEDS), noted("3", FAILS), noted("4", SUCCEEDS)];
    let (status, log) = ticked(&noted("root", &composite("Sequence", &children)));
    assert_eq!(status, Status::Failure);
    assert_eq!(log, ["root", "1", "2", "3"]);
}

#[test]
fn a_sequence_that_succeeds_ticks_all_its_children() {
    let children = [noted("1", SUCCEEDS), noted("2", SUCCEEDS)];
    let (status, log) = ticked(&composite("Sequence", &children));
    assert_eq!(status, Status::Success);
    assert_eq!(log, ["1", "2"]);
}

#[test]
fn a_selector_ticks_its_children_up_to_the_first_success() {
    let children = [noted("1", FAILS), noted("2", FAILS), noted("3", SUCCEEDS), noted("4", FAILS)];
    let (status, log) = ticked(&noted("root", &composite("Selector", &children)));
    assert_eq!(status, Status::Success);
    assert_eq!(log, ["root", "1", "2", "3"]);
}

#[test]
fn a_selector_that_fails_ticks_all_its_children() {
    let children = [noted("1", FAILS), noted("2", FAILS)];
    let (status, log) = ticked(&composite("Selector", &children));
    assert_eq!(status, Status::Failure);
    assert_eq!(log, ["1", "2"]);
}

#[test]
fn a_decorator_ticks_its_child() {
    let inner = noted("inner", &composite("Sequence", &[noted("leaf", SUCCEEDS)]));
    let (status, log) = ticked(&noted("outer", &composite("Invert", &[inner])));
    assert_eq!(status, Status::Failure);
    assert_eq!(log, ["outer", "inner", "leaf"]);
}

#[test]
fn the_services_of_a_node_are_served_in_their_order() {
    let text = r#"{"type": "Selector", "services": [
        {"type": "Comment", "properties": [{"name": "comment", "value": "a"}]},
        {"type": "Comment", "properties": [{"name": "comment", "value": "b"}]},
        {"type": "Comment", "properties": [{"name": "comment", "value": "a"}]}]}"#;
    let (status, log) = ticked(text);
    assert_eq!(status, Status::Success);
    assert_eq!(log, ["a", "b", "a"]);
}

#[test]
fn a_log_is_added_to() {
    let node = Node::from_string(&noted("again", SUCCEEDS)).unwrap();
    let mut log = Vec::new();
    node.tick_logged(&mut log);
    node.tick_logged(&mut log);
    assert_eq!(notes(&log), ["again", "again"]);
}

#[test]
fn a_subtree_is_ticked_through() {
    let inner = noted("inner", &composite("Sequence", &[noted("fails", FAILS), noted("never", SUCCEEDS)]));
    let sources = vec![Source { path: "inner.json".to_string(), text: inner }];
    let text = format!(r#"{{"name": "outer", {}"#, noted("outer", &subtree("inner.json")).strip_prefix('{').unwrap());
    let tree = Tree::from_sources(&text, &sources).unwrap();
    let mut log = Vec::new();
    assert_eq!(tree.tick_logged(&mut log), Status::Failure);
    assert_eq!(notes(&log), ["outer", "inner", "fails"]);
    assert_eq!(tree.tick(), Status::Failure);
}

#[test]
fn the_files_that_a_text_names() {
    let text = composite(
        "Sequence",
        &[subtree("a.json"), composite("Invert", &[subtree("b/c.json")]), SUCCEEDS.to_string(), subtree("a.json")],
    );
    assert_eq!(includes(&text).unwrap(), ["a.json", "b/c.json", "a.json"]);
    assert!(includes(SUCCEEDS).unwrap().is_empty());
    assert!(includes("[1, 2]").unwrap().is_empty());
    assert!(includes(r#"{"type": "Subtree"}"#).unwrap().is_empty());
    assert!(matches!(includes("{").unwrap_err(), LoadError::Syntax(_)));
}
