use tactical::owl_bt::{Decorators, Nodes, Services};
use tactical::standard::{Failure, Invert, Resolution, Selector, Sequence, Success};
use tactical::traits::Status::{Failure as Failed, Running, Success as Succeeded};
use tactical::traits::{Decorator, Node, Service};

#[test]
fn sequence_stops_at_the_first_failure() {
    let resolution = Sequence {}.resolve(&vec![Succeeded, Succeeded, Failed, Succeeded]);
    assert_eq!(resolution, Resolution { status: Failed, ticked: 3 });
}

#[test]
fn sequence_stops_at_the_first_running_child() {
    let resolution = Sequence {}.resolve(&vec![Succeeded, Running, Failed]);
    assert_eq!(resolution, Resolution { status: Running, ticked: 2 });
}

#[test]
fn sequence_succeeds_where_all_children_succeed() {
    let resolution = Sequence {}.resolve(&vec![Succeeded, Succeeded, Succeeded]);
    assert_eq!(resolution, Resolution { status: Succeeded, ticked: 3 });
}

#[test]
fn selector_stops_at_the_first_success() {
    let resolution = Selector {}.resolve(&vec![Failed, Failed, Succeeded, Failed]);
    assert_eq!(resolution, Resolution { status: Succeeded, ticked: 3 });
}

#[test]
fn selector_stops_at_the_first_running_child() {
    let resolution = Selector {}.resolve(&vec![Failed, Running, Succeeded]);
    assert_eq!(resolution, Resolution { status: Running, ticked: 2 });
}

#[test]
fn selector_fails_where_all_children_fail() {
    let resolution = Selector {}.resolve(&vec![Failed, Failed]);
    assert_eq!(resolution, Resolution { status: Failed, ticked: 2 });
}

#[test]
fn composites_without_children_succeed() {
    assert_eq!(Sequence {}.resolve(&vec![]), Resolution { status: Succeeded, ticked: 0 });
    assert_eq!(Selector {}.resolve(&vec![]), Resolution { status: Succeeded, ticked: 0 });
    assert_eq!(Sequence {}.tick(), Succeeded);
    assert_eq!(Selector {}.tick(), Succeeded);
    assert_eq!(Nodes::Sequence(Sequence {}).tick(), Succeeded);
    assert_eq!(Nodes::Selector(Selector {}).tick(), Succeeded);
}

#[test]
fn invert_swaps_success_and_failure() {
    assert_eq!(Invert {}.decorate(Succeeded), Failed);
    assert_eq!(Invert {}.decorate(Failed), Succeeded);
    assert_eq!(Invert {}.decorate(Running), Running);
    assert_eq!(Decorators::Invert(Invert {}).decorate(Running), Running);
}

#[test]
fn constant_decorators_do_not_look_at_the_child() {
    for status in [Succeeded, Failed, Running] {
        assert_eq!(Failure {}.decorate(status), Failed);
        assert_eq!(Success {}.decorate(status), Succeeded);
        assert_eq!(Decorators::Failure(Failure {}).decorate(status), Failed);
        assert_eq!(Decorators::Success(Success {}).decorate(status), Succeeded);
    }
}

#[test]
fn named_decorators() {
    assert!(matches!(Decorators::named("Invert"), Some(Decorators::Invert(_))));
    assert!(matches!(Decorators::named("Failure"), Some(Decorators::Failure(_))));
    assert!(matches!(Decorators::named("Success"), Some(Decorators::Success(_))));
    assert!(Decorators::named("invert").is_none());
}

struct Idle;

impl Node for Idle {}

impl Service for Idle {}

impl Decorator for Idle {}

#[test]
fn a_behaviour_that_says_nothing_takes_the_defaults() {
    assert_eq!(Idle.tick(), Succeeded);
    assert_eq!(Idle.serve(), Succeeded);
    for status in [Succeeded, Failed, Running] {
        assert_eq!(Idle.decorate(status), status);
    }
}

#[test]
fn a_comment_is_served_with_success() {
    let text = r#"{"type": "Sequence", "services": [{"type": "Comment", "properties": [
        {"name": "comment", "value": "look here"}]}]}"#;
    let node = tactical::tree::Node::from_string(text).unwrap();
    let service = &node.services().unwrap()[0];
    assert_eq!(service.serve(), Succeeded);
    let Services::Comment(comment) = service;
    assert_eq!(comment.serve(), Succeeded);
}
