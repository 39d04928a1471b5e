//! The tree of behaviours and its interpreter.

use vstd::pervasive::unreached;
use vstd::prelude::*;
use crate::fold::{collect, lemma_collect_failure, lemma_collect_step};
use crate::json::{
    json_reading, lemma_list_view, lemma_member_decreases, list_view, read_json, same_text, Json, JsonKind,
    JsonValue,
};
use crate::owl_bt::{
    log_view, services_view, standard_schema, Decorators, Nodes, Served, ServiceModel, Services,
};
use crate::schema::{definition_names, texts, Property};
use crate::standard::{
    bind, first_other, lemma_first_other, node_properties, BindError, BindFailure, Invert, Selector, Sequence,
    Subtree,
};
use crate::traits::{Decorator, Service, Status};

verus! {

/// The behaviour of a node of a tree: a node proper, or a decorator.
#[derive(Debug)]
pub enum Kind {
    Node(Nodes),
    Decorator(Decorators),
}

/// A node of a tree: its behaviour, its children in their order, and the
/// services that are attached to it.
#[derive(Debug)]
pub struct Node {
    pub(crate) typ: Kind,
    children: Option<Vec<Node>>,
    services: Option<Vec<Services>>,
}

/// A tree: a root under a name.
#[derive(Debug)]
pub struct Tree {
    root: Node,
    name: String,
}

/// The behaviour of a node, as mathematics.
pub ghost enum NodeKind {
    Sequence,
    Selector,
    Subtree(Box<NodeModel>),
    Failure,
    Success,
    Invert,
}

/// The mathematical content of a [`Node`].
pub ghost struct NodeModel {
    pub kind: NodeKind,
    pub children: Option<Seq<NodeModel>>,
    pub services: Option<Seq<ServiceModel>>,
}

/// The mathematical content of a [`Tree`].
pub ghost struct TreeModel {
    pub root: NodeModel,
    pub name: Seq<char>,
}

impl NodeKind {
    pub open spec fn is_decorator(self) -> bool {
        self is Failure || self is Success || self is Invert
    }
}

/// What the nodes of a sequence report when each is ticked, in order.
pub open spec fn reports(nodes: Seq<NodeModel>) -> Seq<Status>
    decreases nodes,
{
    if nodes.len() == 0 {
        Seq::empty()
    } else {
        reports(nodes.drop_last()).push(nodes.last().status())
    }
}

impl NodeModel {
    /// The status that one tick of the node produces. A sequence and a selector
    /// go by what their children report; a subtree reports what the root of its
    /// tree reports; a decorator makes its status from that of its child.
    pub open spec fn status(self) -> Status
        decreases self,
    {
        match self.kind {
            NodeKind::Sequence => match self.children {
                Some(children) => Sequence::outcome(reports(children)),
                None => Status::Success,
            },
            NodeKind::Selector => match self.children {
                Some(children) => Selector::outcome(reports(children)),
                None => Status::Success,
            },
            NodeKind::Subtree(root) => root.status(),
            NodeKind::Failure => Status::Failure,
            NodeKind::Success => Status::Success,
            NodeKind::Invert => match self.children {
                Some(children) => if children.len() > 0 {
                    Invert::inverse(children[0].status())
                } else {
                    Status::Running
                },
                None => Status::Running,
            },
        }
    }
}

/// What serving the services of a node leaves in a log: each service, in
/// order, with the success that it reports.
pub open spec fn served(services: Option<Seq<ServiceModel>>) -> Seq<(ServiceModel, Status)> {
    match services {
        Some(services) => Seq::new(services.len(), |i: int| (services[i], Status::Success)),
        None => Seq::empty(),
    }
}

/// What ticking the first `count` nodes leaves in a log.
pub open spec fn traces(nodes: Seq<NodeModel>, count: nat) -> Seq<(ServiceModel, Status)>
    decreases nodes, count,
{
    if count == 0 || count > nodes.len() {
        Seq::empty()
    } else {
        traces(nodes, (count - 1) as nat) + nodes[count - 1].trace()
    }
}

impl NodeModel {
    /// What one tick of the node leaves in a log: the services of every node
    /// that is ticked, each served once, a node before its children. A sequence
    /// and a selector tick their children up to the first that decides and none
    /// after it.
    pub open spec fn trace(self) -> Seq<(ServiceModel, Status)>
        decreases self, 0nat,
    {
        served(self.services) + (match self.kind {
            NodeKind::Sequence => match self.children {
                Some(children) => traces(children, Sequence::ticked(reports(children))),
                None => Seq::empty(),
            },
            NodeKind::Selector => match self.children {
                Some(children) => traces(children, Selector::ticked(reports(children))),
                None => Seq::empty(),
            },
            NodeKind::Subtree(root) => root.trace(),
            _ => match self.children {
                Some(children) => if children.len() > 0 {
                    children[0].trace()
                } else {
                    Seq::empty()
                },
                None => Seq::empty(),
            },
        })
    }
}

impl TreeModel {
    /// The status that one tick of the tree produces: that of its root.
    pub open spec fn status(self) -> Status {
        self.root.status()
    }
}

/// `reports` keeps the length and reports node by node.
pub proof fn lemma_reports(nodes: Seq<NodeModel>)
    ensures
        reports(nodes).len() == nodes.len(),
        forall|i: int| 0 <= i < nodes.len() ==> (#[trigger] reports(nodes)[i]) == nodes[i].status(),
    decreases nodes.len(),
{
    if nodes.len() > 0 {
        lemma_reports(nodes.drop_last());
        assert(reports(nodes) == reports(nodes.drop_last()).push(nodes.last().status()));
    } else {
        assert(reports(nodes) == Seq::<Status>::empty());
    }
}

/// The views of the nodes of a sequence, in order.
pub closed spec fn nodes_view(nodes: Seq<Node>) -> Seq<NodeModel>
    decreases nodes,
{
    if nodes.len() == 0 {
        Seq::empty()
    } else {
        nodes_view(nodes.drop_last()).push(nodes.last()@)
    }
}

/// The behaviour of a node, viewed.
pub closed spec fn kind_view(kind: Kind) -> NodeKind
    decreases kind,
{
    match kind {
        Kind::Node(Nodes::Sequence(_)) => NodeKind::Sequence,
        Kind::Node(Nodes::Selector(_)) => NodeKind::Selector,
        Kind::Node(Nodes::Subtree(subtree)) => NodeKind::Subtree(Box::new((*subtree.path)@)),
        Kind::Decorator(Decorators::Failure(_)) => NodeKind::Failure,
        Kind::Decorator(Decorators::Success(_)) => NodeKind::Success,
        Kind::Decorator(Decorators::Invert(_)) => NodeKind::Invert,
    }
}

impl View for Node {
    type V = NodeModel;

    closed spec fn view(&self) -> NodeModel
        decreases self,
    {
        NodeModel {
            kind: kind_view(self.typ),
            children: match self.children {
                Some(children) => Some(nodes_view(children@)),
                None => None,
            },
            services: match self.services {
                Some(services) => Some(services_view(services@)),
                None => None,
            },
        }
    }
}

impl View for Tree {
    type V = TreeModel;

    closed spec fn view(&self) -> TreeModel {
        TreeModel { root: self.root@, name: self.name@ }
    }
}

/// `nodes_view` keeps the length and views node by node.
proof fn lemma_nodes_view(nodes: Seq<Node>)
    ensures
        nodes_view(nodes).len() == nodes.len(),
        forall|i: int| 0 <= i < nodes.len() ==> (#[trigger] nodes_view(nodes)[i]) == nodes[i]@,
    decreases nodes.len(),
{
    if nodes.len() > 0 {
        lemma_nodes_view(nodes.drop_last());
        assert(nodes_view(nodes) == nodes_view(nodes.drop_last()).push(nodes.last()@));
    } else {
        assert(nodes_view(nodes) == Seq::<NodeModel>::empty());
    }
}

/// The part of a document that is absent or of another form than it must have.
#[derive(Debug, Clone, Copy, PartialEq, Eq, Structural)]
pub enum Part {
    /// A node or a service is no object.
    Record,
    /// The text under `type`.
    Type,
    /// The text under `name`.
    Name,
    /// The list under `childNodes`.
    ChildNodes,
    /// The list under `services`.
    Services,
}

/// Why a document could not be loaded.
#[derive(Debug, PartialEq, Eq)]
pub enum LoadError {
    /// A text is no JSON; the reader's message.
    Syntax(String),
    Malformed(Part),
    /// This type tag selects no variant.
    UnknownType(String),
    Property(BindError),
    /// No source has the path of this subtree.
    Unresolved(String),
    /// The subtree of this path lies deeper than subtrees may be nested.
    TooDeep(String),
    /// The decorator of this tag does not have exactly one child.
    Arity(String),
}

/// The mathematical content of a [`LoadError`].
pub ghost enum LoadFailure {
    Syntax(Seq<char>),
    Malformed(Part),
    UnknownType(Seq<char>),
    Property(BindFailure),
    Unresolved(Seq<char>),
    TooDeep(Seq<char>),
    Arity(Seq<char>),
}

impl View for LoadError {
    type V = LoadFailure;

    open spec fn view(&self) -> LoadFailure {
        match self {
            LoadError::Syntax(message) => LoadFailure::Syntax(message@),
            LoadError::Malformed(part) => LoadFailure::Malformed(*part),
            LoadError::UnknownType(tag) => LoadFailure::UnknownType(tag@),
            LoadError::Property(error) => LoadFailure::Property(error@),
            LoadError::Unresolved(path) => LoadFailure::Unresolved(path@),
            LoadError::TooDeep(path) => LoadFailure::TooDeep(path@),
            LoadError::Arity(tag) => LoadFailure::Arity(tag@),
        }
    }
}

/// The text of a file that a subtree may name, under the path by which it is
/// named.
#[derive(Debug)]
pub struct Source {
    pub path: String,
    pub text: String,
}

/// The paths of the sources of a sequence, each with its text.
pub open spec fn sources_view(sources: Seq<Source>) -> Seq<(Seq<char>, Seq<char>)> {
    Seq::new(sources.len(), |i: int| (sources[i].path@, sources[i].text@))
}

/// The text of the first source that has the path.
pub open spec fn source_text(sources: Seq<(Seq<char>, Seq<char>)>, path: Seq<char>) -> Option<Seq<char>>
    decreases sources.len(),
{
    if sources.len() == 0 {
        None
    } else if sources[0].0 == path {
        Some(sources[0].1)
    } else {
        source_text(sources.drop_first(), path)
    }
}

/// The service that one item of a `services` list stands for.
pub open spec fn loaded_service(item: JsonValue) -> Result<ServiceModel, LoadFailure> {
    if !(item is Record) {
        Err(LoadFailure::Malformed(Part::Record))
    } else {
        match item.member("type"@) {
            Some(JsonValue::Text(tag)) => if tag == "Comment"@ {
                match crate::standard::Comment::reading(item) {
                    Ok(comment) => Ok(ServiceModel::Comment(comment)),
                    Err(failure) => Err(LoadFailure::Property(failure)),
                }
            } else {
                Err(LoadFailure::UnknownType(tag))
            },
            _ => Err(LoadFailure::Malformed(Part::Type)),
        }
    }
}

/// `loaded_service`, as a function.
pub open spec fn service_loader() -> spec_fn(JsonValue) -> Result<ServiceModel, LoadFailure> {
    |item: JsonValue| loaded_service(item)
}

/// The services that a record attaches to its node: none where it has no list
/// under `services`.
pub open spec fn loaded_services(record: JsonValue) -> Result<Option<Seq<ServiceModel>>, LoadFailure> {
    match record.optional("services"@) {
        None => Ok(None),
        Some(JsonValue::List(items)) => match collect(items, service_loader()) {
            Ok(services) => Ok(Some(services)),
            Err(failure) => Err(failure),
        },
        Some(_) => Err(LoadFailure::Malformed(Part::Services)),
    }
}

/// The behaviour that a type tag selects among those that need nothing but
/// their tag.
pub open spec fn plain_kind(tag: Seq<char>) -> Option<NodeKind> {
    if tag == "Sequence"@ {
        Some(NodeKind::Sequence)
    } else if tag == "Selector"@ {
        Some(NodeKind::Selector)
    } else if tag == "Failure"@ {
        Some(NodeKind::Failure)
    } else if tag == "Success"@ {
        Some(NodeKind::Success)
    } else if tag == "Invert"@ {
        Some(NodeKind::Invert)
    } else {
        None
    }
}

/// The node that a record stands for. Its type tag selects the behaviour, its
/// `properties` are bound to the shape of that behaviour, its `services` and
/// its `childNodes` are loaded in their order, and a decorator must have
/// exactly one child. A subtree is resolved among the sources, and subtrees
/// are nested `depth` deep at most. The first thing that is wrong decides the
/// failure.
pub open spec fn loaded_node(record: JsonValue, sources: Seq<(Seq<char>, Seq<char>)>, depth: nat) -> Result<
    NodeModel,
    LoadFailure,
>
    decreases depth, record, 2nat,
{
    if !(record is Record) {
        Err(LoadFailure::Malformed(Part::Record))
    } else {
        match record.member("type"@) {
            Some(JsonValue::Text(tag)) => match loaded_kind(tag, record, sources, depth) {
                Err(failure) => Err(failure),
                Ok(kind) => match loaded_services(record) {
                    Err(failure) => Err(failure),
                    Ok(services) => match loaded_children(record, sources, depth) {
                        Err(failure) => Err(failure),
                        Ok(children) => if kind.is_decorator() && !(children matches Some(nodes)
                            && nodes.len() == 1) {
                            Err(LoadFailure::Arity(tag))
                        } else {
                            Ok(NodeModel { kind, children, services })
                        },
                    },
                },
            },
            _ => Err(LoadFailure::Malformed(Part::Type)),
        }
    }
}

/// The behaviour that the type tag of a record selects.
pub open spec fn loaded_kind(
    tag: Seq<char>,
    record: JsonValue,
    sources: Seq<(Seq<char>, Seq<char>)>,
    depth: nat,
) -> Result<NodeKind, LoadFailure>
    decreases depth, record, 1nat,
{
    if tag == "Subtree"@ {
        match Subtree::reading(record) {
            Err(failure) => Err(LoadFailure::Property(failure)),
            Ok(path) => match source_text(sources, path) {
                None => Err(LoadFailure::Unresolved(path)),
                Some(text) => if depth == 0 {
                    Err(LoadFailure::TooDeep(path))
                } else {
                    match json_reading(text) {
                        Err(message) => Err(LoadFailure::Syntax(message)),
                        Ok(document) => match loaded_node(document, sources, (depth - 1) as nat) {
                            Err(failure) => Err(failure),
                            Ok(root) => Ok(NodeKind::Subtree(Box::new(root))),
                        },
                    }
                },
            },
        }
    } else {
        match plain_kind(tag) {
            None => Err(LoadFailure::UnknownType(tag)),
            Some(kind) => match bind(record, Seq::empty()) {
                Err(failure) => Err(LoadFailure::Property(failure)),
                Ok(_) => Ok(kind),
            },
        }
    }
}

/// The children that a record gives to its node: none where it has no list
/// under `childNodes`.
pub open spec fn loaded_children(record: JsonValue, sources: Seq<(Seq<char>, Seq<char>)>, depth: nat) -> Result<
    Option<Seq<NodeModel>>,
    LoadFailure,
>
    decreases depth, record, 1nat,
{
    match record.optional("childNodes"@) {
        None => Ok(None),
        Some(JsonValue::List(items)) => {
            proof {
                lemma_member_decreases(record, "childNodes"@);
            }
            match loaded_nodes(items, sources, depth, items.len()) {
                Err(failure) => Err(failure),
                Ok(nodes) => Ok(Some(nodes)),
            }
        },
        Some(_) => Err(LoadFailure::Malformed(Part::ChildNodes)),
    }
}

/// The nodes that the first `count` items stand for, in order, or the failure
/// of the first of them that fails.
pub open spec fn loaded_nodes(
    items: Seq<JsonValue>,
    sources: Seq<(Seq<char>, Seq<char>)>,
    depth: nat,
    count: nat,
) -> Result<Seq<NodeModel>, LoadFailure>
    decreases depth, items, count,
{
    if count == 0 || count > items.len() {
        Ok(Seq::empty())
    } else {
        match loaded_nodes(items, sources, depth, (count - 1) as nat) {
            Err(failure) => Err(failure),
            Ok(done) => match loaded_node(items[count - 1], sources, depth) {
                Err(failure) => Err(failure),
                Ok(node) => Ok(done.push(node)),
            },
        }
    }
}

/// The tree that a record stands for: the node that it stands for, under the
/// text that it holds under `name`.
pub open spec fn loaded_tree(record: JsonValue, sources: Seq<(Seq<char>, Seq<char>)>, depth: nat) -> Result<
    TreeModel,
    LoadFailure,
> {
    if !(record is Record) {
        Err(LoadFailure::Malformed(Part::Record))
    } else {
        match record.member("name"@) {
            Some(JsonValue::Text(name)) => match loaded_node(record, sources, depth) {
                Ok(root) => Ok(TreeModel { root, name }),
                Err(failure) => Err(failure),
            },
            _ => Err(LoadFailure::Malformed(Part::Name)),
        }
    }
}

/// What a text and the sources beside it are read as: the document is the
/// text as JSON, and subtrees nest as deep as there are sources, beyond which
/// a file would include itself.
pub open spec fn read_node(text: Seq<char>, sources: Seq<(Seq<char>, Seq<char>)>) -> Result<
    NodeModel,
    LoadFailure,
> {
    match json_reading(text) {
        Err(message) => Err(LoadFailure::Syntax(message)),
        Ok(document) => loaded_node(document, sources, sources.len()),
    }
}

/// As [`read_node`], for a tree.
pub open spec fn read_tree(text: Seq<char>, sources: Seq<(Seq<char>, Seq<char>)>) -> Result<
    TreeModel,
    LoadFailure,
> {
    match json_reading(text) {
        Err(message) => Err(LoadFailure::Syntax(message)),
        Ok(document) => loaded_tree(document, sources, sources.len()),
    }
}

/// The mathematical content of the outcome of loading a node.
pub open spec fn node_outcome(loaded: Result<Node, LoadError>) -> Result<NodeModel, LoadFailure> {
    match loaded {
        Ok(node) => Ok(node@),
        Err(error) => Err(error@),
    }
}

/// The mathematical content of the outcome of loading a tree.
pub open spec fn tree_outcome(loaded: Result<Tree, LoadError>) -> Result<TreeModel, LoadFailure> {
    match loaded {
        Ok(tree) => Ok(tree@),
        Err(error) => Err(error@),
    }
}

/// The type tags that select the behaviour of a node are the names of the
/// nodes and of the decorators that the schema of the behaviours that are
/// always there defines.
pub proof fn law_tags_follow_the_schema(tag: Seq<char>)
    ensures
        (tag == "Subtree"@ || plain_kind(tag) is Some) <==> (definition_names(
            standard_schema().nodes,
        ).contains(tag) || definition_names(standard_schema().decorators).contains(tag)),
{
    let nodes = definition_names(standard_schema().nodes);
    let decorators = definition_names(standard_schema().decorators);
    assert(nodes[0] == "Sequence"@ && nodes[1] == "Selector"@ && nodes[2] == "Subtree"@);
    assert(decorators[0] == "Failure"@ && decorators[1] == "Success"@ && decorators[2] == "Invert"@);
}

/// A subtree reports what the root of its tree reports, whatever that is,
/// and leaves in a log what the root leaves after its own services.
pub proof fn law_subtree_delegates(node: NodeModel)
    requires
        node.kind is Subtree,
    ensures
        node.status() == node.kind->Subtree_0.status(),
        node.trace() == served(node.services) + node.kind->Subtree_0.trace(),
{
}

/// A sequence and a selector without children succeed, and tick nothing.
pub proof fn law_childless_composite(node: NodeModel)
    requires
        node.kind is Sequence || node.kind is Selector,
        node.children matches Some(children) ==> children.len() == 0,
    ensures
        node.status() == Status::Success,
        node.trace() == served(node.services),
{
    if let Some(children) = node.children {
        assert(reports(children) =~= Seq::empty());
        assert(Sequence::ticked(reports(children)) == 0);
        assert(Selector::ticked(reports(children)) == 0);
        assert(traces(children, 0) =~= Seq::empty());
    }
    assert(served(node.services) + Seq::<(ServiceModel, Status)>::empty() =~= served(node.services));
}

/// A sequence and a selector tick their children in order, up to the one that
/// decides: the log holds what the node's own services leave, then what each
/// of the ticked children leaves, and nothing of the children after them.
pub proof fn law_composite_ticks_in_order(node: NodeModel)
    requires
        node.children is Some,
    ensures
        node.kind is Sequence ==> node.status() == Sequence::outcome(reports(node.children->0)) && node.trace()
            == served(node.services) + traces(node.children->0, Sequence::ticked(reports(node.children->0))),
        node.kind is Selector ==> node.status() == Selector::outcome(reports(node.children->0)) && node.trace()
            == served(node.services) + traces(node.children->0, Selector::ticked(reports(node.children->0))),
        reports(node.children->0).len() == node.children->0.len(),
        forall|i: int|
            0 <= i < node.children->0.len() ==> (#[trigger] reports(node.children->0)[i])
                == node.children->0[i].status(),
{
    lemma_reports(node.children->0);
}

/// A type tag that selects no variant fails the loading, and the failure
/// names the tag.
pub proof fn law_unknown_type_is_named(
    record: JsonValue,
    sources: Seq<(Seq<char>, Seq<char>)>,
    depth: nat,
    tag: Seq<char>,
)
    requires
        record is Record,
        record.member("type"@) == Some(JsonValue::Text(tag)),
        tag != "Sequence"@,
        tag != "Selector"@,
        tag != "Subtree"@,
        tag != "Failure"@,
        tag != "Success"@,
        tag != "Invert"@,
    ensures
        loaded_node(record, sources, depth) == Err::<NodeModel, LoadFailure>(LoadFailure::UnknownType(tag)),
        loaded_tree(record, sources, depth) is Err,
{
}

/// A service whose type tag selects no variant fails the loading of the node
/// that it is attached to, and the failure names the tag, where the behaviour
/// of the node itself is loaded and the services before it are.
pub proof fn law_unknown_service_is_named(
    record: JsonValue,
    sources: Seq<(Seq<char>, Seq<char>)>,
    depth: nat,
    index: int,
    tag: Seq<char>,
)
    requires
        record is Record,
        record.member("type"@) matches Some(JsonValue::Text(own)) && loaded_kind(own, record, sources, depth) is Ok,
        record.optional("services"@) matches Some(JsonValue::List(items)) && 0 <= index < items.len() && (forall|
            i: int,
        |
            0 <= i < index ==> loaded_service(#[trigger] items[i]) is Ok) && items[index] is Record
            && items[index].member("type"@) == Some(JsonValue::Text(tag)),
        tag != "Comment"@,
    ensures
        loaded_node(record, sources, depth) == Err::<NodeModel, LoadFailure>(LoadFailure::UnknownType(tag)),
{
    let items = record.optional("services"@)->0->List_0;
    assert(service_loader()(items[index]) is Err);
    crate::fold::lemma_collect_results(items, service_loader());
    let first = crate::fold::lemma_collect_first_failure(items, service_loader());
    if first < index {
        assert(loaded_service(items[first]) is Ok);
    }
    if index < first {
        assert(service_loader()(items[index]) is Ok);
    }
}

/// A comment without a note fails the loading of the service, and the failure
/// names the property that is missing.
pub proof fn law_comment_needs_its_note(item: JsonValue, pairs: Seq<(Seq<char>, JsonValue)>)
    requires
        item is Record,
        item.member("type"@) == Some(JsonValue::Text("Comment"@)),
        crate::standard::pairs_in(item) == Some(pairs),
        forall|i: int| 0 <= i < pairs.len() ==> (#[trigger] pairs[i]).0 != "comment"@,
    ensures
        loaded_service(item) == Err::<ServiceModel, LoadFailure>(
            LoadFailure::Property(BindFailure::Missing("comment"@)),
        ),
{
    let shape = crate::standard::Comment::declared();
    assert(shape[0].name() == "comment"@);
    assert(crate::json::last_position(seq![], "comment"@) == -1);
    crate::standard::law_missing_property_is_named(pairs, shape, 0);
}

/// The path that a record names itself, where it is a subtree with a path.
pub open spec fn own_path(record: JsonValue) -> Seq<Seq<char>> {
    match record.member("type"@) {
        Some(JsonValue::Text(tag)) => if tag == "Subtree"@ {
            match Subtree::reading(record) {
                Ok(path) => seq![path],
                Err(_) => Seq::empty(),
            }
        } else {
            Seq::empty()
        },
        _ => Seq::empty(),
    }
}

/// The paths of the subtrees that a record names, itself and then the records
/// under `childNodes`, in their order.
pub open spec fn paths_in(record: JsonValue) -> Seq<Seq<char>>
    decreases record, 1nat,
{
    own_path(record) + (match record.optional("childNodes"@) {
        Some(JsonValue::List(items)) => {
            proof {
                lemma_member_decreases(record, "childNodes"@);
            }
            paths_among(items, items.len())
        },
        _ => Seq::empty(),
    })
}

/// The paths of the subtrees that the first `count` items name.
pub open spec fn paths_among(items: Seq<JsonValue>, count: nat) -> Seq<Seq<char>>
    decreases items, count,
{
    if count == 0 || count > items.len() {
        Seq::empty()
    } else {
        paths_among(items, (count - 1) as nat) + paths_in(items[count - 1])
    }
}

/// The files that a text names: the paths of its subtrees, where it is JSON.
pub open spec fn named_paths(text: Seq<char>) -> Result<Seq<Seq<char>>, LoadFailure> {
    match json_reading(text) {
        Err(message) => Err(LoadFailure::Syntax(message)),
        Ok(document) => Ok(paths_in(document)),
    }
}

/// Adds the paths of the subtrees that a record names to those found so far.
fn gather_paths(record: &Json, found: &mut Vec<String>)
    ensures
        texts(final(found)@) == texts(old(found)@) + paths_in(record@),
    decreases record,
{
    let ghost start = texts(found@);
    match record.member("type") {
        Some(Json::Text(tag)) => {
            if same_text(tag.as_str(), "Subtree") {
                match Subtree::path_of(record) {
                    Ok(path) => {
                        found.push(path);
                        proof {
                            assert(texts(found@) =~= start + seq![path@]);
                        }
                    },
                    Err(_) => {
                        proof {
                            assert(texts(found@) =~= start + Seq::<Seq<char>>::empty());
                        }
                    },
                }
            } else {
                proof {
                    assert(texts(found@) =~= start + Seq::<Seq<char>>::empty());
                }
            }
        },
        _ => {
            proof {
                assert(texts(found@) =~= start + Seq::<Seq<char>>::empty());
            }
        },
    }
    assert(texts(found@) == start + own_path(record@));
    match record.optional("childNodes") {
        Some(Json::List(items)) => {
            let ghost models = list_view(items@);
            proof {
                lemma_list_view(items@);
                assert(record@.optional("childNodes"@) == Some(JsonValue::List(models)));
                assert forall|j: int| 0 <= j < items@.len() implies decreases_to!(record => #[trigger] items@[j]) by {
                    let list = Json::List(*items);
                    assert(decreases_to!(record => list));
                    assert(decreases_to!(list => list->List_0));
                    assert(decreases_to!(*items => items@[j]));
                }
                assert(texts(found@) =~= start + (own_path(record@) + paths_among(models, 0)));
            }
            let mut i: usize = 0;
            while i < items.len()
                invariant
                    i <= items.len(),
                    models.len() == items@.len(),
                    forall|j: int| 0 <= j < items@.len() ==> (#[trigger] models[j]) == items@[j]@,
                    forall|j: int| 0 <= j < items@.len() ==> decreases_to!(record => #[trigger] items@[j]),
                    texts(found@) == start + (own_path(record@) + paths_among(models, i as nat)),
                decreases items.len() - i,
            {
                let ghost before = texts(found@);
                gather_paths(&items[i], found);
                proof {
                    assert(before + paths_in(models[i as int]) =~= start + (own_path(record@) + paths_among(
                        models,
                        (i + 1) as nat,
                    )));
                }
                i += 1;
            }
        },
        _ => {
            proof {
                assert(texts(found@) =~= start + (own_path(record@) + Seq::<Seq<char>>::empty()));
            }
        },
    }
}

/// The files that a text names. Whoever reads the files for a tree asks this
/// of the text of the tree, then of each file that was named, and hands the
/// texts to [`Tree::from_sources`].
pub fn includes(text: &str) -> (named: Result<Vec<String>, LoadError>)
    ensures
        match named {
            Ok(paths) => named_paths(text@) == Ok::<Seq<Seq<char>>, LoadFailure>(texts(paths@)),
            Err(error) => named_paths(text@) == Err::<Seq<Seq<char>>, LoadFailure>(error@),
        },
{
    match read_json(text) {
        Ok(document) => {
            let mut found: Vec<String> = Vec::new();
            proof {
                assert(texts(found@) =~= Seq::empty());
            }
            gather_paths(&document, &mut found);
            proof {
                assert(Seq::<Seq<char>>::empty() + paths_in(document@) =~= paths_in(document@));
            }
            Ok(found)
        },
        Err(message) => Err(LoadError::Syntax(message)),
    }
}

/// A failure among the first items is the failure of them all.
proof fn lemma_loaded_nodes_failure(
    items: Seq<JsonValue>,
    sources: Seq<(Seq<char>, Seq<char>)>,
    depth: nat,
    count: nat,
)
    requires
        count <= items.len(),
        loaded_nodes(items, sources, depth, count) is Err,
    ensures
        loaded_nodes(items, sources, depth, items.len()) == loaded_nodes(items, sources, depth, count),
    decreases items.len() - count,
{
    if count < items.len() {
        assert(loaded_nodes(items, sources, depth, count + 1) == loaded_nodes(items, sources, depth, count));
        lemma_loaded_nodes_failure(items, sources, depth, count + 1);
    }
}

/// The text of the first source that has the path.
pub fn find_source<'a>(sources: &'a Vec<Source>, path: &String) -> (found: Option<&'a String>)
    ensures
        match found {
            Some(text) => source_text(sources_view(sources@), path@) == Some(text@),
            None => source_text(sources_view(sources@), path@) is None,
        },
{
    let ghost known = sources_view(sources@);
    let mut i: usize = 0;
    proof {
        assert(known.skip(0) =~= known);
    }
    while i < sources.len()
        invariant
            i <= sources.len(),
            known == sources_view(sources@),
            source_text(known, path@) == source_text(known.skip(i as int), path@),
        decreases sources.len() - i,
    {
        proof {
            assert(known.skip(i as int)[0] == known[i as int]);
            assert(known.skip(i as int).drop_first() =~= known.skip(i + 1));
        }
        if sources[i].path == *path {
            return Some(&sources[i].text);
        }
        i += 1;
    }
    None
}

/// Loads one item of a `services` list.
pub fn load_service(item: &Json) -> (loaded: Result<Services, LoadError>)
    ensures
        match loaded {
            Ok(service) => loaded_service(item@) == Ok::<ServiceModel, LoadFailure>(service@),
            Err(error) => loaded_service(item@) == Err::<ServiceModel, LoadFailure>(error@),
        },
{
    if item.kind() != JsonKind::Record {
        return Err(LoadError::Malformed(Part::Record));
    }
    match item.member("type") {
        Some(Json::Text(tag)) => {
            if same_text(tag.as_str(), "Comment") {
                match crate::standard::Comment::from_record(item) {
                    Ok(comment) => Ok(Services::Comment(comment)),
                    Err(error) => Err(LoadError::Property(error)),
                }
            } else {
                Err(LoadError::UnknownType(tag.clone()))
            }
        },
        _ => Err(LoadError::Malformed(Part::Type)),
    }
}

/// Loads the services that a record attaches to its node.
pub fn load_services(record: &Json) -> (loaded: Result<Option<Vec<Services>>, LoadError>)
    ensures
        match loaded {
            Ok(Some(services)) => loaded_services(record@) == Ok::<Option<Seq<ServiceModel>>, LoadFailure>(
                Some(services_view(services@)),
            ),
            Ok(None) => loaded_services(record@) == Ok::<Option<Seq<ServiceModel>>, LoadFailure>(None),
            Err(error) => loaded_services(record@) == Err::<Option<Seq<ServiceModel>>, LoadFailure>(error@),
        },
{
    match record.optional("services") {
        None => Ok(None),
        Some(Json::List(items)) => {
            let ghost models = list_view(items@);
            proof {
                lemma_list_view(items@);
                assert(record@.optional("services"@) == Some(JsonValue::List(models)));
            }
            let mut services: Vec<Services> = Vec::new();
            let mut i: usize = 0;
            proof {
                assert(services_view(services@) =~= Seq::empty());
            }
            while i < items.len()
                invariant
                    i <= items.len(),
                    models.len() == items@.len(),
                    forall|j: int| 0 <= j < items@.len() ==> (#[trigger] models[j]) == items@[j]@,
                    record@.optional("services"@) == Some(JsonValue::List(models)),
                    collect(models.take(i as int), service_loader()) == Ok::<Seq<ServiceModel>, LoadFailure>(
                        services_view(services@),
                    ),
                decreases items.len() - i,
            {
                proof {
                    lemma_collect_step(models, service_loader(), i as int);
                }
                match load_service(&items[i]) {
                    Ok(service) => {
                        let ghost before = services_view(services@);
                        services.push(service);
                        proof {
                            assert(services_view(services@) =~= before.push(service@));
                        }
                    },
                    Err(error) => {
                        proof {
                            lemma_collect_failure(models, service_loader(), i + 1);
                        }
                        return Err(error);
                    },
                }
                i += 1;
            }
            proof {
                assert(models.take(i as int) =~= models);
            }
            Ok(Some(services))
        },
        Some(_) => Err(LoadError::Malformed(Part::Services)),
    }
}

/// The behaviour that a type tag selects among those that need nothing but
/// their tag.
fn plain(tag: &str) -> (found: Option<Kind>)
    ensures
        match found {
            Some(kind) => plain_kind(tag@) == Some(kind_view(kind)),
            None => plain_kind(tag@) is None,
        },
{
    if same_text(tag, "Sequence") {
        Some(Kind::Node(Nodes::Sequence(Sequence {  })))
    } else if same_text(tag, "Selector") {
        Some(Kind::Node(Nodes::Selector(Selector {  })))
    } else {
        match Decorators::named(tag) {
            Some(decorator) => Some(Kind::Decorator(decorator)),
            None => None,
        }
    }
}

/// Loads the behaviour that the type tag of a record selects.
fn load_kind(tag: &String, record: &Json, sources: &Vec<Source>, depth: usize) -> (loaded: Result<
    Kind,
    LoadError,
>)
    ensures
        match loaded {
            Ok(kind) => loaded_kind(tag@, record@, sources_view(sources@), depth as nat) == Ok::<
                NodeKind,
                LoadFailure,
            >(kind_view(kind)),
            Err(error) => loaded_kind(tag@, record@, sources_view(sources@), depth as nat) == Err::<
                NodeKind,
                LoadFailure,
            >(error@),
        },
    decreases depth, record, 1nat,
{
    if same_text(tag.as_str(), "Subtree") {
        let path = match Subtree::path_of(record) {
            Ok(path) => path,
            Err(error) => {
                return Err(LoadError::Property(error));
            },
        };
        let text = match find_source(sources, &path) {
            Some(text) => text,
            None => {
                return Err(LoadError::Unresolved(path));
            },
        };
        if depth == 0 {
            return Err(LoadError::TooDeep(path));
        }
        let document = match read_json(text.as_str()) {
            Ok(document) => document,
            Err(message) => {
                return Err(LoadError::Syntax(message));
            },
        };
        match Node::from_json(&document, sources, depth - 1) {
            Ok(root) => {
                let kind = Kind::Node(Nodes::Subtree(Subtree { path: Box::new(root) }));
                proof {
                    assert(kind_view(kind) == NodeKind::Subtree(Box::new(root@)));
                }
                Ok(kind)
            },
            Err(error) => Err(error),
        }
    } else {
        let kind = match plain(tag.as_str()) {
            Some(kind) => kind,
            None => {
                return Err(LoadError::UnknownType(tag.clone()));
            },
        };
        let shape: Vec<Property> = Vec::new();
        proof {
            assert(crate::schema::shape_view(shape@) =~= Seq::empty());
        }
        match node_properties(record, &shape) {
            Ok(_) => Ok(kind),
            Err(error) => Err(LoadError::Property(error)),
        }
    }
}

/// Loads the children that a record gives to its node.
fn load_children(record: &Json, sources: &Vec<Source>, depth: usize) -> (loaded: Result<
    Option<Vec<Node>>,
    LoadError,
>)
    ensures
        match loaded {
            Ok(Some(nodes)) => loaded_children(record@, sources_view(sources@), depth as nat) == Ok::<
                Option<Seq<NodeModel>>,
                LoadFailure,
            >(Some(nodes_view(nodes@))),
            Ok(None) => loaded_children(record@, sources_view(sources@), depth as nat) == Ok::<
                Option<Seq<NodeModel>>,
                LoadFailure,
            >(None),
            Err(error) => loaded_children(record@, sources_view(sources@), depth as nat) == Err::<
                Option<Seq<NodeModel>>,
                LoadFailure,
            >(error@),
        },
    decreases depth, record, 1nat,
{
    match record.optional("childNodes") {
        None => Ok(None),
        Some(Json::List(items)) => {
            let ghost models = list_view(items@);
            let ghost known = sources_view(sources@);
            proof {
                lemma_list_view(items@);
                assert(record@.optional("childNodes"@) == Some(JsonValue::List(models)));
                assert forall|j: int| 0 <= j < items@.len() implies decreases_to!(record => #[trigger] items@[j]) by {
                    let list = Json::List(*items);
                    assert(decreases_to!(record => list));
                    assert(decreases_to!(list => list->List_0));
                    assert(decreases_to!(*items => items@[j]));
                }
            }
            let mut nodes: Vec<Node> = Vec::new();
            let mut i: usize = 0;
            while i < items.len()
                invariant
                    i <= items.len(),
                    models.len() == items@.len(),
                    forall|j: int| 0 <= j < items@.len() ==> (#[trigger] models[j]) == items@[j]@,
                    forall|j: int| 0 <= j < items@.len() ==> decreases_to!(record => #[trigger] items@[j]),
                    record@.optional("childNodes"@) == Some(JsonValue::List(models)),
                    known == sources_view(sources@),
                    loaded_nodes(models, known, depth as nat, i as nat) == Ok::<Seq<NodeModel>, LoadFailure>(
                        nodes_view(nodes@),
                    ),
                decreases items.len() - i,
            {
                match Node::from_json(&items[i], sources, depth) {
                    Ok(node) => {
                        let ghost before = nodes@;
                        nodes.push(node);
                        proof {
                            assert(nodes@.drop_last() =~= before);
                            assert(nodes_view(nodes@) == nodes_view(before).push(node@));
                        }
                    },
                    Err(error) => {
                        proof {
                            lemma_loaded_nodes_failure(models, known, depth as nat, (i + 1) as nat);
                        }
                        return Err(error);
                    },
                }
                i += 1;
            }
            Ok(Some(nodes))
        },
        Some(_) => Err(LoadError::Malformed(Part::ChildNodes)),
    }
}

impl Node {
    /// A decorator has exactly one child.
    #[verifier::type_invariant]
    spec fn well_formed(&self) -> bool {
        self.typ is Decorator ==> (self.children matches Some(children) && children@.len() == 1)
    }

    /// What the view of a node is made of.
    proof fn lemma_view(&self)
        ensures
            self@.kind == kind_view(self.typ),
            self.typ matches Kind::Node(Nodes::Sequence(_)) ==> self@.kind == NodeKind::Sequence,
            self.typ matches Kind::Node(Nodes::Selector(_)) ==> self@.kind == NodeKind::Selector,
            self.typ matches Kind::Node(Nodes::Subtree(subtree)) ==> self@.kind == NodeKind::Subtree(
                Box::new((*subtree.path)@),
            ),
            self.typ is Decorator ==> self@.kind.is_decorator(),
            self.typ matches Kind::Decorator(Decorators::Failure(_)) ==> self@.kind == NodeKind::Failure,
            self.typ matches Kind::Decorator(Decorators::Success(_)) ==> self@.kind == NodeKind::Success,
            self.typ matches Kind::Decorator(Decorators::Invert(_)) ==> self@.kind == NodeKind::Invert,
            self.children is None ==> self@.children is None,
            self.children matches Some(children) ==> {
                &&& self@.children == Some(nodes_view(children@))
                &&& nodes_view(children@).len() == children@.len()
                &&& reports(nodes_view(children@)).len() == children@.len()
                &&& forall|i: int|
                    0 <= i < children@.len() ==> (#[trigger] nodes_view(children@)[i]) == children@[i]@
                &&& forall|i: int|
                    0 <= i < children@.len() ==> (#[trigger] reports(nodes_view(children@))[i])
                        == children@[i]@.status()
            },
    {
        if self.children is Some {
            let children = self.children->Some_0;
            lemma_nodes_view(children@);
            lemma_reports(nodes_view(children@));
        }
    }

    /// Loads the node that a record stands for. A subtree is resolved among the
    /// sources, and subtrees are nested `depth` deep at most.
    pub fn from_json(record: &Json, sources: &Vec<Source>, depth: usize) -> (loaded: Result<Node, LoadError>)
        ensures
            node_outcome(loaded) == loaded_node(record@, sources_view(sources@), depth as nat),
        decreases depth, record, 2nat,
    {
        if record.kind() != JsonKind::Record {
            return Err(LoadError::Malformed(Part::Record));
        }
        let tag = match record.member("type") {
            Some(Json::Text(tag)) => tag,
            _ => {
                return Err(LoadError::Malformed(Part::Type));
            },
        };
        let typ = match load_kind(tag, record, sources, depth) {
            Ok(typ) => typ,
            Err(error) => {
                return Err(error);
            },
        };
        let services = match load_services(record) {
            Ok(services) => services,
            Err(error) => {
                return Err(error);
            },
        };
        let children = match load_children(record, sources, depth) {
            Ok(children) => children,
            Err(error) => {
                return Err(error);
            },
        };
        let single = match &children {
            Some(nodes) => nodes.len() == 1,
            None => false,
        };
        let decorator = match &typ {
            Kind::Decorator(_) => true,
            Kind::Node(_) => false,
        };
        proof {
            if children is Some {
                lemma_nodes_view(children->Some_0@);
            }
            assert(decorator == kind_view(typ).is_decorator());
        }
        if decorator && !single {
            return Err(LoadError::Arity(tag.clone()));
        }
        Ok(Node { typ, children, services })
    }

    /// Reads a text as the record of a node, with the sources for the subtrees
    /// beside it.
    pub fn from_sources(json: &str, sources: &Vec<Source>) -> (loaded: Result<Node, LoadError>)
        ensures
            node_outcome(loaded) == read_node(json@, sources_view(sources@)),
    {
        match read_json(json) {
            Ok(document) => Node::from_json(&document, sources, sources.len()),
            Err(message) => Err(LoadError::Syntax(message)),
        }
    }

    /// Reads a text as the record of a node that names no subtree.
    pub fn from_string(json: &str) -> (loaded: Result<Node, LoadError>)
        ensures
            node_outcome(loaded) == read_node(json@, Seq::empty()),
    {
        let sources: Vec<Source> = Vec::new();
        proof {
            assert(sources_view(sources@) =~= Seq::empty());
        }
        Node::from_sources(json, &sources)
    }

    /// The children, where the node has a list of them.
    pub fn children(&self) -> (children: Option<&Vec<Node>>)
        ensures
            match children {
                Some(nodes) => self@.children == Some(nodes_view(nodes@)),
                None => self@.children is None,
            },
    {
        self.children.as_ref()
    }

    /// The attached services, where the node has a list of them.
    pub fn services(&self) -> (services: Option<&Vec<Services>>)
        ensures
            match services {
                Some(attached) => self@.services == Some(services_view(attached@)),
                None => self@.services is None,
            },
    {
        self.services.as_ref()
    }

    /// The behaviour of the node.
    pub fn kind(&self) -> (kind: &Kind)
        ensures
            kind_view(*kind) == self@.kind,
    {
        &self.typ
    }

    /// Serves the attached services, each once and in their order. What they
    /// report does not touch the status of the node.
    fn serve(&self) {
        if let Some(services) = &self.services {
            let mut i: usize = 0;
            while i < services.len()
                invariant
                    i <= services.len(),
                decreases services.len() - i,
            {
                let _ = services[i].serve();
                i += 1;
            }
        }
    }

    /// Ticks the children in their order for as long as they report `pass`, and
    /// hands out the first other report.
    fn tick_while(&self, pass: Status) -> (stop: Option<Status>)
        requires
            self.children is Some,
        ensures
            match stop {
                Some(status) => {
                    &&& first_other(reports(self@.children->0), pass) < self@.children->0.len()
                    &&& status == reports(self@.children->0)[first_other(reports(self@.children->0), pass)]
                },
                None => first_other(reports(self@.children->0), pass) == self@.children->0.len(),
            },
        decreases self, 0nat,
    {
        let children = match &self.children {
            Some(children) => children,
            None => unreached(),
        };
        let ghost models = nodes_view(children@);
        let ghost told = reports(models);
        proof {
            lemma_nodes_view(children@);
            lemma_reports(models);
            assert(self@.children == Some(models));
        }
        let mut i: usize = 0;
        while i < children.len()
            invariant
                i <= children.len(),
                self.children == Some(*children),
                self@.children == Some(models),
                models == nodes_view(children@),
                told == reports(models),
                told.len() == children@.len(),
                models.len() == children@.len(),
                forall|j: int| 0 <= j < children@.len() ==> (#[trigger] told[j]) == children@[j]@.status(),
                forall|j: int| 0 <= j < i ==> told[j] == pass,
            decreases children.len() - i,
        {
            proof {
                assert(decreases_to!(self => self.children));
                assert(decreases_to!(self.children => self.children->Some_0));
                assert(decreases_to!(*children => children@[i as int]));
            }
            let status = children[i].tick();
            if status != pass {
                proof {
                    assert(told[i as int] == status);
                    lemma_first_other(told, pass, i as int);
                }
                return Some(status);
            }
            i += 1;
        }
        proof {
            lemma_first_other(told, pass, i as int);
        }
        None
    }

    /// Serves the attached services, each once and in their order, and logs
    /// each with what it reports.
    fn serve_logged(&self, log: &mut Vec<Served>)
        ensures
            log_view(final(log)@) == log_view(old(log)@) + served(self@.services),
    {
        let ghost start = log_view(log@);
        match &self.services {
            Some(services) => {
                let ghost models = services_view(services@);
                proof {
                    assert(self@.services == Some(models));
                    assert(log_view(log@) =~= start + served(Some(models)).take(0));
                }
                let mut i: usize = 0;
                while i < services.len()
                    invariant
                        i <= services.len(),
                        models == services_view(services@),
                        self@.services == Some(models),
                        log_view(log@) == start + served(Some(models)).take(i as int),
                    decreases services.len() - i,
                {
                    let status = services[i].serve();
                    let ghost before = log_view(log@);
                    log.push(Served { service: services[i].duplicate(), status });
                    proof {
                        assert(log_view(log@) =~= before.push((models[i as int], Status::Success)));
                        assert(before.push((models[i as int], Status::Success)) =~= start + served(
                            Some(models),
                        ).take(i + 1));
                    }
                    i += 1;
                }
                proof {
                    assert(served(Some(models)).take(i as int) =~= served(Some(models)));
                }
            },
            None => {
                proof {
                    assert(self@.services is None);
                    assert(log_view(log@) =~= start + Seq::<(ServiceModel, Status)>::empty());
                }
            },
        }
    }

    /// As [`Node::tick_while`], with a log of the services that were served.
    fn tick_while_logged(&self, pass: Status, log: &mut Vec<Served>) -> (stop: Option<Status>)
        requires
            self.children is Some,
        ensures
            match stop {
                Some(status) => {
                    &&& first_other(reports(self@.children->0), pass) < self@.children->0.len()
                    &&& status == reports(self@.children->0)[first_other(reports(self@.children->0), pass)]
                    &&& log_view(final(log)@) == log_view(old(log)@) + traces(
                        self@.children->0,
                        (first_other(reports(self@.children->0), pass) + 1) as nat,
                    )
                },
                None => {
                    &&& first_other(reports(self@.children->0), pass) == self@.children->0.len()
                    &&& log_view(final(log)@) == log_view(old(log)@) + traces(
                        self@.children->0,
                        self@.children->0.len(),
                    )
                },
            },
        decreases self, 0nat,
    {
        let children = match &self.children {
            Some(children) => children,
            None => unreached(),
        };
        let ghost start = log_view(log@);
        let ghost models = nodes_view(children@);
        let ghost told = reports(models);
        proof {
            lemma_nodes_view(children@);
            lemma_reports(models);
            assert(self@.children == Some(models));
            assert(log_view(log@) =~= start + traces(models, 0));
        }
        let mut i: usize = 0;
        while i < children.len()
            invariant
                i <= children.len(),
                self.children == Some(*children),
                self@.children == Some(models),
                models == nodes_view(children@),
                told == reports(models),
                told.len() == children@.len(),
                models.len() == children@.len(),
                forall|j: int| 0 <= j < children@.len() ==> (#[trigger] told[j]) == children@[j]@.status(),
                forall|j: int| 0 <= j < children@.len() ==> (#[trigger] models[j]) == children@[j]@,
                forall|j: int| 0 <= j < i ==> told[j] == pass,
                start == log_view(old(log)@),
                log_view(log@) == start + traces(models, i as nat),
            decreases children.len() - i,
        {
            proof {
                assert(decreases_to!(self => self.children));
                assert(decreases_to!(self.children => self.children->Some_0));
                assert(decreases_to!(*children => children@[i as int]));
            }
            let ghost before = log_view(log@);
            let status = children[i].tick_logged(log);
            proof {
                assert(before + models[i as int].trace() =~= start + traces(models, (i + 1) as nat));
                assert(log_view(log@) == start + traces(models, (i + 1) as nat));
            }
            if status != pass {
                proof {
                    assert(told[i as int] == status);
                    lemma_first_other(told, pass, i as int);
                }
                return Some(status);
            }
            i += 1;
        }
        proof {
            lemma_first_other(told, pass, i as int);
        }
        None
    }

    /// One tick of the node, as [`Node::tick`] has it, with a log: every service
    /// that is served is added to the log with what it reports. The log shows
    /// which nodes were ticked.
    pub fn tick_logged(&self, log: &mut Vec<Served>) -> (status: Status)
        ensures
            status == self@.status(),
            log_view(final(log)@) == log_view(old(log)@) + self@.trace(),
        decreases self, 1nat,
    {
        let ghost start = log_view(log@);
        self.serve_logged(log);
        let ghost own = served(self@.services);
        proof {
            self.lemma_view();
        }
        match &self.typ {
            Kind::Node(Nodes::Sequence(_)) => {
                let status = if self.children.is_some() {
                    let ghost before = log_view(log@);
                    let stop = self.tick_while_logged(Status::Success, log);
                    proof {
                        let children = self@.children->0;
                        assert(log_view(log@) == before + traces(children, Sequence::ticked(reports(children))));
                        assert(log_view(log@) =~= start + (own + traces(
                            children,
                            Sequence::ticked(reports(children)),
                        )));
                    }
                    match stop {
                        Some(status) => status,
                        None => Status::Success,
                    }
                } else {
                    proof {
                        assert(log_view(log@) =~= start + (own + Seq::<(ServiceModel, Status)>::empty()));
                    }
                    Status::Success
                };
                status
            },
            Kind::Node(Nodes::Selector(_)) => {
                let status = if self.children.is_some() {
                    let ghost before = log_view(log@);
                    let stop = self.tick_while_logged(Status::Failure, log);
                    proof {
                        let children = self@.children->0;
                        assert(log_view(log@) == before + traces(children, Selector::ticked(reports(children))));
                        assert(log_view(log@) =~= start + (own + traces(
                            children,
                            Selector::ticked(reports(children)),
                        )));
                    }
                    match stop {
                        Some(status) => status,
                        None => if self.children.as_ref().unwrap().len() == 0 {
                            Status::Success
                        } else {
                            Status::Failure
                        },
                    }
                } else {
                    proof {
                        assert(log_view(log@) =~= start + (own + Seq::<(ServiceModel, Status)>::empty()));
                    }
                    Status::Success
                };
                status
            },
            Kind::Node(Nodes::Subtree(subtree)) => {
                proof {
                    assert(decreases_to!(self => self.typ));
                    assert(decreases_to!(self.typ => self.typ->Node_0));
                    assert(decreases_to!(self.typ->Node_0 => self.typ->Node_0->Subtree_0));
                    assert(decreases_to!(subtree => subtree.path));
                }
                let ghost before = log_view(log@);
                let status = subtree.path.tick_logged(log);
                proof {
                    assert(before + (*subtree.path)@.trace() =~= start + (own + (*subtree.path)@.trace()));
                }
                status
            },
            Kind::Decorator(decorator) => {
                proof {
                    use_type_invariant(self);
                }
                let children = match &self.children {
                    Some(children) => children,
                    None => unreached(),
                };
                proof {
                    assert(decreases_to!(self => self.children));
                    assert(decreases_to!(self.children => self.children->Some_0));
                    assert(decreases_to!(*children => children@[0]));
                }
                let ghost before = log_view(log@);
                let status = children[0].tick_logged(log);
                proof {
                    assert(before + children@[0]@.trace() =~= start + (own + children@[0]@.trace()));
                }
                decorator.decorate(status)
            },
        }
    }

    /// One tick of the node: the services are served, then the behaviour has its
    /// turn. A sequence and a selector tick their children in order and stop at
    /// the first that decides; a decorator ticks its child and decorates what it
    /// reports.
    pub fn tick(&self) -> (status: Status)
        ensures
            status == self@.status(),
        decreases self, 1nat,
    {
        self.serve();
        proof {
            self.lemma_view();
        }
        match &self.typ {
            Kind::Node(Nodes::Sequence(_)) => {
                if self.children.is_some() {
                    match self.tick_while(Status::Success) {
                        Some(status) => status,
                        None => Status::Success,
                    }
                } else {
                    Status::Success
                }
            },
            Kind::Node(Nodes::Selector(_)) => {
                if self.children.is_some() {
                    match self.tick_while(Status::Failure) {
                        Some(status) => status,
                        None => if self.children.as_ref().unwrap().len() == 0 {
                            Status::Success
                        } else {
                            Status::Failure
                        },
                    }
                } else {
                    Status::Success
                }
            },
            Kind::Node(Nodes::Subtree(subtree)) => {
                proof {
                    assert(decreases_to!(self => self.typ));
                    assert(decreases_to!(self.typ => self.typ->Node_0));
                    assert(decreases_to!(self.typ->Node_0 => self.typ->Node_0->Subtree_0));
                    assert(decreases_to!(subtree => subtree.path));
                }
                subtree.path.tick()
            },
            Kind::Decorator(decorator) => {
                proof {
                    use_type_invariant(self);
                }
                let children = match &self.children {
                    Some(children) => children,
                    None => unreached(),
                };
                proof {
                    assert(decreases_to!(self => self.children));
                    assert(decreases_to!(self.children => self.children->Some_0));
                    assert(decreases_to!(*children => children@[0]));
                }
                let status = children[0].tick();
                decorator.decorate(status)
            },
        }
    }
}

impl crate::traits::Node for Node {
    open spec fn plain(&self) -> bool {
        false
    }

    fn tick(&self) -> (status: Status)
        ensures
            status == self@.status(),
    {
        Node::tick(self)
    }
}

impl Tree {
    /// Loads the tree that a record stands for.
    pub fn from_json(record: &Json, sources: &Vec<Source>, depth: usize) -> (loaded: Result<Tree, LoadError>)
        ensures
            tree_outcome(loaded) == loaded_tree(record@, sources_view(sources@), depth as nat),
    {
        if record.kind() != JsonKind::Record {
            return Err(LoadError::Malformed(Part::Record));
        }
        let name = match record.member("name") {
            Some(Json::Text(name)) => name.clone(),
            _ => {
                return Err(LoadError::Malformed(Part::Name));
            },
        };
        match Node::from_json(record, sources, depth) {
            Ok(root) => Ok(Tree { root, name }),
            Err(error) => Err(error),
        }
    }

    /// Reads a text as the record of a tree, with the sources for the subtrees
    /// beside it.
    pub fn from_sources(json: &str, sources: &Vec<Source>) -> (loaded: Result<Tree, LoadError>)
        ensures
            tree_outcome(loaded) == read_tree(json@, sources_view(sources@)),
    {
        match read_json(json) {
            Ok(document) => Tree::from_json(&document, sources, sources.len()),
            Err(message) => Err(LoadError::Syntax(message)),
        }
    }

    /// Reads a text as the record of a tree that names no subtree.
    pub fn from_string(json: &str) -> (loaded: Result<Tree, LoadError>)
        ensures
            tree_outcome(loaded) == read_tree(json@, Seq::empty()),
    {
        let sources: Vec<Source> = Vec::new();
        proof {
            assert(sources_view(sources@) =~= Seq::empty());
        }
        Tree::from_sources(json, &sources)
    }

    /// One tick of the tree: one tick of its root.
    pub fn tick(&self) -> (status: Status)
        ensures
            status == self@.status(),
    {
        self.root.tick()
    }

    /// One tick of the tree, with a log of the services that were served.
    pub fn tick_logged(&self, log: &mut Vec<Served>) -> (status: Status)
        ensures
            status == self@.status(),
            log_view(final(log)@) == log_view(old(log)@) + self@.root.trace(),
    {
        self.root.tick_logged(log)
    }

    pub fn name(&self) -> (name: &String)
        ensures
            name@ == self@.name,
    {
        &self.name
    }

    pub fn root(&self) -> (root: &Node)
        ensures
            root@ == self@.root,
    {
        &self.root
    }
}

impl crate::traits::Node for Tree {
    open spec fn plain(&self) -> bool {
        false
    }

    fn tick(&self) -> (status: Status)
        ensures
            status == self@.status(),
    {
        Tree::tick(self)
    }
}

} // verus!
