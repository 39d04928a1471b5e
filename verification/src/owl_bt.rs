//! The closed type system of the behaviours that are always there: one union
//! for each kind, one variant for each definition.

use vstd::prelude::*;
use vstd::string::StringExecFns;
use crate::json::same_text;
use crate::schema::{
    definition_names, definitions_view, shape_view, Definition, DefinitionModel, Property, PropertyModel, Schema,
    SchemaModel,
};
use crate::standard::{Comment, Failure, Invert, Selector, Sequence, Subtree, Success};
use crate::traits::{Decorator, Node, Service, Status};

verus! {

/// The nodes.
#[derive(Debug)]
pub enum Nodes {
    Sequence(Sequence),
    Selector(Selector),
    Subtree(Subtree),
}

/// The services.
#[derive(Debug)]
pub enum Services {
    Comment(Comment),
}

/// The decorators.
#[derive(Debug)]
pub enum Decorators {
    Failure(Failure),
    Success(Success),
    Invert(Invert),
}

/// The mathematical content of a [`Services`].
pub ghost enum ServiceModel {
    Comment(Seq<char>),
}

impl View for Services {
    type V = ServiceModel;

    open spec fn view(&self) -> ServiceModel {
        match self {
            Services::Comment(comment) => ServiceModel::Comment(comment@),
        }
    }
}

/// The views of the services of a sequence, in order.
pub open spec fn services_view(services: Seq<Services>) -> Seq<ServiceModel> {
    Seq::new(services.len(), |i: int| services[i]@)
}

impl Services {
    /// A service of the same content.
    pub fn duplicate(&self) -> (copy: Services)
        ensures
            copy@ == self@,
    {
        match self {
            Services::Comment(comment) => Services::Comment(comment.duplicate()),
        }
    }
}

/// A service that was served, with what it reported.
#[derive(Debug)]
pub struct Served {
    pub service: Services,
    pub status: Status,
}

impl View for Served {
    type V = (ServiceModel, Status);

    open spec fn view(&self) -> (ServiceModel, Status) {
        (self.service@, self.status)
    }
}

/// The views of the entries of a log, in order.
pub open spec fn log_view(log: Seq<Served>) -> Seq<(ServiceModel, Status)> {
    Seq::new(log.len(), |i: int| log[i]@)
}

impl Nodes {
    /// The status of the node by itself, which has no children.
    pub open spec fn status(&self) -> Status {
        match self {
            Nodes::Sequence(_) => Status::Success,
            Nodes::Selector(_) => Status::Success,
            Nodes::Subtree(subtree) => subtree.root()@.status(),
        }
    }
}

impl Node for Nodes {
    open spec fn plain(&self) -> bool {
        match self {
            Nodes::Sequence(sequence) => sequence.plain(),
            Nodes::Selector(selector) => selector.plain(),
            Nodes::Subtree(subtree) => subtree.plain(),
        }
    }

    fn tick(&self) -> (status: Status)
        ensures
            status == self.status(),
    {
        match self {
            Nodes::Sequence(sequence) => sequence.tick(),
            Nodes::Selector(selector) => selector.tick(),
            Nodes::Subtree(subtree) => subtree.tick(),
        }
    }
}

impl Service for Services {
    open spec fn plain(&self) -> bool {
        match self {
            Services::Comment(comment) => comment.plain(),
        }
    }

    fn serve(&self) -> (status: Status)
        ensures
            status == Status::Success,
    {
        match self {
            Services::Comment(comment) => comment.serve(),
        }
    }
}

impl Decorators {
    /// What the decorator makes of the status of its child.
    pub open spec fn decorated(&self, status: Status) -> Status {
        match self {
            Decorators::Failure(_) => Status::Failure,
            Decorators::Success(_) => Status::Success,
            Decorators::Invert(_) => Invert::inverse(status),
        }
    }

    /// The decorator that a type tag selects.
    pub open spec fn tagged(tag: Seq<char>) -> Option<Decorators> {
        if tag == "Failure"@ {
            Some(Decorators::Failure(Failure {  }))
        } else if tag == "Success"@ {
            Some(Decorators::Success(Success {  }))
        } else if tag == "Invert"@ {
            Some(Decorators::Invert(Invert {  }))
        } else {
            None
        }
    }

    pub fn named(tag: &str) -> (found: Option<Decorators>)
        ensures
            found == Self::tagged(tag@),
    {
        if same_text(tag, "Failure") {
            Some(Decorators::Failure(Failure {  }))
        } else if same_text(tag, "Success") {
            Some(Decorators::Success(Success {  }))
        } else if same_text(tag, "Invert") {
            Some(Decorators::Invert(Invert {  }))
        } else {
            None
        }
    }
}

impl Decorator for Decorators {
    open spec fn plain(&self) -> bool {
        false
    }

    fn decorate(&self, status: Status) -> (decorated: Status)
        ensures
            decorated == self.decorated(status),
    {
        assert(!self.plain());
        match self {
            Decorators::Failure(decorator) => decorator.decorate(status),
            Decorators::Success(decorator) => decorator.decorate(status),
            Decorators::Invert(decorator) => decorator.decorate(status),
        }
    }
}

/// The failure decorator and the success decorator return their constant
/// whatever the child reports; the inverter swaps success and failure and
/// leaves a running child running.
pub proof fn law_decorators(decorator: Decorators, status: Status)
    ensures
        decorator is Failure ==> decorator.decorated(status) == Status::Failure,
        decorator is Success ==> decorator.decorated(status) == Status::Success,
        decorator is Invert ==> decorator.decorated(Status::Success) == Status::Failure,
        decorator is Invert ==> decorator.decorated(Status::Failure) == Status::Success,
        decorator is Invert ==> decorator.decorated(Status::Running) == Status::Running,
{
}

/// The definition of a behaviour that is always there: it comes from the
/// module `standard`.
pub open spec fn standard(name: Seq<char>, is_composite: bool, properties: Seq<PropertyModel>) -> DefinitionModel {
    DefinitionModel { name, module: "standard"@, is_composite, properties }
}

/// The schema of the behaviours that are always there: the one that the
/// unions of this module are the type system of.
pub open spec fn standard_schema() -> SchemaModel {
    SchemaModel {
        nodes: seq![
            standard("Sequence"@, true, Seq::empty()),
            standard("Selector"@, true, Seq::empty()),
            standard("Subtree"@, false, Subtree::declared()),
        ],
        decorators: seq![
            standard("Failure"@, false, Seq::empty()),
            standard("Success"@, false, Seq::empty()),
            standard("Invert"@, false, Seq::empty()),
        ],
        services: seq![standard("Comment"@, false, Comment::declared())],
        properties: Seq::empty(),
    }
}

/// One definition of the schema of this module.
fn define(name: &str, is_composite: bool, properties: Vec<Property>) -> (definition: Definition)
    ensures
        definition@ == standard(name@, is_composite, shape_view(properties@)),
{
    Definition { name: String::from_str(name), module: String::from_str("standard"), is_composite, properties }
}

impl Schema {
    /// The schema of the behaviours that are always there.
    pub fn standard() -> (schema: Schema)
        ensures
            schema@ == standard_schema(),
    {
        let mut nodes: Vec<Definition> = Vec::new();
        let mut decorators: Vec<Definition> = Vec::new();
        let mut services: Vec<Definition> = Vec::new();
        let properties: Vec<Property> = Vec::new();
        let none: Vec<Property> = Vec::new();
        proof {
            assert(shape_view(none@) =~= Seq::empty());
        }
        nodes.push(define("Sequence", true, Vec::new()));
        nodes.push(define("Selector", true, Vec::new()));
        nodes.push(define("Subtree", false, Subtree::shape()));
        decorators.push(define("Failure", false, Vec::new()));
        decorators.push(define("Success", false, Vec::new()));
        decorators.push(define("Invert", false, Vec::new()));
        services.push(define("Comment", false, Comment::shape()));
        proof {
            assert(definitions_view(nodes@) =~= standard_schema().nodes);
            assert(definitions_view(decorators@) =~= standard_schema().decorators);
            assert(definitions_view(services@) =~= standard_schema().services);
            assert(shape_view(properties@) =~= standard_schema().properties);
        }
        Schema { nodes, decorators, services, properties }
    }
}

/// The unions of this module and the schema of this module go together: a
/// type tag selects a decorator exactly where the schema defines a decorator
/// of that name, and a service is loaded as a comment exactly under the name
/// of the one service that the schema defines, with the shape that the schema
/// declares for it.
pub proof fn law_unions_follow_the_schema(tag: Seq<char>)
    ensures
        Decorators::tagged(tag) is Some <==> definition_names(standard_schema().decorators).contains(tag),
        tag == "Comment"@ <==> definition_names(standard_schema().services).contains(tag),
        standard_schema().services[0].properties == Comment::declared(),
        standard_schema().nodes[2].properties == Subtree::declared(),
{
    let decorators = definition_names(standard_schema().decorators);
    let services = definition_names(standard_schema().services);
    assert(decorators[0] == "Failure"@ && decorators[1] == "Success"@ && decorators[2] == "Invert"@);
    assert(services[0] == "Comment"@);
}

} // verus!
