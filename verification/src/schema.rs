//! The catalogue of behaviours: what a schema declares.

use vstd::prelude::*;
use vstd::string::StringExecFns;
use crate::fold::{collect, lemma_collect_failure, lemma_collect_results, lemma_collect_step};
use crate::json::{json_reading, lemma_list_view, list_view, read_json, same_text, Json, JsonKind, JsonValue};

verus! {

/// The views of the texts of a sequence, in order.
pub open spec fn texts(items: Seq<String>) -> Seq<Seq<char>> {
    Seq::new(items.len(), |i: int| items[i]@)
}

/// The view of a text that may be absent.
pub open spec fn optional_text(text: Option<String>) -> Option<Seq<char>> {
    match text {
        Some(text) => Some(text@),
        None => None,
    }
}

/// The four kinds of property that a definition can declare.
#[derive(Debug, Clone, Copy, PartialEq, Eq, Structural)]
pub enum PropertyKind {
    String,
    Number,
    Bool,
    Enum,
}

/// The declaration of one property of a definition.
#[derive(Debug)]
#[allow(inconsistent_fields)]
pub enum Property {
    String { name: String, default: Option<String> },
    Number { name: String, default: Option<i64>, max: Option<i64>, min: Option<i64> },
    Bool { name: String, default: Option<bool> },
    Enum { name: String, default: Option<String>, values: Option<Vec<String>> },
}

/// The mathematical content of a [`Property`].
#[allow(inconsistent_fields)]
pub ghost enum PropertyModel {
    String { name: Seq<char>, default: Option<Seq<char>> },
    Number { name: Seq<char>, default: Option<i64>, max: Option<i64>, min: Option<i64> },
    Bool { name: Seq<char>, default: Option<bool> },
    Enum { name: Seq<char>, default: Option<Seq<char>>, values: Option<Seq<Seq<char>>> },
}

impl PropertyModel {
    pub open spec fn name(self) -> Seq<char> {
        match self {
            PropertyModel::String { name, .. } => name,
            PropertyModel::Number { name, .. } => name,
            PropertyModel::Bool { name, .. } => name,
            PropertyModel::Enum { name, .. } => name,
        }
    }

    pub open spec fn kind(self) -> PropertyKind {
        match self {
            PropertyModel::String { .. } => PropertyKind::String,
            PropertyModel::Number { .. } => PropertyKind::Number,
            PropertyModel::Bool { .. } => PropertyKind::Bool,
            PropertyModel::Enum { .. } => PropertyKind::Enum,
        }
    }
}

impl View for Property {
    type V = PropertyModel;

    open spec fn view(&self) -> PropertyModel {
        match self {
            Property::String { name, default } => PropertyModel::String {
                name: name@,
                default: optional_text(*default),
            },
            Property::Number { name, default, max, min } => PropertyModel::Number {
                name: name@,
                default: *default,
                max: *max,
                min: *min,
            },
            Property::Bool { name, default } => PropertyModel::Bool { name: name@, default: *default },
            Property::Enum { name, default, values } => PropertyModel::Enum {
                name: name@,
                default: optional_text(*default),
                values: match values {
                    Some(values) => Some(texts(values@)),
                    None => None,
                },
            },
        }
    }
}

/// The views of the declarations of a sequence, in order.
pub open spec fn shape_view(shape: Seq<Property>) -> Seq<PropertyModel> {
    Seq::new(shape.len(), |i: int| shape[i]@)
}

impl Property {
    pub fn name(&self) -> (name: &String)
        ensures
            name@ == self@.name(),
    {
        match self {
            Property::String { name, .. } => name,
            Property::Number { name, .. } => name,
            Property::Bool { name, .. } => name,
            Property::Enum { name, .. } => name,
        }
    }

    pub fn kind(&self) -> (kind: PropertyKind)
        ensures
            kind == self@.kind(),
    {
        match self {
            Property::String { .. } => PropertyKind::String,
            Property::Number { .. } => PropertyKind::Number,
            Property::Bool { .. } => PropertyKind::Bool,
            Property::Enum { .. } => PropertyKind::Enum,
        }
    }
}

/// The three kinds of definition.
#[derive(Debug, Clone, Copy, PartialEq, Eq, Structural)]
pub enum DefinitionKind {
    Node,
    Service,
    Decorator,
}

/// The definition of one behaviour: its name, the module that implements it,
/// whether its instances may own children (a node's matter), and the
/// properties that it declares.
#[derive(Debug)]
pub struct Definition {
    pub name: String,
    pub module: String,
    pub is_composite: bool,
    pub properties: Vec<Property>,
}

/// A schema: the definitions of each kind, and the properties that are
/// declared for all of them.
#[derive(Debug)]
pub struct Schema {
    pub nodes: Vec<Definition>,
    pub decorators: Vec<Definition>,
    pub services: Vec<Definition>,
    pub properties: Vec<Property>,
}

/// The mathematical content of a [`Definition`].
pub ghost struct DefinitionModel {
    pub name: Seq<char>,
    pub module: Seq<char>,
    pub is_composite: bool,
    pub properties: Seq<PropertyModel>,
}

/// The mathematical content of a [`Schema`].
pub ghost struct SchemaModel {
    pub nodes: Seq<DefinitionModel>,
    pub decorators: Seq<DefinitionModel>,
    pub services: Seq<DefinitionModel>,
    pub properties: Seq<PropertyModel>,
}

impl View for Definition {
    type V = DefinitionModel;

    open spec fn view(&self) -> DefinitionModel {
        DefinitionModel {
            name: self.name@,
            module: self.module@,
            is_composite: self.is_composite,
            properties: shape_view(self.properties@),
        }
    }
}

/// The views of the definitions of a sequence, in order.
pub open spec fn definitions_view(definitions: Seq<Definition>) -> Seq<DefinitionModel> {
    Seq::new(definitions.len(), |i: int| definitions[i]@)
}

impl View for Schema {
    type V = SchemaModel;

    open spec fn view(&self) -> SchemaModel {
        SchemaModel {
            nodes: definitions_view(self.nodes@),
            decorators: definitions_view(self.decorators@),
            services: definitions_view(self.services@),
            properties: shape_view(self.properties@),
        }
    }
}

/// The names that the declarations of a sequence declare, in order.
pub open spec fn property_names(shape: Seq<PropertyModel>) -> Seq<Seq<char>> {
    Seq::new(shape.len(), |i: int| shape[i].name())
}

/// The names of the definitions of a sequence, in order.
pub open spec fn definition_names(definitions: Seq<DefinitionModel>) -> Seq<Seq<char>> {
    Seq::new(definitions.len(), |i: int| definitions[i].name)
}

/// The first name of a sequence that stood in it before.
pub open spec fn first_repeat(names: Seq<Seq<char>>) -> Option<Seq<char>>
    decreases names.len(),
{
    if names.len() == 0 {
        None
    } else {
        match first_repeat(names.drop_last()) {
            Some(name) => Some(name),
            None => if names.drop_last().contains(names.last()) {
                Some(names.last())
            } else {
                None
            },
        }
    }
}

/// No name repeats exactly where no two names of the sequence are the same.
pub proof fn lemma_first_repeat(names: Seq<Seq<char>>)
    ensures
        first_repeat(names) is None <==> names.no_duplicates(),
    decreases names.len(),
{
    if names.len() > 0 {
        let front = names.drop_last();
        lemma_first_repeat(front);
        if first_repeat(names) is None {
            assert forall|i: int, j: int| 0 <= i < names.len() && 0 <= j < names.len() && i != j implies names[i]
                != names[j] by {
                if i < front.len() && j < front.len() {
                    assert(front[i] == names[i] && front[j] == names[j]);
                } else if i < front.len() {
                    assert(front[i] == names[i]);
                } else {
                    assert(front[j] == names[j]);
                }
            }
        } else if first_repeat(front) is Some {
            let (i, j) = choose|i: int, j: int|
                0 <= i < front.len() && 0 <= j < front.len() && i != j && front[i] == front[j];
            assert(names[i] == names[j]);
        } else {
            let i = choose|i: int| 0 <= i < front.len() && front[i] == names.last();
            assert(names[i] == names[names.len() - 1]);
        }
    }
}

/// A repeat among the first names is the first repeat of them all.
pub proof fn lemma_first_repeat_found(names: Seq<Seq<char>>, count: int)
    requires
        0 <= count <= names.len(),
        first_repeat(names.take(count)) is Some,
    ensures
        first_repeat(names) == first_repeat(names.take(count)),
    decreases names.len() - count,
{
    if count < names.len() {
        assert(names.take(count + 1).drop_last() =~= names.take(count));
        lemma_first_repeat_found(names, count + 1);
    } else {
        assert(names.take(count) =~= names);
    }
}

/// The part of a schema that is absent or of another form than it must have.
#[derive(Debug, Clone, Copy, PartialEq, Eq, Structural)]
pub enum SchemaPart {
    /// The schema, a definition or a declaration is no object.
    Record,
    /// The list under `nodes`.
    Nodes,
    /// The list under `decorators`.
    Decorators,
    /// The list under `services`.
    Services,
    /// A list under `properties`.
    Properties,
    /// The text under `name`.
    Name,
    /// The text under `module`.
    Module,
    /// The flag under `isComposite`.
    Composite,
    /// The text under `type`.
    Type,
    /// The value under `default`.
    Default,
    /// The number under `max`.
    Max,
    /// The number under `min`.
    Min,
    /// The list of texts under `values`.
    Values,
}

/// Why a schema was refused.
#[derive(Debug, PartialEq, Eq)]
pub enum SchemaError {
    /// The text is no JSON; the reader's message.
    Syntax(String),
    Malformed(SchemaPart),
    /// A declaration is of this kind, which is none of the four.
    UnknownKind(String),
    /// Two definitions of one kind have this name.
    DuplicateDefinition { kind: DefinitionKind, name: String },
    /// Two declarations of one definition have this name.
    DuplicateProperty(String),
}

/// The mathematical content of a [`SchemaError`].
pub ghost enum SchemaFailure {
    Syntax(Seq<char>),
    Malformed(SchemaPart),
    UnknownKind(Seq<char>),
    DuplicateDefinition { kind: DefinitionKind, name: Seq<char> },
    DuplicateProperty(Seq<char>),
}

impl View for SchemaError {
    type V = SchemaFailure;

    open spec fn view(&self) -> SchemaFailure {
        match self {
            SchemaError::Syntax(message) => SchemaFailure::Syntax(message@),
            SchemaError::Malformed(part) => SchemaFailure::Malformed(*part),
            SchemaError::UnknownKind(kind) => SchemaFailure::UnknownKind(kind@),
            SchemaError::DuplicateDefinition { kind, name } => SchemaFailure::DuplicateDefinition {
                kind: *kind,
                name: name@,
            },
            SchemaError::DuplicateProperty(name) => SchemaFailure::DuplicateProperty(name@),
        }
    }
}

/// The text that a record must hold under a key.
pub open spec fn text_under(record: JsonValue, key: Seq<char>, part: SchemaPart) -> Result<
    Seq<char>,
    SchemaFailure,
> {
    match record.member(key) {
        Some(JsonValue::Text(text)) => Ok(text),
        _ => Err(SchemaFailure::Malformed(part)),
    }
}

/// The text that a record may hold under a key.
pub open spec fn text_if_under(record: JsonValue, key: Seq<char>, part: SchemaPart) -> Result<
    Option<Seq<char>>,
    SchemaFailure,
> {
    match record.optional(key) {
        None => Ok(None),
        Some(JsonValue::Text(text)) => Ok(Some(text)),
        Some(_) => Err(SchemaFailure::Malformed(part)),
    }
}

/// The whole number that a record may hold under a key.
pub open spec fn number_if_under(record: JsonValue, key: Seq<char>, part: SchemaPart) -> Result<
    Option<i64>,
    SchemaFailure,
> {
    match record.optional(key) {
        None => Ok(None),
        Some(JsonValue::Number(Some(number))) => Ok(Some(number)),
        Some(_) => Err(SchemaFailure::Malformed(part)),
    }
}

/// The flag that a record may hold under a key.
pub open spec fn flag_if_under(record: JsonValue, key: Seq<char>, part: SchemaPart) -> Result<
    Option<bool>,
    SchemaFailure,
> {
    match record.optional(key) {
        None => Ok(None),
        Some(JsonValue::Bool(flag)) => Ok(Some(flag)),
        Some(_) => Err(SchemaFailure::Malformed(part)),
    }
}

/// The list of texts that a record may hold under a key.
pub open spec fn texts_if_under(record: JsonValue, key: Seq<char>, part: SchemaPart) -> Result<
    Option<Seq<Seq<char>>>,
    SchemaFailure,
> {
    match record.optional(key) {
        None => Ok(None),
        Some(JsonValue::List(items)) => if forall|i: int| 0 <= i < items.len() ==> (#[trigger] items[i]) is Text {
            Ok(Some(Seq::new(items.len(), |i: int| items[i]->Text_0)))
        } else {
            Err(SchemaFailure::Malformed(part))
        },
        Some(_) => Err(SchemaFailure::Malformed(part)),
    }
}

/// The kind of property that a type tag names.
pub open spec fn kind_tagged(tag: Seq<char>) -> Option<PropertyKind> {
    if tag == "string"@ || tag == "String"@ {
        Some(PropertyKind::String)
    } else if tag == "number"@ || tag == "Number"@ {
        Some(PropertyKind::Number)
    } else if tag == "bool"@ || tag == "Bool"@ {
        Some(PropertyKind::Bool)
    } else if tag == "enum"@ || tag == "Enum"@ {
        Some(PropertyKind::Enum)
    } else {
        None
    }
}

/// The declaration that one item of a `properties` list of the schema stands
/// for: its name, its kind, and what the kind may carry.
pub open spec fn declared_property(item: JsonValue) -> Result<PropertyModel, SchemaFailure> {
    if !(item is Record) {
        Err(SchemaFailure::Malformed(SchemaPart::Record))
    } else {
        match text_under(item, "type"@, SchemaPart::Type) {
            Err(failure) => Err(failure),
            Ok(tag) => match kind_tagged(tag) {
                None => Err(SchemaFailure::UnknownKind(tag)),
                Some(kind) => match text_under(item, "name"@, SchemaPart::Name) {
                    Err(failure) => Err(failure),
                    Ok(name) => match kind {
                        PropertyKind::String => match text_if_under(item, "default"@, SchemaPart::Default) {
                            Err(failure) => Err(failure),
                            Ok(default) => Ok(PropertyModel::String { name, default }),
                        },
                        PropertyKind::Number => match number_if_under(item, "default"@, SchemaPart::Default) {
                            Err(failure) => Err(failure),
                            Ok(default) => match number_if_under(item, "max"@, SchemaPart::Max) {
                                Err(failure) => Err(failure),
                                Ok(max) => match number_if_under(item, "min"@, SchemaPart::Min) {
                                    Err(failure) => Err(failure),
                                    Ok(min) => Ok(PropertyModel::Number { name, default, max, min }),
                                },
                            },
                        },
                        PropertyKind::Bool => match flag_if_under(item, "default"@, SchemaPart::Default) {
                            Err(failure) => Err(failure),
                            Ok(default) => Ok(PropertyModel::Bool { name, default }),
                        },
                        PropertyKind::Enum => match text_if_under(item, "default"@, SchemaPart::Default) {
                            Err(failure) => Err(failure),
                            Ok(default) => match texts_if_under(item, "values"@, SchemaPart::Values) {
                                Err(failure) => Err(failure),
                                Ok(values) => Ok(PropertyModel::Enum { name, default, values }),
                            },
                        },
                    },
                },
            },
        }
    }
}

/// `declared_property`, as a function.
pub open spec fn property_loader() -> spec_fn(JsonValue) -> Result<PropertyModel, SchemaFailure> {
    |item: JsonValue| declared_property(item)
}

/// The declarations that a record holds under `properties`: none where it has
/// no such list.
pub open spec fn declared_properties(record: JsonValue) -> Result<Seq<PropertyModel>, SchemaFailure> {
    match record.optional("properties"@) {
        None => Ok(Seq::empty()),
        Some(JsonValue::List(items)) => collect(items, property_loader()),
        Some(_) => Err(SchemaFailure::Malformed(SchemaPart::Properties)),
    }
}

/// Whether a node's record says that its instances may own children: the flag
/// under `isComposite`, or else under `is_composite`.
pub open spec fn composite_flag(item: JsonValue) -> Result<bool, SchemaFailure> {
    match item.member("isComposite"@) {
        Some(JsonValue::Bool(flag)) => Ok(flag),
        Some(_) => Err(SchemaFailure::Malformed(SchemaPart::Composite)),
        None => match item.member("is_composite"@) {
            Some(JsonValue::Bool(flag)) => Ok(flag),
            _ => Err(SchemaFailure::Malformed(SchemaPart::Composite)),
        },
    }
}

/// The definition that one item of a list of definitions stands for. Where it
/// names no module, its module is `standard`. Two of its declarations may not
/// have one name.
pub open spec fn defined(item: JsonValue, kind: DefinitionKind) -> Result<DefinitionModel, SchemaFailure> {
    if !(item is Record) {
        Err(SchemaFailure::Malformed(SchemaPart::Record))
    } else {
        match text_under(item, "name"@, SchemaPart::Name) {
            Err(failure) => Err(failure),
            Ok(name) => match text_if_under(item, "module"@, SchemaPart::Module) {
                Err(failure) => Err(failure),
                Ok(module) => match (if kind == DefinitionKind::Node {
                    composite_flag(item)
                } else {
                    Ok(false)
                }) {
                    Err(failure) => Err(failure),
                    Ok(is_composite) => match declared_properties(item) {
                        Err(failure) => Err(failure),
                        Ok(properties) => match first_repeat(property_names(properties)) {
                            Some(repeated) => Err(SchemaFailure::DuplicateProperty(repeated)),
                            None => Ok(
                                DefinitionModel {
                                    name,
                                    module: match module {
                                        Some(module) => module,
                                        None => "standard"@,
                                    },
                                    is_composite,
                                    properties,
                                },
                            ),
                        },
                    },
                },
            },
        }
    }
}

/// `defined`, as a function of the item.
pub open spec fn definer(kind: DefinitionKind) -> spec_fn(JsonValue) -> Result<DefinitionModel, SchemaFailure> {
    |item: JsonValue| defined(item, kind)
}

/// The definitions of one kind that a schema holds under a key. No two of them
/// may have one name.
pub open spec fn definitions_under(document: JsonValue, key: Seq<char>, part: SchemaPart, kind: DefinitionKind) -> Result<
    Seq<DefinitionModel>,
    SchemaFailure,
> {
    match document.member(key) {
        Some(JsonValue::List(items)) => match collect(items, definer(kind)) {
            Err(failure) => Err(failure),
            Ok(definitions) => match first_repeat(definition_names(definitions)) {
                Some(name) => Err(SchemaFailure::DuplicateDefinition { kind, name }),
                None => Ok(definitions),
            },
        },
        _ => Err(SchemaFailure::Malformed(part)),
    }
}

/// The schema that a document stands for: its nodes, its decorators, its
/// services and the properties for all, each as the document lists them. The
/// first thing that is wrong decides the failure.
pub open spec fn schema_of(document: JsonValue) -> Result<SchemaModel, SchemaFailure> {
    if !(document is Record) {
        Err(SchemaFailure::Malformed(SchemaPart::Record))
    } else {
        match definitions_under(document, "nodes"@, SchemaPart::Nodes, DefinitionKind::Node) {
            Err(failure) => Err(failure),
            Ok(nodes) => match definitions_under(
                document,
                "decorators"@,
                SchemaPart::Decorators,
                DefinitionKind::Decorator,
            ) {
                Err(failure) => Err(failure),
                Ok(decorators) => match definitions_under(
                    document,
                    "services"@,
                    SchemaPart::Services,
                    DefinitionKind::Service,
                ) {
                    Err(failure) => Err(failure),
                    Ok(services) => match declared_properties(document) {
                        Err(failure) => Err(failure),
                        Ok(properties) => Ok(SchemaModel { nodes, decorators, services, properties }),
                    },
                },
            },
        }
    }
}

/// What a text is read as.
pub open spec fn read_schema(text: Seq<char>) -> Result<SchemaModel, SchemaFailure> {
    match json_reading(text) {
        Err(message) => Err(SchemaFailure::Syntax(message)),
        Ok(document) => schema_of(document),
    }
}

impl SchemaModel {
    /// No two definitions of one kind have one name, and no two declarations
    /// of one definition.
    pub open spec fn well_formed(self) -> bool {
        &&& definition_names(self.nodes).no_duplicates()
        &&& definition_names(self.decorators).no_duplicates()
        &&& definition_names(self.services).no_duplicates()
        &&& forall|i: int| 0 <= i < self.nodes.len() ==> property_names((#[trigger] self.nodes[i]).properties).no_duplicates()
        &&& forall|i: int| 0 <= i < self.decorators.len() ==> property_names((#[trigger] self.decorators[i]).properties).no_duplicates()
        &&& forall|i: int| 0 <= i < self.services.len() ==> property_names((#[trigger] self.services[i]).properties).no_duplicates()
    }
}

/// A schema that was read has no two definitions of one kind under one name,
/// and no definition with two declarations under one name.
pub proof fn law_schema_well_formed(document: JsonValue)
    ensures
        schema_of(document) matches Ok(schema) ==> schema.well_formed(),
{
    if let Ok(schema) = schema_of(document) {
        lemma_definitions_under(document, "nodes"@, SchemaPart::Nodes, DefinitionKind::Node);
        lemma_definitions_under(document, "decorators"@, SchemaPart::Decorators, DefinitionKind::Decorator);
        lemma_definitions_under(document, "services"@, SchemaPart::Services, DefinitionKind::Service);
    }
}

/// Definitions that were read differ in their names, and the declarations of
/// each of them differ in theirs.
pub proof fn lemma_definitions_under(document: JsonValue, key: Seq<char>, part: SchemaPart, kind: DefinitionKind)
    ensures
        definitions_under(document, key, part, kind) matches Ok(definitions) ==> {
            &&& definition_names(definitions).no_duplicates()
            &&& forall|i: int|
                0 <= i < definitions.len() ==> property_names(
                    (#[trigger] definitions[i]).properties,
                ).no_duplicates()
        },
{
    if let Ok(definitions) = definitions_under(document, key, part, kind) {
        let items = document.member(key)->0->List_0;
        lemma_collect_results(items, definer(kind));
        lemma_first_repeat(definition_names(definitions));
        assert forall|i: int| 0 <= i < definitions.len() implies property_names(
            (#[trigger] definitions[i]).properties,
        ).no_duplicates() by {
            assert(definer(kind)(items[i]) == Ok::<DefinitionModel, SchemaFailure>(definitions[i]));
            lemma_first_repeat(property_names(definitions[i].properties));
        }
    }
}

/// The text that a record must hold under a key.
fn text_member(record: &Json, key: &str, part: SchemaPart) -> (found: Result<String, SchemaError>)
    ensures
        match found {
            Ok(text) => text_under(record@, key@, part) == Ok::<Seq<char>, SchemaFailure>(text@),
            Err(error) => text_under(record@, key@, part) == Err::<Seq<char>, SchemaFailure>(error@),
        },
{
    match record.member(key) {
        Some(Json::Text(text)) => Ok(text.clone()),
        _ => Err(SchemaError::Malformed(part)),
    }
}

/// The text that a record may hold under a key.
fn optional_text_member(record: &Json, key: &str, part: SchemaPart) -> (found: Result<Option<String>, SchemaError>)
    ensures
        match found {
            Ok(text) => text_if_under(record@, key@, part) == Ok::<Option<Seq<char>>, SchemaFailure>(
                optional_text(text),
            ),
            Err(error) => text_if_under(record@, key@, part) == Err::<Option<Seq<char>>, SchemaFailure>(error@),
        },
{
    match record.optional(key) {
        None => Ok(None),
        Some(Json::Text(text)) => Ok(Some(text.clone())),
        Some(_) => Err(SchemaError::Malformed(part)),
    }
}

/// The whole number that a record may hold under a key.
fn optional_number_member(record: &Json, key: &str, part: SchemaPart) -> (found: Result<Option<i64>, SchemaError>)
    ensures
        match found {
            Ok(number) => number_if_under(record@, key@, part) == Ok::<Option<i64>, SchemaFailure>(number),
            Err(error) => number_if_under(record@, key@, part) == Err::<Option<i64>, SchemaFailure>(error@),
        },
{
    match record.optional(key) {
        None => Ok(None),
        Some(Json::Number(Some(number))) => Ok(Some(*number)),
        Some(_) => Err(SchemaError::Malformed(part)),
    }
}

/// The flag that a record may hold under a key.
fn optional_flag_member(record: &Json, key: &str, part: SchemaPart) -> (found: Result<Option<bool>, SchemaError>)
    ensures
        match found {
            Ok(flag) => flag_if_under(record@, key@, part) == Ok::<Option<bool>, SchemaFailure>(flag),
            Err(error) => flag_if_under(record@, key@, part) == Err::<Option<bool>, SchemaFailure>(error@),
        },
{
    match record.optional(key) {
        None => Ok(None),
        Some(Json::Bool(flag)) => Ok(Some(*flag)),
        Some(_) => Err(SchemaError::Malformed(part)),
    }
}

/// The view of a list of texts that may be absent.
pub open spec fn optional_texts(list: Option<Vec<String>>) -> Option<Seq<Seq<char>>> {
    match list {
        Some(list) => Some(texts(list@)),
        None => None,
    }
}

/// The list of texts that a record may hold under a key.
fn optional_texts_member(record: &Json, key: &str, part: SchemaPart) -> (found: Result<
    Option<Vec<String>>,
    SchemaError,
>)
    ensures
        match found {
            Ok(list) => texts_if_under(record@, key@, part) == Ok::<Option<Seq<Seq<char>>>, SchemaFailure>(
                optional_texts(list),
            ),
            Err(error) => texts_if_under(record@, key@, part) == Err::<Option<Seq<Seq<char>>>, SchemaFailure>(
                error@,
            ),
        },
{
    match record.optional(key) {
        None => Ok(None),
        Some(Json::List(items)) => {
            let ghost models = list_view(items@);
            proof {
                lemma_list_view(items@);
                assert(record@.optional(key@) == Some(JsonValue::List(models)));
            }
            let mut list: Vec<String> = Vec::new();
            let mut i: usize = 0;
            while i < items.len()
                invariant
                    i <= items.len(),
                    models.len() == items@.len(),
                    forall|j: int| 0 <= j < items@.len() ==> (#[trigger] models[j]) == items@[j]@,
                    record@.optional(key@) == Some(JsonValue::List(models)),
                    list@.len() == i,
                    forall|j: int| 0 <= j < i ==> (#[trigger] models[j]) == JsonValue::Text(list@[j]@),
                decreases items.len() - i,
            {
                match &items[i] {
                    Json::Text(text) => {
                        list.push(text.clone());
                    },
                    _ => {
                        assert(!(models[i as int] is Text));
                        return Err(SchemaError::Malformed(part));
                    },
                }
                i += 1;
            }
            proof {
                assert(texts(list@) =~= Seq::new(models.len(), |i: int| models[i]->Text_0));
            }
            Ok(Some(list))
        },
        Some(_) => Err(SchemaError::Malformed(part)),
    }
}

/// The kind of property that a type tag names.
fn kind_named(tag: &str) -> (kind: Option<PropertyKind>)
    ensures
        kind == kind_tagged(tag@),
{
    if same_text(tag, "string") || same_text(tag, "String") {
        Some(PropertyKind::String)
    } else if same_text(tag, "number") || same_text(tag, "Number") {
        Some(PropertyKind::Number)
    } else if same_text(tag, "bool") || same_text(tag, "Bool") {
        Some(PropertyKind::Bool)
    } else if same_text(tag, "enum") || same_text(tag, "Enum") {
        Some(PropertyKind::Enum)
    } else {
        None
    }
}

impl Property {
    /// Reads the declaration that one item of a `properties` list of the schema
    /// stands for.
    pub fn from_json(item: &Json) -> (loaded: Result<Property, SchemaError>)
        ensures
            match loaded {
                Ok(property) => declared_property(item@) == Ok::<PropertyModel, SchemaFailure>(property@),
                Err(error) => declared_property(item@) == Err::<PropertyModel, SchemaFailure>(error@),
            },
    {
        if item.kind() != JsonKind::Record {
            return Err(SchemaError::Malformed(SchemaPart::Record));
        }
        let tag = match text_member(item, "type", SchemaPart::Type) {
            Ok(tag) => tag,
            Err(error) => {
                return Err(error);
            },
        };
        let kind = match kind_named(tag.as_str()) {
            Some(kind) => kind,
            None => {
                return Err(SchemaError::UnknownKind(tag));
            },
        };
        let name = match text_member(item, "name", SchemaPart::Name) {
            Ok(name) => name,
            Err(error) => {
                return Err(error);
            },
        };
        match kind {
            PropertyKind::String => match optional_text_member(item, "default", SchemaPart::Default) {
                Ok(default) => Ok(Property::String { name, default }),
                Err(error) => Err(error),
            },
            PropertyKind::Number => {
                let default = match optional_number_member(item, "default", SchemaPart::Default) {
                    Ok(default) => default,
                    Err(error) => {
                        return Err(error);
                    },
                };
                let max = match optional_number_member(item, "max", SchemaPart::Max) {
                    Ok(max) => max,
                    Err(error) => {
                        return Err(error);
                    },
                };
                match optional_number_member(item, "min", SchemaPart::Min) {
                    Ok(min) => Ok(Property::Number { name, default, max, min }),
                    Err(error) => Err(error),
                }
            },
            PropertyKind::Bool => match optional_flag_member(item, "default", SchemaPart::Default) {
                Ok(default) => Ok(Property::Bool { name, default }),
                Err(error) => Err(error),
            },
            PropertyKind::Enum => {
                let default = match optional_text_member(item, "default", SchemaPart::Default) {
                    Ok(default) => default,
                    Err(error) => {
                        return Err(error);
                    },
                };
                match optional_texts_member(item, "values", SchemaPart::Values) {
                    Ok(values) => Ok(Property::Enum { name, default, values }),
                    Err(error) => Err(error),
                }
            },
        }
    }
}

/// Reads the declarations that a record holds under `properties`.
pub fn load_properties(record: &Json) -> (loaded: Result<Vec<Property>, SchemaError>)
    ensures
        match loaded {
            Ok(shape) => declared_properties(record@) == Ok::<Seq<PropertyModel>, SchemaFailure>(
                shape_view(shape@),
            ),
            Err(error) => declared_properties(record@) == Err::<Seq<PropertyModel>, SchemaFailure>(error@),
        },
{
    let mut shape: Vec<Property> = Vec::new();
    match record.optional("properties") {
        None => {
            proof {
                assert(shape_view(shape@) =~= Seq::empty());
            }
            Ok(shape)
        },
        Some(Json::List(items)) => {
            let ghost models = list_view(items@);
            proof {
                lemma_list_view(items@);
                assert(record@.optional("properties"@) == Some(JsonValue::List(models)));
                assert(shape_view(shape@) =~= Seq::empty());
            }
            let mut i: usize = 0;
            while i < items.len()
                invariant
                    i <= items.len(),
                    models.len() == items@.len(),
                    forall|j: int| 0 <= j < items@.len() ==> (#[trigger] models[j]) == items@[j]@,
                    record@.optional("properties"@) == Some(JsonValue::List(models)),
                    collect(models.take(i as int), property_loader()) == Ok::<Seq<PropertyModel>, SchemaFailure>(
                        shape_view(shape@),
                    ),
                decreases items.len() - i,
            {
                proof {
                    lemma_collect_step(models, property_loader(), i as int);
                }
                match Property::from_json(&items[i]) {
                    Ok(property) => {
                        let ghost before = shape_view(shape@);
                        shape.push(property);
                        proof {
                            assert(shape_view(shape@) =~= before.push(property@));
                        }
                    },
                    Err(error) => {
                        proof {
                            lemma_collect_failure(models, property_loader(), i + 1);
                        }
                        return Err(error);
                    },
                }
                i += 1;
            }
            proof {
                assert(models.take(i as int) =~= models);
            }
            Ok(shape)
        },
        Some(_) => Err(SchemaError::Malformed(SchemaPart::Properties)),
    }
}

/// The first name of a list that stood in it before.
pub fn find_repeat(names: &Vec<String>) -> (found: Option<String>)
    ensures
        optional_text(found) == first_repeat(texts(names@)),
{
    let ghost all = texts(names@);
    let mut i: usize = 0;
    while i < names.len()
        invariant
            i <= names.len(),
            all == texts(names@),
            first_repeat(all.take(i as int)) is None,
        decreases names.len() - i,
    {
        proof {
            assert(all.take(i + 1).drop_last() =~= all.take(i as int));
            assert(all.take(i + 1).last() == all[i as int]);
        }
        let mut j: usize = 0;
        while j < i
            invariant
                j <= i,
                i < names.len(),
                all == texts(names@),
                first_repeat(all.take(i as int)) is None,
                forall|k: int| 0 <= k < j ==> all[k] != all[i as int],
            decreases i - j,
        {
            if names[j] == names[i] {
                proof {
                    assert(all.take(i + 1).drop_last() =~= all.take(i as int));
                    assert(all.take(i + 1).last() == all[i as int]);
                    assert(all.take(i as int)[j as int] == all[i as int]);
                    assert(all.take(i as int).contains(all[i as int]));
                    lemma_first_repeat_found(all, i + 1);
                }
                return Some(names[i].clone());
            }
            j += 1;
        }
        proof {
            assert(!all.take(i as int).contains(all[i as int])) by {
                if all.take(i as int).contains(all[i as int]) {
                    let k = choose|k: int| 0 <= k < all.take(i as int).len() && all.take(i as int)[k] == all[i as int];
                    assert(all[k] != all[i as int]);
                }
            }
        }
        i += 1;
    }
    proof {
        assert(all.take(i as int) =~= all);
    }
    None
}

/// The names that the declarations of a shape declare, in order.
fn names_of_properties(shape: &Vec<Property>) -> (names: Vec<String>)
    ensures
        texts(names@) == property_names(shape_view(shape@)),
{
    let mut names: Vec<String> = Vec::new();
    let mut i: usize = 0;
    while i < shape.len()
        invariant
            i <= shape.len(),
            names@.len() == i,
            forall|j: int| 0 <= j < i ==> (#[trigger] names@[j])@ == shape@[j]@.name(),
        decreases shape.len() - i,
    {
        names.push(shape[i].name().clone());
        i += 1;
    }
    proof {
        assert(texts(names@) =~= property_names(shape_view(shape@)));
    }
    names
}

/// The names of the definitions of a list, in order.
fn names_of_definitions(definitions: &Vec<Definition>) -> (names: Vec<String>)
    ensures
        texts(names@) == definition_names(definitions_view(definitions@)),
{
    let mut names: Vec<String> = Vec::new();
    let mut i: usize = 0;
    while i < definitions.len()
        invariant
            i <= definitions.len(),
            names@.len() == i,
            forall|j: int| 0 <= j < i ==> (#[trigger] names@[j])@ == definitions@[j].name@,
        decreases definitions.len() - i,
    {
        names.push(definitions[i].name.clone());
        i += 1;
    }
    proof {
        assert(texts(names@) =~= definition_names(definitions_view(definitions@)));
    }
    names
}

/// Whether a node's record says that its instances may own children.
fn composite_member(item: &Json) -> (found: Result<bool, SchemaError>)
    ensures
        match found {
            Ok(flag) => composite_flag(item@) == Ok::<bool, SchemaFailure>(flag),
            Err(error) => composite_flag(item@) == Err::<bool, SchemaFailure>(error@),
        },
{
    match item.member("isComposite") {
        Some(Json::Bool(flag)) => Ok(*flag),
        Some(_) => Err(SchemaError::Malformed(SchemaPart::Composite)),
        None => match item.member("is_composite") {
            Some(Json::Bool(flag)) => Ok(*flag),
            _ => Err(SchemaError::Malformed(SchemaPart::Composite)),
        },
    }
}

impl Definition {
    /// Reads the definition that one item of a list of definitions stands for.
    pub fn from_json(item: &Json, kind: DefinitionKind) -> (loaded: Result<Definition, SchemaError>)
        ensures
            match loaded {
                Ok(definition) => defined(item@, kind) == Ok::<DefinitionModel, SchemaFailure>(definition@),
                Err(error) => defined(item@, kind) == Err::<DefinitionModel, SchemaFailure>(error@),
            },
    {
        if item.kind() != JsonKind::Record {
            return Err(SchemaError::Malformed(SchemaPart::Record));
        }
        let name = match text_member(item, "name", SchemaPart::Name) {
            Ok(name) => name,
            Err(error) => {
                return Err(error);
            },
        };
        let module = match optional_text_member(item, "module", SchemaPart::Module) {
            Ok(Some(module)) => module,
            Ok(None) => String::from_str("standard"),
            Err(error) => {
                return Err(error);
            },
        };
        let is_composite = if kind == DefinitionKind::Node {
            match composite_member(item) {
                Ok(flag) => flag,
                Err(error) => {
                    return Err(error);
                },
            }
        } else {
            false
        };
        let properties = match load_properties(item) {
            Ok(properties) => properties,
            Err(error) => {
                return Err(error);
            },
        };
        let names = names_of_properties(&properties);
        match find_repeat(&names) {
            Some(repeated) => Err(SchemaError::DuplicateProperty(repeated)),
            None => Ok(Definition { name, module, is_composite, properties }),
        }
    }
}

/// Reads the definitions of one kind that a schema holds under a key.
pub fn load_definitions(document: &Json, key: &str, part: SchemaPart, kind: DefinitionKind) -> (loaded: Result<
    Vec<Definition>,
    SchemaError,
>)
    ensures
        match loaded {
            Ok(definitions) => definitions_under(document@, key@, part, kind) == Ok::<
                Seq<DefinitionModel>,
                SchemaFailure,
            >(definitions_view(definitions@)),
            Err(error) => definitions_under(document@, key@, part, kind) == Err::<
                Seq<DefinitionModel>,
                SchemaFailure,
            >(error@),
        },
{
    match document.member(key) {
        Some(Json::List(items)) => {
            let ghost models = list_view(items@);
            let mut definitions: Vec<Definition> = Vec::new();
            proof {
                lemma_list_view(items@);
                assert(document@.member(key@) == Some(JsonValue::List(models)));
                assert(definitions_view(definitions@) =~= Seq::empty());
            }
            let mut i: usize = 0;
            while i < items.len()
                invariant
                    i <= items.len(),
                    models.len() == items@.len(),
                    forall|j: int| 0 <= j < items@.len() ==> (#[trigger] models[j]) == items@[j]@,
                    document@.member(key@) == Some(JsonValue::List(models)),
                    collect(models.take(i as int), definer(kind)) == Ok::<Seq<DefinitionModel>, SchemaFailure>(
                        definitions_view(definitions@),
                    ),
                decreases items.len() - i,
            {
                proof {
                    lemma_collect_step(models, definer(kind), i as int);
                }
                match Definition::from_json(&items[i], kind) {
                    Ok(definition) => {
                        let ghost before = definitions_view(definitions@);
                        definitions.push(definition);
                        proof {
                            assert(definitions_view(definitions@) =~= before.push(definition@));
                        }
                    },
                    Err(error) => {
                        proof {
                            lemma_collect_failure(models, definer(kind), i + 1);
                        }
                        return Err(error);
                    },
                }
                i += 1;
            }
            proof {
                assert(models.take(i as int) =~= models);
            }
            let names = names_of_definitions(&definitions);
            match find_repeat(&names) {
                Some(name) => Err(SchemaError::DuplicateDefinition { kind, name }),
                None => Ok(definitions),
            }
        },
        _ => Err(SchemaError::Malformed(part)),
    }
}

/// The mathematical content of the outcome of reading a schema.
pub open spec fn schema_outcome(loaded: Result<Schema, SchemaError>) -> Result<SchemaModel, SchemaFailure> {
    match loaded {
        Ok(schema) => Ok(schema@),
        Err(error) => Err(error@),
    }
}

impl Schema {
    /// Reads the schema that a document stands for.
    pub fn from_json(document: &Json) -> (loaded: Result<Schema, SchemaError>)
        ensures
            schema_outcome(loaded) == schema_of(document@),
            loaded matches Ok(schema) ==> schema@.well_formed(),
    {
        proof {
            law_schema_well_formed(document@);
        }
        if document.kind() != JsonKind::Record {
            return Err(SchemaError::Malformed(SchemaPart::Record));
        }
        let nodes = match load_definitions(document, "nodes", SchemaPart::Nodes, DefinitionKind::Node) {
            Ok(nodes) => nodes,
            Err(error) => {
                return Err(error);
            },
        };
        let decorators = match load_definitions(
            document,
            "decorators",
            SchemaPart::Decorators,
            DefinitionKind::Decorator,
        ) {
            Ok(decorators) => decorators,
            Err(error) => {
                return Err(error);
            },
        };
        let services = match load_definitions(document, "services", SchemaPart::Services, DefinitionKind::Service) {
            Ok(services) => services,
            Err(error) => {
                return Err(error);
            },
        };
        match load_properties(document) {
            Ok(properties) => Ok(Schema { nodes, decorators, services, properties }),
            Err(error) => Err(error),
        }
    }

    /// Reads a text as a schema.
    pub fn from_string(text: &str) -> (loaded: Result<Schema, SchemaError>)
        ensures
            schema_outcome(loaded) == read_schema(text@),
            loaded matches Ok(schema) ==> schema@.well_formed(),
    {
        match read_json(text) {
            Ok(document) => Schema::from_json(&document),
            Err(message) => Err(SchemaError::Syntax(message)),
        }
    }
}

} // verus!
