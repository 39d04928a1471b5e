//! The schema compiler: from a schema to the source text of its closed type
//! system, one union for each kind and the imports that they need.

use vstd::prelude::*;
use vstd::string::{StrSliceExecFns, StringExecFns};
use crate::schema::{Definition, DefinitionModel, Property, PropertyKind, PropertyModel, Schema, SchemaModel};
use crate::schema::definitions_view;

verus! {

/// What `heck::CamelCase::to_camel_case` makes of a name: its words, each
/// capitalized, without what stood between them.
pub uninterp spec fn camel_case(name: Seq<char>) -> Seq<char>;

/// What `heck::SnakeCase::to_snake_case` makes of a name: its words in lower
/// case, with an underscore between them.
pub uninterp spec fn snake_case(name: Seq<char>) -> Seq<char>;

/// Calls `heck::CamelCase::to_camel_case` on a `str`. The contract claims only
/// that the result is a function of the name, which [`camel_case`] names.
#[verifier::external_body]
fn to_camel_case(name: &str) -> (converted: String)
    ensures
        converted@ == camel_case(name@),
{
    heck::CamelCase::to_camel_case(name)
}

/// Calls `heck::SnakeCase::to_snake_case` on a `str`. The contract claims only
/// that the result is a function of the name, which [`snake_case`] names.
#[verifier::external_body]
fn to_snake_case(name: &str) -> (converted: String)
    ensures
        converted@ == snake_case(name@),
{
    heck::SnakeCase::to_snake_case(name)
}

/// Whether `left` stands before `right` in the order of the dictionary, the
/// characters taken by their code points.
pub open spec fn before(left: Seq<char>, right: Seq<char>) -> bool
    decreases left.len(),
{
    if right.len() == 0 {
        false
    } else if left.len() == 0 {
        true
    } else if left[0] != right[0] {
        (left[0] as int) < (right[0] as int)
    } else {
        before(left.drop_first(), right.drop_first())
    }
}

/// Whether `left` stands before `right` in the order of the dictionary.
pub fn precedes(left: &str, right: &str) -> (earlier: bool)
    ensures
        earlier == before(left@, right@),
{
    let n: usize = left.unicode_len();
    let m: usize = right.unicode_len();
    let mut i: usize = 0;
    proof {
        assert(left@.skip(0) =~= left@);
        assert(right@.skip(0) =~= right@);
    }
    while i < n && i < m
        invariant
            i <= n,
            i <= m,
            n == left@.len(),
            m == right@.len(),
            before(left@, right@) == before(left@.skip(i as int), right@.skip(i as int)),
        decreases n - i,
    {
        let a = left.get_char(i);
        let b = right.get_char(i);
        proof {
            assert(left@.skip(i as int)[0] == left@[i as int]);
            assert(right@.skip(i as int)[0] == right@[i as int]);
            assert(left@.skip(i as int).drop_first() =~= left@.skip(i + 1));
            assert(right@.skip(i as int).drop_first() =~= right@.skip(i + 1));
        }
        if a != b {
            return (a as u32) < (b as u32);
        }
        i += 1;
    }
    i < m
}

/// One variant of a union: the type tag that selects it, which is the name of
/// its definition, and its name in the source.
#[derive(Debug, PartialEq, Eq)]
pub struct Variant {
    pub tag: String,
    pub name: String,
}

/// One name that the source imports, with the module that it comes from.
#[derive(Debug, PartialEq, Eq)]
pub struct Import {
    pub module: String,
    pub name: String,
}

/// The type system of a schema: the variants of the three unions, each in the
/// order of the definitions, and the imports, in the order of their modules
/// and, within a module, of their names.
#[derive(Debug, PartialEq, Eq)]
pub struct TypeSystem {
    pub imports: Vec<Import>,
    pub nodes: Vec<Variant>,
    pub services: Vec<Variant>,
    pub decorators: Vec<Variant>,
}

/// The mathematical content of a [`Variant`].
pub ghost struct VariantModel {
    pub tag: Seq<char>,
    pub name: Seq<char>,
}

/// The mathematical content of a [`TypeSystem`]; an import is a module and a
/// name.
pub ghost struct TypeSystemModel {
    pub imports: Seq<(Seq<char>, Seq<char>)>,
    pub nodes: Seq<VariantModel>,
    pub services: Seq<VariantModel>,
    pub decorators: Seq<VariantModel>,
}

impl View for Variant {
    type V = VariantModel;

    open spec fn view(&self) -> VariantModel {
        VariantModel { tag: self.tag@, name: self.name@ }
    }
}

impl View for Import {
    type V = (Seq<char>, Seq<char>);

    open spec fn view(&self) -> (Seq<char>, Seq<char>) {
        (self.module@, self.name@)
    }
}

/// The views of the variants of a sequence, in order.
pub open spec fn variants_view(variants: Seq<Variant>) -> Seq<VariantModel> {
    Seq::new(variants.len(), |i: int| variants[i]@)
}

/// The views of the imports of a sequence, in order.
pub open spec fn imports_view(imports: Seq<Import>) -> Seq<(Seq<char>, Seq<char>)> {
    Seq::new(imports.len(), |i: int| imports[i]@)
}

impl View for TypeSystem {
    type V = TypeSystemModel;

    open spec fn view(&self) -> TypeSystemModel {
        TypeSystemModel {
            imports: imports_view(self.imports@),
            nodes: variants_view(self.nodes@),
            services: variants_view(self.services@),
            decorators: variants_view(self.decorators@),
        }
    }
}

/// The variant that a definition becomes.
pub open spec fn variant_of(definition: DefinitionModel) -> VariantModel {
    VariantModel { tag: definition.name, name: camel_case(definition.name) }
}

/// The variants that the definitions of one kind become, one for each and in
/// their order.
pub open spec fn variants_of(definitions: Seq<DefinitionModel>) -> Seq<VariantModel> {
    Seq::new(definitions.len(), |i: int| variant_of(definitions[i]))
}

/// Whether one import stands before another: by the module, and within a
/// module by the name.
pub open spec fn import_before(left: (Seq<char>, Seq<char>), right: (Seq<char>, Seq<char>)) -> bool {
    before(left.0, right.0) || (left.0 == right.0 && before(left.1, right.1))
}

/// The imports with one more in its place: behind the last import that it
/// does not stand before. An import that is there already is not added.
pub open spec fn placed(imports: Seq<(Seq<char>, Seq<char>)>, import: (Seq<char>, Seq<char>)) -> Seq<
    (Seq<char>, Seq<char>),
>
    decreases imports.len(),
{
    if imports.len() == 0 {
        seq![import]
    } else if imports.last() == import {
        imports
    } else if import_before(imports.last(), import) {
        imports.push(import)
    } else {
        placed(imports.drop_last(), import).push(imports.last())
    }
}

/// The import that a definition asks for: its name in the source, from its
/// module.
pub open spec fn import_of(definition: DefinitionModel) -> (Seq<char>, Seq<char>) {
    (definition.module, camel_case(definition.name))
}

/// The imports with those of the first `count` definitions placed among them.
pub open spec fn filed(imports: Seq<(Seq<char>, Seq<char>)>, definitions: Seq<DefinitionModel>, count: nat) -> Seq<
    (Seq<char>, Seq<char>),
>
    decreases count,
{
    if count == 0 || count > definitions.len() {
        imports
    } else {
        placed(filed(imports, definitions, (count - 1) as nat), import_of(definitions[count - 1]))
    }
}

/// The type system of a schema: for each kind as many variants as the schema
/// has definitions of it, each tagged with the name of its definition; and
/// the imports of the nodes, the services and the decorators, each once.
pub open spec fn compiled(schema: SchemaModel) -> TypeSystemModel {
    TypeSystemModel {
        imports: filed(
            filed(filed(Seq::empty(), schema.nodes, schema.nodes.len()), schema.services, schema.services.len()),
            schema.decorators,
            schema.decorators.len(),
        ),
        nodes: variants_of(schema.nodes),
        services: variants_of(schema.services),
        decorators: variants_of(schema.decorators),
    }
}

/// The type system of a schema has exactly one variant for each definition of
/// a kind, in the order of the definitions and tagged with the definition's
/// name.
pub proof fn law_one_variant_for_each_definition(schema: SchemaModel)
    ensures
        compiled(schema).nodes.len() == schema.nodes.len(),
        compiled(schema).services.len() == schema.services.len(),
        compiled(schema).decorators.len() == schema.decorators.len(),
        forall|i: int| 0 <= i < schema.nodes.len() ==> (#[trigger] compiled(schema).nodes[i]).tag == schema.nodes[i].name,
        forall|i: int|
            0 <= i < schema.services.len() ==> (#[trigger] compiled(schema).services[i]).tag
                == schema.services[i].name,
        forall|i: int|
            0 <= i < schema.decorators.len() ==> (#[trigger] compiled(schema).decorators[i]).tag
                == schema.decorators[i].name,
{
}

/// No text stands before itself.
pub proof fn lemma_before_irreflexive(text: Seq<char>)
    ensures
        !before(text, text),
    decreases text.len(),
{
    if text.len() > 0 {
        lemma_before_irreflexive(text.drop_first());
    }
}

/// What stands before a text stands before all that the text stands before.
pub proof fn lemma_before_transitive(first: Seq<char>, second: Seq<char>, third: Seq<char>)
    requires
        before(first, second),
        before(second, third),
    ensures
        before(first, third),
    decreases first.len(),
{
    if first.len() > 0 && first[0] == second[0] && second[0] == third[0] {
        lemma_before_transitive(first.drop_first(), second.drop_first(), third.drop_first());
    }
}

/// Of two texts that differ, one stands before the other.
pub proof fn lemma_before_total(left: Seq<char>, right: Seq<char>)
    ensures
        left == right || before(left, right) || before(right, left),
    decreases left.len(),
{
    if left.len() == 0 || right.len() == 0 {
        if left.len() == 0 && right.len() == 0 {
            assert(left =~= right);
        }
    } else if left[0] == right[0] {
        lemma_before_total(left.drop_first(), right.drop_first());
        if left.drop_first() == right.drop_first() {
            assert(left =~= seq![left[0]] + left.drop_first());
            assert(right =~= seq![right[0]] + right.drop_first());
        }
    }
}

/// What stands before an import stands before all that the import stands
/// before.
pub proof fn lemma_import_before_transitive(
    first: (Seq<char>, Seq<char>),
    second: (Seq<char>, Seq<char>),
    third: (Seq<char>, Seq<char>),
)
    requires
        import_before(first, second),
        import_before(second, third),
    ensures
        import_before(first, third),
{
    if before(first.0, second.0) && before(second.0, third.0) {
        lemma_before_transitive(first.0, second.0, third.0);
    } else if first.0 == second.0 && second.0 == third.0 {
        lemma_before_transitive(first.1, second.1, third.1);
    }
}

/// Of two imports that differ, one stands before the other.
pub proof fn lemma_import_before_total(left: (Seq<char>, Seq<char>), right: (Seq<char>, Seq<char>))
    ensures
        left == right || import_before(left, right) || import_before(right, left),
{
    lemma_before_total(left.0, right.0);
    lemma_before_total(left.1, right.1);
}

/// Whether each import stands before all that follow it; then none is there
/// twice, and those of one module stand together.
pub open spec fn ordered(imports: Seq<(Seq<char>, Seq<char>)>) -> bool {
    forall|i: int, j: int| 0 <= i < j < imports.len() ==> import_before(imports[i], imports[j])
}

/// Among ordered imports none is there twice.
pub proof fn law_ordered_imports_are_there_once(imports: Seq<(Seq<char>, Seq<char>)>)
    requires
        ordered(imports),
    ensures
        imports.no_duplicates(),
{
    assert forall|i: int, j: int| 0 <= i < imports.len() && 0 <= j < imports.len() && i != j implies imports[i]
        != imports[j] by {
        lemma_before_irreflexive(imports[i].0);
        lemma_before_irreflexive(imports[i].1);
        if i < j {
            assert(import_before(imports[i], imports[j]));
        } else {
            assert(import_before(imports[j], imports[i]));
        }
    }
}

/// An import that is placed among ordered imports leaves them ordered, is
/// among them afterwards, and brings and removes nothing else.
pub proof fn law_placed(imports: Seq<(Seq<char>, Seq<char>)>, import: (Seq<char>, Seq<char>))
    requires
        ordered(imports),
    ensures
        ordered(placed(imports, import)),
        forall|other: (Seq<char>, Seq<char>)|
            #![trigger placed(imports, import).contains(other)]
            placed(imports, import).contains(other) <==> (imports.contains(other) || other == import),
    decreases imports.len(),
{
    let after = placed(imports, import);
    if imports.len() == 0 {
        assert(after[0] == import);
    } else if imports.last() == import {
        assert(imports[imports.len() - 1] == import);
    } else if import_before(imports.last(), import) {
        assert forall|i: int, j: int| 0 <= i < j < after.len() implies import_before(after[i], after[j]) by {
            if j == imports.len() && i < imports.len() - 1 {
                lemma_import_before_transitive(imports[i], imports.last(), import);
            }
        }
        assert forall|other: (Seq<char>, Seq<char>)| after.contains(other) <==> (imports.contains(other) || other
            == import) by {
            if imports.contains(other) {
                let i = choose|i: int| 0 <= i < imports.len() && imports[i] == other;
                assert(after[i] == other);
            }
            if other == import {
                assert(after[imports.len() as int] == import);
            }
        }
    } else {
        let front = imports.drop_last();
        let last = imports.last();
        assert(ordered(front)) by {
            assert forall|i: int, j: int| 0 <= i < j < front.len() implies import_before(front[i], front[j]) by {
                assert(front[i] == imports[i] && front[j] == imports[j]);
            }
        }
        law_placed(front, import);
        let middle = placed(front, import);
        lemma_import_before_total(last, import);
        assert forall|i: int, j: int| 0 <= i < j < after.len() implies import_before(after[i], after[j]) by {
            if j == middle.len() {
                assert(middle.contains(middle[i]));
                if front.contains(middle[i]) {
                    let k = choose|k: int| 0 <= k < front.len() && front[k] == middle[i];
                    assert(imports[k] == middle[i]);
                }
            }
        }
        assert forall|other: (Seq<char>, Seq<char>)| after.contains(other) <==> (imports.contains(other) || other
            == import) by {
            if after.contains(other) {
                let i = choose|i: int| 0 <= i < after.len() && after[i] == other;
                if i < middle.len() {
                    assert(middle[i] == other);
                    assert(middle.contains(other));
                    assert(front.contains(other) || other == import);
                    if front.contains(other) {
                        let k = choose|k: int| 0 <= k < front.len() && front[k] == other;
                        assert(imports[k] == other);
                    }
                } else {
                    assert(imports[imports.len() - 1] == other);
                }
            }
            if imports.contains(other) {
                let i = choose|i: int| 0 <= i < imports.len() && imports[i] == other;
                if i < front.len() {
                    assert(front[i] == other);
                    assert(front.contains(other));
                    assert(middle.contains(other));
                    let k = choose|k: int| 0 <= k < middle.len() && middle[k] == other;
                    assert(after[k] == other);
                } else {
                    assert(after[middle.len() as int] == other);
                }
            }
            if other == import {
                assert(middle.contains(import)) by {
                    assert(import == import);
                }
                let k = choose|k: int| 0 <= k < middle.len() && middle[k] == import;
                assert(after[k] == import);
            }
        }
    }
}

/// Imports that are filed among ordered imports leave them ordered, and bring
/// the import of each definition and nothing else.
pub proof fn law_filed(imports: Seq<(Seq<char>, Seq<char>)>, definitions: Seq<DefinitionModel>, count: nat)
    requires
        ordered(imports),
        count <= definitions.len(),
    ensures
        ordered(filed(imports, definitions, count)),
        forall|other: (Seq<char>, Seq<char>)|
            #![trigger filed(imports, definitions, count).contains(other)]
            filed(imports, definitions, count).contains(other) <==> (imports.contains(other) || exists|i: int|
                0 <= i < count && import_of(#[trigger] definitions[i]) == other),
    decreases count,
{
    if count > 0 {
        let fewer = filed(imports, definitions, (count - 1) as nat);
        let import = import_of(definitions[count - 1]);
        law_filed(imports, definitions, (count - 1) as nat);
        law_placed(fewer, import);
        assert forall|other: (Seq<char>, Seq<char>)|
            #![trigger filed(imports, definitions, count).contains(other)]
            filed(imports, definitions, count).contains(other) <==> (imports.contains(other) || exists|i: int|
                0 <= i < count && import_of(#[trigger] definitions[i]) == other) by {
            assert(filed(imports, definitions, count) == placed(fewer, import));
            assert(placed(fewer, import).contains(other) <==> (fewer.contains(other) || other == import));
            assert(fewer.contains(other) <==> (imports.contains(other) || exists|i: int|
                0 <= i < count - 1 && import_of(#[trigger] definitions[i]) == other));
            if other == import {
                assert(0 <= count - 1 < count && import_of(definitions[count - 1]) == other);
            }
            if fewer.contains(other) && !imports.contains(other) {
                let i = choose|i: int| 0 <= i < count - 1 && import_of(#[trigger] definitions[i]) == other;
                assert(0 <= i < count && import_of(definitions[i]) == other);
            }
            if exists|i: int| 0 <= i < count && import_of(#[trigger] definitions[i]) == other {
                let i = choose|i: int| 0 <= i < count && import_of(#[trigger] definitions[i]) == other;
                if i < count - 1 {
                    assert(0 <= i < count - 1 && import_of(definitions[i]) == other);
                }
            }
        }
    }
}

/// The imports of a type system are ordered, module by module and name by
/// name, each once; and they are the imports of the definitions of the schema,
/// of whatever kind.
pub proof fn law_imports(schema: SchemaModel)
    ensures
        ordered(compiled(schema).imports),
        forall|other: (Seq<char>, Seq<char>)|
            #![trigger compiled(schema).imports.contains(other)]
            compiled(schema).imports.contains(other) <==> {
                ||| exists|i: int| 0 <= i < schema.nodes.len() && import_of(#[trigger] schema.nodes[i]) == other
                ||| exists|i: int|
                    0 <= i < schema.services.len() && import_of(#[trigger] schema.services[i]) == other
                ||| exists|i: int|
                    0 <= i < schema.decorators.len() && import_of(#[trigger] schema.decorators[i]) == other
            },
{
    let none = Seq::<(Seq<char>, Seq<char>)>::empty();
    let nodes = filed(none, schema.nodes, schema.nodes.len());
    let services = filed(nodes, schema.services, schema.services.len());
    law_filed(none, schema.nodes, schema.nodes.len());
    law_filed(nodes, schema.services, schema.services.len());
    law_filed(services, schema.decorators, schema.decorators.len());
    let all = filed(services, schema.decorators, schema.decorators.len());
    assert(compiled(schema).imports == all);
    assert forall|other: (Seq<char>, Seq<char>)| #![trigger all.contains(other)] all.contains(other) <==> {
        ||| exists|i: int| 0 <= i < schema.nodes.len() && import_of(#[trigger] schema.nodes[i]) == other
        ||| exists|i: int| 0 <= i < schema.services.len() && import_of(#[trigger] schema.services[i]) == other
        ||| exists|i: int| 0 <= i < schema.decorators.len() && import_of(#[trigger] schema.decorators[i]) == other
    } by {
        assert(services.contains(other) <==> (nodes.contains(other) || exists|i: int|
            0 <= i < schema.services.len() && import_of(#[trigger] schema.services[i]) == other));
        assert(nodes.contains(other) <==> (none.contains(other) || exists|i: int|
            0 <= i < schema.nodes.len() && import_of(#[trigger] schema.nodes[i]) == other));
        assert(!none.contains(other));
    }
}

/// Schemas of the same content are compiled to the same source.
pub proof fn law_same_schema_same_source(first: Schema, second: Schema)
    requires
        first@ == second@,
    ensures
        generated(first@) == generated(second@),
{
}

/// Puts one more import in its place among the imports.
pub fn place(imports: &mut Vec<Import>, import: Import)
    ensures
        imports_view(final(imports)@) == placed(imports_view(old(imports)@), import@),
{
    let ghost all = imports_view(imports@);
    let mut i: usize = imports.len();
    proof {
        assert(all.take(i as int) =~= all);
        assert(placed(all.take(i as int), import@) + all.skip(i as int) =~= placed(all, import@));
    }
    while i > 0
        invariant
            i <= imports.len(),
            imports@ == old(imports)@,
            all == imports_view(imports@),
            placed(all, import@) == placed(all.take(i as int), import@) + all.skip(i as int),
        decreases i,
    {
        let last = &imports[i - 1];
        proof {
            assert(all.take(i as int).last() == all[i - 1]);
            assert(all.take(i as int).drop_last() =~= all.take(i - 1));
            assert(all[i - 1] == last@);
        }
        if last.module == import.module && last.name == import.name {
            proof {
                assert(all.take(i as int) + all.skip(i as int) =~= all);
            }
            return ;
        }
        let earlier = precedes(last.module.as_str(), import.module.as_str()) || (last.module == import.module
            && precedes(last.name.as_str(), import.name.as_str()));
        if earlier {
            proof {
                assert(all.take(i as int).push(import@) + all.skip(i as int) =~= all.insert(i as int, import@));
                assert(imports_view(imports@.insert(i as int, import)) =~= all.insert(i as int, import@));
            }
            imports.insert(i, import);
            return ;
        }
        proof {
            let front = placed(all.take(i - 1), import@);
            assert(front.push(all[i - 1]) + all.skip(i as int) =~= front + all.skip(i - 1));
        }
        i -= 1;
    }
    proof {
        assert(all.take(0) =~= Seq::empty());
        assert(seq![import@] + all.skip(0) =~= all.insert(0, import@));
        assert(imports_view(imports@.insert(0, import)) =~= all.insert(0, import@));
    }
    imports.insert(0, import);
}

/// Places the imports of the definitions among the imports.
pub fn file(imports: &mut Vec<Import>, definitions: &Vec<Definition>)
    ensures
        imports_view(final(imports)@) == filed(
            imports_view(old(imports)@),
            definitions_view(definitions@),
            definitions@.len(),
        ),
{
    let ghost start = imports_view(imports@);
    let ghost defined = definitions_view(definitions@);
    let mut i: usize = 0;
    while i < definitions.len()
        invariant
            i <= definitions.len(),
            defined == definitions_view(definitions@),
            imports_view(imports@) == filed(start, defined, i as nat),
        decreases definitions.len() - i,
    {
        let import = Import {
            module: definitions[i].module.clone(),
            name: to_camel_case(definitions[i].name.as_str()),
        };
        proof {
            assert(import@ == import_of(defined[i as int]));
        }
        place(imports, import);
        i += 1;
    }
}

/// The variants that the definitions of one kind become.
pub fn variants(definitions: &Vec<Definition>) -> (made: Vec<Variant>)
    ensures
        variants_view(made@) == variants_of(definitions_view(definitions@)),
{
    let mut made: Vec<Variant> = Vec::new();
    let mut i: usize = 0;
    while i < definitions.len()
        invariant
            i <= definitions.len(),
            made@.len() == i,
            forall|j: int| 0 <= j < i ==> (#[trigger] made@[j])@ == variant_of(definitions@[j]@),
        decreases definitions.len() - i,
    {
        made.push(
            Variant { tag: definitions[i].name.clone(), name: to_camel_case(definitions[i].name.as_str()) },
        );
        i += 1;
    }
    proof {
        assert(variants_view(made@) =~= variants_of(definitions_view(definitions@)));
    }
    made
}

/// Compiles a schema into its type system.
pub fn compile(schema: &Schema) -> (system: TypeSystem)
    ensures
        system@ == compiled(schema@),
{
    let mut imports: Vec<Import> = Vec::new();
    proof {
        assert(imports_view(imports@) =~= Seq::empty());
    }
    file(&mut imports, &schema.nodes);
    file(&mut imports, &schema.services);
    file(&mut imports, &schema.decorators);
    TypeSystem {
        imports,
        nodes: variants(&schema.nodes),
        services: variants(&schema.services),
        decorators: variants(&schema.decorators),
    }
}

/// What every source starts with.
pub const HEADER: &'static str =
    "// Autogenerated file, do not edit.\nuse serde::Deserialize;\nuse enum_dispatch::enum_dispatch;\nuse crate::standard::node_properties;\nuse crate::traits::{\n\tNode as Node,\n\tService as Service,\n\tDecorator as Decorator,\n\tStatus as Status,\n};\n\n\n";

/// The text of one variant: the attribute that ties its type tag to the
/// property binder, and its name.
pub open spec fn variant_text(variant: VariantModel) -> Seq<char> {
    "\t#[serde(alias = \""@ + variant.tag + "\",deserialize_with = \"node_properties\")]\n\t"@ + variant.name
}

/// The texts of the first `count` variants, with a comma and a line break
/// between one and the next.
pub open spec fn variants_text(variants: Seq<VariantModel>, count: nat) -> Seq<char>
    decreases count,
{
    if count == 0 || count > variants.len() {
        Seq::empty()
    } else if count == 1 {
        variant_text(variants[0])
    } else {
        variants_text(variants, (count - 1) as nat) + ",\n"@ + variant_text(variants[count - 1])
    }
}

/// The text of one union: the capability that it dispatches, its name, and
/// its variants.
pub open spec fn union_text(capability: Seq<char>, name: Seq<char>, variants: Seq<VariantModel>) -> Seq<char> {
    "\n#[enum_dispatch("@ + capability + ")]\n#[derive(Debug, Deserialize)]\n#[serde(tag = \"type\")]\npub enum "@
        + name + " {\n"@ + variants_text(variants, variants.len()) + "\n}\n"@
}

/// What opens the block of a module, before the first import from it.
pub open spec fn opening(imports: Seq<(Seq<char>, Seq<char>)>, index: int) -> Seq<char> {
    if index == 0 || imports[index - 1].0 != imports[index].0 {
        "use crate::"@ + imports[index].0 + "::{\n"@
    } else {
        Seq::empty()
    }
}

/// What closes the block of a module, after the last import from it.
pub open spec fn closing(imports: Seq<(Seq<char>, Seq<char>)>, index: int) -> Seq<char> {
    if index == imports.len() - 1 || imports[index + 1].0 != imports[index].0 {
        "};// "@ + imports[index].0 + "\n\n"@
    } else {
        Seq::empty()
    }
}

/// The text of one import: its line, within the block of its module.
pub open spec fn import_text(imports: Seq<(Seq<char>, Seq<char>)>, index: int) -> Seq<char> {
    opening(imports, index) + "\t"@ + imports[index].1 + ",\n"@ + closing(imports, index)
}

/// The text of the first `count` imports.
pub open spec fn imports_text(imports: Seq<(Seq<char>, Seq<char>)>, count: nat) -> Seq<char>
    decreases count,
{
    if count == 0 || count > imports.len() {
        Seq::empty()
    } else {
        imports_text(imports, (count - 1) as nat) + import_text(imports, count - 1)
    }
}

/// The source of a type system: the header, the imports module by module, and
/// the unions of the nodes, the services and the decorators.
pub open spec fn rendered(system: TypeSystemModel) -> Seq<char> {
    HEADER@ + imports_text(system.imports, system.imports.len()) + union_text(
        "Node"@,
        "Nodes"@,
        system.nodes,
    ) + "// *** Services ***"@ + union_text("Service"@, "Services"@, system.services)
        + "// *** Decorators ***"@ + union_text("Decorator"@, "Decorators"@, system.decorators)
}

/// The source that a schema is compiled to.
pub open spec fn generated(schema: SchemaModel) -> Seq<char> {
    rendered(compiled(schema))
}

impl Variant {
    /// The text of the variant.
    pub fn to_variant(&self) -> (text: String)
        ensures
            text@ == variant_text(self@),
    {
        let mut text = String::from_str("\t#[serde(alias = \"");
        text.append(self.tag.as_str());
        text.append("\",deserialize_with = \"node_properties\")]\n\t");
        text.append(self.name.as_str());
        text
    }
}

/// The texts of the variants, with a comma and a line break between one and
/// the next.
fn render_variants(variants: &Vec<Variant>) -> (text: String)
    ensures
        text@ == variants_text(variants_view(variants@), variants@.len()),
{
    let ghost models = variants_view(variants@);
    if variants.len() == 0 {
        return String::new();
    }
    let mut text = variants[0].to_variant();
    let mut i: usize = 1;
    while i < variants.len()
        invariant
            1 <= i <= variants.len(),
            models == variants_view(variants@),
            text@ == variants_text(models, i as nat),
        decreases variants.len() - i,
    {
        let next = variants[i].to_variant();
        text.append(",\n");
        text.append(next.as_str());
        i += 1;
    }
    text
}

/// The text of one union.
fn render_union(capability: &str, name: &str, variants: &Vec<Variant>) -> (text: String)
    ensures
        text@ == union_text(capability@, name@, variants_view(variants@)),
{
    let listed = render_variants(variants);
    let mut text = String::from_str("\n#[enum_dispatch(");
    text.append(capability);
    text.append(")]\n#[derive(Debug, Deserialize)]\n#[serde(tag = \"type\")]\npub enum ");
    text.append(name);
    text.append(" {\n");
    text.append(listed.as_str());
    text.append("\n}\n");
    text
}

/// The text of one import.
fn render_import(imports: &Vec<Import>, index: usize) -> (text: String)
    requires
        index < imports@.len(),
    ensures
        text@ == import_text(imports_view(imports@), index as int),
{
    let ghost models = imports_view(imports@);
    let mut text = String::new();
    if index == 0 || imports[index - 1].module != imports[index].module {
        text.append("use crate::");
        text.append(imports[index].module.as_str());
        text.append("::{\n");
        proof {
            assert(text@ =~= opening(models, index as int));
        }
    }
    text.append("\t");
    text.append(imports[index].name.as_str());
    text.append(",\n");
    if index == imports.len() - 1 || imports[index + 1].module != imports[index].module {
        let mut end = String::from_str("};// ");
        end.append(imports[index].module.as_str());
        end.append("\n\n");
        text.append(end.as_str());
    } else {
        proof {
            assert(text@ + Seq::<char>::empty() =~= text@);
        }
    }
    text
}

/// The text of the imports.
fn render_imports(imports: &Vec<Import>) -> (text: String)
    ensures
        text@ == imports_text(imports_view(imports@), imports@.len()),
{
    let mut text = String::new();
    let mut i: usize = 0;
    while i < imports.len()
        invariant
            i <= imports.len(),
            text@ == imports_text(imports_view(imports@), i as nat),
        decreases imports.len() - i,
    {
        let next = render_import(imports, i);
        text.append(next.as_str());
        i += 1;
    }
    text
}

impl TypeSystem {
    /// The source of the type system.
    pub fn render(&self) -> (text: String)
        ensures
            text@ == rendered(self@),
    {
        let imports = render_imports(&self.imports);
        let nodes = render_union("Node", "Nodes", &self.nodes);
        let services = render_union("Service", "Services", &self.services);
        let decorators = render_union("Decorator", "Decorators", &self.decorators);
        let mut text = String::from_str(HEADER);
        text.append(imports.as_str());
        text.append(nodes.as_str());
        text.append("// *** Services ***");
        text.append(services.as_str());
        text.append("// *** Decorators ***");
        text.append(decorators.as_str());
        text
    }
}

/// Compiles a schema to the source of its type system. The source is a
/// function of the schema: the same schema gives the same source.
pub fn generate(schema: &Schema) -> (text: String)
    ensures
        text@ == generated(schema@),
{
    compile(schema).render()
}

/// The type that a property has in the source.
pub open spec fn host_type(kind: PropertyKind) -> Seq<char> {
    match kind {
        PropertyKind::String => "String"@,
        PropertyKind::Number => "isize"@,
        PropertyKind::Bool => "bool"@,
        PropertyKind::Enum => "String"@,
    }
}

/// The text of the field that a declaration becomes in the source: the
/// attribute that ties it to the declared name, the name in snake case, and
/// the type.
pub open spec fn member_text(declaration: PropertyModel) -> Seq<char> {
    "\t#[serde(alias=\""@ + declaration.name() + "\")]\n\t"@ + snake_case(declaration.name()) + ": "@
        + host_type(declaration.kind())
}

impl Property {
    /// The text of the field that the declaration becomes in the source.
    pub fn to_member(&self) -> (text: String)
        ensures
            text@ == member_text(self@),
    {
        let host = match self.kind() {
            PropertyKind::String => "String",
            PropertyKind::Number => "isize",
            PropertyKind::Bool => "bool",
            PropertyKind::Enum => "String",
        };
        let field = to_snake_case(self.name().as_str());
        let mut text = String::from_str("\t#[serde(alias=\"");
        text.append(self.name().as_str());
        text.append("\")]\n\t");
        text.append(field.as_str());
        text.append(": ");
        text.append(host);
        text
    }
}

} // verus!
