//! The property binder and the behaviours that are always there.

use vstd::prelude::*;
use vstd::pervasive::unreached;
use vstd::string::StringExecFns;
use crate::fold::{
    collect, lemma_collect_failure, lemma_collect_first_failure, lemma_collect_results, lemma_collect_step,
};
use crate::traits::{Decorator, Node, Service, Status};
use crate::tree;
use crate::json::{last_position, lemma_last_position, lemma_list_view, list_view, Json, JsonKind, JsonValue};
use crate::schema::{shape_view, texts, Property, PropertyKind, PropertyModel};

verus! {

/// A value bound to a declared property.
#[derive(Debug, PartialEq, Eq)]
pub enum PropertyValue {
    Text(String),
    Number(i64),
    Bool(bool),
}

/// The mathematical content of a [`PropertyValue`].
pub ghost enum BoundValue {
    Text(Seq<char>),
    Number(i64),
    Bool(bool),
}

impl View for PropertyValue {
    type V = BoundValue;

    open spec fn view(&self) -> BoundValue {
        match self {
            PropertyValue::Text(text) => BoundValue::Text(text@),
            PropertyValue::Number(number) => BoundValue::Number(*number),
            PropertyValue::Bool(flag) => BoundValue::Bool(*flag),
        }
    }
}

/// Why a list of pairs could not be bound to a shape.
#[derive(Debug, PartialEq, Eq)]
pub enum BindError {
    /// The `properties` member is no list of objects that each hold a text
    /// under `name` and a value under `value`.
    Malformed,
    /// No pair has the name of this declared property, which has no default.
    Missing(String),
    /// The pair of this name holds a value of another kind than declared.
    Mismatch { name: String, expected: PropertyKind, found: JsonKind },
    /// The number under this name lies outside the declared bounds.
    OutOfRange(String),
    /// The text under this name is none of the declared values.
    NotAllowed(String),
}

/// The mathematical content of a [`BindError`].
pub ghost enum BindFailure {
    Malformed,
    Missing(Seq<char>),
    Mismatch { name: Seq<char>, expected: PropertyKind, found: JsonKind },
    OutOfRange(Seq<char>),
    NotAllowed(Seq<char>),
}

impl View for BindError {
    type V = BindFailure;

    open spec fn view(&self) -> BindFailure {
        match self {
            BindError::Malformed => BindFailure::Malformed,
            BindError::Missing(name) => BindFailure::Missing(name@),
            BindError::Mismatch { name, expected, found } => BindFailure::Mismatch {
                name: name@,
                expected: *expected,
                found: *found,
            },
            BindError::OutOfRange(name) => BindFailure::OutOfRange(name@),
            BindError::NotAllowed(name) => BindFailure::NotAllowed(name@),
        }
    }
}

/// The pair that one item of a `properties` list stands for.
pub open spec fn pair_of(item: JsonValue) -> Option<(Seq<char>, JsonValue)> {
    match (item.member("name"@), item.member("value"@)) {
        (Some(JsonValue::Text(name)), Some(value)) => Some((name, value)),
        _ => None,
    }
}

/// The pairs that the items of a `properties` list stand for, where each of
/// them stands for one.
pub open spec fn pairs_of(items: Seq<JsonValue>) -> Option<Seq<(Seq<char>, JsonValue)>> {
    if forall|i: int| 0 <= i < items.len() ==> (#[trigger] pair_of(items[i])) is Some {
        Some(Seq::new(items.len(), |i: int| pair_of(items[i])->0))
    } else {
        None
    }
}

/// The pairs that a record carries under `properties`; none where it has no
/// such member.
pub open spec fn pairs_in(record: JsonValue) -> Option<Seq<(Seq<char>, JsonValue)>> {
    match record.member("properties"@) {
        None => Some(Seq::empty()),
        Some(JsonValue::List(items)) => pairs_of(items),
        Some(_) => None,
    }
}

/// The value that the pairs give to `name`: that of the last pair of this name.
pub open spec fn given(pairs: Seq<(Seq<char>, JsonValue)>, name: Seq<char>) -> Option<JsonValue> {
    let i = last_position(pairs, name);
    if 0 <= i < pairs.len() {
        Some(pairs[i].1)
    } else {
        None
    }
}

/// Whether `number` respects the bounds that are there.
pub open spec fn within(number: i64, min: Option<i64>, max: Option<i64>) -> bool {
    &&& min matches Some(least) ==> least <= number
    &&& max matches Some(most) ==> number <= most
}

/// Whether `text` is one of the values, where a set of values is declared.
pub open spec fn allowed(text: Seq<char>, values: Option<Seq<Seq<char>>>) -> bool {
    values matches Some(values) ==> values.contains(text)
}

/// What one declaration of a shape is bound to: the value of the last pair of
/// its name where that value is of the declared kind and within the declared
/// constraints, the default where no pair has the name.
pub open spec fn bind_one(pairs: Seq<(Seq<char>, JsonValue)>, declaration: PropertyModel) -> Result<
    BoundValue,
    BindFailure,
> {
    match declaration {
        PropertyModel::String { name, default } => match given(pairs, name) {
            Some(JsonValue::Text(text)) => Ok(BoundValue::Text(text)),
            Some(other) => Err(
                BindFailure::Mismatch { name, expected: PropertyKind::String, found: other.kind() },
            ),
            None => match default {
                Some(text) => Ok(BoundValue::Text(text)),
                None => Err(BindFailure::Missing(name)),
            },
        },
        PropertyModel::Number { name, default, max, min } => match given(pairs, name) {
            Some(JsonValue::Number(Some(number))) => if within(number, min, max) {
                Ok(BoundValue::Number(number))
            } else {
                Err(BindFailure::OutOfRange(name))
            },
            Some(other) => Err(
                BindFailure::Mismatch { name, expected: PropertyKind::Number, found: other.kind() },
            ),
            None => match default {
                Some(number) => Ok(BoundValue::Number(number)),
                None => Err(BindFailure::Missing(name)),
            },
        },
        PropertyModel::Bool { name, default } => match given(pairs, name) {
            Some(JsonValue::Bool(flag)) => Ok(BoundValue::Bool(flag)),
            Some(other) => Err(
                BindFailure::Mismatch { name, expected: PropertyKind::Bool, found: other.kind() },
            ),
            None => match default {
                Some(flag) => Ok(BoundValue::Bool(flag)),
                None => Err(BindFailure::Missing(name)),
            },
        },
        PropertyModel::Enum { name, default, values } => match given(pairs, name) {
            Some(JsonValue::Text(text)) => if allowed(text, values) {
                Ok(BoundValue::Text(text))
            } else {
                Err(BindFailure::NotAllowed(name))
            },
            Some(other) => Err(
                BindFailure::Mismatch { name, expected: PropertyKind::Enum, found: other.kind() },
            ),
            None => match default {
                Some(text) => Ok(BoundValue::Text(text)),
                None => Err(BindFailure::Missing(name)),
            },
        },
    }
}

/// How the pairs bind a declaration, as a function of the declaration.
pub open spec fn binder(pairs: Seq<(Seq<char>, JsonValue)>) -> spec_fn(PropertyModel) -> Result<
    BoundValue,
    BindFailure,
> {
    |declaration: PropertyModel| bind_one(pairs, declaration)
}

/// What a shape is bound to, declaration by declaration: every value in the
/// order of the declarations, or the failure of the first declaration that
/// cannot be bound.
pub open spec fn bind_all(pairs: Seq<(Seq<char>, JsonValue)>, shape: Seq<PropertyModel>) -> Result<
    Seq<BoundValue>,
    BindFailure,
> {
    collect(shape, binder(pairs))
}

/// What the pairs of a record are bound to under a shape.
pub open spec fn bind(record: JsonValue, shape: Seq<PropertyModel>) -> Result<Seq<BoundValue>, BindFailure> {
    match pairs_in(record) {
        None => Err(BindFailure::Malformed),
        Some(pairs) => bind_all(pairs, shape),
    }
}

/// The mathematical content of the values of a sequence, in order.
pub open spec fn values_view(values: Seq<PropertyValue>) -> Seq<BoundValue> {
    Seq::new(values.len(), |i: int| values[i]@)
}

/// The mathematical content of the outcome of binding one declaration.
pub open spec fn bound_view(outcome: Result<PropertyValue, BindError>) -> Result<BoundValue, BindFailure> {
    match outcome {
        Ok(value) => Ok(value@),
        Err(error) => Err(error@),
    }
}

/// The mathematical content of the outcome of a binding.
pub open spec fn binding_view(outcome: Result<Vec<PropertyValue>, BindError>) -> Result<
    Seq<BoundValue>,
    BindFailure,
> {
    match outcome {
        Ok(values) => Ok(values_view(values@)),
        Err(error) => Err(error@),
    }
}

/// A duplicate name resolves to its last occurrence: a declaration is bound
/// against a list of pairs as it is bound against the last pair of its name
/// alone.
pub proof fn law_last_pair_wins(pairs: Seq<(Seq<char>, JsonValue)>, declaration: PropertyModel, last: int)
    requires
        0 <= last < pairs.len(),
        pairs[last].0 == declaration.name(),
        forall|i: int| last < i < pairs.len() ==> (#[trigger] pairs[i]).0 != declaration.name(),
    ensures
        bind_one(pairs, declaration) == bind_one(seq![pairs[last]], declaration),
{
    let name = declaration.name();
    lemma_last_position(pairs, name);
    let found = last_position(pairs, name);
    if found < last {
        assert(pairs[last].0 != name);
    }
    assert(found == last);
    let alone = seq![pairs[last]];
    assert(alone.last() == pairs[last]);
    assert(last_position(alone, name) == 0);
    assert(given(pairs, name) == given(alone, name));
}

/// A declared property that no pair names and that has no default fails the
/// binding, and the failure names it, where the declarations before it are
/// bound.
pub proof fn law_missing_property_is_named(
    pairs: Seq<(Seq<char>, JsonValue)>,
    shape: Seq<PropertyModel>,
    index: int,
)
    requires
        0 <= index < shape.len(),
        forall|i: int| 0 <= i < index ==> bind_one(pairs, #[trigger] shape[i]) is Ok,
        forall|i: int| 0 <= i < pairs.len() ==> (#[trigger] pairs[i]).0 != shape[index].name(),
        bind_one(seq![], shape[index]) is Err,
    ensures
        bind_all(pairs, shape) == Err::<Seq<BoundValue>, BindFailure>(BindFailure::Missing(shape[index].name())),
{
    let name = shape[index].name();
    lemma_last_position(pairs, name);
    assert(given(pairs, name) is None) by {
        let found = last_position(pairs, name);
        if found >= 0 {
            assert(pairs[found].0 == name);
        }
    }
    assert(last_position(seq![], name) == -1);
    assert(bind_one(pairs, shape[index]) == Err::<BoundValue, BindFailure>(BindFailure::Missing(name)));
    assert(binder(pairs)(shape[index]) is Err);
    lemma_collect_results(shape, binder(pairs));
    let first = lemma_collect_first_failure(shape, binder(pairs));
    if first < index {
        assert(bind_one(pairs, shape[first]) is Ok);
    }
    if index < first {
        assert(binder(pairs)(shape[index]) is Ok);
    }
}

/// One pair of a `properties` list.
pub struct Pair<'a> {
    pub name: &'a String,
    pub value: &'a Json,
}

/// The names of the pairs of a sequence, each with the view of its value.
pub open spec fn pairs_view(pairs: Seq<Pair<'_>>) -> Seq<(Seq<char>, JsonValue)> {
    Seq::new(pairs.len(), |i: int| (pairs[i].name@, pairs[i].value@))
}

/// Reads the pairs that a record carries under `properties`.
pub fn property_pairs<'a>(record: &'a Json) -> (pairs: Option<Vec<Pair<'a>>>)
    ensures
        match pairs {
            Some(pairs) => pairs_in(record@) == Some(pairs_view(pairs@)),
            None => pairs_in(record@) is None,
        },
{
    let mut pairs: Vec<Pair<'a>> = Vec::new();
    match record.member("properties") {
        None => {
            assert(pairs_view(pairs@) =~= Seq::empty());
            Some(pairs)
        },
        Some(Json::List(items)) => {
            let ghost models = list_view(items@);
            proof {
                lemma_list_view(items@);
                assert(record@.member("properties"@) == Some(JsonValue::List(models)));
            }
            let mut i: usize = 0;
            while i < items.len()
                invariant
                    i <= items.len(),
                    record@.member("properties"@) == Some(JsonValue::List(models)),
                    models.len() == items@.len(),
                    forall|j: int| 0 <= j < items@.len() ==> (#[trigger] models[j]) == items@[j]@,
                    pairs@.len() == i,
                    forall|j: int|
                        0 <= j < i ==> pair_of(#[trigger] models[j]) == Some(
                            (pairs@[j].name@, pairs@[j].value@),
                        ),
                decreases items.len() - i,
            {
                let name = items[i].member("name");
                let value = items[i].member("value");
                match (name, value) {
                    (Some(Json::Text(name)), Some(value)) => {
                        pairs.push(Pair { name, value });
                    },
                    _ => {
                        assert(pair_of(models[i as int]) is None);
                        return None;
                    },
                }
                i += 1;
            }
            proof {
                assert(pairs_of(models)->0 =~= pairs_view(pairs@));
            }
            Some(pairs)
        },
        Some(_) => None,
    }
}

/// The value that the pairs give to `name`.
pub fn find_pair<'a>(pairs: &Vec<Pair<'a>>, name: &String) -> (found: Option<&'a Json>)
    ensures
        match found {
            Some(value) => given(pairs_view(pairs@), name@) == Some(value@),
            None => given(pairs_view(pairs@), name@) is None,
        },
{
    let ghost model = pairs_view(pairs@);
    let mut i: usize = pairs.len();
    proof {
        assert(model.take(i as int) =~= model);
    }
    while i > 0
        invariant
            i <= pairs.len(),
            model == pairs_view(pairs@),
            last_position(model, name@) == last_position(model.take(i as int), name@),
        decreases i,
    {
        i -= 1;
        proof {
            assert(model.take(i + 1).last() == model[i as int]);
            assert(model.take(i + 1).drop_last() =~= model.take(i as int));
        }
        if *pairs[i].name == *name {
            return Some(pairs[i].value);
        }
    }
    proof {
        assert(model.take(0) =~= Seq::<(Seq<char>, JsonValue)>::empty());
    }
    None
}

/// Whether `number` respects the bounds that are there.
pub fn is_within(number: i64, min: &Option<i64>, max: &Option<i64>) -> (inside: bool)
    ensures
        inside == within(number, *min, *max),
{
    let above = match min {
        Some(least) => *least <= number,
        None => true,
    };
    let below = match max {
        Some(most) => number <= *most,
        None => true,
    };
    above && below
}

/// Whether `text` is one of the values, where a set of values is declared.
pub fn is_allowed(text: &String, values: &Option<Vec<String>>) -> (inside: bool)
    ensures
        inside == allowed(
            text@,
            match *values {
                Some(values) => Some(texts(values@)),
                None => None,
            },
        ),
{
    match values {
        None => true,
        Some(listed) => {
            let mut i: usize = 0;
            while i < listed.len()
                invariant
                    i <= listed.len(),
                    *values == Some(*listed),
                    forall|j: int| 0 <= j < i ==> (#[trigger] texts(listed@)[j]) != text@,
                decreases listed.len() - i,
            {
                if listed[i] == *text {
                    proof {
                        assert(texts(listed@)[i as int] == text@);
                        assert(texts(listed@).contains(text@));
                    }
                    return true;
                }
                i += 1;
            }
            false
        },
    }
}

/// Binds one declaration of a shape against the pairs.
pub fn bind_property(pairs: &Vec<Pair<'_>>, declaration: &Property) -> (bound: Result<PropertyValue, BindError>)
    ensures
        bound_view(bound) == bind_one(pairs_view(pairs@), declaration@),
{
    match declaration {
        Property::String { name, default } => match find_pair(pairs, name) {
            Some(Json::Text(text)) => Ok(PropertyValue::Text(text.clone())),
            Some(other) => Err(
                BindError::Mismatch { name: name.clone(), expected: PropertyKind::String, found: other.kind() },
            ),
            None => match default {
                Some(text) => Ok(PropertyValue::Text(text.clone())),
                None => Err(BindError::Missing(name.clone())),
            },
        },
        Property::Number { name, default, max, min } => match find_pair(pairs, name) {
            Some(Json::Number(Some(number))) => if is_within(*number, min, max) {
                Ok(PropertyValue::Number(*number))
            } else {
                Err(BindError::OutOfRange(name.clone()))
            },
            Some(other) => Err(
                BindError::Mismatch { name: name.clone(), expected: PropertyKind::Number, found: other.kind() },
            ),
            None => match default {
                Some(number) => Ok(PropertyValue::Number(*number)),
                None => Err(BindError::Missing(name.clone())),
            },
        },
        Property::Bool { name, default } => match find_pair(pairs, name) {
            Some(Json::Bool(flag)) => Ok(PropertyValue::Bool(*flag)),
            Some(other) => Err(
                BindError::Mismatch { name: name.clone(), expected: PropertyKind::Bool, found: other.kind() },
            ),
            None => match default {
                Some(flag) => Ok(PropertyValue::Bool(*flag)),
                None => Err(BindError::Missing(name.clone())),
            },
        },
        Property::Enum { name, default, values } => match find_pair(pairs, name) {
            Some(Json::Text(text)) => if is_allowed(text, values) {
                Ok(PropertyValue::Text(text.clone()))
            } else {
                Err(BindError::NotAllowed(name.clone()))
            },
            Some(other) => Err(
                BindError::Mismatch { name: name.clone(), expected: PropertyKind::Enum, found: other.kind() },
            ),
            None => match default {
                Some(text) => Ok(PropertyValue::Text(text.clone())),
                None => Err(BindError::Missing(name.clone())),
            },
        },
    }
}

/// The property binder: turns the pairs that a record carries under
/// `properties` into the values of a shape, one for each declaration and in
/// their order. Of several pairs with one name the last counts; a declaration
/// that no pair names takes its default.
pub fn node_properties(record: &Json, shape: &Vec<Property>) -> (bound: Result<Vec<PropertyValue>, BindError>)
    ensures
        binding_view(bound) == bind(record@, shape_view(shape@)),
{
    let pairs = match property_pairs(record) {
        Some(pairs) => pairs,
        None => {
            return Err(BindError::Malformed);
        },
    };
    let ghost model = pairs_view(pairs@);
    let ghost declared = shape_view(shape@);
    let mut values: Vec<PropertyValue> = Vec::new();
    let mut i: usize = 0;
    proof {
        assert(values_view(values@) =~= Seq::empty());
    }
    while i < shape.len()
        invariant
            i <= shape.len(),
            model == pairs_view(pairs@),
            declared == shape_view(shape@),
            pairs_in(record@) == Some(model),
            collect(declared.take(i as int), binder(model)) == Ok::<Seq<BoundValue>, BindFailure>(
                values_view(values@),
            ),
        decreases shape.len() - i,
    {
        proof {
            lemma_collect_step(declared, binder(model), i as int);
        }
        match bind_property(&pairs, &shape[i]) {
            Ok(value) => {
                let ghost before = values_view(values@);
                values.push(value);
                proof {
                    assert(values_view(values@) =~= before.push(value@));
                }
            },
            Err(error) => {
                proof {
                    lemma_collect_failure(declared, binder(model), i + 1);
                }
                return Err(error);
            },
        }
        i += 1;
    }
    proof {
        assert(declared.take(i as int) =~= declared);
    }
    Ok(values)
}

/// The index of the first report that differs from `status`: the number of
/// reports where none differs.
pub open spec fn first_other(reports: Seq<Status>, status: Status) -> int
    decreases reports.len(),
{
    if reports.len() == 0 || reports[0] != status {
        0
    } else {
        1 + first_other(reports.drop_first(), status)
    }
}

/// `first_other` is the one index before which every report is `status` and
/// at which, where it is an index at all, the report is another.
pub proof fn lemma_first_other(reports: Seq<Status>, status: Status, index: int)
    requires
        0 <= index <= reports.len(),
        forall|i: int| 0 <= i < index ==> reports[i] == status,
        index < reports.len() ==> reports[index] != status,
    ensures
        first_other(reports, status) == index,
    decreases reports.len(),
{
    if index > 0 {
        let rest = reports.drop_first();
        assert forall|i: int| 0 <= i < index - 1 implies rest[i] == status by {
            assert(rest[i] == reports[i + 1]);
        }
        lemma_first_other(rest, status, index - 1);
    }
}

/// What a composite has to say after one tick: its status, and how many of
/// its children it ticked to get there.
#[derive(Debug, Clone, Copy, PartialEq, Eq, Structural)]
pub struct Resolution {
    pub status: Status,
    pub ticked: usize,
}

/// Goes through the reports in order, up to the first that differs from `pass`.
fn scan(reports: &Vec<Status>, pass: Status) -> (index: usize)
    ensures
        index == first_other(reports@, pass),
        index <= reports@.len(),
{
    let mut i: usize = 0;
    while i < reports.len() && reports[i] == pass
        invariant
            i <= reports.len(),
            forall|j: int| 0 <= j < i ==> reports@[j] == pass,
        decreases reports.len() - i,
    {
        i += 1;
    }
    proof {
        lemma_first_other(reports@, pass, i as int);
    }
    i
}

/// A composite node that succeeds where all its children succeed.
#[derive(Debug)]
pub struct Sequence {}

impl Sequence {
    /// The status of a sequence whose children would report `reports`, in their
    /// order: that of the first child that does not succeed; success where all
    /// succeed, and where there is no child.
    pub open spec fn outcome(reports: Seq<Status>) -> Status {
        let stop = first_other(reports, Status::Success);
        if stop < reports.len() {
            reports[stop]
        } else {
            Status::Success
        }
    }

    /// How many of its children a sequence ticks: those up to the first that
    /// does not succeed, that one included.
    pub open spec fn ticked(reports: Seq<Status>) -> nat {
        let stop = first_other(reports, Status::Success);
        if stop < reports.len() {
            (stop + 1) as nat
        } else {
            reports.len()
        }
    }

    /// One tick of a sequence whose children would report `reports`.
    pub fn resolve(&self, reports: &Vec<Status>) -> (resolution: Resolution)
        ensures
            resolution.status == Self::outcome(reports@),
            resolution.ticked == Self::ticked(reports@),
    {
        let stop = scan(reports, Status::Success);
        if stop < reports.len() {
            Resolution { status: reports[stop], ticked: stop + 1 }
        } else {
            Resolution { status: Status::Success, ticked: stop }
        }
    }
}

impl Node for Sequence {
    /// A sequence by itself has no child to tick.
    fn tick(&self) -> (status: Status)
        ensures
            status == Status::Success,
    {
        Status::Success
    }
}

/// A composite node that succeeds where one of its children succeeds.
#[derive(Debug)]
pub struct Selector {}

impl Selector {
    /// The status of a selector whose children would report `reports`, in their
    /// order: that of the first child that does not fail; failure where all
    /// fail; success where there is no child.
    pub open spec fn outcome(reports: Seq<Status>) -> Status {
        let stop = first_other(reports, Status::Failure);
        if reports.len() == 0 {
            Status::Success
        } else if stop < reports.len() {
            reports[stop]
        } else {
            Status::Failure
        }
    }

    /// How many of its children a selector ticks: those up to the first that
    /// does not fail, that one included.
    pub open spec fn ticked(reports: Seq<Status>) -> nat {
        let stop = first_other(reports, Status::Failure);
        if stop < reports.len() {
            (stop + 1) as nat
        } else {
            reports.len()
        }
    }

    /// One tick of a selector whose children would report `reports`.
    pub fn resolve(&self, reports: &Vec<Status>) -> (resolution: Resolution)
        ensures
            resolution.status == Self::outcome(reports@),
            resolution.ticked == Self::ticked(reports@),
    {
        let stop = scan(reports, Status::Failure);
        if reports.len() == 0 {
            Resolution { status: Status::Success, ticked: 0 }
        } else if stop < reports.len() {
            Resolution { status: reports[stop], ticked: stop + 1 }
        } else {
            Resolution { status: Status::Failure, ticked: stop }
        }
    }
}

impl Node for Selector {
    /// A selector by itself has no child to tick.
    fn tick(&self) -> (status: Status)
        ensures
            status == Status::Success,
    {
        Status::Success
    }
}

/// A sequence fails or runs with the first child that does so, ticks no
/// child after it, and succeeds only where every child succeeds.
pub proof fn law_sequence(reports: Seq<Status>)
    ensures
        Sequence::ticked(reports) <= reports.len(),
        forall|i: int| 0 <= i < Sequence::ticked(reports) - 1 ==> reports[i] == Status::Success,
        Sequence::outcome(reports) == Status::Success <==> forall|i: int|
            0 <= i < reports.len() ==> reports[i] == Status::Success,
        Sequence::outcome(reports) != Status::Success ==> Sequence::outcome(reports) == reports[Sequence::ticked(
            reports,
        ) - 1],
        Sequence::outcome(reports) == Status::Success ==> Sequence::ticked(reports) == reports.len(),
{
    lemma_first_other_is_first(reports, Status::Success);
}

/// A selector succeeds or runs with the first child that does so, ticks no
/// child after it, and fails only where it has children and every child
/// fails.
pub proof fn law_selector(reports: Seq<Status>)
    ensures
        Selector::ticked(reports) <= reports.len(),
        forall|i: int| 0 <= i < Selector::ticked(reports) - 1 ==> reports[i] == Status::Failure,
        Selector::outcome(reports) == Status::Failure <==> reports.len() > 0 && forall|i: int|
            0 <= i < reports.len() ==> reports[i] == Status::Failure,
        reports.len() > 0 && Selector::outcome(reports) != Status::Failure ==> Selector::outcome(reports)
            == reports[Selector::ticked(reports) - 1],
        Selector::outcome(reports) == Status::Failure ==> Selector::ticked(reports) == reports.len(),
{
    lemma_first_other_is_first(reports, Status::Failure);
}

/// A composite without children succeeds, sequence and selector alike.
pub proof fn law_childless_composite_succeeds()
    ensures
        Sequence::outcome(Seq::empty()) == Status::Success,
        Selector::outcome(Seq::empty()) == Status::Success,
        Sequence::ticked(Seq::empty()) == 0,
        Selector::ticked(Seq::empty()) == 0,
{
}

/// Every report before `first_other` is `status`; the one at it, where there is
/// one, is not.
pub proof fn lemma_first_other_is_first(reports: Seq<Status>, status: Status)
    ensures
        0 <= first_other(reports, status) <= reports.len(),
        forall|i: int| 0 <= i < first_other(reports, status) ==> reports[i] == status,
        first_other(reports, status) < reports.len() ==> reports[first_other(reports, status)] != status,
    decreases reports.len(),
{
    if reports.len() > 0 && reports[0] == status {
        let rest = reports.drop_first();
        lemma_first_other_is_first(rest, status);
        assert forall|i: int| 0 <= i < first_other(reports, status) implies reports[i] == status by {
            if i > 0 {
                assert(rest[i - 1] == reports[i]);
            }
        }
        if first_other(reports, status) < reports.len() {
            assert(rest[first_other(rest, status)] == reports[first_other(reports, status)]);
        }
    }
}

/// A node that stands for a tree of its own, which was loaded from the file
/// that the property `path` names: ticking it ticks the root of that tree.
#[derive(Debug)]
pub struct Subtree {
    pub(crate) path: Box<tree::Node>,
}

impl Subtree {
    /// The shape of a subtree: one text, `path`, without a default.
    pub open spec fn declared() -> Seq<PropertyModel> {
        seq![PropertyModel::String { name: "path"@, default: None }]
    }

    /// The path that a record gives to a subtree.
    pub open spec fn reading(record: JsonValue) -> Result<Seq<char>, BindFailure> {
        match bind(record, Self::declared()) {
            Ok(values) => Ok(values[0]->Text_0),
            Err(failure) => Err(failure),
        }
    }

    /// The root of the tree that the subtree stands for.
    pub closed spec fn root(&self) -> tree::Node {
        *self.path
    }

    pub fn shape() -> (shape: Vec<Property>)
        ensures
            shape_view(shape@) == Self::declared(),
    {
        let mut shape: Vec<Property> = Vec::new();
        shape.push(Property::String { name: String::from_str("path"), default: None });
        proof {
            assert(shape_view(shape@) =~= Self::declared());
        }
        shape
    }

    /// Binds the properties of a record to the path of a subtree.
    pub fn path_of(record: &Json) -> (bound: Result<String, BindError>)
        ensures
            match bound {
                Ok(path) => Self::reading(record@) == Ok::<Seq<char>, BindFailure>(path@),
                Err(error) => Self::reading(record@) == Err::<Seq<char>, BindFailure>(error@),
            },
    {
        let shape = Self::shape();
        bind_text(record, &shape)
    }

    /// A subtree that stands for the tree under `root`.
    pub fn new(root: tree::Node) -> (subtree: Subtree)
        ensures
            subtree.root() == root,
    {
        Subtree { path: Box::new(root) }
    }
}

impl Node for Subtree {
    open spec fn plain(&self) -> bool {
        false
    }

    /// Pure delegation: the status is that of the root of the tree.
    fn tick(&self) -> (status: Status)
        ensures
            status == self.root()@.status(),
    {
        self.path.tick()
    }
}

/// A service that carries a note for the reader of a tree and does nothing.
#[derive(Debug)]
pub struct Comment {
    comment: String,
}

impl View for Comment {
    type V = Seq<char>;

    closed spec fn view(&self) -> Seq<char> {
        self.comment@
    }
}

impl Comment {
    /// The shape of a comment: one text, `comment`, without a default.
    pub open spec fn declared() -> Seq<PropertyModel> {
        seq![PropertyModel::String { name: "comment"@, default: None }]
    }

    /// The note that a record makes a comment of.
    pub open spec fn reading(record: JsonValue) -> Result<Seq<char>, BindFailure> {
        match bind(record, Self::declared()) {
            Ok(values) => Ok(values[0]->Text_0),
            Err(failure) => Err(failure),
        }
    }

    pub fn shape() -> (shape: Vec<Property>)
        ensures
            shape_view(shape@) == Self::declared(),
    {
        let mut shape: Vec<Property> = Vec::new();
        shape.push(Property::String { name: String::from_str("comment"), default: None });
        proof {
            assert(shape_view(shape@) =~= Self::declared());
        }
        shape
    }

    /// Binds the properties of a record to a comment.
    pub fn from_record(record: &Json) -> (loaded: Result<Comment, BindError>)
        ensures
            match loaded {
                Ok(comment) => Self::reading(record@) == Ok::<Seq<char>, BindFailure>(comment@),
                Err(error) => Self::reading(record@) == Err::<Seq<char>, BindFailure>(error@),
            },
    {
        let shape = Self::shape();
        match bind_text(record, &shape) {
            Ok(comment) => Ok(Comment { comment }),
            Err(error) => Err(error),
        }
    }

    pub fn comment(&self) -> (comment: &String)
        ensures
            comment@ == self@,
    {
        &self.comment
    }

    /// A comment with the same note.
    pub fn duplicate(&self) -> (copy: Comment)
        ensures
            copy@ == self@,
    {
        Comment { comment: self.comment.clone() }
    }
}

/// Binds a shape of one text and hands out that text.
fn bind_text(record: &Json, shape: &Vec<Property>) -> (bound: Result<String, BindError>)
    requires
        shape@.len() == 1,
        shape@[0]@ is String,
    ensures
        match bound {
            Ok(text) => bind(record@, shape_view(shape@)) matches Ok(values) && values[0] == BoundValue::Text(
                text@,
            ),
            Err(error) => bind(record@, shape_view(shape@)) == Err::<Seq<BoundValue>, BindFailure>(error@),
        },
{
    match node_properties(record, shape) {
        Ok(mut values) => {
            proof {
                let pairs = pairs_in(record@)->0;
                lemma_collect_results(shape_view(shape@), binder(pairs));
                assert(shape_view(shape@)[0] == shape@[0]@);
                assert(values_view(values@)[0] == values@[0]@);
            }
            match values.pop() {
                Some(PropertyValue::Text(text)) => Ok(text),
                _ => unreached(),
            }
        },
        Err(error) => Err(error),
    }
}

impl Service for Comment {
    fn serve(&self) -> (status: Status)
        ensures
            status == Status::Success,
    {
        Status::Success
    }
}

/// A decorator that fails whatever its child reports.
#[derive(Debug)]
pub struct Failure {}

impl Decorator for Failure {
    open spec fn plain(&self) -> bool {
        false
    }

    fn decorate(&self, status: Status) -> (decorated: Status)
        ensures
            decorated == Status::Failure,
    {
        assert(!self.plain());
        Status::Failure
    }
}

/// A decorator that succeeds whatever its child reports.
#[derive(Debug)]
pub struct Success {}

impl Decorator for Success {
    open spec fn plain(&self) -> bool {
        false
    }

    fn decorate(&self, status: Status) -> (decorated: Status)
        ensures
            decorated == Status::Success,
    {
        assert(!self.plain());
        Status::Success
    }
}

/// A decorator that turns success into failure and failure into success.
#[derive(Debug)]
pub struct Invert {}

impl Invert {
    /// Success for failure, failure for success; a running child is running.
    pub open spec fn inverse(status: Status) -> Status {
        match status {
            Status::Success => Status::Failure,
            Status::Failure => Status::Success,
            Status::Running => Status::Running,
        }
    }
}

impl Decorator for Invert {
    open spec fn plain(&self) -> bool {
        false
    }

    fn decorate(&self, status: Status) -> (decorated: Status)
        ensures
            decorated == Invert::inverse(status),
    {
        assert(!self.plain());
        match status {
            Status::Success => Status::Failure,
            Status::Failure => Status::Success,
            Status::Running => Status::Running,
        }
    }
}

/// Inverting twice changes nothing.
pub proof fn law_invert_twice(status: Status)
    ensures
        Invert::inverse(Invert::inverse(status)) == status,
{
}

} // verus!
