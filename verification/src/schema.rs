//! Schema nodes and the validation semantics.
//!
//! A compiled schema is a graph of [`SchemaNode`]s held in one arena and
//! identified by index; keyword validators refer to child and referenced
//! nodes by index, which is what lets self- and mutually-recursive schemas
//! exist without aliasing. A node is first *registered* (address reserved,
//! validators empty) and later *compiled* (validators populated, immutable
//! thereafter).
//!
//! The meaning of validation is given by the `spec_..._errors` family: for
//! every node and value, the exact sequence of errors produced. Termination
//! of validation over a cyclic graph rests on a lexicographic measure: each
//! step either descends into the value (properties) or consumes reference
//! budget (`$ref`), and the budget restarts at the node count whenever the
//! value descends. A chain of references longer than the node count can only
//! be a cycle that consumes no input, and is reported as a single error.

use vstd::prelude::*;

use crate::decimal::{spec_dec_chars, Decimal};
use crate::errors::{spec_normalise_path, ErrorModel, KeywordType, ValidationError};
use crate::text::{chars_to_string, str_to_chars};
use crate::url_helpers::{Address, AddressModel};
use crate::value::{
    spec_as_number, spec_get_attribute, spec_lookup, spec_primitive_type, EnumPrimitiveType,
    Model, Value,
};

verus! {

/// One compiled keyword validator: the closed set of five keywords, each
/// carrying its compiled state. Child and referenced schema nodes are named
/// by their index in the owning arena.
#[derive(Debug)]
pub enum KeywordValidator {
    /// The accepted primitive kinds.
    Type { kinds: Vec<EnumPrimitiveType> },
    /// Declared property names with their child node indices.
    Properties { properties: Vec<(String, usize)> },
    /// The de-duplicated required attribute names.
    Required { required: Vec<String> },
    /// The divisor values must be an exact multiple of.
    MultipleOf { divisor: Decimal },
    /// The node the reference resolved to.
    Ref { target: usize },
}

/// The mathematical shape of a keyword validator.
pub enum KeywordModel {
    Type { kinds: Seq<EnumPrimitiveType> },
    Properties { properties: Seq<(Seq<char>, int)> },
    Required { required: Seq<Seq<char>> },
    MultipleOf { divisor: Decimal },
    Ref { target: int },
}

impl View for KeywordValidator {
    type V = KeywordModel;

    open spec fn view(&self) -> KeywordModel {
        match self {
            KeywordValidator::Type { kinds } => KeywordModel::Type { kinds: kinds@ },
            KeywordValidator::Properties { properties } => KeywordModel::Properties {
                properties: properties@.map_values(|p: (String, usize)| (p.0@, p.1 as int)),
            },
            KeywordValidator::Required { required } => KeywordModel::Required {
                required: required@.map_values(|s: String| s@),
            },
            KeywordValidator::MultipleOf { divisor } => KeywordModel::MultipleOf {
                divisor: *divisor,
            },
            KeywordValidator::Ref { target } => KeywordModel::Ref { target: *target as int },
        }
    }
}

impl KeywordValidator {
    /// The keyword this validator belongs to.
    pub fn keyword_type(&self) -> (r: KeywordType)
        ensures
            r == spec_keyword_type(self@),
    {
        match self {
            KeywordValidator::Type { .. } => KeywordType::Type,
            KeywordValidator::Properties { .. } => KeywordType::Properties,
            KeywordValidator::Required { .. } => KeywordType::Required,
            KeywordValidator::MultipleOf { .. } => KeywordType::MultipleOf,
            KeywordValidator::Ref { .. } => KeywordType::Ref,
        }
    }
}

/// The keyword a validator model belongs to.
pub open spec fn spec_keyword_type(v: KeywordModel) -> KeywordType {
    match v {
        KeywordModel::Type { .. } => KeywordType::Type,
        KeywordModel::Properties { .. } => KeywordType::Properties,
        KeywordModel::Required { .. } => KeywordType::Required,
        KeywordModel::MultipleOf { .. } => KeywordType::MultipleOf,
        KeywordModel::Ref { .. } => KeywordType::Ref,
    }
}

/// One schema node: its canonical address, the raw document fragment it was
/// compiled from, and its keyword validators. `compiled` distinguishes the
/// registered placeholder from the finished node.
#[derive(Debug)]
pub struct SchemaNode {
    pub address: Address,
    pub raw: Value,
    pub validators: Vec<KeywordValidator>,
    pub compiled: bool,
}

/// The mathematical shape of a schema node.
pub struct NodeModel {
    pub address: AddressModel,
    pub raw: Model,
    pub validators: Seq<KeywordModel>,
    pub compiled: bool,
}

impl View for SchemaNode {
    type V = NodeModel;

    open spec fn view(&self) -> NodeModel {
        NodeModel {
            address: self.address@,
            raw: self.raw@,
            validators: self.validators@.map_values(|v: KeywordValidator| v@),
            compiled: self.compiled,
        }
    }
}

/// The models of a node arena.
pub open spec fn nodes_model(nodes: Seq<SchemaNode>) -> Seq<NodeModel> {
    nodes.map_values(|n: SchemaNode| n@)
}

/// A divisor a validator may carry is strictly positive; this is what the
/// compiler establishes and validation relies on.
pub open spec fn spec_validator_wf(v: KeywordModel) -> bool {
    match v {
        KeywordModel::MultipleOf { divisor } => divisor.spec_is_positive(),
        _ => true,
    }
}

/// Every validator of every node is well formed.
pub open spec fn spec_nodes_wf(nodes: Seq<NodeModel>) -> bool {
    forall|i: int, j: int|
        0 <= i < nodes.len() && 0 <= j < nodes[i].validators.len() ==> spec_validator_wf(
            #[trigger] nodes[i].validators[j],
        )
}

/// Whether an accepted kind matches a value's kind: equal kinds, with an
/// integer always accepted where a number is.
pub open spec fn spec_kind_accepts(accepted: EnumPrimitiveType, actual: EnumPrimitiveType) -> bool {
    accepted == actual || (actual == EnumPrimitiveType::Integer && accepted
        == EnumPrimitiveType::Number)
}

/// Whether a value's kind is among the accepted kinds.
pub open spec fn spec_type_matches(kinds: Seq<EnumPrimitiveType>, value: Model) -> bool {
    match spec_primitive_type(value) {
        Some(actual) => exists|i: int|
            0 <= i < kinds.len() && spec_kind_accepts(#[trigger] kinds[i], actual),
        None => true,
    }
}

/// The errors of a `type` validator: none, or exactly one.
pub open spec fn spec_type_errors(
    kinds: Seq<EnumPrimitiveType>,
    path: Seq<char>,
    value: Model,
) -> Seq<ErrorModel> {
    if spec_type_matches(kinds, value) {
        Seq::empty()
    } else {
        seq![
            ErrorModel {
                path: spec_normalise_path(path),
                keyword: KeywordType::Type,
                message: "Invalid Type"@,
            },
        ]
    }
}

/// The rest of a comma-joined list: a comma before each further part.
pub open spec fn spec_join_rest(parts: Seq<Seq<char>>) -> Seq<char>
    decreases parts.len(),
{
    if parts.len() == 0 {
        Seq::empty()
    } else {
        seq![','] + parts[0] + spec_join_rest(parts.drop_first())
    }
}

/// A list of names joined with commas.
pub open spec fn spec_join_comma(parts: Seq<Seq<char>>) -> Seq<char> {
    if parts.len() == 0 {
        Seq::empty()
    } else {
        parts[0] + spec_join_rest(parts.drop_first())
    }
}

/// The required names that are absent from a value, in declaration order.
pub open spec fn spec_missing_names(required: Seq<Seq<char>>, value: Model) -> Seq<Seq<char>>
    decreases required.len(),
{
    if required.len() == 0 {
        Seq::empty()
    } else {
        let rest = spec_missing_names(required.drop_first(), value);
        if spec_get_attribute(value, required[0]) is None {
            seq![required[0]] + rest
        } else {
            rest
        }
    }
}

/// The errors of a `required` validator: nothing for non-objects; for an
/// object, one error listing every missing name, or none.
pub open spec fn spec_required_errors(
    required: Seq<Seq<char>>,
    path: Seq<char>,
    value: Model,
) -> Seq<ErrorModel> {
    if !(value is Object) {
        Seq::empty()
    } else {
        let missing = spec_missing_names(required, value);
        if missing.len() == 0 {
            Seq::empty()
        } else {
            seq![
                ErrorModel {
                    path: spec_normalise_path(path),
                    keyword: KeywordType::Required,
                    message: "Missing attributes: "@ + spec_join_comma(missing),
                },
            ]
        }
    }
}

/// The errors of a `multipleOf` validator: nothing for non-numeric values;
/// for a number, one error naming the value and the divisor, or none.
pub open spec fn spec_multiple_of_errors(
    divisor: Decimal,
    path: Seq<char>,
    value: Model,
) -> Seq<ErrorModel> {
    match spec_as_number(value) {
        None => Seq::empty(),
        Some(n) => if n.spec_is_multiple_of(divisor) {
            Seq::empty()
        } else {
            seq![
                ErrorModel {
                    path: spec_normalise_path(path),
                    keyword: KeywordType::MultipleOf,
                    message: spec_dec_chars(n) + " is not a multiple of "@ + spec_dec_chars(
                        divisor,
                    ),
                },
            ]
        },
    }
}

/// A looked-up attribute value is structurally part of the object.
proof fn lemma_lookup_element(entries: Seq<(Seq<char>, Model)>, name: Seq<char>)
    ensures
        spec_lookup(entries, name) matches Some(m) ==> exists|i: int|
            0 <= i < entries.len() && m == (#[trigger] entries[i]).1,
    decreases entries.len(),
{
    if entries.len() > 0 && entries[0].0 != name {
        lemma_lookup_element(entries.drop_first(), name);
        match spec_lookup(entries, name) {
            Some(m) => {
                let rest = entries.drop_first();
                let i = choose|i: int| 0 <= i < rest.len() && m == (#[trigger] rest[i]).1;
                assert(entries[i + 1] == entries.drop_first()[i]);
            },
            None => {},
        }
    }
}

/// An attribute value found on an object is smaller than the object, in the
/// well-founded order recursion descends by.
pub proof fn lemma_get_attribute_decreases(value: Model, name: Seq<char>)
    ensures
        spec_get_attribute(value, name) matches Some(m) ==> decreases_to!(value => m),
{
    match value {
        Model::Object(entries) => {
            lemma_lookup_element(entries, name);
            match spec_get_attribute(value, name) {
                Some(m) => {
                    let i = choose|i: int|
                        0 <= i < entries.len() && m == (#[trigger] entries[i]).1;
                    assert(decreases_to!(value => value->Object_0));
                    assert(decreases_to!(value->Object_0 => value->Object_0[i]));
                    assert(decreases_to!(value->Object_0[i] => value->Object_0[i].1));
                },
                None => {},
            }
        },
        _ => {},
    }
}

/// The errors a node produces for a value: an "Uninitialised schema" error
/// for a node that is only registered, the concatenated errors of its
/// validators otherwise. An index outside the arena produces nothing.
pub open spec fn spec_node_errors(
    nodes: Seq<NodeModel>,
    id: int,
    path: Seq<char>,
    value: Model,
    budget: nat,
) -> Seq<ErrorModel>
    decreases value, budget, 3int, 0int,
{
    if 0 <= id < nodes.len() {
        if nodes[id].compiled {
            spec_validators_errors(nodes, nodes[id].validators, path, value, budget)
        } else {
            seq![
                ErrorModel {
                    path: spec_normalise_path(path),
                    keyword: KeywordType::Unknown,
                    message: "Uninitialised schema"@,
                },
            ]
        }
    } else {
        Seq::empty()
    }
}

/// The concatenated errors of a list of validators, in order.
pub open spec fn spec_validators_errors(
    nodes: Seq<NodeModel>,
    validators: Seq<KeywordModel>,
    path: Seq<char>,
    value: Model,
    budget: nat,
) -> Seq<ErrorModel>
    decreases value, budget, 2int, validators.len(),
{
    if validators.len() == 0 {
        Seq::empty()
    } else {
        spec_validator_errors(nodes, validators[0], path, value, budget)
            + spec_validators_errors(nodes, validators.drop_first(), path, value, budget)
    }
}

/// The errors of one validator. A `$ref` with no budget left is a reference
/// cycle that consumes no input; it yields one distinguished error.
pub open spec fn spec_validator_errors(
    nodes: Seq<NodeModel>,
    validator: KeywordModel,
    path: Seq<char>,
    value: Model,
    budget: nat,
) -> Seq<ErrorModel>
    decreases value, budget, 1int, 0int,
{
    match validator {
        KeywordModel::Type { kinds } => spec_type_errors(kinds, path, value),
        KeywordModel::Required { required } => spec_required_errors(required, path, value),
        KeywordModel::MultipleOf { divisor } => spec_multiple_of_errors(divisor, path, value),
        KeywordModel::Properties { properties } => if value is Object {
            spec_properties_errors(nodes, properties, path, value, budget)
        } else {
            Seq::empty()
        },
        KeywordModel::Ref { target } => if budget == 0 {
            seq![
                ErrorModel {
                    path: spec_normalise_path(path),
                    keyword: KeywordType::Ref,
                    message: "Reference cycle"@,
                },
            ]
        } else {
            spec_node_errors(nodes, target, path, value, (budget - 1) as nat)
        },
    }
}

/// The concatenated errors of the declared properties that are present on
/// the value: each present property delegates to its child node at the
/// extended path, with the reference budget restarted.
pub open spec fn spec_properties_errors(
    nodes: Seq<NodeModel>,
    properties: Seq<(Seq<char>, int)>,
    path: Seq<char>,
    value: Model,
    budget: nat,
) -> Seq<ErrorModel>
    decreases value, budget, 0int, properties.len(),
    via spec_properties_errors_decreases
{
    if properties.len() == 0 {
        Seq::empty()
    } else {
        let head = match spec_get_attribute(value, properties[0].0) {
            Some(child) => spec_node_errors(
                nodes,
                properties[0].1,
                path + seq!['/'] + properties[0].0,
                child,
                nodes.len(),
            ),
            None => Seq::empty(),
        };
        head + spec_properties_errors(nodes, properties.drop_first(), path, value, budget)
    }
}

#[via_fn]
proof fn spec_properties_errors_decreases(
    nodes: Seq<NodeModel>,
    properties: Seq<(Seq<char>, int)>,
    path: Seq<char>,
    value: Model,
    budget: nat,
) {
    if properties.len() > 0 {
        lemma_get_attribute_decreases(value, properties[0].0);
    }
}

/// The model of a produced error list.
pub open spec fn errors_model(errors: Seq<ValidationError>) -> Seq<ErrorModel> {
    errors.map_values(|e: ValidationError| e@)
}

/// Whether the value's kind is among the accepted kinds.
fn type_matches(kinds: &Vec<EnumPrimitiveType>, value: &Value) -> (r: bool)
    ensures
        r == spec_type_matches(kinds@, value@),
{
    match value.primitive_type() {
        None => true,
        Some(actual) => {
            let mut i: usize = 0;
            while i < kinds.len()
                invariant
                    i <= kinds@.len(),
                    spec_primitive_type(value@) == Some(actual),
                    forall|j: int| 0 <= j < i ==> !spec_kind_accepts(#[trigger] kinds@[j], actual),
                decreases kinds@.len() - i,
            {
                if kinds[i] == actual || (actual == EnumPrimitiveType::Integer && kinds[i]
                    == EnumPrimitiveType::Number) {
                    proof {
                        assert(spec_kind_accepts(kinds@[i as int], actual));
                    }
                    return true;
                }
                i = i + 1;
            }
            false
        },
    }
}

/// The errors of a `type` validator.
fn type_errors(kinds: &Vec<EnumPrimitiveType>, path: &str, value: &Value) -> (r: Vec<
    ValidationError,
>)
    ensures
        errors_model(r@) == spec_type_errors(kinds@, path@, value@),
{
    let mut r: Vec<ValidationError> = Vec::new();
    if !type_matches(kinds, value) {
        r.push(ValidationError::new(path, KeywordType::Type, "Invalid Type".to_owned()));
    }
    proof {
        assert(errors_model(r@) =~= spec_type_errors(kinds@, path@, value@));
    }
    r
}

/// Join names with commas.
pub fn join_comma(parts: &Vec<String>) -> (r: Vec<char>)
    ensures
        r@ == spec_join_comma(parts@.map_values(|s: String| s@)),
{
    let ghost pm = parts@.map_values(|s: String| s@);
    if parts.len() == 0 {
        return Vec::new();
    }
    let mut cs = str_to_chars(parts[0].as_str());
    proof {
        assert(pm.subrange(1, pm.len() as int) =~= pm.drop_first());
    }
    let mut i: usize = 1;
    while i < parts.len()
        invariant
            1 <= i <= parts@.len(),
            pm == parts@.map_values(|s: String| s@),
            pm.len() == parts@.len(),
            cs@ + spec_join_rest(pm.subrange(i as int, pm.len() as int)) == pm[0] + spec_join_rest(
                pm.drop_first(),
            ),
        decreases parts@.len() - i,
    {
        proof {
            assert(pm.subrange(i as int, pm.len() as int)[0] == pm[i as int]);
            assert(pm.subrange(i as int, pm.len() as int).drop_first() =~= pm.subrange(
                i + 1,
                pm.len() as int,
            ));
        }
        cs.push(',');
        let mut pc = str_to_chars(parts[i].as_str());
        cs.append(&mut pc);
        i = i + 1;
        proof {
            assert(cs@ + spec_join_rest(pm.subrange(i as int, pm.len() as int)) =~= pm[0]
                + spec_join_rest(pm.drop_first()));
        }
    }
    proof {
        assert(pm.subrange(pm.len() as int, pm.len() as int) =~= Seq::<Seq<char>>::empty());
        assert(cs@ =~= spec_join_comma(pm));
    }
    cs
}

/// The errors of a `required` validator.
fn required_errors(required: &Vec<String>, path: &str, value: &Value) -> (r: Vec<ValidationError>)
    ensures
        errors_model(r@) == spec_required_errors(
            required@.map_values(|s: String| s@),
            path@,
            value@,
        ),
{
    let ghost rm = required@.map_values(|s: String| s@);
    if !value.is_object() {
        let r: Vec<ValidationError> = Vec::new();
        proof {
            assert(errors_model(r@) =~= spec_required_errors(rm, path@, value@));
        }
        return r;
    }
    let mut missing: Vec<String> = Vec::new();
    proof {
        assert(rm.subrange(0, rm.len() as int) =~= rm);
        assert(Seq::<Seq<char>>::empty() + spec_missing_names(rm, value@) =~= spec_missing_names(
            rm,
            value@,
        ));
    }
    let mut i: usize = 0;
    while i < required.len()
        invariant
            i <= required@.len(),
            rm == required@.map_values(|s: String| s@),
            rm.len() == required@.len(),
            missing@.map_values(|s: String| s@) + spec_missing_names(
                rm.subrange(i as int, rm.len() as int),
                value@,
            ) == spec_missing_names(rm, value@),
        decreases required@.len() - i,
    {
        let ghost rest = rm.subrange(i as int, rm.len() as int);
        proof {
            assert(rest[0] == rm[i as int]);
            assert(rest.drop_first() =~= rm.subrange(i + 1, rm.len() as int));
        }
        if !value.has_attribute(required[i].as_str()) {
            missing.push(required[i].clone());
        }
        i = i + 1;
        proof {
            assert(missing@.map_values(|s: String| s@) + spec_missing_names(
                rm.subrange(i as int, rm.len() as int),
                value@,
            ) =~= spec_missing_names(rm, value@));
        }
    }
    proof {
        assert(rm.subrange(rm.len() as int, rm.len() as int) =~= Seq::<Seq<char>>::empty());
        assert(missing@.map_values(|s: String| s@) =~= spec_missing_names(rm, value@));
    }
    let mut r: Vec<ValidationError> = Vec::new();
    if missing.len() > 0 {
        let mut mc = str_to_chars("Missing attributes: ");
        let mut jc = join_comma(&missing);
        mc.append(&mut jc);
        r.push(ValidationError::new(path, KeywordType::Required, chars_to_string(&mc)));
    }
    proof {
        assert(errors_model(r@) =~= spec_required_errors(rm, path@, value@));
    }
    r
}

/// The errors of a `multipleOf` validator.
fn multiple_of_errors(divisor: &Decimal, path: &str, value: &Value) -> (r: Vec<ValidationError>)
    requires
        divisor.spec_is_positive(),
    ensures
        errors_model(r@) == spec_multiple_of_errors(*divisor, path@, value@),
{
    let mut r: Vec<ValidationError> = Vec::new();
    match value.as_number() {
        None => {},
        Some(n) => {
            if !n.is_multiple_of(divisor) {
                let mut mc = n.to_chars();
                let mut mid = str_to_chars(" is not a multiple of ");
                let mut dc = divisor.to_chars();
                mc.append(&mut mid);
                mc.append(&mut dc);
                r.push(ValidationError::new(path, KeywordType::MultipleOf, chars_to_string(&mc)));
            }
        },
    }
    proof {
        assert(errors_model(r@) =~= spec_multiple_of_errors(*divisor, path@, value@));
    }
    r
}

/// A path extended with one more segment.
fn extend_path(path: &str, name: &str) -> (r: String)
    ensures
        r@ == path@ + seq!['/'] + name@,
{
    let mut cs = str_to_chars(path);
    cs.push('/');
    let mut nc = str_to_chars(name);
    cs.append(&mut nc);
    proof {
        assert(cs@ =~= path@ + seq!['/'] + name@);
    }
    chars_to_string(&cs)
}

/// The errors a node produces for a value, exactly as
/// [`spec_node_errors`] describes them.
pub fn node_validation_errors(
    nodes: &Vec<SchemaNode>,
    id: usize,
    path: &str,
    value: &Value,
    budget: usize,
) -> (r: Vec<ValidationError>)
    requires
        spec_nodes_wf(nodes_model(nodes@)),
    ensures
        errors_model(r@) == spec_node_errors(
            nodes_model(nodes@),
            id as int,
            path@,
            value@,
            budget as nat,
        ),
    decreases value@, budget, 3int, 0int,
{
    let ghost nm = nodes_model(nodes@);
    if id >= nodes.len() {
        let r: Vec<ValidationError> = Vec::new();
        proof {
            assert(errors_model(r@) =~= spec_node_errors(nm, id as int, path@, value@, budget as nat));
        }
        return r;
    }
    proof {
        assert(nm[id as int] == nodes@[id as int]@);
    }
    let node = &nodes[id];
    if !node.compiled {
        let mut r: Vec<ValidationError> = Vec::new();
        r.push(
            ValidationError::new(path, KeywordType::Unknown, "Uninitialised schema".to_owned()),
        );
        proof {
            assert(errors_model(r@) =~= spec_node_errors(nm, id as int, path@, value@, budget as nat));
        }
        return r;
    }
    let ghost vm = nm[id as int].validators;
    let mut r: Vec<ValidationError> = Vec::new();
    proof {
        assert(vm.subrange(0, vm.len() as int) =~= vm);
        assert(Seq::<ErrorModel>::empty() + spec_validators_errors(nm, vm, path@, value@, budget as nat)
            =~= spec_validators_errors(nm, vm, path@, value@, budget as nat));
    }
    let mut i: usize = 0;
    while i < node.validators.len()
        invariant
            i <= node.validators@.len(),
            spec_nodes_wf(nm),
            nm == nodes_model(nodes@),
            0 <= id < nodes@.len(),
            node == &nodes[id as int],
            vm == nm[id as int].validators,
            vm == node.validators@.map_values(|v: KeywordValidator| v@),
            vm.len() == node.validators@.len(),
            errors_model(r@) + spec_validators_errors(
                nm,
                vm.subrange(i as int, vm.len() as int),
                path@,
                value@,
                budget as nat,
            ) == spec_validators_errors(nm, vm, path@, value@, budget as nat),
        decreases node.validators@.len() - i,
    {
        let ghost rest = vm.subrange(i as int, vm.len() as int);
        proof {
            assert(rest[0] == vm[i as int]);
            assert(rest.drop_first() =~= vm.subrange(i + 1, vm.len() as int));
            assert(spec_validator_wf(nm[id as int].validators[i as int]));
        }
        let mut chunk = validator_errors(nodes, &node.validators[i], path, value, budget);
        r.append(&mut chunk);
        i = i + 1;
        proof {
            assert(errors_model(r@) + spec_validators_errors(
                nm,
                vm.subrange(i as int, vm.len() as int),
                path@,
                value@,
                budget as nat,
            ) =~= spec_validators_errors(nm, vm, path@, value@, budget as nat));
        }
    }
    proof {
        assert(vm.subrange(vm.len() as int, vm.len() as int) =~= Seq::<KeywordModel>::empty());
        assert(errors_model(r@) =~= spec_node_errors(nm, id as int, path@, value@, budget as nat));
    }
    r
}

/// The errors one validator produces for a value, exactly as
/// [`spec_validator_errors`] describes them.
fn validator_errors(
    nodes: &Vec<SchemaNode>,
    validator: &KeywordValidator,
    path: &str,
    value: &Value,
    budget: usize,
) -> (r: Vec<ValidationError>)
    requires
        spec_nodes_wf(nodes_model(nodes@)),
        spec_validator_wf(validator@),
    ensures
        errors_model(r@) == spec_validator_errors(
            nodes_model(nodes@),
            validator@,
            path@,
            value@,
            budget as nat,
        ),
    decreases value@, budget, 1int, 0int,
{
    let ghost nm = nodes_model(nodes@);
    match validator {
        KeywordValidator::Type { kinds } => type_errors(kinds, path, value),
        KeywordValidator::Required { required } => required_errors(required, path, value),
        KeywordValidator::MultipleOf { divisor } => multiple_of_errors(divisor, path, value),
        KeywordValidator::Ref { target } => {
            if budget == 0 {
                let mut r: Vec<ValidationError> = Vec::new();
                r.push(
                    ValidationError::new(path, KeywordType::Ref, "Reference cycle".to_owned()),
                );
                proof {
                    assert(errors_model(r@) =~= spec_validator_errors(
                        nm,
                        validator@,
                        path@,
                        value@,
                        budget as nat,
                    ));
                }
                r
            } else {
                node_validation_errors(nodes, *target, path, value, budget - 1)
            }
        },
        KeywordValidator::Properties { properties } => {
            let ghost pm = properties@.map_values(|p: (String, usize)| (p.0@, p.1 as int));
            if !value.is_object() {
                let r: Vec<ValidationError> = Vec::new();
                proof {
                    assert(errors_model(r@) =~= spec_validator_errors(
                        nm,
                        validator@,
                        path@,
                        value@,
                        budget as nat,
                    ));
                }
                return r;
            }
            let mut r: Vec<ValidationError> = Vec::new();
            proof {
                assert(pm.subrange(0, pm.len() as int) =~= pm);
                assert(Seq::<ErrorModel>::empty() + spec_properties_errors(
                    nm,
                    pm,
                    path@,
                    value@,
                    budget as nat,
                ) =~= spec_properties_errors(nm, pm, path@, value@, budget as nat));
            }
            let mut i: usize = 0;
            while i < properties.len()
                invariant
                    i <= properties@.len(),
                    spec_nodes_wf(nm),
                    nm == nodes_model(nodes@),
                    pm == properties@.map_values(|p: (String, usize)| (p.0@, p.1 as int)),
                    pm.len() == properties@.len(),
                    errors_model(r@) + spec_properties_errors(
                        nm,
                        pm.subrange(i as int, pm.len() as int),
                        path@,
                        value@,
                        budget as nat,
                    ) == spec_properties_errors(nm, pm, path@, value@, budget as nat),
                decreases properties@.len() - i,
            {
                let ghost rest = pm.subrange(i as int, pm.len() as int);
                proof {
                    assert(rest[0] == pm[i as int]);
                    assert(rest.drop_first() =~= pm.subrange(i + 1, pm.len() as int));
                }
                match value.get_attribute(properties[i].0.as_str()) {
                    Some(child) => {
                        let child_path = extend_path(path, properties[i].0.as_str());
                        proof {
                            lemma_get_attribute_decreases(value@, pm[i as int].0);
                        }
                        let mut chunk = node_validation_errors(
                            nodes,
                            properties[i].1,
                            child_path.as_str(),
                            child,
                            nodes.len(),
                        );
                        r.append(&mut chunk);
                    },
                    None => {},
                }
                i = i + 1;
                proof {
                    assert(errors_model(r@) + spec_properties_errors(
                        nm,
                        pm.subrange(i as int, pm.len() as int),
                        path@,
                        value@,
                        budget as nat,
                    ) =~= spec_properties_errors(nm, pm, path@, value@, budget as nat));
                }
            }
            proof {
                assert(pm.subrange(pm.len() as int, pm.len() as int) =~= Seq::<
                    (Seq<char>, int),
                >::empty());
                assert(errors_model(r@) =~= spec_validator_errors(
                    nm,
                    validator@,
                    path@,
                    value@,
                    budget as nat,
                ));
            }
            r
        },
    }
}

} // verus!
