//! The compilation session and its frozen result.
//!
//! A [`ScopeBuilder`] receives raw documents under canonical addresses and
//! registers one schema node per address — at most once per session, however
//! many references lead there. Freezing the session ([`ScopeBuilder::build`])
//! runs the second compilation pass over every still-registered node,
//! compiling keywords and registering the child and referenced nodes they
//! discover, until the whole graph is compiled; the result is a read-only
//! [`Scope`] that answers validation queries.

use vstd::prelude::*;

use crate::cache::{spec_find_key, spec_saturating_inc, Cache, CacheKey, Stats};
use crate::drafts::DraftVersion;
use crate::errors::{KeywordType, LoaderError, SchemaError, ValidationError};
use crate::schema::{
    errors_model, nodes_model, spec_node_errors, spec_nodes_wf, KeywordModel, KeywordValidator,
    NodeModel, SchemaNode,
};
use crate::text::{chars_to_string, push_nat_chars, str_to_chars};
use crate::url_helpers::{
    append_fragment_components, extract_fragment_components, normalize_url_for_cache, Address,
    AddressModel, UrlError,
};
use crate::keywords::{
    compile_multiple_of, compile_required, compile_type, spec_multiple_of_compile,
    spec_required_names, spec_type_compile, MultipleOfOutcome,
};
use crate::url_helpers::{
    joined_url_of, spec_escapes_ok, spec_fragment_components, spec_normalized_fragment,
};
use crate::value::{spec_get_attribute, spec_obj_entries, Model, Value};

verus! {

/// One as a count.
pub open spec fn b2i(b: bool) -> int {
    if b {
        1
    } else {
        0
    }
}

/// What a compiled `properties` validator promises: one slot per declared
/// property, in declaration order, each naming a node addressed at this
/// node's address extended by `/properties/<name>`; every declared property
/// value is itself an object.
pub open spec fn spec_properties_validator_ok(
    nodes: Seq<NodeModel>,
    node: NodeModel,
    attr: Model,
    v: KeywordModel,
) -> bool {
    &&& attr is Object
    &&& v matches KeywordModel::Properties { properties } && {
        let entries = spec_obj_entries(attr);
        &&& properties.len() == entries.len()
        &&& forall|j: int|
            0 <= j < entries.len() ==> {
                &&& (#[trigger] properties[j]).0 == entries[j].0
                &&& 0 <= properties[j].1 < nodes.len()
                &&& entries[j].1 is Object
                &&& nodes[properties[j].1].address.base == node.address.base
                &&& nodes[properties[j].1].address.fragment == node.address.fragment + seq![
                    "properties"@,
                    entries[j].0,
                ]
            }
    }
}

/// What a compiled `$ref` validator promises: the attribute was a string,
/// it resolved against this node's address by the url crate's
/// reference-resolution rules, and the target node is addressed at the
/// canonical form of the resolved address.
pub open spec fn spec_ref_validator_ok(
    nodes: Seq<NodeModel>,
    node: NodeModel,
    attr: Model,
    v: KeywordModel,
) -> bool {
    &&& attr matches Model::String(s) && v matches KeywordModel::Ref { target } && {
        &&& 0 <= target < nodes.len()
        &&& joined_url_of(node.address.base, s) matches Some(pu) && {
            let nf = spec_normalized_fragment(pu.1);
            &&& spec_escapes_ok(nf)
            &&& nodes[target].address == (AddressModel {
                base: pu.0,
                fragment: spec_fragment_components(nf),
            })
        }
    }
}

/// What a compiled node promises: its document is an object, and its
/// validator list holds exactly one validator per keyword attribute present,
/// in the fixed order `type`, `properties`, `required`, `multipleOf`,
/// `$ref` (the last only when references are followed), each compiled
/// exactly from its attribute.
pub open spec fn spec_compiled_node_ok(
    nodes: Seq<NodeModel>,
    node: NodeModel,
    follow_refs: bool,
) -> bool {
    let raw = node.raw;
    let ta = spec_get_attribute(raw, "type"@);
    let pa = spec_get_attribute(raw, "properties"@);
    let ra = spec_get_attribute(raw, "required"@);
    let ma = spec_get_attribute(raw, "multipleOf"@);
    let fa = spec_get_attribute(raw, "$ref"@);
    let ht = ta is Some;
    let hp = pa is Some;
    let hr = ra is Some;
    let hm = ma is Some;
    let hf = follow_refs && fa is Some;
    &&& raw is Object
    &&& node.validators.len() == b2i(ht) + b2i(hp) + b2i(hr) + b2i(hm) + b2i(hf)
    &&& ht ==> (spec_type_compile(ta.unwrap()) matches Some(kinds) && node.validators[0] == (
    KeywordModel::Type { kinds }))
    &&& hp ==> spec_properties_validator_ok(nodes, node, pa.unwrap(), node.validators[b2i(ht)])
    &&& hr ==> (ra.unwrap() matches Model::Array(elems) && (spec_required_names(
        elems,
    ) matches Some(names) && node.validators[b2i(ht) + b2i(hp)] == (KeywordModel::Required {
        required: crate::keywords::spec_dedup(names),
    })))
    &&& hm ==> (spec_multiple_of_compile(ma.unwrap()) matches MultipleOfOutcome::Divisor(d)
        && node.validators[b2i(ht) + b2i(hp) + b2i(hr)] == (KeywordModel::MultipleOf {
        divisor: d,
    }))
    &&& hf ==> spec_ref_validator_ok(
        nodes,
        node,
        fa.unwrap(),
        node.validators[b2i(ht) + b2i(hp) + b2i(hr) + b2i(hm)],
    )
}

/// A compiled node's promise survives the arena growing and other nodes
/// compiling, since it speaks only of addresses, which never change once a
/// node is registered.
pub proof fn lemma_compiled_node_ok_extend(
    nodes: Seq<NodeModel>,
    more: Seq<NodeModel>,
    node: NodeModel,
    follow_refs: bool,
)
    requires
        spec_compiled_node_ok(nodes, node, follow_refs),
        more.len() >= nodes.len(),
        forall|j: int| 0 <= j < nodes.len() ==> (#[trigger] more[j]).address == nodes[j].address,
    ensures
        spec_compiled_node_ok(more, node, follow_refs),
{
}

/// Whether a `type` attribute, if present, is well shaped.
pub open spec fn spec_type_shape_ok(raw: Model) -> bool {
    match spec_get_attribute(raw, "type"@) {
        None => true,
        Some(a) => spec_type_compile(a) is Some,
    }
}

/// Whether a `properties` attribute, if present, is an object.
pub open spec fn spec_properties_attr_object(raw: Model) -> bool {
    match spec_get_attribute(raw, "properties"@) {
        None => true,
        Some(a) => a is Object,
    }
}

/// Whether every declared property value is itself an object.
pub open spec fn spec_properties_members_ok(raw: Model) -> bool {
    match spec_get_attribute(raw, "properties"@) {
        None => true,
        Some(a) => forall|j: int|
            0 <= j < spec_obj_entries(a).len() ==> (#[trigger] spec_obj_entries(a)[j]).1
                is Object,
    }
}

/// Whether a `required` attribute, if present, is an array of strings.
pub open spec fn spec_required_shape_ok(raw: Model) -> bool {
    match spec_get_attribute(raw, "required"@) {
        None => true,
        Some(a) => a matches Model::Array(elems) && spec_required_names(elems) is Some,
    }
}

/// Whether a `multipleOf` attribute, if present, is a strictly positive
/// number.
pub open spec fn spec_multiple_of_shape_ok(raw: Model) -> bool {
    match spec_get_attribute(raw, "multipleOf"@) {
        None => true,
        Some(a) => spec_multiple_of_compile(a) is Divisor,
    }
}

/// Whether a `$ref` attribute, if present, is a string.
pub open spec fn spec_ref_shape_ok(raw: Model) -> bool {
    match spec_get_attribute(raw, "$ref"@) {
        None => true,
        Some(a) => a is String,
    }
}

/// All four local keyword shapes at once.
pub open spec fn spec_keyword_shapes_ok(raw: Model) -> bool {
    &&& spec_type_shape_ok(raw)
    &&& spec_properties_attr_object(raw)
    &&& spec_properties_members_ok(raw)
    &&& spec_required_shape_ok(raw)
    &&& spec_multiple_of_shape_ok(raw)
}

/// The canonical addresses of the declared properties whose value is not an
/// object, in declaration order.
pub open spec fn spec_faulty_property_addresses(
    addr: AddressModel,
    entries: Seq<(Seq<char>, Model)>,
) -> Seq<Seq<char>>
    decreases entries.len(),
{
    if entries.len() == 0 {
        Seq::empty()
    } else {
        let head: Seq<Seq<char>> = if entries[0].1 is Object {
            Seq::empty()
        } else {
            seq![
                crate::url_helpers::spec_url_string(
                    AddressModel {
                        base: addr.base,
                        fragment: addr.fragment + seq!["properties"@, entries[0].0],
                    },
                ),
            ]
        };
        head + spec_faulty_property_addresses(addr, entries.drop_first())
    }
}

/// A compiled node's keyword shapes are all in order: each compiled
/// validator is witness that its attribute compiled.
pub proof fn lemma_compiled_ok_shapes(nodes: Seq<NodeModel>, node: NodeModel, follow_refs: bool)
    requires
        spec_compiled_node_ok(nodes, node, follow_refs),
    ensures
        spec_keyword_shapes_ok(node.raw),
{
    let raw = node.raw;
    match spec_get_attribute(raw, "properties"@) {
        Some(a) => {
            let v = node.validators[b2i(spec_get_attribute(raw, "type"@) is Some)];
            assert(spec_properties_validator_ok(nodes, node, a, v));
            match v {
                KeywordModel::Properties { properties } => {
                    assert forall|j: int|
                        0 <= j < spec_obj_entries(a).len() implies (#[trigger] spec_obj_entries(
                        a,
                    )[j]).1 is Object by {
                        assert((properties[j]).0 == spec_obj_entries(a)[j].0);
                    }
                },
                _ => {},
            }
        },
        None => {},
    }
}

/// A declared property's value is structurally part of the document, in the
/// well-founded order recursion descends by.
pub proof fn lemma_property_member_decreases(m: Model, j: int)
    ensures
        (spec_get_attribute(m, "properties"@) matches Some(a) && a is Object && 0 <= j
            < spec_obj_entries(a).len()) ==> decreases_to!(
            m => spec_obj_entries(spec_get_attribute(m, "properties"@).unwrap())[j].1),
{
    match spec_get_attribute(m, "properties"@) {
        Some(a) => {
            crate::schema::lemma_get_attribute_decreases(m, "properties"@);
            match a {
                Model::Object(entries) => {
                    if 0 <= j < entries.len() {
                        assert(decreases_to!(a => a->Object_0));
                        assert(decreases_to!(a->Object_0 => a->Object_0[j]));
                        assert(decreases_to!(a->Object_0[j] => a->Object_0[j].1));
                    }
                },
                _ => {},
            }
        },
        None => {},
    }
}

/// The number of declared properties of a document.
pub open spec fn spec_member_count(m: Model) -> nat {
    match spec_get_attribute(m, "properties"@) {
        Some(a) => spec_obj_entries(a).len(),
        None => 0,
    }
}

/// The weight of a document: one for the node itself plus the weights of its
/// declared property sub-schemas. One compilation step is spent per weight
/// unit when references are not followed.
pub open spec fn spec_doc_weight(m: Model) -> nat
    decreases m, 1int, 0int,
{
    1 + spec_members_weight(m, 0)
}

/// The summed weight of the declared property sub-schemas from index `j` on.
pub open spec fn spec_members_weight(m: Model, j: nat) -> nat
    decreases m, 0int, spec_member_count(m) - j,
    via spec_members_weight_decreases
{
    match spec_get_attribute(m, "properties"@) {
        Some(a) => if a is Object && j < spec_obj_entries(a).len() {
            spec_doc_weight(spec_obj_entries(a)[j as int].1) + spec_members_weight(m, (j + 1) as nat)
        } else {
            0
        },
        None => 0,
    }
}

#[via_fn]
proof fn spec_members_weight_decreases(m: Model, j: nat) {
    lemma_property_member_decreases(m, j as int);
}

/// Whether a document and its whole property subtree keep every keyword
/// shape in order.
pub open spec fn spec_subtree_shapes_ok(m: Model) -> bool
    decreases m, 1int, 0int,
{
    &&& spec_keyword_shapes_ok(m)
    &&& spec_members_subtree_ok(m, 0)
}

/// Whether the declared property sub-schemas from index `j` on keep their
/// subtrees in shape.
pub open spec fn spec_members_subtree_ok(m: Model, j: nat) -> bool
    decreases m, 0int, spec_member_count(m) - j,
    via spec_members_subtree_ok_decreases
{
    match spec_get_attribute(m, "properties"@) {
        Some(a) => if a is Object && j < spec_obj_entries(a).len() {
            spec_subtree_shapes_ok(spec_obj_entries(a)[j as int].1) && spec_members_subtree_ok(
                m,
                (j + 1) as nat,
            )
        } else {
            true
        },
        None => true,
    }
}

#[via_fn]
proof fn spec_members_subtree_ok_decreases(m: Model, j: nat) {
    lemma_property_member_decreases(m, j as int);
}

/// A document in subtree shape keeps each of its declared property
/// sub-schemas in subtree shape.
pub proof fn lemma_subtree_member(m: Model, j: nat, k: nat)
    requires
        spec_members_subtree_ok(m, j),
        j <= k < spec_member_count(m),
        spec_get_attribute(m, "properties"@) matches Some(a) && a is Object,
    ensures
        spec_subtree_shapes_ok(
            spec_obj_entries(spec_get_attribute(m, "properties"@).unwrap())[k as int].1,
        ),
    decreases k - j,
{
    if j < k {
        lemma_subtree_member(m, (j + 1) as nat, k);
    }
}

/// The pending weight of an arena: the summed weight of the documents of its
/// still-uncompiled nodes.
pub open spec fn spec_pending_weight(nodes: Seq<NodeModel>) -> nat
    decreases nodes.len(),
{
    if nodes.len() == 0 {
        0
    } else {
        spec_pending_weight(nodes.drop_last()) + if nodes.last().compiled {
            0
        } else {
            spec_doc_weight(nodes.last().raw)
        }
    }
}

/// Appending a node adds its weight to the pending weight, if it is
/// uncompiled.
pub proof fn lemma_pending_push(nodes: Seq<NodeModel>, node: NodeModel)
    ensures
        spec_pending_weight(nodes.push(node)) == spec_pending_weight(nodes) + if node.compiled {
            0
        } else {
            spec_doc_weight(node.raw)
        },
{
    assert(nodes.push(node).drop_last() =~= nodes);
}

/// Replacing a node adjusts the pending weight by the two nodes' shares.
pub proof fn lemma_pending_update(nodes: Seq<NodeModel>, i: int, node: NodeModel)
    requires
        0 <= i < nodes.len(),
    ensures
        spec_pending_weight(nodes.update(i, node)) + (if nodes[i].compiled {
            0
        } else {
            spec_doc_weight(nodes[i].raw)
        }) == spec_pending_weight(nodes) + (if node.compiled {
            0
        } else {
            spec_doc_weight(node.raw)
        }),
    decreases nodes.len(),
{
    if i == nodes.len() - 1 {
        assert(nodes.update(i, node).drop_last() =~= nodes.drop_last());
        assert(nodes.update(i, node).last() == node);
    } else {
        lemma_pending_update(nodes.drop_last(), i, node);
        assert(nodes.update(i, node).drop_last() =~= nodes.drop_last().update(i, node));
        assert(nodes.update(i, node).last() == nodes.last());
    }
}

/// An uncompiled node's weight bounds the pending weight from below.
pub proof fn lemma_pending_lower(nodes: Seq<NodeModel>, j: int)
    requires
        0 <= j < nodes.len(),
        !nodes[j].compiled,
    ensures
        spec_pending_weight(nodes) >= spec_doc_weight(nodes[j].raw),
    decreases nodes.len(),
{
    if j < nodes.len() - 1 {
        assert(nodes.drop_last()[j] == nodes[j]);
        lemma_pending_lower(nodes.drop_last(), j);
    }
}

/// The session cache names a node: some entry carries the node's address
/// and its index.
pub open spec fn spec_covered(
    entries: Seq<(Address, usize)>,
    nodes: Seq<NodeModel>,
    n: int,
) -> bool {
    exists|e: int|
        0 <= e < entries.len() && (#[trigger] entries[e]).1 == n && entries[e].0@
            == nodes[n].address
}

/// Every reference to a canonical address observes the same node: with the
/// frozen index holding pairwise-distinct addresses and naming every node,
/// two nodes with one address are one node.
pub proof fn lemma_unique_node_per_address(
    index: Seq<(Address, usize)>,
    nodes: Seq<NodeModel>,
    n1: int,
    n2: int,
)
    requires
        forall|i: int, j: int|
            0 <= i < j < index.len() ==> (#[trigger] index[i]).0@ != (#[trigger] index[j]).0@,
        0 <= n1 < nodes.len(),
        0 <= n2 < nodes.len(),
        spec_covered(index, nodes, n1),
        spec_covered(index, nodes, n2),
        nodes[n1].address == nodes[n2].address,
    ensures
        n1 == n2,
{
    let e1 = choose|e: int|
        0 <= e < index.len() && (#[trigger] index[e]).1 == n1 && index[e].0@ == nodes[n1].address;
    let e2 = choose|e: int|
        0 <= e < index.len() && (#[trigger] index[e]).1 == n2 && index[e].0@ == nodes[n2].address;
    if e1 != e2 {
        assert(index[e1].0@ == index[e2].0@);
        assert(false);
    }
}

/// The options of one compilation session.
#[derive(Clone, Copy, Debug, Eq, PartialEq, Structural)]
pub struct Config {
    pub draft_version: DraftVersion,
    pub follow_references: bool,
    pub validate_schema: bool,
}

/// The capability through which referenced documents are obtained. An
/// implementation must memoize fetches by canonical address with the
/// fragment stripped, so that all fragment variants of one document share a
/// single fetch; a caller-supplied timeout on a blocking fetch is the
/// implementation's own responsibility and surfaces as an ordinary error.
pub trait Loader {
    /// The raw document at a fragment-stripped address.
    fn fetch(&mut self, address: &Address) -> Result<Value, LoaderError>;

    /// Make a document available at a fragment-stripped address ahead of any
    /// fetch.
    fn store(&mut self, address: &Address, document: &Value);
}

/// A loader over documents held in memory: every known document is stored
/// ahead of time, and fetching is a cache lookup.
#[derive(Debug)]
pub struct MemoryLoader {
    cache: Cache<Address, Value>,
}

impl MemoryLoader {
    /// The fetch statistics recorded so far.
    pub closed spec fn spec_stats(self) -> Stats {
        self.cache.spec_stats()
    }

    pub fn new() -> (r: MemoryLoader)
        ensures
            r.spec_stats().hits == 0 && r.spec_stats().misses == 0,
    {
        MemoryLoader { cache: Cache::new() }
    }

    /// The fetch statistics: one hit or miss per fetch.
    pub fn stats(&self) -> (r: Stats)
        ensures
            r == self.spec_stats(),
    {
        self.cache.stats()
    }
}

impl Loader for MemoryLoader {
    fn fetch(&mut self, address: &Address) -> Result<Value, LoaderError> {
        match self.cache.get(address) {
            Some(document) => Ok(document.duplicate()),
            None => Err(
                LoaderError::FetchURLFailed(
                    "No document is stored at the requested address".to_owned(),
                ),
            ),
        }
    }

    fn store(&mut self, address: &Address, document: &Value) {
        self.cache.set(address.duplicate(), document.duplicate());
    }
}

/// A session-unique token for an injected document's address.
///
/// Relies on `uuid::Uuid::new_v4`: the token is random, and nothing is
/// promised of its value; uniqueness of injected addresses rests on the
/// session counter beside it. `new_v4` aborts the process if the operating
/// system's random source fails, an environment failure on a par with
/// running out of memory.
#[verifier::external_body]
fn random_token() -> String {
    uuid::Uuid::new_v4().to_string()
}

/// One compilation session: the address-keyed cache of schema nodes, the
/// loader capability, and the session options.
#[derive(Debug)]
pub struct ScopeBuilder<L> {
    config: Config,
    loader: L,
    nodes: Vec<SchemaNode>,
    cache: Cache<Address, usize>,
    inject_counter: u64,
}

/// Every child or referenced node index a validator carries lies inside the
/// arena.
pub open spec fn spec_validator_targets_ok(v: KeywordModel, n: int) -> bool {
    match v {
        KeywordModel::Properties { properties } => forall|j: int|
            0 <= j < properties.len() ==> 0 <= (#[trigger] properties[j]).1 < n,
        KeywordModel::Ref { target } => 0 <= target < n,
        _ => true,
    }
}

/// Every validator of every node points inside the arena.
pub open spec fn spec_nodes_targets_ok(nodes: Seq<NodeModel>) -> bool {
    forall|i: int, j: int|
        0 <= i < nodes.len() && 0 <= j < nodes[i].validators.len() ==> spec_validator_targets_ok(
            #[trigger] nodes[i].validators[j],
            nodes.len() as int,
        )
}

/// The faulty-address list is empty exactly when every declared property
/// value is an object.
proof fn lemma_faulty_addresses_empty(addr: AddressModel, entries: Seq<(Seq<char>, Model)>)
    ensures
        (spec_faulty_property_addresses(addr, entries).len() == 0) <==> (forall|j: int|
            0 <= j < entries.len() ==> (#[trigger] entries[j]).1 is Object),
    decreases entries.len(),
{
    if entries.len() > 0 {
        lemma_faulty_addresses_empty(addr, entries.drop_first());
        if forall|j: int|
            0 <= j < entries.drop_first().len() ==> (#[trigger] entries.drop_first()[j]).1
                is Object {
            assert(forall|j: int|
                1 <= j < entries.len() ==> entries.drop_first()[j - 1] == #[trigger] entries[j]);
        } else {
            let j = choose|j: int|
                0 <= j < entries.drop_first().len() && !((#[trigger] entries.drop_first()[j]).1
                    is Object);
            assert(entries[j + 1] == entries.drop_first()[j]);
        }
    }
}

/// Keys with equal models find the same entry.
proof fn lemma_find_address_congruent(entries: Seq<(Address, usize)>, a: Address, b: Address)
    requires
        a@ == b@,
    ensures
        spec_find_key(entries, a) == spec_find_key(entries, b),
    decreases entries.len(),
{
    if entries.len() > 0 {
        lemma_find_address_congruent(entries.drop_first(), a, b);
    }
}

impl<L: Loader> ScopeBuilder<L> {
    /// The registered nodes, in registration order.
    pub closed spec fn spec_nodes(self) -> Seq<NodeModel> {
        nodes_model(self.nodes@)
    }

    /// The node cache: address and node index of every registration.
    pub closed spec fn spec_cache_entries(self) -> Seq<(Address, usize)> {
        self.cache.spec_entries()
    }

    /// The node-cache statistics.
    pub closed spec fn spec_stats(self) -> Stats {
        self.cache.spec_stats()
    }

    pub closed spec fn spec_config(self) -> Config {
        self.config
    }

    /// The number of documents injected so far; each injection stamps this
    /// counter into the generated address.
    pub closed spec fn spec_inject_counter(self) -> u64 {
        self.inject_counter
    }

    /// The session is well formed: every cache entry names a registered node
    /// of the cached address, and every validator is well formed and points
    /// inside the arena.
    pub closed spec fn wf(self) -> bool {
        &&& forall|i: int|
            0 <= i < self.cache.spec_entries().len() ==> 0 <= (
            #[trigger] self.cache.spec_entries()[i]).1 < self.nodes@.len()
        &&& forall|i: int|
            0 <= i < self.cache.spec_entries().len()
                ==> nodes_model(self.nodes@)[(#[trigger] self.cache.spec_entries()[i]).1 as int].address
                == self.cache.spec_entries()[i].0@
        &&& forall|i: int, j: int|
            0 <= i < j < self.cache.spec_entries().len() ==> !((
            #[trigger] self.cache.spec_entries()[i]).0.key_eq(
                &(#[trigger] self.cache.spec_entries()[j]).0,
            ))
        &&& forall|n: int|
            0 <= n < self.nodes@.len() ==> spec_covered(
                self.cache.spec_entries(),
                nodes_model(self.nodes@),
                n,
            )
        &&& spec_nodes_wf(nodes_model(self.nodes@))
        &&& spec_nodes_targets_ok(nodes_model(self.nodes@))
        &&& forall|i: int|
            0 <= i < self.nodes@.len() ==> (#[trigger] nodes_model(self.nodes@)[i]).raw is Object
        &&& forall|i: int|
            0 <= i < self.nodes@.len() && (#[trigger] nodes_model(self.nodes@)[i]).compiled
                ==> spec_compiled_node_ok(
                nodes_model(self.nodes@),
                nodes_model(self.nodes@)[i],
                self.config.follow_references,
            )
    }

    /// A fresh session over a loader.
    pub fn create(config: Config, loader: L) -> (r: ScopeBuilder<L>)
        ensures
            r.wf(),
            r.spec_nodes() == Seq::<NodeModel>::empty(),
            r.spec_cache_entries() == Seq::<(Address, usize)>::empty(),
            r.spec_stats().hits == 0 && r.spec_stats().misses == 0,
            r.spec_config() == config,
    {
        let r = ScopeBuilder {
            config,
            loader,
            nodes: Vec::new(),
            cache: Cache::new(),
            inject_counter: 0,
        };
        proof {
            assert(nodes_model(r.nodes@) =~= Seq::<NodeModel>::empty());
        }
        r
    }

    pub fn draft_version(&self) -> (r: DraftVersion)
        ensures
            r == self.spec_config().draft_version,
    {
        self.config.draft_version
    }

    /// The node-cache statistics: one hit or miss per registration attempt.
    pub fn stats(&self) -> (r: Stats)
        ensures
            r == self.spec_stats(),
    {
        self.cache.stats()
    }

    /// The schema node registered under an address: a second registration of
    /// the same address is a cache hit and returns the existing node
    /// untouched; a first registration reserves a fresh, still-uncompiled
    /// node — provided the document classifies as an object, which is the
    /// only way a registration is refused.
    pub fn schema(&mut self, address: &Address, raw: &Value) -> (r: Result<usize, SchemaError>)
        requires
            old(self).wf(),
        ensures
            final(self).wf(),
            final(self).spec_config() == old(self).spec_config(),
            match spec_find_key(old(self).spec_cache_entries(), *address) {
                Some(i) => {
                    &&& r == Ok::<usize, SchemaError>(old(self).spec_cache_entries()[i].1)
                    &&& final(self).spec_nodes() == old(self).spec_nodes()
                    &&& final(self).spec_cache_entries() == old(self).spec_cache_entries()
                    &&& final(self).spec_stats().hits == spec_saturating_inc(
                        old(self).spec_stats().hits,
                    )
                    &&& final(self).spec_stats().misses == old(self).spec_stats().misses
                },
                None => {
                    &&& final(self).spec_stats().misses == spec_saturating_inc(
                        old(self).spec_stats().misses,
                    )
                    &&& final(self).spec_stats().hits == old(self).spec_stats().hits
                    &&& match r {
                        Ok(id) => {
                            &&& raw@ is Object
                            &&& id == old(self).spec_nodes().len()
                            &&& final(self).spec_nodes() == old(self).spec_nodes().push(
                                NodeModel {
                                    address: address@,
                                    raw: raw@,
                                    validators: Seq::empty(),
                                    compiled: false,
                                },
                            )
                            &&& ({
                                let oldc = old(self).spec_cache_entries();
                                let newc = final(self).spec_cache_entries();
                                &&& newc.len() == oldc.len() + 1
                                &&& newc[newc.len() - 1].0@ == address@
                                &&& newc[newc.len() - 1].1 == id
                                &&& forall|j: int| 0 <= j < oldc.len() ==> newc[j] == oldc[j]
                            })
                        },
                        Err(e) => {
                            &&& !(raw@ is Object)
                            &&& e matches SchemaError::Malformed { path, keyword, detail }
                                && path@ == address@ && keyword == KeywordType::Unknown && detail@
                                == "A schema document must be an object (found type "@
                                + crate::value::spec_kind_name(
                                crate::value::spec_primitive_type(raw@).unwrap(),
                            ) + seq![')']
                            &&& final(self).spec_nodes() == old(self).spec_nodes()
                            &&& final(self).spec_cache_entries() == old(self).spec_cache_entries()
                        },
                    }
                },
            },
    {
        proof {
            crate::cache::lemma_find_key_bounds(self.cache.spec_entries(), *address);
        }
        match self.cache.get(address) {
            Some(id) => Ok(*id),
            None => {
                if !raw.is_object() {
                    let kind = match raw.primitive_type() {
                        Some(k) => k,
                        None => {
                            proof {
                                assert(false);
                            }
                            crate::value::EnumPrimitiveType::Null
                        },
                    };
                    let mut dc = str_to_chars("A schema document must be an object (found type ");
                    let mut kc = str_to_chars(kind.kind_name());
                    dc.append(&mut kc);
                    dc.push(')');
                    return Err(
                        SchemaError::Malformed {
                            path: address.duplicate(),
                            keyword: KeywordType::Unknown,
                            detail: chars_to_string(&dc),
                        },
                    );
                }
                let id = self.nodes.len();
                self.nodes.push(
                    SchemaNode {
                        address: address.duplicate(),
                        raw: raw.duplicate(),
                        validators: Vec::new(),
                        compiled: false,
                    },
                );
                let key = address.duplicate();
                let ghost gkey = key;
                self.cache.set(key, id);
                proof {
                    let nm0 = nodes_model(old(self).nodes@);
                    let nm = nodes_model(self.nodes@);
                    let oldc = old(self).cache.spec_entries();
                    let newc = self.cache.spec_entries();
                    assert(nm.len() == self.nodes@.len());
                    assert(forall|j: int|
                        0 <= j < nm.len() ==> #[trigger] nm[j] == self.nodes@[j]@);
                    assert(forall|j: int|
                        0 <= j < nm0.len() ==> #[trigger] nm0[j] == old(self).nodes@[j]@);
                    assert(self.nodes@[id as int]@.validators =~= Seq::<KeywordModel>::empty());
                    assert(self.nodes@[id as int]@ == NodeModel {
                        address: address@,
                        raw: raw@,
                        validators: Seq::empty(),
                        compiled: false,
                    });
                    assert(nm =~= nm0.push(
                        NodeModel {
                            address: address@,
                            raw: raw@,
                            validators: Seq::empty(),
                            compiled: false,
                        },
                    ));
                    lemma_find_address_congruent(oldc, gkey, *address);
                    assert(newc == oldc.push((gkey, id)));
                    assert forall|i: int| 0 <= i < newc.len() implies 0 <= (
                    #[trigger] newc[i]).1 < self.nodes@.len() by {
                        if i < oldc.len() {
                            assert(newc[i] == oldc[i]);
                        }
                    }
                    assert forall|i: int| 0 <= i < newc.len() implies nm[(
                    #[trigger] newc[i]).1 as int].address == newc[i].0@ by {
                        if i < oldc.len() {
                            assert(newc[i] == oldc[i]);
                            assert(nm0[oldc[i].1 as int].address == oldc[i].0@);
                        }
                    }
                    crate::cache::lemma_find_key_bounds(oldc, *address);
                    assert forall|i: int, j: int| 0 <= i < j < newc.len() implies !((
                    #[trigger] newc[i]).0.key_eq(&(#[trigger] newc[j]).0)) by {
                        if j < oldc.len() {
                            assert(newc[i] == oldc[i] && newc[j] == oldc[j]);
                        } else {
                            assert(newc[i] == oldc[i] && newc[j] == (gkey, id));
                            assert(!oldc[i].0.key_eq(address));
                        }
                    }
                    assert forall|n: int| 0 <= n < nm.len() implies spec_covered(newc, nm, n) by {
                        if n < nm0.len() {
                            assert(spec_covered(oldc, nm0, n));
                            let e = choose|e: int|
                                0 <= e < oldc.len() && (#[trigger] oldc[e]).1 == n && oldc[e].0@
                                    == nm0[n].address;
                            assert(newc[e] == oldc[e]);
                            assert(nm[n] == nm0[n]);
                        } else {
                            assert(newc[newc.len() - 1] == (gkey, id));
                        }
                    }
                    assert(spec_nodes_wf(nm)) by {
                        assert forall|i: int, j: int|
                            0 <= i < nm.len() && 0 <= j < nm[i].validators.len()
                            implies crate::schema::spec_validator_wf(
                            #[trigger] nm[i].validators[j]) by {
                            if i < nm0.len() {
                                assert(nm[i] == nm0[i]);
                            }
                        }
                    }
                    assert forall|i: int| 0 <= i < nm.len() implies (#[trigger] nm[i]).raw
                        is Object by {
                        if i < nm0.len() {
                            assert(nm[i] == nm0[i]);
                        }
                    }
                    assert(spec_nodes_targets_ok(nm)) by {
                        assert forall|i: int, j: int|
                            0 <= i < nm.len() && 0 <= j < nm[i].validators.len()
                            implies spec_validator_targets_ok(
                            #[trigger] nm[i].validators[j], nm.len() as int) by {
                            if i < nm0.len() {
                                assert(nm[i] == nm0[i]);
                                assert(spec_validator_targets_ok(nm0[i].validators[j], nm0.len() as int));
                            }
                        }
                    }
                    assert forall|i: int|
                        0 <= i < nm.len() && (#[trigger] nm[i]).compiled implies
                        spec_compiled_node_ok(nm, nm[i], self.config.follow_references) by {
                        if i < nm0.len() {
                            assert(nm[i] == nm0[i]);
                            lemma_compiled_node_ok_extend(
                                nm0,
                                nm,
                                nm0[i],
                                self.config.follow_references,
                            );
                        }
                    }
                }
                Ok(id)
            },
        }
    }

    /// The raw document at an address: the loader fetches the document at
    /// the fragment-stripped address, and the fragment is then walked within
    /// it by the verified [`Value::resolve_fragment`]; a fragment that does
    /// not resolve is an invalid-address error. Nothing is promised of the
    /// returned value itself: the `Loader` capability carries no contract,
    /// so any fetched document must be taken as it comes.
    pub fn retrieve_schema(&mut self, address: &Address) -> (r: Result<Value, LoaderError>)
        requires
            old(self).wf(),
        ensures
            final(self).wf(),
            final(self).spec_config() == old(self).spec_config(),
            final(self).spec_nodes() == old(self).spec_nodes(),
            final(self).spec_cache_entries() == old(self).spec_cache_entries(),
            final(self).spec_stats() == old(self).spec_stats(),
    {
        let document_address = normalize_url_for_cache(address);
        let document = match self.loader.fetch(&document_address) {
            Ok(d) => d,
            Err(e) => {
                return Err(e);
            },
        };
        let segments = extract_fragment_components(address);
        match document.resolve_fragment(&segments) {
            Some(v) => Ok(v.duplicate()),
            None => Err(
                LoaderError::InvalidURL(
                    UrlError::JsonFragmentError(
                        "The fragment does not resolve within the document".to_owned(),
                    ),
                ),
            ),
        }
    }

    /// Register an in-memory document with no natural address under a
    /// freshly generated opaque address, and return that address: the
    /// session counter, stamped into the address before the random token,
    /// advances, so successive injections return distinct addresses (see
    /// [`lemma_injected_addresses_distinct`]). The document is handed to the
    /// loader's `store` at the returned address.
    pub fn inject_schema(&mut self, raw: &Value) -> (r: Address)
        requires
            old(self).wf(),
        ensures
            final(self).wf(),
            final(self).spec_config() == old(self).spec_config(),
            final(self).spec_nodes() == old(self).spec_nodes(),
            final(self).spec_cache_entries() == old(self).spec_cache_entries(),
            final(self).spec_stats() == old(self).spec_stats(),
            r@.fragment == Seq::<Seq<char>>::empty(),
            final(self).spec_inject_counter() == if old(self).spec_inject_counter() < u64::MAX {
                (old(self).spec_inject_counter() + 1) as u64
            } else {
                old(self).spec_inject_counter()
            },
            exists|token: Seq<char>|
                r@.base == "memory://injected-"@ + crate::text::spec_nat_chars(
                    old(self).spec_inject_counter() as nat,
                ) + seq!['-'] + token,
    {
        let mut cs = str_to_chars("memory://injected-");
        push_nat_chars(&mut cs, self.inject_counter);
        if self.inject_counter < u64::MAX {
            self.inject_counter = self.inject_counter + 1;
        }
        cs.push('-');
        let ghost stem = cs@;
        let token = random_token();
        let tc = str_to_chars(token.as_str());
        let mut i: usize = 0;
        while i < tc.len()
            invariant
                i <= tc@.len(),
                stem.len() <= cs@.len(),
                cs@.subrange(0, stem.len() as int) == stem,
            decreases tc@.len() - i,
        {
            let cv = tc[i] as u32;
            if (97 <= cv && cv <= 122) || (48 <= cv && cv <= 57) || cv == 45 {
                cs.push(tc[i]);
                proof {
                    assert(cs@.subrange(0, stem.len() as int) =~= stem);
                }
            }
            i = i + 1;
        }
        let address = Address { base: chars_to_string(&cs), fragment: Vec::new() };
        self.loader.store(&address, raw);
        proof {
            assert(address@.fragment =~= Seq::<Seq<char>>::empty());
            let tail = cs@.subrange(stem.len() as int, cs@.len() as int);
            assert(cs@ =~= stem + tail);
            assert(address@.base == "memory://injected-"@ + crate::text::spec_nat_chars(
                old(self).spec_inject_counter() as nat,
            ) + seq!['-'] + tail);
        }
        address
    }

    /// Compile the keywords of one registered node, in the fixed order
    /// `type`, `properties`, `required`, `multipleOf`, `$ref`; the first
    /// malformed keyword aborts compilation of the node and propagates.
    /// Child and referenced nodes discovered on the way are registered
    /// (uncompiled) behind it.
    #[verifier::rlimit(100)]
    fn compile_node(&mut self, id: usize) -> (r: Result<(), SchemaError>)
        requires
            old(self).wf(),
            id < old(self).spec_nodes().len(),
            !old(self).spec_nodes()[id as int].compiled,
        ensures
            final(self).wf(),
            final(self).spec_config() == old(self).spec_config(),
            final(self).spec_nodes().len() >= old(self).spec_nodes().len(),
            forall|j: int|
                0 <= j < old(self).spec_nodes().len() && j != id ==> final(self).spec_nodes()[j]
                    == old(self).spec_nodes()[j],
            forall|j: int|
                old(self).spec_nodes().len() <= j < final(self).spec_nodes().len() ==> !(
                #[trigger] final(self).spec_nodes()[j]).compiled,
            final(self).spec_nodes()[id as int].address == old(self).spec_nodes()[id as int].address,
            final(self).spec_nodes()[id as int].raw == old(self).spec_nodes()[id as int].raw,
            final(self).spec_cache_entries().len() >= old(self).spec_cache_entries().len(),
            ({
                let oldc = old(self).spec_cache_entries();
                let newc = final(self).spec_cache_entries();
                forall|j: int| 0 <= j < oldc.len() ==> #[trigger] newc[j] == oldc[j]
            }),
            match r {
                Ok(_) => final(self).spec_nodes()[id as int].compiled && spec_compiled_node_ok(
                    final(self).spec_nodes(),
                    final(self).spec_nodes()[id as int],
                    old(self).spec_config().follow_references,
                ),
                Err(_) => final(self).spec_nodes()[id as int] == old(self).spec_nodes()[id as int],
            },
            ({
                // Fail-fast: the first ill-shaped keyword, in the fixed
                // order, decides the error; with every shape in order and no
                // reference to follow, compilation succeeds.
                let raw0 = old(self).spec_nodes()[id as int].raw;
                let addr0 = old(self).spec_nodes()[id as int].address;
                let fr = old(self).spec_config().follow_references;
                let fa = spec_get_attribute(raw0, "$ref"@);
                &&& (r is Ok ==> spec_keyword_shapes_ok(raw0) && (fr && fa is Some
                    ==> spec_ref_shape_ok(raw0)))
                &&& (!spec_type_shape_ok(raw0) ==> (r matches Err(e) && (
                e matches SchemaError::Malformed { path, keyword, .. } && path@ == addr0
                    && keyword == KeywordType::Type)))
                &&& (spec_type_shape_ok(raw0) && !spec_properties_attr_object(raw0) ==> (
                r matches Err(e) && (e matches SchemaError::Malformed { path, keyword, detail }
                    && path@ == addr0 && keyword == KeywordType::Properties && detail@
                    == "The properties attribute must be an object"@)))
                &&& (spec_type_shape_ok(raw0) && spec_properties_attr_object(raw0)
                    && !spec_properties_members_ok(raw0) ==> (r matches Err(e) && (
                e matches SchemaError::Malformed { path, keyword, detail } && path@ == addr0
                    && keyword == KeywordType::Properties && detail@
                    == "Values of the properties object must be objects; the following addresses are faulty: "@
                    + crate::schema::spec_join_comma(
                    spec_faulty_property_addresses(
                        addr0,
                        spec_obj_entries(spec_get_attribute(raw0, "properties"@).unwrap()),
                    ),
                ))))
                &&& (spec_type_shape_ok(raw0) && spec_properties_attr_object(raw0)
                    && spec_properties_members_ok(raw0) && !spec_required_shape_ok(raw0) ==> (
                r matches Err(e) && (e matches SchemaError::Malformed { keyword, .. } && keyword
                    == KeywordType::Required)))
                &&& (spec_type_shape_ok(raw0) && spec_properties_attr_object(raw0)
                    && spec_properties_members_ok(raw0) && spec_required_shape_ok(raw0)
                    && !spec_multiple_of_shape_ok(raw0) ==> (r matches Err(e) && (
                e matches SchemaError::Malformed { path, keyword, .. } && path@ == addr0
                    && keyword == KeywordType::MultipleOf)))
                &&& (spec_keyword_shapes_ok(raw0) && fr && fa is Some && !spec_ref_shape_ok(raw0)
                    ==> (r matches Err(e) && (e matches SchemaError::Malformed {
                    path,
                    keyword,
                    ..
                } && path@ == addr0 && keyword == KeywordType::Ref)))
                &&& (spec_keyword_shapes_ok(raw0) && (!fr || fa is None) ==> r is Ok)
                &&& ((!fr && r is Ok) ==> spec_pending_weight(final(self).spec_nodes())
                    < spec_pending_weight(old(self).spec_nodes()))
                &&& ((!fr && r is Ok && spec_subtree_shapes_ok(raw0)) ==> forall|j: int|
                    old(self).spec_nodes().len() <= j < final(self).spec_nodes().len()
                        ==> spec_subtree_shapes_ok((#[trigger] final(self).spec_nodes()[j]).raw))
            }),
    {
        let ghost orig = self.spec_nodes();
        let address = self.nodes[id].address.duplicate();
        let raw = self.nodes[id].raw.duplicate();
        proof {
            assert(orig[id as int] == self.nodes@[id as int]@);
            assert(orig[id as int].raw is Object);
            assert(address@ == orig[id as int].address);
            assert(raw@ == orig[id as int].raw);
        }
        let type_v = match compile_type(&address, &raw) {
            Ok(v) => v,
            Err(e) => {
                return Err(e);
            },
        };
        proof {
            assert(spec_type_shape_ok(raw@));
        }
        let props_v: Option<KeywordValidator>;
        match raw.get_attribute("properties") {
            None => {
                props_v = None;
            },
            Some(attr) => {
                match attr {
                    Value::Object(entries) => {
                        let ghost em = crate::value::object_models(entries@);
                        proof {
                            crate::value::lemma_object_models(entries@);
                            assert(spec_get_attribute(orig[id as int].raw, "properties"@)
                                == Some(Model::Object(em)));
                        }
                        // First pass: find declared properties whose value is
                        // not itself an object, and list their addresses.
                        let ghost addr0m = address@;
                        proof {
                            assert(em.subrange(0, em.len() as int) =~= em);
                            assert(Seq::<Seq<char>>::empty() + spec_faulty_property_addresses(
                                addr0m,
                                em,
                            ) =~= spec_faulty_property_addresses(addr0m, em));
                        }
                        let mut faulty: Vec<String> = Vec::new();
                        let mut i: usize = 0;
                        while i < entries.len()
                            invariant
                                i <= entries@.len(),
                                em == crate::value::object_models(entries@),
                                em.len() == entries@.len(),
                                addr0m == address@,
                                forall|j: int|
                                    0 <= j < em.len() ==> #[trigger] em[j] == (
                                    entries@[j].0@,
                                    crate::value::value_model(entries@[j].1),
                                ),
                                faulty@.map_values(|q: String| q@) + spec_faulty_property_addresses(
                                    addr0m,
                                    em.subrange(i as int, em.len() as int),
                                ) == spec_faulty_property_addresses(addr0m, em),
                            decreases entries@.len() - i,
                        {
                            let ghost rest = em.subrange(i as int, em.len() as int);
                            proof {
                                assert(rest[0] == em[i as int]);
                                assert(rest.drop_first() =~= em.subrange(i + 1, em.len() as int));
                            }
                            if !entries[i].1.is_object() {
                                let mut seg: Vec<String> = Vec::new();
                                seg.push("properties".to_owned());
                                seg.push(entries[i].0.clone());
                                let faulty_address = append_fragment_components(&address, &seg);
                                proof {
                                    assert(seg@.map_values(|q: String| q@) =~= seq![
                                        "properties"@,
                                        em[i as int].0,
                                    ]);
                                }
                                faulty.push(faulty_address.to_url_string());
                            }
                            i = i + 1;
                            proof {
                                assert(faulty@.map_values(|q: String| q@)
                                    + spec_faulty_property_addresses(
                                    addr0m,
                                    em.subrange(i as int, em.len() as int),
                                ) =~= spec_faulty_property_addresses(addr0m, em));
                            }
                        }
                        proof {
                            assert(em.subrange(em.len() as int, em.len() as int) =~= Seq::<
                                (Seq<char>, Model),
                            >::empty());
                            assert(faulty@.map_values(|q: String| q@)
                                =~= spec_faulty_property_addresses(addr0m, em));
                            lemma_faulty_addresses_empty(addr0m, em);
                        }
                        if faulty.len() > 0 {
                            let mut detail = str_to_chars(
                                "Values of the properties object must be objects; the following addresses are faulty: ",
                            );
                            let mut fj = crate::schema::join_comma(&faulty);
                            detail.append(&mut fj);
                            return Err(
                                SchemaError::Malformed {
                                    path: address.duplicate(),
                                    keyword: KeywordType::Properties,
                                    detail: chars_to_string(&detail),
                                },
                            );
                        }
                        // Second pass: register one child node per property.
                        let mut properties: Vec<(String, usize)> = Vec::new();
                        let mut k: usize = 0;
                        while k < entries.len()
                            invariant
                                k <= entries@.len(),
                                self.wf(),
                                self.spec_config() == old(self).spec_config(),
                                spec_nodes_extends(orig, self.spec_nodes()),
                                self.spec_cache_entries().len() >= old(self).spec_cache_entries().len(),
                                forall|j: int|
                                    0 <= j < old(self).spec_cache_entries().len()
                                        ==> #[trigger] self.spec_cache_entries()[j]
                                        == old(self).spec_cache_entries()[j],
                                forall|j: int|
                                    orig.len() <= j < self.spec_nodes().len() ==> !(
                                    #[trigger] self.spec_nodes()[j]).compiled,
                                id < orig.len(),
                                em == crate::value::object_models(entries@),
                                em.len() == entries@.len(),
                                forall|j: int|
                                    0 <= j < em.len() ==> #[trigger] em[j] == (
                                    entries@[j].0@,
                                    crate::value::value_model(entries@[j].1),
                                ),
                                forall|j: int| 0 <= j < em.len() ==> (#[trigger] em[j]).1 is Object,
                                address@ == orig[id as int].address,
                                spec_get_attribute(orig[id as int].raw, "properties"@) == Some(
                                    Model::Object(em),
                                ),
                                spec_pending_weight(self.spec_nodes()) + spec_members_weight(
                                    orig[id as int].raw,
                                    k as nat,
                                ) <= spec_pending_weight(orig) + spec_members_weight(
                                    orig[id as int].raw,
                                    0,
                                ),
                                spec_subtree_shapes_ok(orig[id as int].raw) ==> forall|j: int|
                                    orig.len() <= j < self.spec_nodes().len()
                                        ==> spec_subtree_shapes_ok(
                                        (#[trigger] self.spec_nodes()[j]).raw,
                                    ),
                                properties@.len() == k,
                                forall|j: int|
                                    0 <= j < k ==> {
                                        let pm = (#[trigger] properties@[j]);
                                        &&& pm.0@ == em[j].0
                                        &&& 0 <= pm.1 < self.spec_nodes().len()
                                        &&& self.spec_nodes()[pm.1 as int].address.base
                                            == orig[id as int].address.base
                                        &&& self.spec_nodes()[pm.1 as int].address.fragment
                                            == orig[id as int].address.fragment + seq![
                                            "properties"@,
                                            em[j].0,
                                        ]
                                    },
                            decreases entries@.len() - k,
                        {
                            let mut seg: Vec<String> = Vec::new();
                            seg.push("properties".to_owned());
                            seg.push(entries[k].0.clone());
                            let child_address = append_fragment_components(&address, &seg);
                            proof {
                                assert(seg@.map_values(|q: String| q@) =~= seq![
                                    "properties"@,
                                    em[k as int].0,
                                ]);
                            }
                            let ghost pre = *self;
                            let cid = match self.schema(&child_address, &entries[k].1) {
                                Ok(cid) => cid,
                                Err(e) => {
                                    proof {
                                        assert(em[k as int].1 is Object);
                                        assert(false);
                                    }
                                    return Err(e);
                                },
                            };
                            proof {
                                crate::cache::lemma_find_key_bounds(
                                    pre.spec_cache_entries(),
                                    child_address,
                                );
                                assert forall|j: int|
                                    0 <= j < pre.spec_nodes().len() implies #[trigger] self.spec_nodes()[j]
                                    == pre.spec_nodes()[j] by {
                                    match spec_find_key(pre.spec_cache_entries(), child_address) {
                                        Some(_) => {},
                                        None => {},
                                    }
                                }
                                assert(0 <= cid < self.spec_nodes().len());
                                assert(self.spec_nodes()[cid as int].address == child_address@);
                                assert forall|j: int|
                                    0 <= j < old(self).spec_cache_entries().len() implies
                                    #[trigger] self.spec_cache_entries()[j]
                                    == old(self).spec_cache_entries()[j] by {
                                    assert(self.spec_cache_entries()[j]
                                        == pre.spec_cache_entries()[j]);
                                }
                                let rawm = orig[id as int].raw;
                                assert(spec_members_weight(rawm, k as nat) == spec_doc_weight(
                                    em[k as int].1,
                                ) + spec_members_weight(rawm, (k + 1) as nat));
                                match spec_find_key(pre.spec_cache_entries(), child_address) {
                                    Some(_) => {},
                                    None => {
                                        lemma_pending_push(
                                            pre.spec_nodes(),
                                            NodeModel {
                                                address: child_address@,
                                                raw: em[k as int].1,
                                                validators: Seq::empty(),
                                                compiled: false,
                                            },
                                        );
                                    },
                                }
                                if spec_subtree_shapes_ok(rawm) {
                                    lemma_subtree_member(rawm, 0, k as nat);
                                    assert forall|j: int|
                                        orig.len() <= j < self.spec_nodes().len() implies
                                        spec_subtree_shapes_ok(
                                        (#[trigger] self.spec_nodes()[j]).raw) by {
                                        if j < pre.spec_nodes().len() {
                                            assert(self.spec_nodes()[j] == pre.spec_nodes()[j]);
                                        }
                                    }
                                }
                            }
                            properties.push((entries[k].0.clone(), cid));
                            k = k + 1;
                        }
                        proof {
                            assert(spec_members_weight(orig[id as int].raw, em.len() as nat) == 0);
                        }
                        props_v = Some(KeywordValidator::Properties { properties });
                    },
                    _ => {
                        return Err(
                            SchemaError::Malformed {
                                path: address.duplicate(),
                                keyword: KeywordType::Properties,
                                detail: "The properties attribute must be an object".to_owned(),
                            },
                        );
                    },
                }
            },
        }
        let req_v = match compile_required(&address, &raw) {
            Ok(v) => v,
            Err(e) => {
                return Err(e);
            },
        };
        let mult_v = match compile_multiple_of(&address, &raw) {
            Ok(v) => v,
            Err(e) => {
                return Err(e);
            },
        };
        let follow = self.config.follow_references;
        let ref_v: Option<KeywordValidator>;
        if !follow {
            ref_v = None;
        } else {
            match raw.get_attribute("$ref") {
                None => {
                    ref_v = None;
                },
                Some(attr) => {
                    match attr.as_string() {
                        None => {
                            return Err(
                                SchemaError::Malformed {
                                    path: address.duplicate(),
                                    keyword: KeywordType::Ref,
                                    detail: "The $ref attribute must be a string".to_owned(),
                                },
                            );
                        },
                        Some(reference) => {
                            let resolved = match address.join(reference) {
                                Ok(a) => a,
                                Err(e) => {
                                    return Err(SchemaError::UrlParse(e));
                                },
                            };
                            let target_raw = match self.retrieve_schema(&resolved) {
                                Ok(v) => v,
                                Err(e) => {
                                    return Err(SchemaError::LoaderError(e));
                                },
                            };
                            let ghost pre = *self;
                            let tid = match self.schema(&resolved, &target_raw) {
                                Ok(t) => t,
                                Err(e) => {
                                    return Err(e);
                                },
                            };
                            proof {
                                crate::cache::lemma_find_key_bounds(
                                    pre.spec_cache_entries(),
                                    resolved,
                                );
                                assert forall|j: int|
                                    0 <= j < pre.spec_nodes().len() implies #[trigger] self.spec_nodes()[j]
                                    == pre.spec_nodes()[j] by {
                                    match spec_find_key(pre.spec_cache_entries(), resolved) {
                                        Some(_) => {},
                                        None => {},
                                    }
                                }
                                assert(0 <= tid < self.spec_nodes().len());
                                assert(self.spec_nodes()[tid as int].address == resolved@);
                                assert forall|j: int|
                                    0 <= j < old(self).spec_cache_entries().len() implies
                                    #[trigger] self.spec_cache_entries()[j]
                                    == old(self).spec_cache_entries()[j] by {
                                    assert(self.spec_cache_entries()[j]
                                        == pre.spec_cache_entries()[j]);
                                }
                            }
                            ref_v = Some(KeywordValidator::Ref { target: tid });
                        },
                    }
                },
            }
        }
        // Assemble the validator list in the fixed keyword order and flip the
        // node to compiled.
        let ghost g_type_v = type_v;
        let ghost g_props_v = props_v;
        let ghost g_req_v = req_v;
        let ghost g_mult_v = mult_v;
        let ghost g_ref_v = ref_v;
        let ghost rawm = raw@;
        let ghost addrm = address@;
        let mut validators: Vec<KeywordValidator> = Vec::new();
        if let Some(v) = type_v {
            validators.push(v);
        }
        if let Some(v) = props_v {
            validators.push(v);
        }
        if let Some(v) = req_v {
            validators.push(v);
        }
        if let Some(v) = mult_v {
            validators.push(v);
        }
        if let Some(v) = ref_v {
            validators.push(v);
        }
        let ghost vals = validators@;
        let ghost before_set = self.spec_nodes();
        let node = SchemaNode { address, raw, validators, compiled: true };
        self.nodes.set(id, node);
        proof {
            let fr = old(self).spec_config().follow_references;
            let nm = self.spec_nodes();
            let vm = vals.map_values(|v: KeywordValidator| v@);
            assert(nm.len() == self.nodes@.len());
            assert(forall|j: int| 0 <= j < nm.len() ==> #[trigger] nm[j] == self.nodes@[j]@);
            assert(forall|j: int|
                0 <= j < before_set.len() && j != id ==> #[trigger] nm[j] == before_set[j]);
            let node_m = nm[id as int];
            assert(node_m.raw == rawm);
            assert(node_m.address == addrm);
            assert(node_m.validators == vm);
            assert(forall|k: int| 0 <= k < vals.len() ==> #[trigger] vm[k] == vals[k]@);
            assert(forall|j: int|
                0 <= j < before_set.len() ==> (#[trigger] nm[j]).address == before_set[j].address);
            let ta = spec_get_attribute(rawm, "type"@);
            let pa = spec_get_attribute(rawm, "properties"@);
            let ra = spec_get_attribute(rawm, "required"@);
            let ma = spec_get_attribute(rawm, "multipleOf"@);
            let fa = spec_get_attribute(rawm, "$ref"@);
            let ht = ta is Some;
            let hp = pa is Some;
            let hr = ra is Some;
            let hm = ma is Some;
            let hf = fr && fa is Some;
            assert(ht == (g_type_v is Some));
            assert(hp == (g_props_v is Some));
            assert(hr == (g_req_v is Some));
            assert(hm == (g_mult_v is Some));
            assert(hf == (g_ref_v is Some));
            assert(vals.len() == b2i(ht) + b2i(hp) + b2i(hr) + b2i(hm) + b2i(hf));
            if ht {
                assert(vals[0] == g_type_v.unwrap());
                assert(vm[0] == g_type_v.unwrap()@);
            }
            if hp {
                assert(vals[b2i(ht)] == g_props_v.unwrap());
                assert(vm[b2i(ht)] == g_props_v.unwrap()@);
                assert(spec_properties_validator_ok(nm, node_m, pa.unwrap(), vm[b2i(ht)]));
            }
            if hr {
                assert(vals[b2i(ht) + b2i(hp)] == g_req_v.unwrap());
                assert(vm[b2i(ht) + b2i(hp)] == g_req_v.unwrap()@);
            }
            if hm {
                assert(vals[b2i(ht) + b2i(hp) + b2i(hr)] == g_mult_v.unwrap());
                assert(vm[b2i(ht) + b2i(hp) + b2i(hr)] == g_mult_v.unwrap()@);
            }
            if hf {
                assert(vals[b2i(ht) + b2i(hp) + b2i(hr) + b2i(hm)] == g_ref_v.unwrap());
                assert(vm[b2i(ht) + b2i(hp) + b2i(hr) + b2i(hm)] == g_ref_v.unwrap()@);
                assert(spec_ref_validator_ok(
                    nm,
                    node_m,
                    fa.unwrap(),
                    vm[b2i(ht) + b2i(hp) + b2i(hr) + b2i(hm)],
                ));
            }
            assert(spec_compiled_node_ok(nm, nm[id as int], fr));
            assert forall|n: int|
                0 <= n < nm.len() implies spec_covered(self.cache.spec_entries(), nm, n) by {
                assert(spec_covered(self.cache.spec_entries(), before_set, n));
                let e = choose|e: int|
                    0 <= e < self.cache.spec_entries().len() && (
                    #[trigger] self.cache.spec_entries()[e]).1 == n
                        && self.cache.spec_entries()[e].0@ == before_set[n].address;
                assert(nm[n].address == before_set[n].address);
            }
            if !fr {
                let rawm = orig[id as int].raw;
                assert(spec_pending_weight(before_set) <= spec_pending_weight(orig)
                    + spec_members_weight(rawm, 0));
                assert(nm =~= before_set.update(id as int, nm[id as int]));
                assert(!before_set[id as int].compiled);
                lemma_pending_update(before_set, id as int, nm[id as int]);
                assert(spec_doc_weight(rawm) == 1 + spec_members_weight(rawm, 0));
                assert(spec_pending_weight(nm) < spec_pending_weight(orig));
                if spec_subtree_shapes_ok(rawm) {
                    assert forall|j: int|
                        orig.len() <= j < nm.len() implies spec_subtree_shapes_ok(
                        (#[trigger] nm[j]).raw) by {
                        assert(nm[j] == before_set[j]);
                    }
                }
            }
            assert forall|j: int|
                0 <= j < nm.len() && (#[trigger] nm[j]).compiled implies spec_compiled_node_ok(
                nm,
                nm[j],
                fr,
            ) by {
                if j != id && j < before_set.len() {
                    assert(nm[j] == before_set[j]);
                    if before_set[j].compiled {
                        lemma_compiled_node_ok_extend(before_set, nm, before_set[j], fr);
                    }
                }
            }
            assert(self.wf());
        }
        Ok(())
    }
}

/// Injected addresses are fresh: the session counter stamped between the
/// fixed stem and the random token makes two injections with different
/// counters differ, whatever their tokens hold.
pub proof fn lemma_injected_addresses_distinct(c1: u64, c2: u64, t1: Seq<char>, t2: Seq<char>)
    requires
        c1 != c2,
    ensures
        "memory://injected-"@ + crate::text::spec_nat_chars(c1 as nat) + seq!['-'] + t1
            != "memory://injected-"@ + crate::text::spec_nat_chars(c2 as nat) + seq!['-'] + t2,
{
    let p = "memory://injected-"@;
    let d1 = crate::text::spec_nat_chars(c1 as nat);
    let d2 = crate::text::spec_nat_chars(c2 as nat);
    let f1 = p + d1 + seq!['-'] + t1;
    let f2 = p + d2 + seq!['-'] + t2;
    crate::text::lemma_nat_chars_nonempty(c1 as nat);
    crate::text::lemma_nat_chars_nonempty(c2 as nat);
    crate::text::lemma_nat_chars_digits(c1 as nat);
    crate::text::lemma_nat_chars_digits(c2 as nat);
    if f1 == f2 {
        if d1.len() == d2.len() {
            crate::text::lemma_nat_chars_injective(c1 as nat, c2 as nat);
            assert forall|k: int| 0 <= k < d1.len() implies d1[k] == d2[k] by {
                assert(f1[p.len() + k] == d1[k]);
                assert(f2[p.len() + k] == d2[k]);
            }
            assert(d1 =~= d2);
        } else if d1.len() < d2.len() {
            let k = p.len() + d1.len();
            assert(f1[k as int] == '-');
            assert(f2[k as int] == d2[d1.len() as int]);
            assert(48 <= d2[d1.len() as int] as u32 <= 57);
            assert('-' as u32 == 45);
        } else {
            let k = p.len() + d2.len();
            assert(f2[k as int] == '-');
            assert(f1[k as int] == d1[d2.len() as int]);
            assert(48 <= d1[d2.len() as int] as u32 <= 57);
            assert('-' as u32 == 45);
        }
    }
}

/// The second sequence extends the first: same prefix, possibly more nodes.
pub open spec fn spec_nodes_extends(a: Seq<NodeModel>, b: Seq<NodeModel>) -> bool {
    &&& b.len() >= a.len()
    &&& forall|j: int| 0 <= j < a.len() ==> #[trigger] b[j] == a[j]
}

/// The most compilation steps one `build` performs before giving up on a
/// session that keeps discovering new nodes.
pub const COMPILE_STEP_LIMIT: usize = 100_000;

impl<L: Loader> ScopeBuilder<L> {
    /// The first still-uncompiled node, if any.
    fn first_uncompiled(&self) -> (r: Option<usize>)
        ensures
            match r {
                Some(i) => i < self.spec_nodes().len() && !self.spec_nodes()[i as int].compiled,
                None => forall|j: int|
                    0 <= j < self.spec_nodes().len() ==> (#[trigger] self.spec_nodes()[j]).compiled,
            },
    {
        let mut i: usize = 0;
        while i < self.nodes.len()
            invariant
                i <= self.nodes@.len(),
                forall|j: int| 0 <= j < i ==> (#[trigger] self.spec_nodes()[j]).compiled,
            decreases self.nodes@.len() - i,
        {
            if !self.nodes[i].compiled {
                proof {
                    assert(self.spec_nodes()[i as int] == self.nodes@[i as int]@);
                }
                return Some(i);
            }
            proof {
                assert(self.spec_nodes()[i as int] == self.nodes@[i as int]@);
            }
            i = i + 1;
        }
        None
    }

    /// Freeze the session: compile every still-registered node — registering
    /// and compiling whatever children and referenced nodes turn up on the
    /// way — and wrap the fully compiled graph as a read-only `Scope`. The
    /// first malformed keyword or loader failure aborts the build and
    /// propagates; a session that keeps discovering nodes beyond
    /// [`COMPILE_STEP_LIMIT`] ends with `SchemaError::Unknown`. The frozen
    /// index names every node under its one address, so every reference to
    /// an address observes the same node (see
    /// [`lemma_unique_node_per_address`]).
    pub fn build(self) -> (r: Result<Scope, SchemaError>)
        requires
            self.wf(),
        ensures
            match r {
                Ok(scope) => {
                    &&& scope.wf()
                    &&& forall|i: int, j: int|
                        0 <= i < j < scope.spec_index().len() ==> (
                        #[trigger] scope.spec_index()[i]).0@ != (
                        #[trigger] scope.spec_index()[j]).0@
                    &&& forall|n: int|
                        0 <= n < scope.spec_nodes().len() ==> spec_covered(
                            scope.spec_index(),
                            scope.spec_nodes(),
                            n,
                        )
                    &&& scope.spec_nodes().len() >= self.spec_nodes().len()
                    &&& forall|j: int|
                        0 <= j < self.spec_nodes().len() ==> (#[trigger] scope.spec_nodes()[j]).address
                            == self.spec_nodes()[j].address && scope.spec_nodes()[j].raw
                            == self.spec_nodes()[j].raw
                    &&& forall|j: int|
                        0 <= j < scope.spec_nodes().len() ==> (#[trigger] scope.spec_nodes()[j]).compiled
                            && spec_compiled_node_ok(
                            scope.spec_nodes(),
                            scope.spec_nodes()[j],
                            self.spec_config().follow_references,
                        )
                    &&& scope.spec_index().len() >= self.spec_cache_entries().len()
                    &&& forall|j: int|
                        0 <= j < self.spec_cache_entries().len() ==> #[trigger] scope.spec_index()[j]
                            == self.spec_cache_entries()[j]
                    &&& scope.spec_draft() == self.spec_config().draft_version
                },
                Err(e) => self.spec_config().follow_references == false ==> (
                e matches SchemaError::Malformed { .. } || e is Unknown),
            },
            self.spec_nodes().len() == 0 ==> r is Ok,
            ({
                // Success is owed when the loader decides nothing: references
                // are not followed, every still-registered document keeps its
                // whole property subtree in shape, and the total document
                // weight stays within the step budget.
                let pending_ok = spec_pending_weight(self.spec_nodes()) <= COMPILE_STEP_LIMIT;
                let shapes_ok = forall|j: int|
                    0 <= j < self.spec_nodes().len() && !(#[trigger] self.spec_nodes()[j]).compiled
                        ==> spec_subtree_shapes_ok(self.spec_nodes()[j].raw);
                (self.spec_config().follow_references == false && pending_ok && shapes_ok)
                    ==> r is Ok
            }),
    {
        let ghost orig = self.spec_nodes();
        let ghost origc = self.spec_cache_entries();
        let ghost fr = self.spec_config().follow_references;
        let mut b = self;
        let mut fuel: usize = COMPILE_STEP_LIMIT;
        let ghost hyp = self.spec_config().follow_references == false && spec_pending_weight(
            orig,
        ) <= COMPILE_STEP_LIMIT && (forall|j: int|
            0 <= j < orig.len() && !(#[trigger] orig[j]).compiled ==> spec_subtree_shapes_ok(
                orig[j].raw,
            ));
        let mut done = false;
        #[verifier::loop_isolation(false)]
        while !done && fuel > 0
            invariant
                b.wf(),
                b.spec_config() == self.spec_config(),
                b.spec_nodes().len() >= orig.len(),
                forall|j: int|
                    0 <= j < orig.len() ==> (#[trigger] b.spec_nodes()[j]).address
                        == orig[j].address && b.spec_nodes()[j].raw == orig[j].raw,
                b.spec_cache_entries().len() >= origc.len(),
                forall|j: int|
                    0 <= j < origc.len() ==> #[trigger] b.spec_cache_entries()[j] == origc[j],
                done ==> forall|j: int|
                    0 <= j < b.spec_nodes().len() ==> (#[trigger] b.spec_nodes()[j]).compiled,
                orig.len() == 0 ==> b.spec_nodes().len() == 0 && fuel == COMPILE_STEP_LIMIT,
                hyp ==> fuel >= spec_pending_weight(b.spec_nodes()),
                hyp ==> forall|j: int|
                    0 <= j < b.spec_nodes().len() && !(#[trigger] b.spec_nodes()[j]).compiled
                        ==> spec_subtree_shapes_ok(b.spec_nodes()[j].raw),
            decreases b2i(!done), fuel,
        {
            match b.first_uncompiled() {
                None => {
                    done = true;
                },
                Some(i) => {
                    proof {
                        if orig.len() == 0 {
                            assert(false);
                        }
                        if hyp {
                            lemma_pending_lower(b.spec_nodes(), i as int);
                        }
                    }
                    fuel = fuel - 1;
                    let ghost pre = b.spec_nodes();
                    let ghost cfg_fr = b.spec_config().follow_references;
                    match b.compile_node(i) {
                        Ok(_) => {
                            proof {
                                if hyp {
                                    assert forall|j: int|
                                        0 <= j < b.spec_nodes().len() && !(
                                        #[trigger] b.spec_nodes()[j]).compiled implies
                                        spec_subtree_shapes_ok(b.spec_nodes()[j].raw) by {
                                        if j < pre.len() && j != i {
                                            assert(b.spec_nodes()[j] == pre[j]);
                                        }
                                    }
                                }
                            }
                        },
                        Err(e) => {
                            proof {
                                if hyp {
                                    assert(spec_keyword_shapes_ok(pre[i as int].raw));
                                    assert(false);
                                }
                                if !cfg_fr {
                                    let raw0 = pre[i as int].raw;
                                    if spec_keyword_shapes_ok(raw0) {
                                        assert(false);
                                    }
                                    assert(e matches SchemaError::Malformed { .. });
                                }
                            }
                            return Err(e);
                        },
                    }
                },
            }
        }
        if !done {
            // With the budget hypothesis the pending weight bounds the work
            // left, so exhausted fuel can only mean nothing is left.
            match b.first_uncompiled() {
                Some(u) => {
                    proof {
                        if hyp {
                            lemma_pending_lower(b.spec_nodes(), u as int);
                            assert(false);
                        }
                    }
                    return Err(SchemaError::Unknown);
                },
                None => {},
            }
        }
        let ghost final_nodes = b.spec_nodes();
        let ghost final_index = b.spec_cache_entries();
        let ScopeBuilder { config, loader: _, nodes, cache, inject_counter: _ } = b;
        let index = cache.into_entries();
        let scope = Scope { draft_version: config.draft_version, nodes, index };
        proof {
            assert(scope.spec_nodes() == final_nodes);
            assert(scope.spec_index() == final_index);
            assert(forall|j: int|
                0 <= j < final_nodes.len() ==> (#[trigger] final_nodes[j]).compiled);
            assert forall|i: int, j: int| 0 <= i < j < final_index.len() implies (
            #[trigger] final_index[i]).0@ != (#[trigger] final_index[j]).0@ by {
                assert(!final_index[i].0.key_eq(&final_index[j].0));
            }
        }
        Ok(scope)
    }
}

/// The errors a frozen scope reports for a value at an address: the compiled
/// node at that address validates the value at the root path `#`; an address
/// the scope does not know is vacuously valid.
pub open spec fn spec_scope_errors(
    nodes: Seq<NodeModel>,
    index: Seq<(Address, usize)>,
    address: Address,
    value: Model,
) -> Seq<crate::errors::ErrorModel> {
    match spec_find_key(index, address) {
        Some(i) => spec_node_errors(nodes, index[i].1 as int, "#"@, value, nodes.len()),
        None => Seq::empty(),
    }
}

/// The frozen set of all schema nodes compiled in one session, keyed by
/// canonical address; read-only, so queries may run concurrently.
#[derive(Debug)]
pub struct Scope {
    draft_version: DraftVersion,
    nodes: Vec<SchemaNode>,
    index: Vec<(Address, usize)>,
}

impl Scope {
    /// The compiled nodes.
    pub closed spec fn spec_nodes(self) -> Seq<NodeModel> {
        nodes_model(self.nodes@)
    }

    /// The address index: address and node index of every compiled node.
    pub closed spec fn spec_index(self) -> Seq<(Address, usize)> {
        self.index@
    }

    pub closed spec fn spec_draft(self) -> DraftVersion {
        self.draft_version
    }

    /// Validation relies on every validator being well formed.
    pub closed spec fn wf(self) -> bool {
        spec_nodes_wf(self.spec_nodes())
    }

    pub fn draft_version(&self) -> (r: DraftVersion)
        ensures
            r == self.spec_draft(),
    {
        self.draft_version
    }

    /// The complete set of violations a value commits against the schema
    /// node at an address; empty means valid. This always runs to the end:
    /// validation errors never abort anything.
    pub fn validation_errors(&self, address: &Address, value: &Value) -> (r: Vec<ValidationError>)
        requires
            self.wf(),
        ensures
            errors_model(r@) == spec_scope_errors(
                self.spec_nodes(),
                self.spec_index(),
                *address,
                value@,
            ),
    {
        proof {
            assert(self.index@.subrange(0, self.index@.len() as int) =~= self.index@);
        }
        let mut i: usize = 0;
        while i < self.index.len()
            invariant
                self.wf(),
                i <= self.index@.len(),
                spec_find_key(self.index@, *address) == match spec_find_key(
                    self.index@.subrange(i as int, self.index@.len() as int),
                    *address,
                ) {
                    Some(j) => Some(i + j),
                    None => None::<int>,
                },
            decreases self.index@.len() - i,
        {
            let ghost rest = self.index@.subrange(i as int, self.index@.len() as int);
            proof {
                assert(rest[0] == self.index@[i as int]);
                assert(rest.drop_first() =~= self.index@.subrange(
                    i + 1,
                    self.index@.len() as int,
                ));
            }
            if self.index[i].0.key_equal(address) {
                return crate::schema::node_validation_errors(
                    &self.nodes,
                    self.index[i].1,
                    "#",
                    value,
                    self.nodes.len(),
                );
            }
            i = i + 1;
        }
        let r: Vec<ValidationError> = Vec::new();
        proof {
            assert(errors_model(r@) =~= Seq::<crate::errors::ErrorModel>::empty());
        }
        r
    }

    /// Whether a value satisfies the schema node at an address: true exactly
    /// when `validation_errors` is empty.
    pub fn is_valid(&self, address: &Address, value: &Value) -> (r: bool)
        requires
            self.wf(),
        ensures
            r == (spec_scope_errors(
                self.spec_nodes(),
                self.spec_index(),
                *address,
                value@,
            ).len() == 0),
    {
        let errors = self.validation_errors(address, value);
        errors.len() == 0
    }
}

} // verus!
