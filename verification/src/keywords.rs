//! Keyword compilation.
//!
//! Each keyword inspects the raw document for its attribute and yields one
//! of three outcomes: not applicable (attribute absent), malformed
//! (attribute present but violating the keyword's shape rules), or compiled
//! state. The keywords that need no access to other schema nodes — `type`,
//! `required`, `multipleOf` — are compiled here; `properties` and `$ref`
//! register child nodes and live with the scope builder.

use vstd::prelude::*;

use crate::decimal::Decimal;
use crate::errors::{KeywordType, SchemaError};
use crate::schema::{KeywordModel, KeywordValidator};
use crate::text::{chars_to_string, push_nat_chars, spec_nat_chars, str_to_chars};
use crate::url_helpers::{append_fragment_components, Address};
use crate::decimal::spec_dec_chars;
use crate::value::{
    spec_as_integer, spec_as_number, spec_get_attribute, spec_kind_name, spec_kind_of_name,
    spec_primitive_type, EnumPrimitiveType, Model, Value,
};

verus! {

/// The kinds named by a `type` array: nothing if some element is not the
/// name of a kind.
pub open spec fn spec_type_kind_list(elems: Seq<Model>) -> Option<Seq<EnumPrimitiveType>>
    decreases elems.len(),
{
    if elems.len() == 0 {
        Some(Seq::empty())
    } else {
        match elems[0] {
            Model::String(s) => match (spec_kind_of_name(s), spec_type_kind_list(
                elems.drop_first(),
            )) {
                (Some(k), Some(ks)) => Some(seq![k] + ks),
                _ => None,
            },
            _ => None,
        }
    }
}

/// What a `type` attribute compiles to: a kind name gives one kind, an array
/// of kind names gives them all (an empty array compiles and matches
/// nothing); anything else is malformed.
pub open spec fn spec_type_compile(attr: Model) -> Option<Seq<EnumPrimitiveType>> {
    match attr {
        Model::String(s) => match spec_kind_of_name(s) {
            Some(k) => Some(seq![k]),
            None => None,
        },
        Model::Array(elems) => spec_type_kind_list(elems),
        _ => None,
    }
}

/// Compile the `type` keyword of a raw schema document.
pub fn compile_type(address: &Address, raw: &Value) -> (r: Result<
    Option<KeywordValidator>,
    SchemaError,
>)
    ensures
        match spec_get_attribute(raw@, "type"@) {
            None => r matches Ok(None),
            Some(attr) => match spec_type_compile(attr) {
                Some(kinds) => r matches Ok(Some(v)) && v@ == (KeywordModel::Type { kinds }),
                None => r matches Err(e) && e matches SchemaError::Malformed {
                    path,
                    keyword,
                    ..
                } && path@ == address@ && keyword == KeywordType::Type,
            },
        },
{
    let attr = match raw.get_attribute("type") {
        None => {
            return Ok(None);
        },
        Some(a) => a,
    };
    if let Some(s) = attr.as_string() {
        match EnumPrimitiveType::from_type(s) {
            Some(k) => {
                let mut kinds: Vec<EnumPrimitiveType> = Vec::new();
                kinds.push(k);
                proof {
                    assert(kinds@ =~= seq![k]);
                }
                return Ok(Some(KeywordValidator::Type { kinds }));
            },
            None => {
                return Err(
                    SchemaError::Malformed {
                        path: address.duplicate(),
                        keyword: KeywordType::Type,
                        detail: unsupported_kind_detail(s),
                    },
                );
            },
        }
    }
    let elems = match attr.as_array() {
        Some(elems) => elems,
        None => {
            return Err(
                SchemaError::Malformed {
                    path: address.duplicate(),
                    keyword: KeywordType::Type,
                    detail: "The type attribute must be a string or an array of strings".to_owned(),
                },
            );
        },
    };
    let ghost em = crate::value::array_models(elems@);
    proof {
        crate::value::lemma_array_models(elems@);
        assert(em.subrange(0, em.len() as int) =~= em);
    }
    let mut kinds: Vec<EnumPrimitiveType> = Vec::new();
    let mut i: usize = 0;
    while i < elems.len()
        invariant
            i <= elems@.len(),
            em == crate::value::array_models(elems@),
            em.len() == elems@.len(),
            forall|j: int| 0 <= j < em.len() ==> #[trigger] em[j] == crate::value::value_model(
                elems@[j],
            ),
            spec_get_attribute(raw@, "type"@) == Some(Model::Array(em)),
            match spec_type_kind_list(em.subrange(i as int, em.len() as int)) {
                Some(ks) => spec_type_kind_list(em) == Some(kinds@ + ks),
                None => spec_type_kind_list(em) is None,
            },
        decreases elems@.len() - i,
    {
        let ghost rest = em.subrange(i as int, em.len() as int);
        let ghost old_kinds = kinds@;
        proof {
            assert(rest[0] == em[i as int]);
            assert(rest.drop_first() =~= em.subrange(i + 1, em.len() as int));
        }
        let s = match elems[i].as_string() {
            Some(s) => s,
            None => {
                return Err(
                    SchemaError::Malformed {
                        path: address.duplicate(),
                        keyword: KeywordType::Type,
                        detail: "Every element of a type array must be a string".to_owned(),
                    },
                );
            },
        };
        match EnumPrimitiveType::from_type(s) {
            Some(k) => {
                kinds.push(k);
                i = i + 1;
                proof {
                    match spec_type_kind_list(em.subrange(i as int, em.len() as int)) {
                        Some(ks) => {
                            assert(spec_type_kind_list(rest) == Some(seq![k] + ks));
                            assert(old_kinds + (seq![k] + ks) =~= kinds@ + ks);
                        },
                        None => {},
                    }
                }
            },
            None => {
                return Err(
                    SchemaError::Malformed {
                        path: address.duplicate(),
                        keyword: KeywordType::Type,
                        detail: unsupported_kind_detail(s),
                    },
                );
            },
        }
    }
    proof {
        assert(em.subrange(em.len() as int, em.len() as int) =~= Seq::<Model>::empty());
        assert(kinds@ + Seq::<EnumPrimitiveType>::empty() =~= kinds@);
    }
    Ok(Some(KeywordValidator::Type { kinds }))
}

/// The detail text naming an unsupported kind name.
fn unsupported_kind_detail(name: &str) -> (r: String) {
    let mut cs = str_to_chars("Unsupported primitive type `");
    let mut nc = str_to_chars(name);
    cs.append(&mut nc);
    cs.push('`');
    chars_to_string(&cs)
}

/// The names of a `required` array: nothing if some entry is not a string.
pub open spec fn spec_required_names(elems: Seq<Model>) -> Option<Seq<Seq<char>>>
    decreases elems.len(),
{
    if elems.len() == 0 {
        Some(Seq::empty())
    } else {
        match elems[0] {
            Model::String(s) => match spec_required_names(elems.drop_first()) {
                Some(names) => Some(seq![s] + names),
                None => None,
            },
            _ => None,
        }
    }
}

/// The index of the first non-string entry of a `required` array.
pub open spec fn spec_first_non_string(elems: Seq<Model>) -> int
    decreases elems.len(),
{
    if elems.len() == 0 {
        0
    } else {
        match elems[0] {
            Model::String(_) => 1 + spec_first_non_string(elems.drop_first()),
            _ => 0,
        }
    }
}

/// Names with later duplicates removed: each name keeps its first
/// occurrence.
pub open spec fn spec_dedup(names: Seq<Seq<char>>) -> Seq<Seq<char>>
    decreases names.len(),
{
    if names.len() == 0 {
        Seq::empty()
    } else if names.drop_last().contains(names.last()) {
        spec_dedup(names.drop_last())
    } else {
        spec_dedup(names.drop_last()).push(names.last())
    }
}

/// Membership through a push: the pushed element, or one already there.
proof fn lemma_contains_push(s: Seq<Seq<char>>, x: Seq<char>, y: Seq<char>)
    ensures
        s.push(y).contains(x) <==> (s.contains(x) || x == y),
{
    if s.contains(x) {
        let i = choose|i: int| 0 <= i < s.len() && s[i] == x;
        assert(s.push(y)[i] == x);
    }
    assert(s.push(y)[s.len() as int] == y);
    if s.push(y).contains(x) {
        let i = choose|i: int| 0 <= i < s.push(y).len() && s.push(y)[i] == x;
        if i < s.len() {
            assert(s[i] == x);
        }
    }
}

/// Deduplication keeps exactly the names that occur.
proof fn lemma_dedup_contains(names: Seq<Seq<char>>, x: Seq<char>)
    ensures
        spec_dedup(names).contains(x) <==> names.contains(x),
    decreases names.len(),
{
    if names.len() > 0 {
        let pre = names.drop_last();
        let last = names.last();
        lemma_dedup_contains(pre, x);
        assert(names =~= pre.push(last));
        lemma_contains_push(pre, x, last);
        if pre.contains(last) {
            assert(spec_dedup(names) == spec_dedup(pre));
        } else {
            assert(spec_dedup(names) == spec_dedup(pre).push(last));
            lemma_contains_push(spec_dedup(pre), x, last);
        }
    }
}

/// Whether a name is already among the collected ones.
fn contains_name(names: &Vec<String>, name: &str) -> (r: bool)
    ensures
        r == names@.map_values(|s: String| s@).contains(name@),
{
    let ghost nm = names@.map_values(|s: String| s@);
    let mut i: usize = 0;
    while i < names.len()
        invariant
            i <= names@.len(),
            nm == names@.map_values(|s: String| s@),
            nm.len() == names@.len(),
            forall|j: int| 0 <= j < i ==> nm[j] != name@,
        decreases names@.len() - i,
    {
        if crate::text::str_eq(names[i].as_str(), name) {
            proof {
                assert(nm[i as int] == name@);
            }
            return true;
        }
        i = i + 1;
    }
    false
}

/// Compile the `required` keyword of a raw schema document.
pub fn compile_required(address: &Address, raw: &Value) -> (r: Result<
    Option<KeywordValidator>,
    SchemaError,
>)
    ensures
        match spec_get_attribute(raw@, "required"@) {
            None => r matches Ok(None),
            Some(attr) => match attr {
                Model::Array(elems) => match spec_required_names(elems) {
                    Some(names) => r matches Ok(Some(v)) && v@ == (KeywordModel::Required {
                        required: spec_dedup(names),
                    }),
                    None => r matches Err(e) && e matches SchemaError::Malformed {
                        path,
                        keyword,
                        ..
                    } && keyword == KeywordType::Required && path@.base == address@.base
                        && path@.fragment == address@.fragment + seq![
                        "required"@,
                        spec_nat_chars(spec_first_non_string(elems) as nat),
                    ],
                },
                _ => r matches Err(e) && e matches SchemaError::Malformed { path, keyword, .. }
                    && keyword == KeywordType::Required && path@ == address@,
            },
        },
{
    let attr = match raw.get_attribute("required") {
        None => {
            return Ok(None);
        },
        Some(a) => a,
    };
    let elems = match attr.as_array() {
        Some(elems) => elems,
        None => {
            return Err(
                SchemaError::Malformed {
                    path: address.duplicate(),
                    keyword: KeywordType::Required,
                    detail: "The required attribute must be an array of strings".to_owned(),
                },
            );
        },
    };
    let ghost em = crate::value::array_models(elems@);
    proof {
        crate::value::lemma_array_models(elems@);
        assert(Seq::<Seq<char>>::empty().subrange(0, 0) =~= Seq::<Seq<char>>::empty());
    }
    let mut required: Vec<String> = Vec::new();
    proof {
        match spec_required_names(em) {
            Some(names) => {
                assert(names.subrange(0, 0) =~= Seq::<Seq<char>>::empty());
                assert(required@.map_values(|s: String| s@) =~= Seq::<Seq<char>>::empty());
            },
            None => {},
        }
    }
    let mut i: usize = 0;
    while i < elems.len()
        invariant
            i <= elems@.len(),
            em == crate::value::array_models(elems@),
            em.len() == elems@.len(),
            forall|j: int| 0 <= j < em.len() ==> #[trigger] em[j] == crate::value::value_model(
                elems@[j],
            ),
            spec_get_attribute(raw@, "required"@) == Some(Model::Array(em)),
            forall|j: int| 0 <= j < i ==> em[j] is String,
            spec_required_names(em) matches Some(names) ==> required@.map_values(|s: String| s@)
                == spec_dedup(names.subrange(0, i as int)),
        decreases elems@.len() - i,
    {
        let s = match elems[i].as_string() {
            Some(s) => s,
            None => {
                proof {
                    lemma_required_names_prefix(em, i as int);
                }
                let mut seg: Vec<String> = Vec::new();
                let rq = str_to_chars("required");
                seg.push(chars_to_string(&rq));
                let mut ic: Vec<char> = Vec::new();
                push_nat_chars(&mut ic, i as u64);
                seg.push(chars_to_string(&ic));
                let path = append_fragment_components(address, &seg);
                proof {
                    assert(seg@.map_values(|s: String| s@) =~= seq![
                        "required"@,
                        spec_nat_chars(i as nat),
                    ]);
                }
                return Err(
                    SchemaError::Malformed {
                        path,
                        keyword: KeywordType::Required,
                        detail: "Every element of a required array must be a string".to_owned(),
                    },
                );
            },
        };
        let ghost old_map = required@.map_values(|q: String| q@);
        let dup = contains_name(&required, s);
        if !dup {
            required.push(s.to_owned());
        }
        i = i + 1;
        proof {
            match spec_required_names(em) {
                Some(names) => {
                    lemma_required_names_len(em);
                    lemma_required_names_index(em, i - 1);
                    let pre = names.subrange(0, i - 1);
                    let cur = names.subrange(0, i as int);
                    assert(cur.drop_last() =~= pre);
                    assert(cur.last() == s@);
                    lemma_dedup_contains(pre, s@);
                    if dup {
                        assert(required@.map_values(|q: String| q@) =~= spec_dedup(cur));
                    } else {
                        assert(required@.map_values(|q: String| q@) =~= old_map.push(s@));
                        assert(spec_dedup(cur) == spec_dedup(pre).push(s@));
                    }
                },
                None => {},
            }
        }
    }
    proof {
        match spec_required_names(em) {
            Some(names) => {
                lemma_required_names_len(em);
                assert(names.subrange(0, names.len() as int) =~= names);
            },
            None => {
                lemma_required_names_all_strings(em);
                assert(false);
            },
        }
    }
    Ok(Some(KeywordValidator::Required { required }))
}

/// If the first `i` entries are strings and entry `i` is not, the names fail
/// at index `i`.
proof fn lemma_required_names_prefix(elems: Seq<Model>, i: int)
    requires
        0 <= i < elems.len(),
        forall|j: int| 0 <= j < i ==> elems[j] is String,
        !(elems[i] is String),
    ensures
        spec_required_names(elems) is None,
        spec_first_non_string(elems) == i,
    decreases i,
{
    if i > 0 {
        lemma_required_names_prefix(elems.drop_first(), i - 1);
        assert(forall|j: int| 0 <= j < i - 1 ==> elems.drop_first()[j] == elems[j + 1]);
        assert(elems.drop_first()[i - 1] == elems[i]);
    }
}

/// The i-th name of an all-string prefix is the i-th element's text.
proof fn lemma_required_names_index(elems: Seq<Model>, i: int)
    requires
        0 <= i < elems.len(),
    ensures
        match spec_required_names(elems) {
            Some(names) => names.len() == elems.len() && (elems[i] matches Model::String(s)
                ==> names[i] == s),
            None => true,
        },
    decreases elems.len(),
{
    if elems.len() > 0 {
        if i > 0 {
            lemma_required_names_index(elems.drop_first(), i - 1);
        } else {
            lemma_required_names_len(elems);
        }
        lemma_required_names_len(elems.drop_first());
    }
}

/// The names of an array have its length.
proof fn lemma_required_names_len(elems: Seq<Model>)
    ensures
        match spec_required_names(elems) {
            Some(names) => names.len() == elems.len(),
            None => true,
        },
    decreases elems.len(),
{
    if elems.len() > 0 {
        lemma_required_names_len(elems.drop_first());
    }
}

/// An array whose entries are all strings has names.
proof fn lemma_required_names_all_strings(elems: Seq<Model>)
    requires
        forall|j: int| 0 <= j < elems.len() ==> elems[j] is String,
    ensures
        spec_required_names(elems) is Some,
    decreases elems.len(),
{
    if elems.len() > 0 {
        assert(forall|j: int|
            0 <= j < elems.drop_first().len() ==> elems.drop_first()[j] == elems[j + 1]);
        lemma_required_names_all_strings(elems.drop_first());
    }
}

/// What a `multipleOf` attribute compiles to.
pub enum MultipleOfOutcome {
    /// A strictly positive divisor.
    Divisor(Decimal),
    /// A numeric value that is not strictly positive.
    NotPositive(Decimal),
    /// A value that is not numeric at all.
    NotNumeric,
}

/// What a `multipleOf` attribute compiles to: an integer or number strictly
/// greater than zero gives the divisor; zero or below is malformed, with the
/// offending value; a non-numeric value is malformed outright.
pub open spec fn spec_multiple_of_compile(attr: Model) -> MultipleOfOutcome {
    match spec_as_integer(attr) {
        Some(iv) => if iv > 0 {
            MultipleOfOutcome::Divisor(Decimal::spec_from_integer(iv as i64))
        } else {
            MultipleOfOutcome::NotPositive(Decimal::spec_from_integer(iv as i64))
        },
        None => match spec_as_number(attr) {
            Some(d) => if d.spec_is_positive() {
                MultipleOfOutcome::Divisor(d)
            } else {
                MultipleOfOutcome::NotPositive(d)
            },
            None => MultipleOfOutcome::NotNumeric,
        },
    }
}

/// The detail text quoting a non-positive divisor.
fn not_positive_detail(value: &Decimal) -> (r: String)
    ensures
        r@ == "The multipleOf value must be strictly greater than 0 (found "@ + spec_dec_chars(
            *value,
        ) + seq![')'],
{
    let mut cs = str_to_chars("The multipleOf value must be strictly greater than 0 (found ");
    let mut vc = value.to_chars();
    cs.append(&mut vc);
    cs.push(')');
    chars_to_string(&cs)
}

/// Compile the `multipleOf` keyword of a raw schema document. A malformed
/// attribute is reported with the offending value quoted, or with the
/// observed kind when it is not numeric at all.
pub fn compile_multiple_of(address: &Address, raw: &Value) -> (r: Result<
    Option<KeywordValidator>,
    SchemaError,
>)
    ensures
        match spec_get_attribute(raw@, "multipleOf"@) {
            None => r matches Ok(None),
            Some(attr) => match spec_multiple_of_compile(attr) {
                MultipleOfOutcome::Divisor(d) => r matches Ok(Some(v)) && v@ == (
                KeywordModel::MultipleOf { divisor: d }) && d.spec_is_positive(),
                MultipleOfOutcome::NotPositive(n) => r matches Err(e) && e matches SchemaError::Malformed {
                    path,
                    keyword,
                    detail,
                } && keyword == KeywordType::MultipleOf && path@ == address@ && detail@
                    == "The multipleOf value must be strictly greater than 0 (found "@
                    + spec_dec_chars(n) + seq![')'],
                MultipleOfOutcome::NotNumeric => r matches Err(e) && e matches SchemaError::Malformed {
                    path,
                    keyword,
                    detail,
                } && keyword == KeywordType::MultipleOf && path@ == address@ && detail@
                    == "The multipleOf attribute must be an integer or a number (found type "@
                    + spec_kind_name(spec_primitive_type(attr).unwrap()) + seq![')'],
            },
        },
{
    let attr = match raw.get_attribute("multipleOf") {
        None => {
            return Ok(None);
        },
        Some(a) => a,
    };
    match attr.as_integer() {
        Some(i) => {
            let d = Decimal::from_integer(i);
            proof {
                Decimal::lemma_from_integer(i);
            }
            if i > 0 {
                return Ok(Some(KeywordValidator::MultipleOf { divisor: d }));
            }
            return Err(
                SchemaError::Malformed {
                    path: address.duplicate(),
                    keyword: KeywordType::MultipleOf,
                    detail: not_positive_detail(&d),
                },
            );
        },
        None => {},
    }
    match attr.as_number() {
        Some(d) => {
            if d.is_positive() {
                Ok(Some(KeywordValidator::MultipleOf { divisor: d }))
            } else {
                Err(
                    SchemaError::Malformed {
                        path: address.duplicate(),
                        keyword: KeywordType::MultipleOf,
                        detail: not_positive_detail(&d),
                    },
                )
            }
        },
        None => {
            let kind = match attr.primitive_type() {
                Some(k) => k,
                None => {
                    proof {
                        assert(false);
                    }
                    EnumPrimitiveType::Null
                },
            };
            let mut cs = str_to_chars(
                "The multipleOf attribute must be an integer or a number (found type ",
            );
            let mut kc = str_to_chars(kind.kind_name());
            cs.append(&mut kc);
            cs.push(')');
            Err(
                SchemaError::Malformed {
                    path: address.duplicate(),
                    keyword: KeywordType::MultipleOf,
                    detail: chars_to_string(&cs),
                },
            )
        },
    }
}

} // verus!
