//! The document value model.
//!
//! A `Value` is one node of a tree-shaped structured document: the compiler
//! and validators work over this model alone and stay oblivious to whatever
//! concrete format (JSON text, YAML text, values built in memory) a document
//! came from. Numbers are carried exactly, as `Decimal`; objects keep their
//! attribute order.
//!
//! Every `Value` has a mathematical counterpart, [`Model`], reached through
//! the view operator `@`; all contracts in the crate speak of values through
//! that model.

use vstd::prelude::*;

use crate::decimal::Decimal;
use crate::text::str_eq;

verus! {

/// The seven primitive kinds a document node can classify to.
#[derive(Clone, Copy, Debug, Eq, PartialEq, Structural)]
pub enum EnumPrimitiveType {
    Array,
    Boolean,
    Integer,
    Null,
    Number,
    Object,
    String,
}

/// The kind named by a `type` keyword entry, if it names one.
pub open spec fn spec_kind_of_name(s: Seq<char>) -> Option<EnumPrimitiveType> {
    if s == "array"@ {
        Some(EnumPrimitiveType::Array)
    } else if s == "boolean"@ {
        Some(EnumPrimitiveType::Boolean)
    } else if s == "integer"@ {
        Some(EnumPrimitiveType::Integer)
    } else if s == "null"@ {
        Some(EnumPrimitiveType::Null)
    } else if s == "number"@ {
        Some(EnumPrimitiveType::Number)
    } else if s == "object"@ {
        Some(EnumPrimitiveType::Object)
    } else if s == "string"@ {
        Some(EnumPrimitiveType::String)
    } else {
        None
    }
}

impl EnumPrimitiveType {
    /// The primitive kind named by a string, if any.
    pub fn from_type(type_string: &str) -> (r: Option<EnumPrimitiveType>)
        ensures
            r == spec_kind_of_name(type_string@),
    {
        if str_eq(type_string, "array") {
            Some(EnumPrimitiveType::Array)
        } else if str_eq(type_string, "boolean") {
            Some(EnumPrimitiveType::Boolean)
        } else if str_eq(type_string, "integer") {
            Some(EnumPrimitiveType::Integer)
        } else if str_eq(type_string, "null") {
            Some(EnumPrimitiveType::Null)
        } else if str_eq(type_string, "number") {
            Some(EnumPrimitiveType::Number)
        } else if str_eq(type_string, "object") {
            Some(EnumPrimitiveType::Object)
        } else if str_eq(type_string, "string") {
            Some(EnumPrimitiveType::String)
        } else {
            None
        }
    }
}

/// The name of a primitive kind, as the `type` keyword writes it.
pub open spec fn spec_kind_name(k: EnumPrimitiveType) -> Seq<char> {
    match k {
        EnumPrimitiveType::Array => "array"@,
        EnumPrimitiveType::Boolean => "boolean"@,
        EnumPrimitiveType::Integer => "integer"@,
        EnumPrimitiveType::Null => "null"@,
        EnumPrimitiveType::Number => "number"@,
        EnumPrimitiveType::Object => "object"@,
        EnumPrimitiveType::String => "string"@,
    }
}

impl EnumPrimitiveType {
    /// The name of this kind.
    pub fn kind_name(&self) -> (r: &'static str)
        ensures
            r@ == spec_kind_name(*self),
    {
        match self {
            EnumPrimitiveType::Array => "array",
            EnumPrimitiveType::Boolean => "boolean",
            EnumPrimitiveType::Integer => "integer",
            EnumPrimitiveType::Null => "null",
            EnumPrimitiveType::Number => "number",
            EnumPrimitiveType::Object => "object",
            EnumPrimitiveType::String => "string",
        }
    }
}

/// One node of a structured document. An exact copy is made by
/// [`Value::duplicate`].
#[derive(Debug, PartialEq)]
pub enum Value {
    Null,
    Boolean(bool),
    Integer(i64),
    Number(Decimal),
    String(String),
    Array(Vec<Value>),
    Object(Vec<(String, Value)>),
}

/// The mathematical shape of a document node: strings as character
/// sequences, containers as sequences.
pub enum Model {
    Null,
    Boolean(bool),
    Integer(i64),
    Number(Decimal),
    String(Seq<char>),
    Array(Seq<Model>),
    Object(Seq<(Seq<char>, Model)>),
}

/// The model of a value.
pub open spec fn value_model(v: Value) -> Model
    decreases v,
{
    match v {
        Value::Null => Model::Null,
        Value::Boolean(b) => Model::Boolean(b),
        Value::Integer(i) => Model::Integer(i),
        Value::Number(d) => Model::Number(d),
        Value::String(s) => Model::String(s@),
        Value::Array(elems) => Model::Array(array_models(elems@)),
        Value::Object(entries) => Model::Object(object_models(entries@)),
    }
}

/// The models of a sequence of values.
pub open spec fn array_models(s: Seq<Value>) -> Seq<Model>
    decreases s,
{
    if s.len() == 0 {
        Seq::empty()
    } else {
        array_models(s.drop_last()).push(value_model(s.last()))
    }
}

/// The models of an attribute list.
pub open spec fn object_models(s: Seq<(String, Value)>) -> Seq<(Seq<char>, Model)>
    decreases s,
{
    if s.len() == 0 {
        Seq::empty()
    } else {
        object_models(s.drop_last()).push((s.last().0@, value_model(s.last().1)))
    }
}

pub broadcast proof fn lemma_array_models(s: Seq<Value>)
    ensures
        (#[trigger] array_models(s)).len() == s.len(),
        forall|i: int| 0 <= i < s.len() ==> array_models(s)[i] == value_model(s[i]),
    decreases s,
{
    if s.len() > 0 {
        lemma_array_models(s.drop_last());
    }
}

pub broadcast proof fn lemma_object_models(s: Seq<(String, Value)>)
    ensures
        (#[trigger] object_models(s)).len() == s.len(),
        forall|i: int|
            0 <= i < s.len() ==> object_models(s)[i] == (s[i].0@, value_model(s[i].1)),
    decreases s,
{
    if s.len() > 0 {
        lemma_object_models(s.drop_last());
    }
}

impl View for Value {
    type V = Model;

    open spec fn view(&self) -> Model {
        value_model(*self)
    }
}

/// The attribute list of an object node; empty for any other node.
pub open spec fn spec_obj_entries(m: Model) -> Seq<(Seq<char>, Model)> {
    match m {
        Model::Object(entries) => entries,
        _ => Seq::empty(),
    }
}

/// The first entry with the given name, searching left to right.
pub open spec fn spec_lookup(entries: Seq<(Seq<char>, Model)>, name: Seq<char>) -> Option<Model>
    decreases entries.len(),
{
    if entries.len() == 0 {
        None
    } else if entries[0].0 == name {
        Some(entries[0].1)
    } else {
        spec_lookup(entries.drop_first(), name)
    }
}

/// Attribute lookup on a value: a result only for object nodes.
pub open spec fn spec_get_attribute(m: Model, name: Seq<char>) -> Option<Model> {
    match m {
        Model::Object(entries) => spec_lookup(entries, name),
        _ => None,
    }
}

/// Index lookup on a value: a result only for array nodes with the index in
/// range.
pub open spec fn spec_get_index(m: Model, i: int) -> Option<Model> {
    match m {
        Model::Array(elems) => if 0 <= i < elems.len() {
            Some(elems[i])
        } else {
            None
        },
        _ => None,
    }
}

/// Whether a character is a decimal digit.
pub open spec fn spec_is_digit(c: char) -> bool {
    48 <= c as u32 <= 57
}

/// The numeric value of a digit string, most significant digit first.
pub open spec fn spec_digits_value(s: Seq<char>) -> nat
    decreases s.len(),
{
    if s.len() == 0 {
        0
    } else {
        spec_digits_value(s.drop_last()) * 10 + (s.last() as u32 - 48) as nat
    }
}

/// The array index denoted by a path segment: a non-empty run of digits whose
/// value fits the machine, anything else failing.
pub open spec fn spec_parse_index(s: Seq<char>) -> Option<int> {
    if s.len() > 0 && (forall|i: int| 0 <= i < s.len() ==> spec_is_digit(s[i]))
        && spec_digits_value(s) <= usize::MAX {
        Some(spec_digits_value(s) as int)
    } else {
        None
    }
}

/// A longer run of digits denotes at least as large a value.
proof fn lemma_digits_value_monotone(s: Seq<char>, i: int)
    requires
        0 <= i <= s.len(),
    ensures
        spec_digits_value(s.subrange(0, i)) <= spec_digits_value(s),
    decreases s.len() - i,
{
    if i < s.len() {
        lemma_digits_value_monotone(s, i + 1);
        let t = s.subrange(0, i + 1);
        assert(t.drop_last() =~= s.subrange(0, i));
        assert(spec_digits_value(t) == spec_digits_value(t.drop_last()) * 10 + ((t.last()
            as u32 - 48) as nat));
    } else {
        assert(s.subrange(0, i) =~= s);
    }
}

/// Parse a path segment as an array index.
pub fn parse_index(segment: &str) -> (r: Option<usize>)
    ensures
        match r {
            Some(i) => spec_parse_index(segment@) == Some(i as int),
            None => spec_parse_index(segment@) is None,
        },
{
    let cs = crate::text::str_to_chars(segment);
    if cs.len() == 0 {
        return None;
    }
    let mut acc: u128 = 0;
    let mut i: usize = 0;
    while i < cs.len()
        invariant
            i <= cs.len(),
            cs@ == segment@,
            acc == spec_digits_value(cs@.subrange(0, i as int)),
            acc <= usize::MAX,
            forall|j: int| 0 <= j < i ==> spec_is_digit(cs@[j]),
        decreases cs.len() - i,
    {
        let c = cs[i];
        let cv = c as u32;
        if cv < 48 || cv > 57 {
            return None;
        }
        let d = (cv - 48) as u128;
        acc = acc * 10 + d;
        i = i + 1;
        proof {
            assert(cs@.subrange(0, i as int).drop_last() =~= cs@.subrange(0, i - 1));
            assert(cs@.subrange(0, i as int).last() == cs@[i - 1]);
        }
        if acc > usize::MAX as u128 {
            proof {
                lemma_digits_value_monotone(cs@, i as int);
            }
            return None;
        }
    }
    proof {
        assert(cs@.subrange(0, cs@.len() as int) =~= cs@);
    }
    Some(acc as usize)
}

/// One step of the fragment walk: attribute lookup through an object, numeric
/// index lookup through an array, failure anywhere else.
pub open spec fn spec_resolve_step(m: Model, segment: Seq<char>) -> Option<Model> {
    match m {
        Model::Object(_) => spec_get_attribute(m, segment),
        Model::Array(_) => match spec_parse_index(segment) {
            Some(i) => spec_get_index(m, i),
            None => None,
        },
        _ => None,
    }
}

/// The fragment walk: starting from a node, resolve each path segment in
/// turn, failing at the first segment that cannot be resolved.
pub open spec fn spec_resolve_fragment(m: Model, segments: Seq<Seq<char>>) -> Option<Model>
    decreases segments.len(),
{
    if segments.len() == 0 {
        Some(m)
    } else {
        match spec_resolve_step(m, segments[0]) {
            Some(child) => spec_resolve_fragment(child, segments.drop_first()),
            None => None,
        }
    }
}

/// The models of a list of path segments.
pub open spec fn segments_model(segments: Seq<String>) -> Seq<Seq<char>> {
    segments.map_values(|s: String| s@)
}

/// The single primitive kind a value classifies to. A number with no
/// fractional part classifies as Integer, so that it matches wherever an
/// integer would.
pub open spec fn spec_primitive_type(m: Model) -> Option<EnumPrimitiveType> {
    match m {
        Model::Null => Some(EnumPrimitiveType::Null),
        Model::Boolean(_) => Some(EnumPrimitiveType::Boolean),
        Model::Integer(_) => Some(EnumPrimitiveType::Integer),
        Model::Number(d) => if d.spec_is_integral() {
            Some(EnumPrimitiveType::Integer)
        } else {
            Some(EnumPrimitiveType::Number)
        },
        Model::String(_) => Some(EnumPrimitiveType::String),
        Model::Array(_) => Some(EnumPrimitiveType::Array),
        Model::Object(_) => Some(EnumPrimitiveType::Object),
    }
}

/// The integer a value converts to, if any: integer nodes, and number nodes
/// holding an integral number.
pub open spec fn spec_as_integer(m: Model) -> Option<int> {
    match m {
        Model::Integer(i) => Some(i as int),
        Model::Number(d) => if d.spec_is_integral() {
            Some(d.spec_integer_value())
        } else {
            None
        },
        _ => None,
    }
}

/// The number a value converts to, if any: number nodes, and integer nodes
/// (an integer is always acceptable where a number is expected).
pub open spec fn spec_as_number(m: Model) -> Option<Decimal> {
    match m {
        Model::Integer(i) => Some(Decimal::spec_from_integer(i)),
        Model::Number(d) => Some(d),
        _ => None,
    }
}

impl Value {
    /// An exact copy of this value.
    pub fn duplicate(&self) -> (r: Value)
        ensures
            r@ == self@,
        decreases *self,
    {
        broadcast use lemma_array_models, lemma_object_models;

        match self {
            Value::Null => Value::Null,
            Value::Boolean(b) => Value::Boolean(*b),
            Value::Integer(i) => Value::Integer(*i),
            Value::Number(d) => Value::Number(*d),
            Value::String(s) => Value::String(s.clone()),
            Value::Array(elems) => {
                let mut out: Vec<Value> = Vec::new();
                let mut i: usize = 0;
                while i < elems.len()
                    invariant
                        i <= elems.len(),
                        out@.len() == i,
                        forall|j: int|
                            0 <= j < i ==> value_model(#[trigger] out@[j]) == value_model(
                                elems@[j],
                            ),
                        *self == Value::Array(*elems),
                    decreases elems.len() - i,
                {
                    proof {
                        assert(decreases_to!(*self => (*self)->Array_0));
                        assert(decreases_to!((*self)->Array_0 => (*self)->Array_0@));
                        assert(decreases_to!((*self)->Array_0@ => (*self)->Array_0@[i as int]));
                    }
                    out.push(elems[i].duplicate());
                    i = i + 1;
                }
                proof {
                    assert(array_models(out@) =~= array_models(elems@));
                }
                Value::Array(out)
            },
            Value::Object(entries) => {
                let mut out: Vec<(String, Value)> = Vec::new();
                let mut i: usize = 0;
                while i < entries.len()
                    invariant
                        i <= entries.len(),
                        out@.len() == i,
                        forall|j: int|
                            0 <= j < i ==> (#[trigger] out@[j]).0@ == entries@[j].0@
                                && value_model(out@[j].1) == value_model(entries@[j].1),
                        *self == Value::Object(*entries),
                    decreases entries.len() - i,
                {
                    proof {
                        assert(decreases_to!(*self => (*self)->Object_0));
                        assert(decreases_to!((*self)->Object_0 => (*self)->Object_0@));
                        assert(decreases_to!((*self)->Object_0@ => (*self)->Object_0@[i as int]));
                        assert(decreases_to!((*self)->Object_0@[i as int] => (*self)->Object_0@[i as int].1));
                    }
                    let name = entries[i].0.clone();
                    let value = entries[i].1.duplicate();
                    out.push((name, value));
                    i = i + 1;
                }
                proof {
                    assert(object_models(out@) =~= object_models(entries@));
                }
                Value::Object(out)
            },
        }
    }

    /// Attribute lookup by name.
    pub fn get_attribute(&self, attribute_name: &str) -> (r: Option<&Value>)
        ensures
            match r {
                Some(v) => spec_get_attribute(self@, attribute_name@) == Some(v@),
                None => spec_get_attribute(self@, attribute_name@) is None,
            },
    {
        broadcast use lemma_object_models;

        match self {
            Value::Object(entries) => {
                let ghost ms = object_models(entries@);
                proof {
                    assert(ms.subrange(0, ms.len() as int) =~= ms);
                }
                let mut i: usize = 0;
                while i < entries.len()
                    invariant
                        i <= entries.len(),
                        ms == object_models(entries@),
                        ms.len() == entries@.len(),
                        *self == Value::Object(*entries),
                        spec_lookup(ms, attribute_name@) == spec_lookup(
                            ms.subrange(i as int, ms.len() as int),
                            attribute_name@,
                        ),
                    decreases entries.len() - i,
                {
                    proof {
                        lemma_object_models(entries@);
                        assert(object_models(entries@)[i as int] == (
                            entries@[i as int].0@,
                            value_model(entries@[i as int].1),
                        ));
                        assert(ms.subrange(i as int, ms.len() as int)[0] == ms[i as int]);
                        assert(ms.subrange(i as int, ms.len() as int).drop_first() =~= ms.subrange(
                            i + 1,
                            ms.len() as int,
                        ));
                    }
                    if str_eq(entries[i].0.as_str(), attribute_name) {
                        proof {
                            assert(spec_lookup(
                                ms.subrange(i as int, ms.len() as int),
                                attribute_name@,
                            ) == Some(ms[i as int].1));
                        }
                        return Some(&entries[i].1);
                    }
                    i = i + 1;
                }
                None
            },
            _ => None,
        }
    }

    /// Whether an attribute of the given name is present.
    pub fn has_attribute(&self, attribute_name: &str) -> (r: bool)
        ensures
            r == (spec_get_attribute(self@, attribute_name@) is Some),
    {
        self.get_attribute(attribute_name).is_some()
    }

    /// Index lookup by position.
    pub fn get_index(&self, index: usize) -> (r: Option<&Value>)
        ensures
            match r {
                Some(v) => spec_get_index(self@, index as int) == Some(v@),
                None => spec_get_index(self@, index as int) is None,
            },
    {
        broadcast use lemma_array_models;

        match self {
            Value::Array(elems) => {
                if index < elems.len() {
                    proof {
                        lemma_array_models(elems@);
                        assert(array_models(elems@)[index as int] == value_model(
                            elems@[index as int],
                        ));
                    }
                    Some(&elems[index])
                } else {
                    None
                }
            },
            _ => None,
        }
    }

    pub fn as_array(&self) -> (r: Option<&Vec<Value>>)
        ensures
            match r {
                Some(elems) => self@ == Model::Array(array_models(elems@)),
                None => !(self@ is Array),
            },
    {
        match self {
            Value::Array(elems) => Some(elems),
            _ => None,
        }
    }

    pub fn as_boolean(&self) -> (r: Option<bool>)
        ensures
            match r {
                Some(b) => self@ == Model::Boolean(b),
                None => !(self@ is Boolean),
            },
    {
        match self {
            Value::Boolean(b) => Some(*b),
            _ => None,
        }
    }

    pub fn as_integer(&self) -> (r: Option<i64>)
        ensures
            match r {
                Some(i) => spec_as_integer(self@) == Some(i as int),
                None => spec_as_integer(self@) is None,
            },
    {
        match self {
            Value::Integer(i) => Some(*i),
            Value::Number(d) => {
                if d.is_integral() {
                    Some(d.integer_value())
                } else {
                    None
                }
            },
            _ => None,
        }
    }

    pub fn as_null(&self) -> (r: Option<()>)
        ensures
            r is Some <==> self@ is Null,
    {
        match self {
            Value::Null => Some(()),
            _ => None,
        }
    }

    pub fn as_number(&self) -> (r: Option<Decimal>)
        ensures
            r == spec_as_number(self@),
    {
        match self {
            Value::Integer(i) => Some(Decimal::from_integer(*i)),
            Value::Number(d) => Some(*d),
            _ => None,
        }
    }

    pub fn as_string(&self) -> (r: Option<&str>)
        ensures
            match r {
                Some(s) => self@ == Model::String(s@),
                None => !(self@ is String),
            },
    {
        match self {
            Value::String(s) => Some(s.as_str()),
            _ => None,
        }
    }

    pub fn is_array(&self) -> (r: bool)
        ensures
            r == (self@ is Array),
    {
        self.as_array().is_some()
    }

    pub fn is_boolean(&self) -> (r: bool)
        ensures
            r == (self@ is Boolean),
    {
        self.as_boolean().is_some()
    }

    pub fn is_integer(&self) -> (r: bool)
        ensures
            r == (spec_as_integer(self@) is Some),
    {
        self.as_integer().is_some()
    }

    pub fn is_null(&self) -> (r: bool)
        ensures
            r == (self@ is Null),
    {
        self.as_null().is_some()
    }

    pub fn is_number(&self) -> (r: bool)
        ensures
            r == (spec_as_number(self@) is Some),
    {
        self.as_number().is_some()
    }

    pub fn is_object(&self) -> (r: bool)
        ensures
            r == (self@ is Object),
    {
        match self {
            Value::Object(_) => true,
            _ => false,
        }
    }

    pub fn is_string(&self) -> (r: bool)
        ensures
            r == (self@ is String),
    {
        self.as_string().is_some()
    }

    /// Walk a fragment path from this node: each segment is resolved as an
    /// attribute name through objects and as a numeric index through arrays,
    /// and the walk fails at the first segment that cannot be resolved.
    pub fn resolve_fragment(&self, segments: &Vec<String>) -> (r: Option<&Value>)
        ensures
            match r {
                Some(v) => spec_resolve_fragment(self@, segments_model(segments@)) == Some(v@),
                None => spec_resolve_fragment(self@, segments_model(segments@)) is None,
            },
    {
        let ghost segs = segments_model(segments@);
        proof {
            assert(segs.subrange(0, segs.len() as int) =~= segs);
        }
        let mut cur: &Value = self;
        let mut i: usize = 0;
        while i < segments.len()
            invariant
                i <= segments.len(),
                segs == segments_model(segments@),
                segs.len() == segments@.len(),
                spec_resolve_fragment(value_model(*self), segs) == spec_resolve_fragment(
                    cur@,
                    segs.subrange(i as int, segs.len() as int),
                ),
            decreases segments.len() - i,
        {
            proof {
                assert(segs.subrange(i as int, segs.len() as int)[0] == segs[i as int]);
                assert(segs[i as int] == segments@[i as int]@);
                assert(segs.subrange(i as int, segs.len() as int).drop_first() =~= segs.subrange(
                    i + 1,
                    segs.len() as int,
                ));
            }
            let step: Option<&Value> = if cur.is_object() {
                cur.get_attribute(segments[i].as_str())
            } else if cur.is_array() {
                match parse_index(segments[i].as_str()) {
                    Some(index) => cur.get_index(index),
                    None => None,
                }
            } else {
                None
            };
            match step {
                Some(child) => {
                    cur = child;
                },
                None => {
                    return None;
                },
            }
            i = i + 1;
        }
        proof {
            assert(segs.subrange(segs.len() as int, segs.len() as int) =~= Seq::<
                Seq<char>,
            >::empty());
        }
        Some(cur)
    }

    /// The single primitive kind this value classifies to.
    pub fn primitive_type(&self) -> (r: Option<EnumPrimitiveType>)
        ensures
            r == spec_primitive_type(self@),
    {
        match self {
            Value::Null => Some(EnumPrimitiveType::Null),
            Value::Boolean(_) => Some(EnumPrimitiveType::Boolean),
            Value::Integer(_) => Some(EnumPrimitiveType::Integer),
            Value::Number(d) => {
                if d.is_integral() {
                    Some(EnumPrimitiveType::Integer)
                } else {
                    Some(EnumPrimitiveType::Number)
                }
            },
            Value::String(_) => Some(EnumPrimitiveType::String),
            Value::Array(_) => Some(EnumPrimitiveType::Array),
            Value::Object(_) => Some(EnumPrimitiveType::Object),
        }
    }
}

} // verus!
