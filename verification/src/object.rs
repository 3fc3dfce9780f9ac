//! The object view of a document node.
//!
//! `JsonMapTrait` gives any value an object-like face: its attribute pairs,
//! names, and values, when the value is an object node. [`JsonMap`] wraps a
//! value known to be used as an object.

use vstd::prelude::*;

use crate::value::{object_models, Model, Value};

verus! {

/// The attribute pairs of a value, when it is an object.
pub open spec fn spec_as_object_entries(m: Model) -> Option<Seq<(Seq<char>, Model)>> {
    match m {
        Model::Object(entries) => Some(entries),
        _ => None,
    }
}

/// Object-like access to a value: the attribute pairs, names, and values of
/// an object node; nothing for any other node.
pub trait JsonMapTrait {
    /// The model of the value this view is over.
    spec fn spec_value_model(&self) -> Model;

    /// The attribute pairs, in declaration order.
    fn items(&self) -> (r: Option<Vec<(String, Value)>>)
        ensures
            match spec_as_object_entries(self.spec_value_model()) {
                Some(entries) => r matches Some(list) && object_models(list@) == entries,
                None => r is None,
            },
    ;

    /// The attribute names, in declaration order.
    fn keys(&self) -> (r: Option<Vec<String>>)
        ensures
            match spec_as_object_entries(self.spec_value_model()) {
                Some(entries) => r matches Some(ks) && ks@.len() == entries.len() && forall|
                    j: int,
                |
                    0 <= j < entries.len() ==> (#[trigger] ks@[j])@ == entries[j].0,
                None => r is None,
            },
    ;

    /// The attribute values, in declaration order.
    fn values(&self) -> (r: Option<Vec<Value>>)
        ensures
            match spec_as_object_entries(self.spec_value_model()) {
                Some(entries) => r matches Some(vs) && vs@.len() == entries.len() && forall|
                    j: int,
                |
                    0 <= j < entries.len() ==> (#[trigger] vs@[j])@ == entries[j].1,
                None => r is None,
            },
    ;
}

impl JsonMapTrait for Value {
    open spec fn spec_value_model(&self) -> Model {
        self@
    }

    fn items(&self) -> (r: Option<Vec<(String, Value)>>) {
        match self {
            Value::Object(entries) => {
                proof {
                    crate::value::lemma_object_models(entries@);
                }
                let mut out: Vec<(String, Value)> = Vec::new();
                let mut i: usize = 0;
                while i < entries.len()
                    invariant
                        i <= entries@.len(),
                        out@.len() == i,
                        forall|j: int|
                            0 <= j < i ==> (#[trigger] out@[j]).0@ == entries@[j].0@ && out@[j].1@
                                == entries@[j].1@,
                    decreases entries@.len() - i,
                {
                    let name = entries[i].0.clone();
                    let value = entries[i].1.duplicate();
                    out.push((name, value));
                    i = i + 1;
                }
                proof {
                    crate::value::lemma_object_models(out@);
                    assert(object_models(out@) =~= object_models(entries@));
                }
                Some(out)
            },
            _ => None,
        }
    }

    fn keys(&self) -> (r: Option<Vec<String>>) {
        match self {
            Value::Object(entries) => {
                proof {
                    crate::value::lemma_object_models(entries@);
                }
                let mut out: Vec<String> = Vec::new();
                let mut i: usize = 0;
                while i < entries.len()
                    invariant
                        i <= entries@.len(),
                        out@.len() == i,
                        forall|j: int| 0 <= j < i ==> (#[trigger] out@[j])@ == entries@[j].0@,
                    decreases entries@.len() - i,
                {
                    out.push(entries[i].0.clone());
                    i = i + 1;
                }
                Some(out)
            },
            _ => None,
        }
    }

    fn values(&self) -> (r: Option<Vec<Value>>) {
        match self {
            Value::Object(entries) => {
                proof {
                    crate::value::lemma_object_models(entries@);
                }
                let mut out: Vec<Value> = Vec::new();
                let mut i: usize = 0;
                while i < entries.len()
                    invariant
                        i <= entries@.len(),
                        out@.len() == i,
                        forall|j: int| 0 <= j < i ==> (#[trigger] out@[j])@ == entries@[j].1@,
                    decreases entries@.len() - i,
                {
                    out.push(entries[i].1.duplicate());
                    i = i + 1;
                }
                Some(out)
            },
            _ => None,
        }
    }
}

/// A value wrapped as an object view; holds its own copy of the value.
#[derive(Debug)]
pub struct JsonMap {
    value: Value,
}

impl JsonMap {
    /// Wrap a copy of a value.
    pub fn new(value: &Value) -> (r: JsonMap)
        ensures
            r.spec_value_model() == value@,
    {
        JsonMap { value: value.duplicate() }
    }

    /// The wrapped value.
    pub fn value(&self) -> (r: &Value)
        ensures
            r@ == self.spec_value_model(),
    {
        &self.value
    }
}

impl Value {
    /// The object view of this value, when it is an object node.
    pub fn as_object(&self) -> (r: Option<JsonMap>)
        ensures
            match r {
                Some(m) => self@ is Object && m.spec_value_model() == self@,
                None => !(self@ is Object),
            },
    {
        match self {
            Value::Object(_) => Some(JsonMap::new(self)),
            _ => None,
        }
    }
}

impl JsonMapTrait for JsonMap {
    closed spec fn spec_value_model(&self) -> Model {
        self.value@
    }

    fn items(&self) -> (r: Option<Vec<(String, Value)>>) {
        JsonMapTrait::items(&self.value)
    }

    fn keys(&self) -> (r: Option<Vec<String>>) {
        JsonMapTrait::keys(&self.value)
    }

    fn values(&self) -> (r: Option<Vec<Value>>) {
        JsonMapTrait::values(&self.value)
    }
}

} // verus!
