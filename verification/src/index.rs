//! Uniform indexing into document nodes.
//!
//! An [`Index`] is anything that can pick a child out of a value: a position
//! picks out of arrays, a name out of objects. The trait is sealed: only the
//! index types provided here implement it.

use vstd::prelude::*;

use crate::value::{spec_get_attribute, spec_get_index, Model, Value};

verus! {

/// The sealing trait: kept public so the bound can be named, implemented
/// only here.
pub trait Sealed {

}

impl Sealed for usize {

}

impl<'a> Sealed for &'a str {

}

impl Sealed for String {

}

/// A way to pick a child node out of a value.
pub trait Index: Sealed {
    /// What the index picks out of a value.
    spec fn spec_index_into(&self, v: Model) -> Option<Model>;

    /// Pick the child this index names, if it is there.
    fn index_into<'v>(&self, v: &'v Value) -> (r: Option<&'v Value>)
        ensures
            match r {
                Some(child) => self.spec_index_into(v@) == Some(child@),
                None => self.spec_index_into(v@) is None,
            },
    ;
}

impl Index for usize {
    open spec fn spec_index_into(&self, v: Model) -> Option<Model> {
        spec_get_index(v, *self as int)
    }

    fn index_into<'v>(&self, v: &'v Value) -> (r: Option<&'v Value>) {
        v.get_index(*self)
    }
}

impl<'a> Index for &'a str {
    open spec fn spec_index_into(&self, v: Model) -> Option<Model> {
        spec_get_attribute(v, self@)
    }

    fn index_into<'v>(&self, v: &'v Value) -> (r: Option<&'v Value>) {
        v.get_attribute(self)
    }
}

impl Index for String {
    open spec fn spec_index_into(&self, v: Model) -> Option<Model> {
        spec_get_attribute(v, self@)
    }

    fn index_into<'v>(&self, v: &'v Value) -> (r: Option<&'v Value>) {
        v.get_attribute(self.as_str())
    }
}

impl Value {
    /// Pick a child by any index: a position through arrays, a name through
    /// objects.
    pub fn get<I: Index>(&self, index: I) -> (r: Option<&Value>)
        ensures
            match r {
                Some(child) => index.spec_index_into(self@) == Some(child@),
                None => index.spec_index_into(self@) is None,
            },
    {
        index.index_into(self)
    }
}

} // verus!
