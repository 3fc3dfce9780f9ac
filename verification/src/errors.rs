//! The error taxonomy.
//!
//! Compile time distinguishes a malformed schema document ([`SchemaError`])
//! from a failure to obtain a referenced document ([`LoaderError`]);
//! validation time produces only [`ValidationError`] values, which never
//! abort anything.

use vstd::prelude::*;

use crate::text::{chars_to_string, str_to_chars};
use crate::url_helpers::UrlError;

verus! {

/// The keyword a validator or an error belongs to.
#[derive(Clone, Copy, Debug, Eq, PartialEq, Structural)]
pub enum KeywordType {
    /// No single keyword: the schema node as a whole.
    Unknown,
    Type,
    Properties,
    Required,
    MultipleOf,
    Ref,
}

/// The mathematical shape of a validation error.
pub struct ErrorModel {
    pub path: Seq<char>,
    pub keyword: KeywordType,
    pub message: Seq<char>,
}

/// A path with a lone trailing slash removed; the root path `#/` becomes
/// `#`.
pub open spec fn spec_normalise_path(p: Seq<char>) -> Seq<char> {
    if p == seq!['#', '/'] {
        seq!['#']
    } else if p.len() > 0 && p.last() == '/' {
        p.drop_last()
    } else {
        p
    }
}

/// Normalise an error path.
pub fn normalise_path(path: &str) -> (r: String)
    ensures
        r@ == spec_normalise_path(path@),
{
    let mut cs = str_to_chars(path);
    if cs.len() == 2 && cs[0] == '#' && cs[1] == '/' {
        proof {
            assert(cs@ =~= seq!['#', '/']);
        }
        let _ = cs.pop();
    } else if cs.len() > 0 && cs[cs.len() - 1] == '/' {
        proof {
            assert(cs@ != seq!['#', '/']);
        }
        let _ = cs.pop();
    } else {
        proof {
            assert(cs@ != seq!['#', '/']);
        }
    }
    chars_to_string(&cs)
}

/// One violation found while validating a value: where it was found, which
/// keyword found it, and its message. Produced only at validation time,
/// never mutated.
#[derive(Debug, PartialEq, Eq)]
pub struct ValidationError {
    path: String,
    keyword: KeywordType,
    message: String,
}

impl View for ValidationError {
    type V = ErrorModel;

    closed spec fn view(&self) -> ErrorModel {
        ErrorModel { path: self.path@, keyword: self.keyword, message: self.message@ }
    }
}

impl ValidationError {
    /// An error at a path, with the path normalised.
    pub fn new(path: &str, keyword: KeywordType, message: String) -> (r: ValidationError)
        ensures
            r@.path == spec_normalise_path(path@),
            r@.keyword == keyword,
            r@.message == message@,
    {
        ValidationError { path: normalise_path(path), keyword, message }
    }

    pub fn path(&self) -> (r: &str)
        ensures
            r@ == self@.path,
    {
        self.path.as_str()
    }

    pub fn keyword(&self) -> (r: KeywordType)
        ensures
            r == self@.keyword,
    {
        self.keyword
    }

    pub fn message(&self) -> (r: &str)
        ensures
            r@ == self@.message,
    {
        self.message.as_str()
    }
}

/// A failure while fetching or decoding a referenced document.
#[derive(Debug)]
pub enum LoaderError {
    /// Reading from the local system failed.
    IOError(String),
    /// The address itself is unusable.
    InvalidURL(UrlError),
    /// The transport failed or answered without success.
    FetchURLFailed(String),
    /// The fetched text does not parse in the expected format.
    FormatError(String),
    UnknownError,
}

/// A compile-time failure: the schema document itself is unusable.
#[derive(Debug)]
pub enum SchemaError {
    Unknown,
    /// The document violates a keyword's shape rules at the given address.
    Malformed { path: crate::url_helpers::Address, keyword: KeywordType, detail: String },
    /// An address in the document cannot be parsed or resolved.
    UrlParse(UrlError),
    /// A referenced document could not be obtained.
    LoaderError(LoaderError),
}

} // verus!
