//! A JSON-Schema-like validator: schema documents are compiled into a graph of
//! validator nodes, and structured values are checked against that graph.
//!
//! The crate is organised around the compilation session: a `ScopeBuilder`
//! registers schema documents under canonical addresses, compiles the five
//! supported keywords (`type`, `properties`, `required`, `multipleOf`, `$ref`)
//! into validator nodes — resolving self- and mutually-recursive references
//! exactly once per address — and freezes into a read-only `Scope` that answers
//! `is_valid` / `validation_errors` queries.

pub mod builder;
pub mod cache;
pub mod decimal;
pub mod drafts;
pub mod errors;
pub mod index;
pub mod keywords;
pub mod object;
pub mod schema;
pub mod scope;
pub mod text;
pub mod url_helpers;
pub mod value;

pub use builder::{BuilderError, SchemaBuilder, ScopedSchema};
pub use cache::{Cache, Stats};
pub use decimal::Decimal;
pub use drafts::DraftVersion;
pub use errors::{KeywordType, LoaderError, SchemaError, ValidationError};
pub use index::Index;
pub use object::{JsonMap, JsonMapTrait};
pub use scope::{Config, Loader, MemoryLoader, Scope, ScopeBuilder};
pub use url_helpers::{Address, UrlError};
pub use value::{EnumPrimitiveType, Value};
