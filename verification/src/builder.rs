//! The convenience surface for wiring a validation session.
//!
//! A [`SchemaBuilder`] gathers the draft version, the reference and
//! self-validation toggles, and the schema document (by value or by
//! address), and produces a [`ScopedSchema`]: the frozen scope together with
//! the root address, queried directly with values.

use vstd::prelude::*;

use crate::drafts::DraftVersion;
use crate::errors::{LoaderError, SchemaError, ValidationError};
use crate::schema::errors_model;
use crate::scope::{spec_scope_errors, Config, Loader, Scope, ScopeBuilder};
use crate::url_helpers::{parse_and_normalize_url, Address};
use crate::value::Value;

verus! {

/// Why a build could not produce a usable scope: the caller omitted or
/// misused an input, the schema itself is invalid, or a document could not
/// be loaded.
#[derive(Debug)]
pub enum BuilderError {
    Builder(String),
    Schema(SchemaError),
    Loader(LoaderError),
}

/// A frozen scope together with its root schema address: values are
/// validated against the root node.
#[derive(Debug)]
pub struct ScopedSchema {
    scope: Scope,
    root: Address,
    config: Config,
}

impl ScopedSchema {
    pub closed spec fn spec_scope(self) -> Scope {
        self.scope
    }

    pub closed spec fn spec_root(self) -> Address {
        self.root
    }

    pub closed spec fn spec_config(self) -> Config {
        self.config
    }

    pub closed spec fn wf(self) -> bool {
        self.scope.wf()
    }

    pub fn config(&self) -> (r: &Config)
        ensures
            *r == self.spec_config(),
    {
        &self.config
    }

    /// The root schema's canonical address.
    pub fn root_address(&self) -> (r: &Address)
        ensures
            *r == self.spec_root(),
    {
        &self.root
    }

    /// The frozen scope behind this schema.
    pub fn scope(&self) -> (r: &Scope)
        ensures
            *r == self.spec_scope(),
    {
        &self.scope
    }

    /// The complete set of violations a value commits against the root
    /// schema node; empty means valid.
    pub fn validation_errors(&self, value: &Value) -> (r: Vec<ValidationError>)
        requires
            self.wf(),
        ensures
            errors_model(r@) == spec_scope_errors(
                self.spec_scope().spec_nodes(),
                self.spec_scope().spec_index(),
                self.spec_root(),
                value@,
            ),
    {
        self.scope.validation_errors(&self.root, value)
    }

    /// Whether a value satisfies the root schema node: true exactly when
    /// `validation_errors` is empty.
    pub fn is_valid(&self, value: &Value) -> (r: bool)
        requires
            self.wf(),
        ensures
            r == (spec_scope_errors(
                self.spec_scope().spec_nodes(),
                self.spec_scope().spec_index(),
                self.spec_root(),
                value@,
            ).len() == 0),
    {
        self.scope.is_valid(&self.root, value)
    }
}

/// The builder of a validation session. Defaults: references not followed,
/// schema self-validation off; the draft version and the schema document
/// must be supplied.
#[derive(Debug)]
pub struct SchemaBuilder<L> {
    draft_version: Option<DraftVersion>,
    follow_references: bool,
    validate_schema: bool,
    raw_schema: Option<Value>,
    raw_schema_uri: Option<String>,
    loader: L,
}

impl<L: Loader> SchemaBuilder<L> {
    pub closed spec fn spec_draft(self) -> Option<DraftVersion> {
        self.draft_version
    }

    pub closed spec fn spec_follow_references(self) -> bool {
        self.follow_references
    }

    pub closed spec fn spec_validate_schema(self) -> bool {
        self.validate_schema
    }

    pub closed spec fn spec_raw_schema(self) -> Option<Value> {
        self.raw_schema
    }

    pub closed spec fn spec_raw_uri(self) -> Option<Seq<char>> {
        match self.raw_schema_uri {
            Some(u) => Some(u@),
            None => None,
        }
    }

    pub closed spec fn spec_has_schema(self) -> bool {
        self.raw_schema is Some || self.raw_schema_uri is Some
    }

    pub fn new(loader: L) -> (r: SchemaBuilder<L>)
        ensures
            r.spec_draft() is None,
            !r.spec_follow_references(),
            !r.spec_validate_schema(),
            r.spec_raw_schema() is None,
            r.spec_raw_uri() is None,
            !r.spec_has_schema(),
    {
        SchemaBuilder {
            draft_version: None,
            follow_references: false,
            validate_schema: false,
            raw_schema: None,
            raw_schema_uri: None,
            loader,
        }
    }

    /// Select the draft to compile against; only Draft 4 is supported.
    pub fn draft_version(self, draft_version: DraftVersion) -> (r: SchemaBuilder<L>)
        ensures
            r.spec_draft() == Some(draft_version),
            r.spec_follow_references() == self.spec_follow_references(),
            r.spec_validate_schema() == self.spec_validate_schema(),
            r.spec_raw_schema() == self.spec_raw_schema(),
            r.spec_raw_uri() == self.spec_raw_uri(),
    {
        SchemaBuilder { draft_version: Some(draft_version), ..self }
    }

    /// Choose whether `$ref` keywords are followed.
    pub fn follow_references(self, follow_references: bool) -> (r: SchemaBuilder<L>)
        ensures
            r.spec_follow_references() == follow_references,
            r.spec_draft() == self.spec_draft(),
            r.spec_validate_schema() == self.spec_validate_schema(),
            r.spec_raw_schema() == self.spec_raw_schema(),
            r.spec_raw_uri() == self.spec_raw_uri(),
    {
        SchemaBuilder { follow_references, ..self }
    }

    /// Choose whether the schema document is validated before compilation.
    /// The compiler always applies the keyword shape rules; a malformed
    /// document fails the build either way, as an error rather than a panic,
    /// so untrusted input is never compiled silently.
    pub fn validate_schema(self, validate_schema: bool) -> (r: SchemaBuilder<L>)
        ensures
            r.spec_validate_schema() == validate_schema,
            r.spec_draft() == self.spec_draft(),
            r.spec_follow_references() == self.spec_follow_references(),
            r.spec_raw_schema() == self.spec_raw_schema(),
            r.spec_raw_uri() == self.spec_raw_uri(),
    {
        SchemaBuilder { validate_schema, ..self }
    }

    /// Supply the schema document by value; it is registered under a freshly
    /// generated address. A document supplied by value takes precedence over
    /// one supplied by address.
    pub fn raw_schema(self, raw_schema: Value) -> (r: SchemaBuilder<L>)
        ensures
            r.spec_raw_schema() == Some(raw_schema),
            r.spec_draft() == self.spec_draft(),
            r.spec_follow_references() == self.spec_follow_references(),
            r.spec_validate_schema() == self.spec_validate_schema(),
            r.spec_raw_uri() == self.spec_raw_uri(),
            r.spec_has_schema(),
    {
        SchemaBuilder { raw_schema: Some(raw_schema), ..self }
    }

    /// Supply the schema document by address; it is fetched through the
    /// loader at build time.
    pub fn raw_schema_from_uri(self, raw_schema_uri: &str) -> (r: SchemaBuilder<L>)
        ensures
            r.spec_raw_uri() == Some(raw_schema_uri@),
            r.spec_draft() == self.spec_draft(),
            r.spec_follow_references() == self.spec_follow_references(),
            r.spec_validate_schema() == self.spec_validate_schema(),
            r.spec_raw_schema() == self.spec_raw_schema(),
            r.spec_has_schema(),
    {
        SchemaBuilder { raw_schema_uri: Some(raw_schema_uri.to_owned()), ..self }
    }

    /// Produce the frozen scope, or the error that prevented it. A missing
    /// draft version, an unsupported draft, or a missing schema document is
    /// builder misuse; a malformed schema or a failed fetch propagates as a
    /// schema or loader error.
    pub fn build(self) -> (r: Result<ScopedSchema, BuilderError>)
        ensures
            r matches Ok(s) ==> s.wf() && self.spec_draft() == Some(DraftVersion::Draft4)
                && self.spec_has_schema() && s.spec_config() == (Config {
                draft_version: DraftVersion::Draft4,
                follow_references: self.spec_follow_references(),
                validate_schema: self.spec_validate_schema(),
            }),
            r is Ok ==> (self.spec_raw_schema() matches Some(v) ==> v@ is Object),
            r matches Err(e) && e is Builder ==> self.spec_draft() != Some(DraftVersion::Draft4)
                || !self.spec_has_schema(),
            (self.spec_draft() == Some(DraftVersion::Draft4) && (
            self.spec_raw_schema() matches Some(v) && !(v@ is Object
                && crate::scope::spec_keyword_shapes_ok(v@)))) ==> (r matches Err(e) && e
                is Schema),
            ({
                // Success is owed when nothing outside decides: draft 4,
                // references not followed, and a by-value document whose
                // whole property subtree keeps the keyword shapes, within
                // the compilation step budget.
                let owed = self.spec_draft() == Some(DraftVersion::Draft4)
                    && !self.spec_follow_references() && (
                self.spec_raw_schema() matches Some(v) && v@ is Object
                    && crate::scope::spec_subtree_shapes_ok(v@)
                    && crate::scope::spec_doc_weight(v@)
                    <= crate::scope::COMPILE_STEP_LIMIT);
                owed ==> r is Ok
            }),
            (self.spec_draft() != Some(DraftVersion::Draft4) || !self.spec_has_schema()) ==> (
            r matches Err(e) && (e matches BuilderError::Builder(m) && m@ == (
            if self.spec_draft() is None {
                "The builder requires a draft version to be selected"@
            } else if self.spec_draft() != Some(DraftVersion::Draft4) {
                "Only draft 4 is fully supported; the selected draft is not"@
            } else {
                "The builder requires a schema document, by value or by address"@
            }))),
    {
        let draft = match self.draft_version {
            None => {
                return Err(
                    BuilderError::Builder(
                        "The builder requires a draft version to be selected".to_owned(),
                    ),
                );
            },
            Some(d) => d,
        };
        match draft {
            DraftVersion::Draft4 => {},
            _ => {
                return Err(
                    BuilderError::Builder(
                        "Only draft 4 is fully supported; the selected draft is not".to_owned(),
                    ),
                );
            },
        }
        let config = Config {
            draft_version: draft,
            follow_references: self.follow_references,
            validate_schema: self.validate_schema,
        };
        let mut session = ScopeBuilder::create(config, self.loader);
        let root: Address;
        match self.raw_schema {
            Some(raw) => {
                root = session.inject_schema(&raw);
                match session.schema(&root, &raw) {
                    Ok(_) => {},
                    Err(e) => {
                        return Err(BuilderError::Schema(e));
                    },
                }
            },
            None => {
                match self.raw_schema_uri {
                    Some(uri) => {
                        root = match parse_and_normalize_url(uri.as_str()) {
                            Ok(a) => a,
                            Err(e) => {
                                return Err(
                                    BuilderError::Loader(LoaderError::InvalidURL(e)),
                                );
                            },
                        };
                        let document = match session.retrieve_schema(&root) {
                            Ok(d) => d,
                            Err(e) => {
                                return Err(BuilderError::Loader(e));
                            },
                        };
                        match session.schema(&root, &document) {
                            Ok(_) => {},
                            Err(e) => {
                                return Err(BuilderError::Schema(e));
                            },
                        }
                    },
                    None => {
                        return Err(
                            BuilderError::Builder(
                                "The builder requires a schema document, by value or by address".to_owned(),
                            ),
                        );
                    },
                }
            },
        }
        let ghost pre_build = session;
        let scope = match session.build() {
            Ok(s) => s,
            Err(e) => {
                proof {
                    // When success is owed, the session's build cannot fail:
                    // the one registered node carries the by-value document,
                    // whose weight is the whole pending weight.
                    match self.spec_raw_schema() {
                        Some(v) => {
                            if self.spec_draft() == Some(DraftVersion::Draft4)
                                && !self.spec_follow_references() && v@ is Object
                                && crate::scope::spec_subtree_shapes_ok(v@)
                                && crate::scope::spec_doc_weight(v@)
                                <= crate::scope::COMPILE_STEP_LIMIT {
                                assert(pre_build.spec_nodes().len() == 1);
                                crate::scope::lemma_pending_push(
                                    pre_build.spec_nodes().drop_last(),
                                    pre_build.spec_nodes()[0],
                                );
                                assert(pre_build.spec_nodes().drop_last() =~= Seq::<
                                    crate::schema::NodeModel,
                                >::empty());
                                assert(pre_build.spec_nodes() =~= pre_build.spec_nodes().drop_last().push(
                                    pre_build.spec_nodes()[0],
                                ));
                                assert(crate::scope::spec_pending_weight(pre_build.spec_nodes())
                                    == crate::scope::spec_doc_weight(v@));
                                assert(false);
                            }
                        },
                        None => {},
                    }
                }
                return Err(BuilderError::Schema(e));
            },
        };
        proof {
            // A by-value document that survives the build has its keyword
            // shapes in order: its node compiled, and a compiled node is
            // witness to every shape.
            match self.spec_raw_schema() {
                Some(v) => {
                    assert(pre_build.spec_nodes()[0].raw == v@);
                    assert(scope.spec_nodes()[0].raw == v@);
                    crate::scope::lemma_compiled_ok_shapes(
                        scope.spec_nodes(),
                        scope.spec_nodes()[0],
                        pre_build.spec_config().follow_references,
                    );
                },
                None => {},
            }
        }
        Ok(ScopedSchema { scope, root, config })
    }
}

} // verus!
