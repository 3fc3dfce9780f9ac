//! End-to-end validation: the five keywords, reference cycles, the session
//! cache, and the builder surface.

use jsonschema_validator::builder::{BuilderError, SchemaBuilder, ScopedSchema};
use jsonschema_validator::decimal::Decimal;
use jsonschema_validator::drafts::DraftVersion;
use jsonschema_validator::errors::{KeywordType, SchemaError};
use jsonschema_validator::schema::{node_validation_errors, KeywordValidator, SchemaNode};
use jsonschema_validator::scope::{Config, Loader, MemoryLoader, ScopeBuilder};
use jsonschema_validator::url_helpers::parse_and_normalize_url;
use jsonschema_validator::value::Value;

fn obj(pairs: Vec<(&str, Value)>) -> Value {
    Value::Object(pairs.into_iter().map(|(k, v)| (k.to_string(), v)).collect())
}

fn arr(items: Vec<Value>) -> Value {
    Value::Array(items)
}

fn text(s: &str) -> Value {
    Value::String(s.to_string())
}

fn build_schema(raw: Value, follow_references: bool) -> ScopedSchema {
    SchemaBuilder::new(MemoryLoader::new())
        .draft_version(DraftVersion::Draft4)
        .follow_references(follow_references)
        .validate_schema(true)
        .raw_schema(raw)
        .build()
        .expect("the schema is supposed to be valid")
}

#[test]
fn type_integer_accepts_and_rejects() {
    let schema = build_schema(obj(vec![("type", text("integer"))]), false);
    assert!(schema.is_valid(&Value::Integer(2)));
    assert!(schema.is_valid(&Value::Number(Decimal::new(120, 1))));
    assert!(!schema.is_valid(&Value::Number(Decimal::new(23, 1))));
    assert!(!schema.is_valid(&text("2")));
    assert!(!schema.is_valid(&Value::Boolean(true)));
    assert!(!schema.is_valid(&Value::Null));
}

#[test]
fn type_error_message_and_path() {
    let schema = build_schema(obj(vec![("type", text("string"))]), false);
    let errors = schema.validation_errors(&Value::Integer(1));
    assert_eq!(errors.len(), 1);
    assert_eq!(errors[0].path(), "#");
    assert_eq!(errors[0].keyword(), KeywordType::Type);
    assert_eq!(errors[0].message(), "Invalid Type");
}

#[test]
fn type_array_of_kinds() {
    let schema = build_schema(
        obj(vec![("type", arr(vec![text("boolean"), text("string")]))]),
        false,
    );
    assert!(schema.is_valid(&text("text")));
    assert!(schema.is_valid(&Value::Boolean(true)));
    assert!(!schema.is_valid(&Value::Integer(1)));
}

#[test]
fn type_empty_array_matches_nothing() {
    let schema = build_schema(obj(vec![("type", arr(vec![]))]), false);
    assert!(!schema.is_valid(&Value::Null));
    assert!(!schema.is_valid(&Value::Integer(1)));
    assert!(!schema.is_valid(&text("x")));
}

#[test]
fn number_accepts_integer_not_vice_versa() {
    let number_schema = build_schema(obj(vec![("type", text("number"))]), false);
    assert!(number_schema.is_valid(&Value::Integer(2)));
    assert!(number_schema.is_valid(&Value::Number(Decimal::new(23, 1))));
    let integer_schema = build_schema(obj(vec![("type", text("integer"))]), false);
    assert!(!integer_schema.is_valid(&Value::Number(Decimal::new(23, 1))));
}

#[test]
fn type_invalid_kind_is_malformed() {
    let result = SchemaBuilder::new(MemoryLoader::new())
        .draft_version(DraftVersion::Draft4)
        .validate_schema(true)
        .raw_schema(obj(vec![("type", text("not-real-type"))]))
        .build();
    match result {
        Err(BuilderError::Schema(SchemaError::Malformed { keyword, detail, .. })) => {
            assert_eq!(keyword, KeywordType::Type);
            assert!(detail.contains("not-real-type"));
        },
        _ => panic!("a malformed type keyword was expected"),
    }
}

#[test]
fn properties_delegate_to_children() {
    let schema = build_schema(
        obj(vec![("properties", obj(vec![("p", obj(vec![("type", text("string"))]))]))]),
        false,
    );
    let errors = schema.validation_errors(&obj(vec![("p", Value::Integer(1))]));
    assert_eq!(errors.len(), 1);
    assert_eq!(errors[0].path(), "#/p");
    assert_eq!(errors[0].keyword(), KeywordType::Type);
    assert!(schema.is_valid(&obj(vec![("p", text("x"))])));
    assert!(schema.is_valid(&obj(vec![])));
    // The keyword does not constrain non-objects.
    assert!(schema.is_valid(&text("anything")));
}

#[test]
fn properties_with_non_object_value_is_malformed() {
    let result = SchemaBuilder::new(MemoryLoader::new())
        .draft_version(DraftVersion::Draft4)
        .validate_schema(true)
        .raw_schema(obj(vec![("properties", obj(vec![("prop", Value::Integer(1))]))]))
        .build();
    match result {
        Err(BuilderError::Schema(SchemaError::Malformed { keyword, detail, .. })) => {
            assert_eq!(keyword, KeywordType::Properties);
            assert!(detail.contains("/properties/prop"));
        },
        _ => panic!("a malformed properties keyword was expected"),
    }
}

#[test]
fn required_lists_missing_names() {
    let schema = build_schema(obj(vec![("required", arr(vec![text("a")]))]), false);
    let errors = schema.validation_errors(&obj(vec![]));
    assert_eq!(errors.len(), 1);
    assert_eq!(errors[0].keyword(), KeywordType::Required);
    assert_eq!(errors[0].message(), "Missing attributes: a");
    assert!(schema.is_valid(&obj(vec![("a", Value::Null)])));
    assert!(schema.is_valid(&text("not an object")));
}

#[test]
fn required_joins_names_and_deduplicates() {
    let schema = build_schema(
        obj(vec![("required", arr(vec![text("a"), text("b"), text("a")]))]),
        false,
    );
    let errors = schema.validation_errors(&obj(vec![]));
    assert_eq!(errors.len(), 1);
    assert_eq!(errors[0].message(), "Missing attributes: a,b");
    let partial = schema.validation_errors(&obj(vec![("a", Value::Null)]));
    assert_eq!(partial[0].message(), "Missing attributes: b");
}

#[test]
fn required_non_array_is_malformed() {
    let result = SchemaBuilder::new(MemoryLoader::new())
        .draft_version(DraftVersion::Draft4)
        .validate_schema(true)
        .raw_schema(obj(vec![("required", Value::Integer(1))]))
        .build();
    assert!(matches!(
        result,
        Err(BuilderError::Schema(SchemaError::Malformed { keyword: KeywordType::Required, .. }))
    ));
}

#[test]
fn required_non_string_entry_has_indexed_address() {
    let result = SchemaBuilder::new(MemoryLoader::new())
        .draft_version(DraftVersion::Draft4)
        .validate_schema(true)
        .raw_schema(obj(vec![("required", arr(vec![text("ok"), Value::Integer(2)]))]))
        .build();
    match result {
        Err(BuilderError::Schema(SchemaError::Malformed { path, keyword, .. })) => {
            assert_eq!(keyword, KeywordType::Required);
            assert!(path.to_url_string().ends_with("#/required/1"));
        },
        _ => panic!("a malformed required keyword was expected"),
    }
}

#[test]
fn multiple_of_integer_divisor() {
    let schema = build_schema(obj(vec![("multipleOf", Value::Integer(2))]), false);
    assert!(schema.is_valid(&Value::Integer(4)));
    let errors = schema.validation_errors(&Value::Integer(3));
    assert_eq!(errors.len(), 1);
    assert_eq!(errors[0].keyword(), KeywordType::MultipleOf);
    assert_eq!(errors[0].message(), "3 is not a multiple of 2");
    // Non-numeric values produce no errors.
    assert!(schema.is_valid(&Value::Null));
    assert!(schema.is_valid(&text("3")));
    assert!(schema.is_valid(&Value::Number(Decimal::new(120, 1))));
}

#[test]
fn multiple_of_decimal_divisor() {
    let schema = build_schema(
        obj(vec![("multipleOf", Value::Number(Decimal::new(6, 1)))]),
        false,
    );
    assert!(schema.is_valid(&Value::Integer(3)));
    let errors = schema.validation_errors(&Value::Integer(2));
    assert_eq!(errors.len(), 1);
    assert_eq!(errors[0].message(), "2 is not a multiple of 0.6");
}

#[test]
fn multiple_of_non_positive_is_malformed() {
    for divisor in [Value::Integer(0), Value::Integer(-1)] {
        let result = SchemaBuilder::new(MemoryLoader::new())
            .draft_version(DraftVersion::Draft4)
            .validate_schema(true)
            .raw_schema(obj(vec![("multipleOf", divisor)]))
            .build();
        assert!(matches!(
            result,
            Err(BuilderError::Schema(SchemaError::Malformed {
                keyword: KeywordType::MultipleOf,
                ..
            }))
        ));
    }
}

#[test]
fn ref_cycle_compiles_and_validates() {
    let schema = build_schema(
        obj(vec![
            (
                "definitions",
                obj(vec![(
                    "node",
                    obj(vec![
                        ("type", text("object")),
                        ("properties", obj(vec![("next", obj(vec![("$ref", text("#/definitions/node"))]))])),
                    ]),
                )]),
            ),
            ("$ref", text("#/definitions/node")),
        ]),
        true,
    );
    let valid = obj(vec![("next", obj(vec![("next", obj(vec![]))]))]);
    assert!(schema.is_valid(&valid));
    let invalid = obj(vec![("next", obj(vec![("next", Value::Integer(1))]))]);
    let errors = schema.validation_errors(&invalid);
    assert_eq!(errors.len(), 1);
    assert_eq!(errors[0].path(), "#/next/next");
    assert_eq!(errors[0].keyword(), KeywordType::Type);
}

#[test]
fn ref_delegates_to_target() {
    let schema = build_schema(
        obj(vec![
            ("definitions", obj(vec![("model", obj(vec![("type", text("string"))]))])),
            ("$ref", text("#/definitions/model")),
        ]),
        true,
    );
    assert!(schema.is_valid(&text("text")));
    let errors = schema.validation_errors(&Value::Null);
    assert_eq!(errors.len(), 1);
    assert_eq!(errors[0].path(), "#");
    assert_eq!(errors[0].keyword(), KeywordType::Type);
}

#[test]
fn ref_to_missing_fragment_fails_the_build() {
    let result = SchemaBuilder::new(MemoryLoader::new())
        .draft_version(DraftVersion::Draft4)
        .follow_references(true)
        .validate_schema(true)
        .raw_schema(obj(vec![("$ref", text("#/definitions/model"))]))
        .build();
    assert!(matches!(result, Err(BuilderError::Schema(SchemaError::LoaderError(_)))));
}

#[test]
fn session_compiles_each_address_once() {
    let config = Config {
        draft_version: DraftVersion::Draft4,
        follow_references: false,
        validate_schema: true,
    };
    let mut session = ScopeBuilder::create(config, MemoryLoader::new());
    let raw = obj(vec![("type", text("string"))]);
    let address = session.inject_schema(&raw);
    let first = session.schema(&address, &raw).unwrap();
    assert_eq!(session.stats().hits, 0);
    assert_eq!(session.stats().misses, 1);
    let second = session.schema(&address, &raw).unwrap();
    assert_eq!(first, second);
    assert_eq!(session.stats().hits, 1);
    assert_eq!(session.stats().misses, 1);
    let scope = session.build().unwrap();
    assert!(scope.is_valid(&address, &text("x")));
    assert!(!scope.is_valid(&address, &Value::Integer(1)));
}

#[test]
fn unknown_address_is_vacuously_valid() {
    let config = Config {
        draft_version: DraftVersion::Draft4,
        follow_references: false,
        validate_schema: true,
    };
    let mut session = ScopeBuilder::create(config, MemoryLoader::new());
    let raw = obj(vec![("type", text("string"))]);
    let known = session.inject_schema(&raw);
    session.schema(&known, &raw).unwrap();
    let unknown = parse_and_normalize_url("memory://elsewhere").unwrap();
    let scope = session.build().unwrap();
    assert!(scope.validation_errors(&unknown, &Value::Integer(1)).is_empty());
}

#[test]
fn injected_addresses_are_distinct() {
    let config = Config {
        draft_version: DraftVersion::Draft4,
        follow_references: false,
        validate_schema: true,
    };
    let mut session = ScopeBuilder::create(config, MemoryLoader::new());
    let raw = obj(vec![]);
    let first = session.inject_schema(&raw);
    let second = session.inject_schema(&raw);
    assert_ne!(first.to_url_string(), second.to_url_string());
}

#[test]
fn non_object_schema_is_malformed() {
    for raw in [Value::Null, Value::Boolean(false), Value::Integer(1), text("2")] {
        let result = SchemaBuilder::new(MemoryLoader::new())
            .draft_version(DraftVersion::Draft4)
            .validate_schema(true)
            .raw_schema(raw)
            .build();
        assert!(matches!(
            result,
            Err(BuilderError::Schema(SchemaError::Malformed {
                keyword: KeywordType::Unknown,
                ..
            }))
        ));
    }
}

#[test]
fn test_builder_fail_to_build_when_missing_draft_version() {
    let result = SchemaBuilder::new(MemoryLoader::new()).raw_schema(obj(vec![])).build();
    match result {
        Err(BuilderError::Builder(message)) => {
            assert!(message.contains("draft version"));
        },
        _ => panic!("a builder error was expected"),
    }
}

#[test]
fn test_builder_fails_if_schema_is_not_valid() {
    let result = SchemaBuilder::new(MemoryLoader::new())
        .draft_version(DraftVersion::Draft4)
        .follow_references(false)
        .validate_schema(true)
        .raw_schema(obj(vec![("type", Value::Integer(1))]))
        .build();
    assert!(matches!(
        result,
        Err(BuilderError::Schema(SchemaError::Malformed { keyword: KeywordType::Type, .. }))
    ));
}

#[test]
fn test_builder_builds_when_schema_is_defined() {
    let _ = SchemaBuilder::new(MemoryLoader::new())
        .draft_version(DraftVersion::Draft4)
        .follow_references(false)
        .validate_schema(true)
        .raw_schema(obj(vec![]))
        .build()
        .expect("No errors are expected");
}

#[test]
fn test_builder_fails_on_unsupported_draft() {
    for draft in [DraftVersion::Draft3, DraftVersion::Draft6, DraftVersion::Draft7] {
        let result = SchemaBuilder::new(MemoryLoader::new())
            .draft_version(draft)
            .raw_schema(obj(vec![]))
            .build();
        match result {
            Err(BuilderError::Builder(message)) => {
                assert!(message.contains("draft 4"));
            },
            _ => panic!("an unsupported-draft error was expected"),
        }
    }
}

#[test]
fn test_builder_fails_without_schema() {
    let result = SchemaBuilder::new(MemoryLoader::new())
        .draft_version(DraftVersion::Draft4)
        .build();
    assert!(matches!(result, Err(BuilderError::Builder(_))));
}

#[test]
fn schema_url_of_draft4() {
    assert_eq!(
        DraftVersion::schema_url(DraftVersion::Draft4),
        "http://json-schema.org/draft-04/schema#"
    );
}

#[test]
fn is_valid_agrees_with_validation_errors() {
    let schema = build_schema(
        obj(vec![
            ("type", arr(vec![text("object"), text("integer")])),
            ("required", arr(vec![text("a")])),
            ("multipleOf", Value::Integer(3)),
        ]),
        false,
    );
    for value in [
        Value::Integer(9),
        Value::Integer(4),
        obj(vec![("a", Value::Null)]),
        obj(vec![]),
        text("x"),
        Value::Null,
    ] {
        assert_eq!(schema.is_valid(&value), schema.validation_errors(&value).is_empty());
    }
}

#[test]
fn validation_errors_aggregate_in_keyword_order() {
    let schema = build_schema(
        obj(vec![
            ("type", text("string")),
            ("required", arr(vec![text("a")])),
        ]),
        false,
    );
    // An object fails the type check but satisfies required when `a` is there.
    let errors = schema.validation_errors(&obj(vec![]));
    assert_eq!(errors.len(), 2);
    assert_eq!(errors[0].keyword(), KeywordType::Type);
    assert_eq!(errors[1].keyword(), KeywordType::Required);
}

#[test]
fn test_new_schema_fails_with_invalid_schema_if_validation_is_set() {
    let scoped_schema = SchemaBuilder::new(MemoryLoader::new())
        .draft_version(DraftVersion::Draft4)
        .validate_schema(true)
        .raw_schema(obj(vec![("type", Value::Integer(1))]))
        .build();
    assert_eq!(scoped_schema.is_err(), true);
}

#[test]
fn ref_into_stored_document() {
    let mut loader = MemoryLoader::new();
    let document_address = parse_and_normalize_url("memory://remote/schema.json").unwrap();
    let document = obj(vec![
        ("valid", obj(vec![("$ref", text("#/string_type"))])),
        ("string_type", obj(vec![("type", text("string"))])),
    ]);
    loader.store(&document_address, &document);

    let schema = SchemaBuilder::new(loader)
        .draft_version(DraftVersion::Draft4)
        .follow_references(true)
        .validate_schema(true)
        .raw_schema_from_uri("memory://remote/schema.json#/valid")
        .build()
        .expect("the schema is supposed to be valid");
    assert!(schema.is_valid(&text("text")));
    let errors = schema.validation_errors(&Value::Null);
    assert_eq!(errors.len(), 1);
    assert_eq!(errors[0].keyword(), KeywordType::Type);
}

#[test]
fn loader_memoizes_fetches() {
    let mut loader = MemoryLoader::new();
    let address = parse_and_normalize_url("memory://doc").unwrap();
    loader.store(&address, &obj(vec![]));
    assert!(loader.fetch(&address).is_ok());
    assert!(loader.fetch(&address).is_ok());
    assert_eq!(loader.stats().hits, 2);
    let missing = parse_and_normalize_url("memory://absent").unwrap();
    assert!(loader.fetch(&missing).is_err());
    assert_eq!(loader.stats().misses, 1);
}

#[test]
fn fragment_variants_share_one_document_fetch() {
    let config = Config {
        draft_version: DraftVersion::Draft4,
        follow_references: true,
        validate_schema: true,
    };
    let mut loader = MemoryLoader::new();
    let document_address = parse_and_normalize_url("memory://doc").unwrap();
    loader.store(
        &document_address,
        &obj(vec![("a", obj(vec![])), ("b", obj(vec![]))]),
    );
    let mut session = ScopeBuilder::create(config, loader);
    let first = parse_and_normalize_url("memory://doc#/a").unwrap();
    let second = parse_and_normalize_url("memory://doc#/b").unwrap();
    assert!(session.retrieve_schema(&first).is_ok());
    assert!(session.retrieve_schema(&second).is_ok());
    // Both fragments resolved within the single stored document.
    assert!(session.retrieve_schema(&parse_and_normalize_url("memory://doc#/c").unwrap()).is_err());
}

#[test]
fn diamond_references_compile_once_per_address() {
    // Two references reaching the same definition observe one node.
    let schema = build_schema(
        obj(vec![
            ("definitions", obj(vec![("leaf", obj(vec![("type", text("integer"))]))])),
            (
                "properties",
                obj(vec![
                    ("x", obj(vec![("$ref", text("#/definitions/leaf"))])),
                    ("y", obj(vec![("$ref", text("#/definitions/leaf"))])),
                ]),
            ),
        ]),
        true,
    );
    assert!(schema.is_valid(&obj(vec![("x", Value::Integer(1)), ("y", Value::Integer(2))])));
    let errors = schema.validation_errors(&obj(vec![("x", text("no")), ("y", text("no"))]));
    assert_eq!(errors.len(), 2);
    assert_eq!(errors[0].path(), "#/x");
    assert_eq!(errors[1].path(), "#/y");
}

#[test]
fn keyword_types_are_reported() {
    assert_eq!(
        KeywordValidator::Type { kinds: vec![] }.keyword_type(),
        KeywordType::Type
    );
    assert_eq!(
        KeywordValidator::Properties { properties: vec![] }.keyword_type(),
        KeywordType::Properties
    );
    assert_eq!(
        KeywordValidator::Required { required: vec![] }.keyword_type(),
        KeywordType::Required
    );
    assert_eq!(
        KeywordValidator::MultipleOf { divisor: Decimal::new(1, 0) }.keyword_type(),
        KeywordType::MultipleOf
    );
    assert_eq!(KeywordValidator::Ref { target: 0 }.keyword_type(), KeywordType::Ref);
}

#[test]
fn test_builder_reports_unusable_address() {
    let result = SchemaBuilder::new(MemoryLoader::new())
        .draft_version(DraftVersion::Draft4)
        .raw_schema_from_uri("this-is-a-wrong-url")
        .build();
    assert!(matches!(
        result,
        Err(BuilderError::Loader(jsonschema_validator::errors::LoaderError::InvalidURL(_)))
    ));
}

#[test]
fn scoped_schema_exposes_its_wiring() {
    let schema = build_schema(obj(vec![("type", text("string"))]), false);
    assert_eq!(schema.config().draft_version, DraftVersion::Draft4);
    assert_eq!(schema.scope().draft_version(), DraftVersion::Draft4);
    let root = schema.root_address().duplicate();
    assert!(schema.scope().is_valid(&root, &text("x")));
}

#[test]
fn uninitialised_node_reports_itself() {
    let registered = SchemaNode {
        address: parse_and_normalize_url("memory://doc").unwrap(),
        raw: obj(vec![]),
        validators: vec![],
        compiled: false,
    };
    let nodes = vec![registered];
    let errors = node_validation_errors(&nodes, 0, "#", &obj(vec![]), 1);
    assert_eq!(errors.len(), 1);
    assert_eq!(errors[0].keyword(), KeywordType::Unknown);
    assert_eq!(errors[0].message(), "Uninitialised schema");
}

#[test]
fn pure_reference_cycle_reports_one_error() {
    // A reference chain that never consumes input cannot settle on a verdict;
    // it is reported instead of looping.
    let schema = build_schema(
        obj(vec![
            (
                "definitions",
                obj(vec![
                    ("a", obj(vec![("$ref", text("#/definitions/b"))])),
                    ("b", obj(vec![("$ref", text("#/definitions/a"))])),
                ]),
            ),
            ("$ref", text("#/definitions/a")),
        ]),
        true,
    );
    let errors = schema.validation_errors(&Value::Null);
    assert_eq!(errors.len(), 1);
    assert_eq!(errors[0].keyword(), KeywordType::Ref);
    assert_eq!(errors[0].message(), "Reference cycle");
}

#[test]
fn multiple_of_malformed_detail_quotes_the_value() {
    let result = SchemaBuilder::new(MemoryLoader::new())
        .draft_version(DraftVersion::Draft4)
        .validate_schema(true)
        .raw_schema(obj(vec![("multipleOf", Value::Integer(-1))]))
        .build();
    match result {
        Err(BuilderError::Schema(SchemaError::Malformed { detail, .. })) => {
            assert_eq!(
                detail,
                "The multipleOf value must be strictly greater than 0 (found -1)"
            );
        },
        _ => panic!("a malformed multipleOf keyword was expected"),
    }
    let non_numeric = SchemaBuilder::new(MemoryLoader::new())
        .draft_version(DraftVersion::Draft4)
        .validate_schema(true)
        .raw_schema(obj(vec![("multipleOf", text("2"))]))
        .build();
    match non_numeric {
        Err(BuilderError::Schema(SchemaError::Malformed { detail, .. })) => {
            assert_eq!(
                detail,
                "The multipleOf attribute must be an integer or a number (found type string)"
            );
        },
        _ => panic!("a malformed multipleOf keyword was expected"),
    }
}

#[test]
fn non_object_schema_detail_names_the_kind() {
    let result = SchemaBuilder::new(MemoryLoader::new())
        .draft_version(DraftVersion::Draft4)
        .validate_schema(true)
        .raw_schema(Value::Integer(1))
        .build();
    match result {
        Err(BuilderError::Schema(SchemaError::Malformed { detail, .. })) => {
            assert_eq!(detail, "A schema document must be an object (found type integer)");
        },
        _ => panic!("a malformed schema document was expected"),
    }
}

#[test]
fn child_meta_error_fails_the_build() {
    // A declared property whose own sub-schema is meta-invalid surfaces that
    // sub-schema's error when the child compiles.
    let result = SchemaBuilder::new(MemoryLoader::new())
        .draft_version(DraftVersion::Draft4)
        .validate_schema(true)
        .raw_schema(obj(vec![(
            "properties",
            obj(vec![("p", obj(vec![("type", text("not-real-type"))]))]),
        )]))
        .build();
    match result {
        Err(BuilderError::Schema(SchemaError::Malformed { path, keyword, .. })) => {
            assert_eq!(keyword, KeywordType::Type);
            assert!(path.to_url_string().ends_with("#/properties/p"));
        },
        _ => panic!("the child's own malformed keyword was expected"),
    }
}
