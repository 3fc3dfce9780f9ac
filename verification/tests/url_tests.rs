//! Canonical addresses: parsing, normalization, and fragment machinery.

use jsonschema_validator::errors::normalise_path;
use jsonschema_validator::url_helpers::{
    append_fragment_components, extract_fragment_components,
    extract_fragment_components_from_fragment_string, normalize_url_for_cache,
    parse_and_normalize_url, UrlError,
};
use jsonschema_validator::value::parse_index;

fn canonical(url: &str) -> String {
    parse_and_normalize_url(url).unwrap().to_url_string()
}

#[test]
fn test_parse_and_normalize_url_valid_case() {
    assert_eq!(canonical("memory://"), "memory://#/");
    assert_eq!(canonical("memory://#"), "memory://#/");
    assert_eq!(canonical("memory:///"), "memory:///#/");
    assert_eq!(canonical("memory:///#"), "memory:///#/");
    assert_eq!(canonical("memory:///#/"), "memory:///#/");
    assert_eq!(canonical("memory:///#fragment"), "memory:///#/fragment");
    assert_eq!(canonical("memory:///#/fragment"), "memory:///#/fragment");
    assert_eq!(canonical("memory:///#/fragment/"), "memory:///#/fragment");
}

#[test]
fn test_parse_and_normalize_url_invalid_case() {
    assert!(matches!(
        parse_and_normalize_url("this-is-a-wrong-url"),
        Err(UrlError::ParseError(_))
    ));
    assert!(matches!(parse_and_normalize_url("http:///"), Err(UrlError::ParseError(_))));
    assert!(matches!(
        parse_and_normalize_url("http:/example"),
        Err(UrlError::SyntaxViolation(_))
    ));
    assert_eq!(
        parse_and_normalize_url("memory://#/~").unwrap_err(),
        UrlError::JsonFragmentError(String::from("~"))
    );
    assert_eq!(
        parse_and_normalize_url("memory://#/~a").unwrap_err(),
        UrlError::JsonFragmentError(String::from("~a"))
    );
    assert_eq!(
        parse_and_normalize_url("memory://#/~0/~1/~c").unwrap_err(),
        UrlError::JsonFragmentError(String::from("~c"))
    );
}

#[test]
fn test_extract_fragment_components_from_fragment_string() {
    let expect = |input: &str, parts: Vec<&str>| {
        assert_eq!(
            extract_fragment_components_from_fragment_string(input),
            parts.iter().map(|p| p.to_string()).collect::<Vec<String>>(),
            "failed on {:?}",
            input
        );
    };
    expect("", vec![]);
    expect("#", vec![]);
    expect("/", vec![]);
    expect("#/", vec![]);
    expect("/a/~0/b/~1/c", vec!["a", "~", "b", "/", "c"]);
    expect("#/a/~0/b/~1/c", vec!["a", "~", "b", "/", "c"]);
}

#[test]
fn test_extract_fragment_components() {
    let components = |url: &str| {
        extract_fragment_components(&parse_and_normalize_url(url).unwrap())
    };
    assert_eq!(components("memory://"), Vec::<String>::new());
    assert_eq!(components("memory://#/"), Vec::<String>::new());
    assert_eq!(
        components("memory://#/a/~0/b/~1/c"),
        vec!["a", "~", "b", "/", "c"].iter().map(|p| p.to_string()).collect::<Vec<String>>()
    );
}

#[test]
fn test_append_fragment_components() {
    let append = |url: &str, parts: Vec<&str>| {
        let address = parse_and_normalize_url(url).unwrap();
        let components = parts.iter().map(|p| p.to_string()).collect::<Vec<String>>();
        append_fragment_components(&address, &components).to_url_string()
    };
    assert_eq!(append("memory://", vec![]), "memory://#/");
    assert_eq!(append("memory://", vec!["a"]), "memory://#/a");
    assert_eq!(append("memory://#/a/b", vec!["c"]), "memory://#/a/b/c");
    // Appended segments are escaped on rendering.
    assert_eq!(append("memory://", vec!["a/b", "c~d"]), "memory://#/a~1b/c~0d");
}

#[test]
fn test_normalize_url_for_cache() {
    let address = parse_and_normalize_url("memory:///doc#/a/b").unwrap();
    assert_eq!(normalize_url_for_cache(&address).to_url_string(), "memory:///doc#/");
}

#[test]
fn path_normalisation() {
    assert_eq!(normalise_path("#"), "#");
    assert_eq!(normalise_path("#/"), "#");
    assert_eq!(normalise_path("#/path1"), "#/path1");
    assert_eq!(normalise_path("#/path1/"), "#/path1");
}

#[test]
fn index_parsing() {
    assert_eq!(parse_index("0"), Some(0));
    assert_eq!(parse_index("17"), Some(17));
    assert_eq!(parse_index(""), None);
    assert_eq!(parse_index("a"), None);
    assert_eq!(parse_index("1a"), None);
    assert_eq!(parse_index("-1"), None);
    assert_eq!(parse_index("99999999999999999999999999999"), None);
}
