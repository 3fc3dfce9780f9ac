//! The document value model: classification, conversions, indexing, and the
//! object view.

use jsonschema_validator::decimal::Decimal;
use jsonschema_validator::index::Index;
use jsonschema_validator::object::{JsonMap, JsonMapTrait};
use jsonschema_validator::value::{EnumPrimitiveType, Value};

fn obj(pairs: Vec<(&str, Value)>) -> Value {
    Value::Object(pairs.into_iter().map(|(k, v)| (k.to_string(), v)).collect())
}

fn arr(items: Vec<Value>) -> Value {
    Value::Array(items)
}

fn text(s: &str) -> Value {
    Value::String(s.to_string())
}

#[test]
fn test_testing_type_instance_string() {
    let string = "string";
    let testing_type_instance = Value::String(string.to_string());
    assert_eq!(testing_type_instance.as_string(), Some(string));
    assert_eq!(testing_type_instance.has_attribute("attribute"), false);
    assert_eq!(testing_type_instance.is_array(), false);
    assert_eq!(testing_type_instance.is_boolean(), false);
    assert_eq!(testing_type_instance.is_integer(), false);
    assert_eq!(testing_type_instance.is_null(), false);
    assert_eq!(testing_type_instance.is_number(), false);
    assert_eq!(testing_type_instance.is_object(), false);
    assert_eq!(testing_type_instance.is_string(), true);
}

#[test]
fn test_testing_type_instance_integer() {
    let integer = 1;
    let testing_type_instance = Value::Integer(integer);
    assert_eq!(testing_type_instance.as_integer(), Some(integer));
    assert_eq!(testing_type_instance.has_attribute("attribute"), false);
    assert_eq!(testing_type_instance.is_array(), false);
    assert_eq!(testing_type_instance.is_boolean(), false);
    assert_eq!(testing_type_instance.is_integer(), true);
    assert_eq!(testing_type_instance.is_null(), false);
    assert_eq!(testing_type_instance.is_number(), true);
    assert_eq!(testing_type_instance.is_object(), false);
    assert_eq!(testing_type_instance.is_string(), false);
}

#[test]
fn test_testing_type_instance_list() {
    let array = vec![Value::Integer(1), Value::Integer(2)];
    let testing_type_instance = arr(vec![Value::Integer(1), Value::Integer(2)]);
    assert_eq!(testing_type_instance.as_array(), Some(&array));
    assert_eq!(testing_type_instance.has_attribute("attribute"), false);
    assert_eq!(testing_type_instance.is_array(), true);
    assert_eq!(testing_type_instance.is_boolean(), false);
    assert_eq!(testing_type_instance.is_integer(), false);
    assert_eq!(testing_type_instance.is_null(), false);
    assert_eq!(testing_type_instance.is_number(), false);
    assert_eq!(testing_type_instance.is_object(), false);
    assert_eq!(testing_type_instance.is_string(), false);
}

#[test]
fn test_testing_type_instance_object() {
    let testing_type_instance = obj(vec![("attribute", text("value"))]);
    assert_eq!(
        testing_type_instance.as_object().unwrap().items(),
        Some(vec![("attribute".to_string(), text("value"))])
    );
    assert_eq!(testing_type_instance.get("attribute"), Some(&text("value")));
    assert_eq!(testing_type_instance.has_attribute("attribute"), true);
    assert_eq!(testing_type_instance.is_array(), false);
    assert_eq!(testing_type_instance.is_boolean(), false);
    assert_eq!(testing_type_instance.is_integer(), false);
    assert_eq!(testing_type_instance.is_null(), false);
    assert_eq!(testing_type_instance.is_number(), false);
    assert_eq!(testing_type_instance.is_object(), true);
    assert_eq!(testing_type_instance.is_string(), false);
}

#[test]
fn test_into_index_vec() {
    let testing_vec = arr(vec![
        Value::Null,
        Value::Boolean(true),
        text("v3"),
        Value::Integer(4),
        arr(vec![Value::Integer(1), Value::Integer(2), Value::Integer(3)]),
        obj(vec![]),
    ]);
    let elems = testing_vec.as_array().unwrap();
    for (k, v) in elems.iter().enumerate() {
        assert_eq!(k.index_into(&testing_vec), Some(v), "failed with k={}\n", k);
    }
    assert_eq!(
        (elems.len() + 1).index_into(&testing_vec),
        None,
        "failed to extract not existing index (k={}\n)",
        elems.len() + 1,
    );
}

#[test]
fn test_into_index_map_str() {
    let testing_map = obj(vec![
        ("k1", Value::Null),
        ("k2", Value::Boolean(true)),
        ("k3", text("v3")),
        ("k4", Value::Integer(4)),
        ("k5", arr(vec![Value::Integer(1), Value::Integer(2), Value::Integer(3)])),
        ("k6", obj(vec![])),
    ]);
    if let Value::Object(ref entries) = &testing_map {
        for (k, v) in entries {
            assert_eq!(k.as_str().index_into(&testing_map), Some(v), "failed with k={}\n", k);
        }
        assert_eq!(
            "not-existing-key".index_into(&testing_map),
            None,
            "failed to extract not existing index (k={}\n)",
            "not-existing-key",
        );
    } else {
        panic!("an object was expected");
    }
}

#[test]
fn test_into_index_map_string() {
    let testing_map = obj(vec![
        ("k1", Value::Null),
        ("k2", Value::Boolean(true)),
        ("k3", text("v3")),
        ("k4", Value::Integer(4)),
        ("k5", arr(vec![Value::Integer(1), Value::Integer(2), Value::Integer(3)])),
        ("k6", obj(vec![])),
    ]);
    if let Value::Object(ref entries) = &testing_map {
        for (k, v) in entries {
            assert_eq!(k.index_into(&testing_map), Some(v), "failed with k={}\n", k);
        }
        assert_eq!(
            String::from("not-existing-key").index_into(&testing_map),
            None,
            "failed to extract not existing index (k={}\n)",
            "not-existing-key",
        );
    } else {
        panic!("an object was expected");
    }
}

#[test]
fn object_keys_for_map() {
    let map = JsonMap::new(&obj(vec![("k1", text("v1")), ("k2", text("v2"))]));
    assert_eq!(map.keys(), Some(vec!["k1".to_string(), "k2".to_string()]));
}

#[test]
fn object_keys_for_non_map() {
    assert_eq!(JsonMap::new(&arr(vec![text("k1"), text("k2")])).keys(), None);
}

#[test]
fn object_values_for_map() {
    let map = JsonMap::new(&obj(vec![("k1", text("v1")), ("k2", text("v2"))]));
    assert_eq!(map.values(), Some(vec![text("v1"), text("v2")]));
}

#[test]
fn object_values_for_non_map() {
    assert_eq!(JsonMap::new(&arr(vec![text("k1"), text("k2")])).values(), None);
}

#[test]
fn object_items_for_map() {
    let map = JsonMap::new(&obj(vec![("k1", text("v1")), ("k2", text("v2"))]));
    assert_eq!(
        map.items(),
        Some(vec![("k1".to_string(), text("v1")), ("k2".to_string(), text("v2"))])
    );
}

#[test]
fn object_items_for_non_map() {
    assert_eq!(JsonMap::new(&arr(vec![text("k1"), text("k2")])).items(), None);
}

#[test]
fn deref_does_its_job() {
    let primitive_value = text("string");
    assert_eq!(JsonMap::new(&primitive_value).value(), &primitive_value);
}

#[test]
fn test_enum_primitive_type() {
    assert_eq!(EnumPrimitiveType::from_type("array"), Some(EnumPrimitiveType::Array));
    assert_eq!(EnumPrimitiveType::from_type("boolean"), Some(EnumPrimitiveType::Boolean));
    assert_eq!(EnumPrimitiveType::from_type("integer"), Some(EnumPrimitiveType::Integer));
    assert_eq!(EnumPrimitiveType::from_type("number"), Some(EnumPrimitiveType::Number));
    assert_eq!(EnumPrimitiveType::from_type("null"), Some(EnumPrimitiveType::Null));
    assert_eq!(EnumPrimitiveType::from_type("object"), Some(EnumPrimitiveType::Object));
    assert_eq!(EnumPrimitiveType::from_type("string"), Some(EnumPrimitiveType::String));
    assert_eq!(EnumPrimitiveType::from_type("an invalid type"), None);
}

#[test]
fn test_get_fragment() {
    let external_map = obj(vec![(
        "key",
        obj(vec![("inner_key", arr(vec![Value::Integer(1), text("2")]))]),
    )]);
    let segs = |parts: &[&str]| parts.iter().map(|p| p.to_string()).collect::<Vec<String>>();
    assert_eq!(external_map.resolve_fragment(&segs(&[])), Some(&external_map));
    assert_eq!(
        external_map.resolve_fragment(&segs(&["key", "inner_key", "0"])),
        Some(&Value::Integer(1))
    );
    assert_eq!(
        external_map.resolve_fragment(&segs(&["key", "inner_key", "1"])),
        Some(&text("2"))
    );
    assert_eq!(external_map.resolve_fragment(&segs(&["not_present"])), None);
    assert_eq!(external_map.resolve_fragment(&segs(&["key", "inner_key", "a"])), None);
    assert_eq!(external_map.resolve_fragment(&segs(&["key", "inner_key", "2"])), None);
}

#[test]
fn number_classification() {
    // A number with no fractional part classifies as an integer.
    let twelve = Value::Number(Decimal::new(120, 1));
    assert_eq!(twelve.primitive_type(), Some(EnumPrimitiveType::Integer));
    assert_eq!(twelve.as_integer(), Some(12));
    let fraction = Value::Number(Decimal::new(23, 1));
    assert_eq!(fraction.primitive_type(), Some(EnumPrimitiveType::Number));
    assert_eq!(fraction.as_integer(), None);
}

#[test]
fn decimal_arithmetic_and_rendering() {
    let d = |m: i64, s: u32| Decimal::new(m, s);
    assert!(d(4, 0).is_multiple_of(&d(2, 0)));
    assert!(!d(3, 0).is_multiple_of(&d(2, 0)));
    assert!(d(3, 0).is_multiple_of(&d(6, 1)));
    assert!(!d(2, 0).is_multiple_of(&d(6, 1)));
    assert!(d(234, 1).is_multiple_of(&d(6, 1)));
    assert!(d(120, 1).is_multiple_of(&d(2, 0)));
    assert!(!d(234, 1).is_multiple_of(&d(2, 0)));
    let chars = |v: Decimal| v.to_chars().into_iter().collect::<String>();
    assert_eq!(chars(d(234, 1)), "23.4");
    assert_eq!(chars(d(6, 1)), "0.6");
    assert_eq!(chars(d(120, 1)), "12.0");
    assert_eq!(chars(d(-35, 1)), "-3.5");
    assert_eq!(chars(d(7, 0)), "7");
    assert_eq!(chars(d(1002, 2)), "10.02");
}
