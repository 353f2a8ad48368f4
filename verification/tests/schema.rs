use payload_storage::json::{JsonObject, JsonValue};
use payload_storage::schema::{default_value, merge_into_schema};
use payload_storage::text::{read_object, write_object, write_tree};

fn tree(text: &str) -> JsonValue {
    JsonValue::Object(read_object(text.as_bytes()).expect("an object"))
}

fn text(value: &JsonValue) -> String {
    String::from_utf8(write_tree(value)).unwrap()
}

fn merged(samples: &[&str]) -> String {
    let mut schema = JsonValue::Object(JsonObject::new());
    for sample in samples {
        merge_into_schema(&mut schema, &tree(sample));
    }
    text(&schema)
}

#[test]
fn default_of_each_kind() {
    let value = tree(
        r#"{"array":[3,"x"],"bool":true,"empty":[],"float":2.5,"null":null,"number":7,"object":{"a":"b"},"string":"text"}"#,
    );
    assert_eq!(
        text(&default_value(&value)),
        r#"{"array":[0],"bool":false,"empty":[],"float":0,"null":null,"number":0,"object":{"a":""},"string":""}"#
    );
}

#[test]
fn default_of_plain_values() {
    assert_eq!(text(&default_value(&JsonValue::Null)), "null");
    assert_eq!(text(&default_value(&JsonValue::Bool(true))), "false");
    assert_eq!(text(&default_value(&JsonValue::String("x".to_string()))), "\"\"");
    assert_eq!(text(&default_value(&JsonValue::Array(vec![]))), "[]");
    let nested = JsonValue::Array(vec![JsonValue::Array(vec![JsonValue::Bool(true), JsonValue::Null])]);
    assert_eq!(text(&default_value(&nested)), "[[false]]");
}

#[test]
fn default_is_idempotent() {
    let value = tree(r#"{"a":[{"b":1,"c":[true]}],"d":"x"}"#);
    let once = default_value(&value);
    assert_eq!(text(&default_value(&once)), text(&once));
}

#[test]
fn schema_of_one_sample_is_its_default() {
    assert_eq!(merged(&[r#"{"a":1,"b":{"c":"x"}}"#]), r#"{"a":0,"b":{"c":""}}"#);
}

#[test]
fn keys_are_united() {
    assert_eq!(merged(&[r#"{"a":1}"#, r#"{"b":true}"#]), r#"{"a":0,"b":false}"#);
}

#[test]
fn nested_keys_are_united() {
    assert_eq!(
        merged(&[r#"{"a":{"x":1}}"#, r#"{"a":{"y":"t"}}"#, r#"{"b":null}"#]),
        r#"{"a":{"x":0,"y":""},"b":null}"#
    );
}

#[test]
fn arrays_keep_one_representative() {
    assert_eq!(merged(&[r#"{"a":[]}"#]), r#"{"a":[]}"#);
    assert_eq!(merged(&[r#"{"a":[]}"#, r#"{"a":[5,6,7]}"#]), r#"{"a":[0]}"#);
    assert_eq!(merged(&[r#"{"a":[5]}"#, r#"{"a":[]}"#]), r#"{"a":[0]}"#);
    assert_eq!(
        merged(&[r#"{"a":[{"x":1}]}"#, r#"{"a":[{"y":2},{"z":3}]}"#]),
        r#"{"a":[{"x":0,"y":0}]}"#
    );
}

#[test]
fn first_kind_wins() {
    assert_eq!(merged(&[r#"{"a":1}"#, r#"{"a":"text"}"#]), r#"{"a":0}"#);
    assert_eq!(merged(&[r#"{"a":null}"#, r#"{"a":{"b":1}}"#]), r#"{"a":null}"#);
    assert_eq!(merged(&[r#"{"a":[1]}"#, r#"{"a":{"b":1}}"#]), r#"{"a":[0]}"#);
}

#[test]
fn array_beyond_the_representative_stays() {
    let mut schema = JsonValue::Array(vec![JsonValue::Object(JsonObject::new()), JsonValue::Bool(true)]);
    merge_into_schema(&mut schema, &JsonValue::Array(vec![tree(r#"{"k":1}"#)]));
    assert_eq!(text(&schema), r#"[{"k":0},true]"#);
}

#[test]
fn sample_taken_up_twice_changes_nothing() {
    let sample = r#"{"a":[{"b":[1]}],"c":{"d":"x"}}"#;
    assert_eq!(merged(&[r#"{"a":[]}"#, sample]), merged(&[r#"{"a":[]}"#, sample, sample]));
}

#[test]
fn samples_count_by_structure() {
    let sample = r#"{"a":[{"b":[1,"x"]},true],"c":{"d":"text","e":null}}"#;
    let plain = text(&default_value(&tree(sample)));
    let start = r#"{"a":[],"c":{"f":1}}"#;
    assert_eq!(merged(&[start, sample]), merged(&[start, &plain]));
    assert_eq!(
        merged(&[start, sample]),
        merged(&[start, r#"{"a":[{"b":[-7]}],"c":{"d":"","e":null}}"#])
    );
}

#[test]
fn samples_of_agreeing_kinds_commute() {
    let first = r#"{"a":[{"b":1}],"c":{"d":"x"}}"#;
    let second = r#"{"a":[{"e":true}],"c":{"d":"y","f":[]},"g":null}"#;
    assert_eq!(merged(&[first, second]), merged(&[second, first]));
    assert_eq!(
        merged(&[first, second]),
        r#"{"a":[{"b":0,"e":false}],"c":{"d":"","f":[]},"g":null}"#
    );
}

#[test]
fn default_absorbs_its_value() {
    let value = tree(r#"{"a":[{"b":[1]}],"c":{"d":"x"}}"#);
    let mut schema = default_value(&value);
    let before = text(&schema);
    merge_into_schema(&mut schema, &value);
    assert_eq!(text(&schema), before);
}

#[test]
fn leaves_stay_zeroed() {
    let mut schema = JsonValue::Object(JsonObject::new());
    merge_into_schema(&mut schema, &tree(r#"{"a":[3],"b":"x","c":{"d":true}}"#));
    merge_into_schema(&mut schema, &tree(r#"{"a":[4],"e":9,"c":{"f":1.5}}"#));
    assert_eq!(text(&default_value(&schema)), text(&schema));
}

#[test]
fn objects_hold_each_key_once() {
    let a = "a".to_string();
    let b = "b".to_string();
    let mut object = JsonObject::new();
    assert!(object.get(&a).is_none());
    assert!(object.insert(a.clone(), JsonValue::Bool(true)).is_none());
    assert!(object.insert(b.clone(), JsonValue::Null).is_none());
    assert!(matches!(object.get(&b), Some(JsonValue::Null)));
    assert!(matches!(
        object.insert(a.clone(), JsonValue::Bool(false)),
        Some(JsonValue::Bool(true))
    ));
    assert_eq!(object.entries().len(), 2);
    assert_eq!(String::from_utf8(write_object(&object)).unwrap(), r#"{"a":false,"b":null}"#);
    assert!(matches!(object.remove(&a), Some(JsonValue::Bool(false))));
    assert!(object.remove(&a).is_none());
    assert_eq!(String::from_utf8(write_object(&object)).unwrap(), r#"{"b":null}"#);
}

#[test]
fn text_of_every_kind_is_read_back() {
    let written = r#"{"array":[1,-2,[]],"bool":false,"null":null,"object":{"":"\"\\\n"},"unicode":"grün"}"#;
    let object = read_object(written.as_bytes()).unwrap();
    assert_eq!(String::from_utf8(write_object(&object)).unwrap(), written);
}

#[test]
fn numbers_at_the_limits_are_read_back() {
    let written = r#"{"max":18446744073709551615,"min":-9223372036854775808}"#;
    let object = read_object(written.as_bytes()).unwrap();
    assert!(object.is_float_free());
    assert_eq!(String::from_utf8(write_object(&object)).unwrap(), written);
}

#[test]
fn text_of_no_object_is_refused() {
    for wrong in ["", "null", "[1]", "{", r#"{"a":}"#, r#"{"a":1} x"#, "7"] {
        assert!(read_object(wrong.as_bytes()).is_none(), "{wrong}");
    }
    assert!(read_object(&[0xff, 0xfe]).is_none());
}

fn nested(depth: usize) -> JsonObject {
    let mut value = JsonValue::Bool(true);
    for _ in 1..depth {
        value = JsonValue::Array(vec![value]);
    }
    let mut object = JsonObject::new();
    object.insert("deep".to_string(), value);
    object
}

#[test]
fn nesting_is_limited() {
    let fits = nested(127);
    assert!(fits.is_nested_within(127));
    assert!(!fits.is_nested_within(126));
    assert!(read_object(&write_object(&fits)).is_some());
    let deeper = nested(128);
    assert!(!deeper.is_nested_within(127));
    assert!(deeper.is_nested_within(128));
    assert!(read_object(&write_object(&deeper)).is_none());
}

#[test]
fn floats_are_told_apart() {
    assert!(read_object(br#"{"a":[{"b":1}]}"#).unwrap().is_float_free());
    assert!(!read_object(br#"{"a":[{"b":1.0}]}"#).unwrap().is_float_free());
    assert!(!read_object(br#"{"a":1e2}"#).unwrap().is_float_free());
    assert!(JsonValue::String("1.5".to_string()).is_float_free());
    assert!(!JsonObject::new().is_nested_within(0));
    assert!(JsonValue::Null.is_nested_within(0));
}
