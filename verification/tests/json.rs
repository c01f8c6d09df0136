use deskmate::json::{merge_json, JsonTree};
use serde_json::Value;

fn tree(value: Value) -> JsonTree {
    match value {
        Value::Object(map) => JsonTree::Object(map.into_iter().map(|(k, v)| (k, tree(v))).collect()),
        other => JsonTree::Leaf(other),
    }
}

fn value(tree: JsonTree) -> Value {
    match tree {
        JsonTree::Object(entries) => {
            Value::Object(entries.into_iter().map(|(k, v)| (k, value(v))).collect())
        }
        JsonTree::Leaf(v) => v,
    }
}

fn merge(target: Value, patch: Value) -> Value {
    value(merge_json(tree(target), tree(patch)))
}

#[test]
fn objects_merge_key_by_key() {
    let merged = merge(
        serde_json::from_str(r#"{"pet":{"speed":80,"scale":1},"reminders":[]}"#).unwrap(),
        serde_json::from_str(r#"{"pet":{"speed":120},"autostartEnabled":false}"#).unwrap(),
    );
    let expected: Value = serde_json::from_str(
        r#"{"pet":{"speed":120,"scale":1},"reminders":[],"autostartEnabled":false}"#,
    )
    .unwrap();
    assert_eq!(merged, expected);
}

#[test]
fn other_values_replace_what_was_there() {
    let target: Value = serde_json::from_str(r#"{"reminders":[1,2],"pet":{"speed":1}}"#).unwrap();
    let patch: Value = serde_json::from_str(r#"{"reminders":[3],"pet":7}"#).unwrap();
    let expected: Value = serde_json::from_str(r#"{"reminders":[3],"pet":7}"#).unwrap();
    assert_eq!(merge(target, patch), expected);
    let number: Value = serde_json::from_str("5").unwrap();
    let object: Value = serde_json::from_str(r#"{"a":1}"#).unwrap();
    assert_eq!(merge(number.clone(), object.clone()), object);
    assert_eq!(merge(object, number.clone()), number);
}

#[test]
fn an_empty_patch_object_changes_nothing() {
    let target: Value = serde_json::from_str(r#"{"a":{"b":[true]},"c":null}"#).unwrap();
    let empty: Value = serde_json::from_str("{}").unwrap();
    assert_eq!(merge(target.clone(), empty), target);
}
