use contemplate::jsontext::to_json_text;
use contemplate::value::{Coalescible, ConfigValue, Order};

fn tree(entries: Vec<(&str, ConfigValue)>) -> ConfigValue {
    ConfigValue::Tree(entries.into_iter().map(|(k, v)| (k.to_string(), v)).collect())
}

fn seq_of(items: Vec<ConfigValue>) -> ConfigValue {
    ConfigValue::Sequence(items)
}

fn json(v: &ConfigValue) -> String {
    to_json_text(v)
}

#[test]
fn merge_is_right_biased_and_order_preserving() {
    let a = tree(vec![(
        "a",
        tree(vec![("x", ConfigValue::Int(1)), ("y", ConfigValue::Int(2))]),
    )]);
    let b = tree(vec![(
        "a",
        tree(vec![("y", ConfigValue::Int(3)), ("z", ConfigValue::Int(4))]),
    )]);
    let m = a.merge(b);
    assert_eq!(json(&m), "{\"a\":{\"x\":1,\"y\":3,\"z\":4}}");
}

#[test]
fn merge_replaces_sequences() {
    let a = tree(vec![("a", seq_of(vec![ConfigValue::Int(1), ConfigValue::Int(2)]))]);
    let b = tree(vec![("a", seq_of(vec![ConfigValue::Int(3)]))]);
    let m = a.merge(b);
    assert_eq!(json(&m), "{\"a\":[3]}");
}

#[test]
fn merge_scalar_replaces_tree() {
    let a = tree(vec![("a", tree(vec![("x", ConfigValue::Int(1))]))]);
    let b = tree(vec![("a", ConfigValue::Int(7))]);
    let m = a.merge(b);
    assert_eq!(json(&m), "{\"a\":7}");
}

#[test]
fn merge_keeps_left_unique_keys() {
    let a = tree(vec![("p", ConfigValue::Int(1)), ("q", ConfigValue::Int(2))]);
    let b = tree(vec![("q", ConfigValue::Int(9)), ("r", ConfigValue::Int(3))]);
    let m = a.merge(b);
    assert_eq!(json(&m), "{\"p\":1,\"q\":9,\"r\":3}");
}

#[test]
fn coalesce_join_is_left_biased() {
    let a = tree(vec![("a", ConfigValue::Int(1))]);
    let b = tree(vec![("a", ConfigValue::Int(2))]);
    let m = a.coalesce(b, Order::Join);
    assert_eq!(json(&m), "{\"a\":1}");
}

#[test]
fn coalesce_admerge_concatenates_sequences() {
    let a = seq_of(vec![ConfigValue::Int(1)]);
    let b = seq_of(vec![ConfigValue::Int(2), ConfigValue::Int(3)]);
    let m = a.coalesce(b, Order::Admerge);
    assert_eq!(json(&m), "[1,2,3]");
}

#[test]
fn duplicate_is_structurally_equal() {
    let v = tree(vec![
        ("a", seq_of(vec![ConfigValue::Bool(true), ConfigValue::Null])),
        ("b", ConfigValue::Text("hi".to_string())),
    ]);
    let d = v.duplicate();
    assert_eq!(json(&v), json(&d));
}

#[test]
fn json_text_escapes_strings() {
    let v = tree(vec![("s", ConfigValue::Text("a\"b\\c\nd\te\u{1}".to_string()))]);
    assert_eq!(json(&v), "{\"s\":\"a\\\"b\\\\c\\nd\\te\\u0001\"}");
}

#[test]
fn json_text_writes_scalars() {
    assert_eq!(json(&ConfigValue::Null), "null");
    assert_eq!(json(&ConfigValue::Bool(false)), "false");
    assert_eq!(json(&ConfigValue::Int(-42)), "-42");
    assert_eq!(json(&ConfigValue::Int(i64::MIN)), "-9223372036854775808");
    assert_eq!(json(&ConfigValue::Num("2.5".to_string())), "2.5");
    assert_eq!(json(&seq_of(vec![])), "[]");
    assert_eq!(json(&tree(vec![])), "{}");
}
