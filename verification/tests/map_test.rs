use solaredge_mqtt::map::{compare_keys, KeyOrder, ValueMap};
use solaredge_mqtt::value::Value;

#[test]
fn keys_compare_by_bytes() {
    assert_eq!(compare_keys("a", "b"), KeyOrder::Less);
    assert_eq!(compare_keys("b", "a"), KeyOrder::Greater);
    assert_eq!(compare_keys("abc", "abc"), KeyOrder::Equal);
    assert_eq!(compare_keys("ab", "abc"), KeyOrder::Less);
    assert_eq!(compare_keys("_timestamp", "c_id"), KeyOrder::Less);
    assert_eq!(compare_keys("z", "é"), KeyOrder::Less);
    assert_eq!(compare_keys("", ""), KeyOrder::Equal);
}

#[test]
fn entries_stay_in_key_order() {
    let mut m = ValueMap::new();
    for k in ["status", "current", "_timestamp", "l1_current", "c_id"] {
        m.insert(k.to_string(), Value::Int(k.len() as i64));
    }
    let keys: Vec<String> = m.into_entries().into_iter().map(|(k, _)| k).collect();
    let mut sorted = keys.clone();
    sorted.sort();
    assert_eq!(keys, sorted);
    assert_eq!(keys[0], "_timestamp");
}

#[test]
fn get_returns_what_insert_put() {
    let mut m = ValueMap::new();
    m.insert("a".to_string(), Value::Int(1));
    m.insert("b".to_string(), Value::Int(2));
    m.insert("a".to_string(), Value::Int(3));
    assert_eq!(m.get("a"), Some(&Value::Int(3)));
    assert_eq!(m.get("b"), Some(&Value::Int(2)));
    assert_eq!(m.get("c"), None);
    assert_eq!(m.len(), 2);
}

#[test]
fn remove_takes_the_value_out() {
    let mut m = ValueMap::new();
    m.insert("a".to_string(), Value::Int(1));
    m.insert("b".to_string(), Value::Str("x".to_string()));
    assert_eq!(m.remove("b"), Some(Value::Str("x".to_string())));
    assert_eq!(m.remove("b"), None);
    assert_eq!(m.get("b"), None);
    assert_eq!(m.len(), 1);
}
