use contraflow::value::has_field;
use contraflow::value::Value;

fn obj(fields: Vec<(&str, Value)>) -> Value {
    Value::Object(fields.into_iter().map(|(k, v)| (k.to_string(), v)).collect())
}

#[test]
fn get_finds_a_field() {
    let v = obj(vec![("a", Value::Int(1)), ("b", Value::Bool(true))]);
    assert_eq!(v.get("a"), Some(&Value::Int(1)));
    assert_eq!(v.get("b"), Some(&Value::Bool(true)));
    assert_eq!(v.get("c"), None);
    assert_eq!(v.get(""), None);
}

#[test]
fn get_takes_the_first_of_two() {
    let v = obj(vec![("a", Value::Int(1)), ("a", Value::Int(2))]);
    assert_eq!(v.get("a"), Some(&Value::Int(1)));
}

#[test]
fn get_on_what_is_no_object() {
    assert_eq!(Value::Null.get("a"), None);
    assert_eq!(Value::Str("a".to_string()).get("a"), None);
    assert_eq!(Value::Array(vec![Value::Str("a".to_string())]).get("a"), None);
}

#[test]
fn as_str_and_as_array() {
    let s = Value::Str("snot".to_string());
    assert_eq!(s.as_str(), Some(&"snot".to_string()));
    assert!(s.is_str());
    assert_eq!(s.as_array(), None);
    let a = Value::Array(vec![Value::Int(1)]);
    assert_eq!(a.as_array(), Some(&vec![Value::Int(1)]));
    assert_eq!(a.as_str(), None);
    assert!(!a.is_str());
    assert_eq!(Value::Null.as_str(), None);
    assert_eq!(Value::Int(3).as_array(), None);
}

#[test]
fn has_field_looks_at_a_prefix() {
    let fields = vec![
        ("a".to_string(), Value::Int(1)),
        ("b".to_string(), Value::Int(2)),
        ("c".to_string(), Value::Int(3)),
    ];
    assert!(has_field(&fields, 3, &"c".to_string()));
    assert!(!has_field(&fields, 2, &"c".to_string()));
    assert!(has_field(&fields, 1, &"a".to_string()));
    assert!(!has_field(&fields, 0, &"a".to_string()));
    assert!(!has_field(&fields, 3, &"d".to_string()));
}
