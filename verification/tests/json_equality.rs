use strata::{Action, JsonValue};

fn obj(pairs: Vec<(&str, JsonValue)>) -> JsonValue {
    JsonValue::object(pairs.into_iter().map(|(k, v)| JsonValue::entry(k, v)).collect())
}

fn n(text: &str) -> JsonValue {
    JsonValue::Number(text.into())
}

#[test]
fn objects_compare_as_maps() {
    let a = obj(vec![("a", n("1")), ("b", JsonValue::string("x"))]);
    let b = obj(vec![("b", JsonValue::string("x")), ("a", n("1"))]);
    assert_eq!(a, b);
    let c = obj(vec![("a", n("1")), ("b", JsonValue::string("y"))]);
    assert_ne!(a, c);
    let d = obj(vec![("a", n("1"))]);
    assert_ne!(a, d);
    assert_ne!(d, a);
}

#[test]
fn the_last_entry_of_a_key_counts() {
    let a = obj(vec![("k", n("1")), ("k", n("2"))]);
    assert_eq!(a, obj(vec![("k", n("2"))]));
    assert_ne!(a, obj(vec![("k", n("1"))]));
}

#[test]
fn arrays_compare_item_by_item_and_nested_objects_as_maps() {
    let a = JsonValue::array(vec![obj(vec![("x", JsonValue::Null), ("y", JsonValue::Bool(true))]), n("3")]);
    let b = JsonValue::array(vec![obj(vec![("y", JsonValue::Bool(true)), ("x", JsonValue::Null)]), n("3")]);
    assert_eq!(a, b);
    let c = JsonValue::array(vec![n("3"), obj(vec![("x", JsonValue::Null), ("y", JsonValue::Bool(true))])]);
    assert_ne!(a, c);
}

#[test]
fn actions_with_reordered_arguments_are_equal() {
    let a = Action::new("c1", "calc", obj(vec![("p", n("1")), ("q", n("2"))]));
    let b = Action::new("c1", "calc", obj(vec![("q", n("2")), ("p", n("1"))]));
    assert_eq!(a, b);
    let c = Action::new("c2", "calc", obj(vec![("q", n("2")), ("p", n("1"))]));
    assert_ne!(a, c);
}

#[test]
fn a_field_lookup_takes_the_last_entry_of_the_key() {
    let a = obj(vec![("k", n("1")), ("other", JsonValue::Null), ("k", n("2"))]);
    assert_eq!(a.get("k"), Some(&n("2")));
    assert_eq!(a.get("missing"), None);
}
